use rice::common::{AllMoveData, Color, Pieces, ZobristHashes};
use rice::move_generation::{EncodedMove, Game, GameState};
use rice::precalculator::{compute_move_data, generate_hashes};

const START: &str = "rnbqkbnr/pppppppp/8/8/8/8/PPPPPPPP/RNBQKBNR w KQkq - 0 1";
const KIWIPETE: &str = "r3k2r/p1ppqpb1/bn2pnp1/3PN3/1p2P3/2N2Q1p/PPPBBPPP/R3K2R w KQkq - 0 1";
const EDGE: &str = "8/2p5/3p4/KP5r/1R3p1k/8/4P1P1/8 w - - 0 1";

fn setup() -> (AllMoveData, ZobristHashes) {
    (compute_move_data().unwrap(), generate_hashes())
}

fn game_of(fen: &str, tables: &AllMoveData, keys: &ZobristHashes) -> Game {
    Game::new_fen(fen.to_string(), tables, keys).unwrap()
}

fn generated(game: &Game) -> (Vec<EncodedMove>, GameState) {
    let mut moves = Vec::new();
    let state = game.generate_moves(&mut moves);
    (moves, state)
}

fn texts(game: &Game) -> Vec<String> {
    let mut all: Vec<String> = generated(game).0.iter().map(|m| m.to_string()).collect();
    all.sort();
    all
}

fn recomputed_hash(game: &Game, keys: &ZobristHashes) -> u64 {
    let mut hash = 0u64;
    for color in 0..2usize {
        for kind in 0..6usize {
            for square in 0..64u8 {
                if game.piece_positions[color][kind].get_bit(square) {
                    hash ^= keys.pieces[color * 6 + kind][square as usize];
                }
            }
        }
    }
    if game.side == Color::BLACK {
        hash ^= keys.side;
    }
    hash ^= keys.castle_rights[game.castle_rights() as usize];
    if let Some(square) = game.en_passant() {
        hash ^= keys.en_passant_file[(square % 8) as usize];
    }
    hash
}

fn check_boards(game: &Game) {
    let white = game.occupancies[0].0;
    let black = game.occupancies[1].0;
    assert_eq!(white & black, 0);
    assert_eq!(game.occupancies[2].0, white | black);
    for color in 0..2usize {
        let mut union = 0u64;
        for kind in 0..6usize {
            assert_eq!(union & game.piece_positions[color][kind].0, 0);
            union |= game.piece_positions[color][kind].0;
        }
        assert_eq!(game.occupancies[color].0, union);
    }
}

struct Snapshot {
    pieces: Vec<Vec<u64>>,
    occupancies: Vec<u64>,
    side: Color,
    en_passant: Option<u8>,
    castle_rights: u8,
    halfmove: u8,
    fullmove: u16,
    hash: u64,
    history: usize,
}

fn snapshot(game: &Game) -> Snapshot {
    Snapshot {
        pieces: game
            .piece_positions
            .iter()
            .map(|row| row.iter().map(|board| board.0).collect())
            .collect(),
        occupancies: game.occupancies.iter().map(|board| board.0).collect(),
        side: game.side,
        en_passant: game.en_passant(),
        castle_rights: game.castle_rights(),
        halfmove: game.halfmove_timer(),
        fullmove: game.fullmove_number(),
        hash: game.hash(),
        history: game.history_len(),
    }
}

fn same(a: &Snapshot, b: &Snapshot) -> bool {
    a.pieces == b.pieces
        && a.occupancies == b.occupancies
        && a.side == b.side
        && a.en_passant == b.en_passant
        && a.castle_rights == b.castle_rights
        && a.halfmove == b.halfmove
        && a.fullmove == b.fullmove
        && a.hash == b.hash
        && a.history == b.history
}

fn walk(game: &mut Game, keys: &ZobristHashes, depth: u32) {
    check_boards(game);
    assert_eq!(game.hash(), recomputed_hash(game, keys));
    if depth == 0 {
        return;
    }
    let before = snapshot(game);
    let (moves, _) = generated(game);
    for m in moves {
        assert!(game.accepts_move(&m), "generated move {} is not accepted", m.to_string());
        let mover = game.side;
        game.make_move(&m);
        assert!(!game.king_attacked(mover), "{} leaves the king attacked", m.to_string());
        walk(game, keys, depth - 1);
        game.unmake_move();
        assert!(same(&before, &snapshot(game)), "{} was not unmade", m.to_string());
    }
}

#[test]
fn twenty_moves_from_the_start() {
    let (tables, keys) = setup();
    let game = game_of(START, &tables, &keys);
    let (moves, state) = generated(&game);
    assert_eq!(state, GameState::Normal);
    assert_eq!(moves.len(), 20);
    let pawn_moves: Vec<&EncodedMove> =
        moves.iter().filter(|m| m.piece_moved() == Pieces::PAWN).collect();
    assert_eq!(pawn_moves.len(), 16);
    assert_eq!(pawn_moves.iter().filter(|m| m.double_push()).count(), 8);
    assert_eq!(moves.iter().filter(|m| m.piece_moved() == Pieces::KNIGHT).count(), 4);
    assert!(moves.iter().all(|m| m.capture().is_none() && !m.castle() && !m.en_passant()));
    assert_eq!(
        texts(&game),
        vec![
            "a2a3", "a2a4", "b1a3", "b1c3", "b2b3", "b2b4", "c2c3", "c2c4", "d2d3", "d2d4",
            "e2e3", "e2e4", "f2f3", "f2f4", "g1f3", "g1h3", "g2g3", "g2g4", "h2h3", "h2h4"
        ]
    );
}

#[test]
fn moves_are_appended() {
    let (tables, keys) = setup();
    let game = game_of(START, &tables, &keys);
    let mut moves = Vec::new();
    game.generate_moves(&mut moves);
    let first = moves.clone();
    let state = game.generate_moves(&mut moves);
    assert_eq!(state, GameState::Normal);
    assert_eq!(moves.len(), 40);
    for i in 0..20 {
        assert_eq!(moves[i].to_string(), first[i].to_string());
        assert_eq!(moves[20 + i].to_string(), first[i].to_string());
    }
}

#[test]
fn en_passant_that_uncovers_the_king_is_left_out() {
    let (tables, keys) = setup();
    let game = game_of("8/8/8/8/k1pP3R/8/8/4K3 b - d3 0 1", &tables, &keys);
    let all = texts(&game);
    assert!(!all.contains(&"c4d3".to_string()));
    assert_eq!(all, vec!["a4a3", "a4a5", "a4b3", "a4b4", "a4b5", "c4c3"]);
    let game = game_of("8/8/8/8/k1pP3Q/8/8/4K3 b - d3 0 1", &tables, &keys);
    assert!(!texts(&game).contains(&"c4d3".to_string()));
}

#[test]
fn en_passant_beside_kings_alone_uncovers_nothing() {
    let (tables, keys) = setup();
    let game = game_of("8/8/8/8/k1pP3K/8/8/8 b - d3 0 1", &tables, &keys);
    assert_eq!(texts(&game), vec!["a4a3", "a4a5", "a4b3", "a4b4", "a4b5", "c4c3", "c4d3"]);
}

#[test]
fn en_passant_is_found_when_it_is_safe() {
    let (tables, keys) = setup();
    let game = game_of("4k3/8/8/8/2pP4/8/8/4K3 b - d3 0 1", &tables, &keys);
    let (moves, _) = generated(&game);
    let capture: Vec<&EncodedMove> = moves.iter().filter(|m| m.en_passant()).collect();
    assert_eq!(capture.len(), 1);
    assert_eq!(capture[0].to_string(), "c4d3");
    assert_eq!(capture[0].capture(), Some(Pieces::PAWN));
}

#[test]
fn en_passant_behind_other_pieces_on_the_rank() {
    let (tables, keys) = setup();
    let game = game_of("8/8/8/8/knbR1pP1/8/8/4K3 b - g3 0 1", &tables, &keys);
    assert!(texts(&game).contains(&"f4g3".to_string()));
}

#[test]
fn castles_of_both_wings() {
    let (tables, keys) = setup();
    let game = game_of("r3k2r/8/8/8/8/8/8/R3K2R w KQkq - 0 1", &tables, &keys);
    let (moves, _) = generated(&game);
    let castles: Vec<String> =
        moves.iter().filter(|m| m.castle()).map(|m| m.to_string()).collect();
    assert_eq!(castles, vec!["e1c1", "e1g1"]);
    let game = game_of("r3k2r/8/8/8/8/8/8/R3K2R b KQkq - 0 1", &tables, &keys);
    let (moves, _) = generated(&game);
    let castles: Vec<String> =
        moves.iter().filter(|m| m.castle()).map(|m| m.to_string()).collect();
    assert_eq!(castles, vec!["e8c8", "e8g8"]);
}

#[test]
fn no_castle_through_an_attacked_square() {
    let (tables, keys) = setup();
    let game = game_of("4k3/8/8/8/8/5r2/8/R3K2R w KQ - 0 1", &tables, &keys);
    let (moves, _) = generated(&game);
    let castles: Vec<String> =
        moves.iter().filter(|m| m.castle()).map(|m| m.to_string()).collect();
    assert_eq!(castles, vec!["e1c1"]);
}

#[test]
fn no_castle_out_of_check_nor_over_a_piece() {
    let (tables, keys) = setup();
    let game = game_of("4k3/8/8/8/8/4r3/8/R3K2R w KQ - 0 1", &tables, &keys);
    assert!(generated(&game).0.iter().all(|m| !m.castle()));
    let game = game_of("4k3/8/8/8/8/8/8/RN2KB1R w KQ - 0 1", &tables, &keys);
    assert!(generated(&game).0.iter().all(|m| !m.castle()));
}

#[test]
fn no_castle_without_the_right() {
    let (tables, keys) = setup();
    let game = game_of("r3k2r/8/8/8/8/8/8/R3K2R w kq - 0 1", &tables, &keys);
    assert!(generated(&game).0.iter().all(|m| !m.castle()));
}

#[test]
fn four_promotions_for_each_way_to_the_last_rank() {
    let (tables, keys) = setup();
    let game = game_of("1n5k/P7/8/8/8/8/8/K7 w - - 0 1", &tables, &keys);
    let all = texts(&game);
    for m in ["a7a8q", "a7a8r", "a7a8b", "a7a8n", "a7b8q", "a7b8r", "a7b8b", "a7b8n"] {
        assert!(all.contains(&m.to_string()), "{} is missing", m);
    }
    let (moves, _) = generated(&game);
    let promotions: Vec<&EncodedMove> =
        moves.iter().filter(|m| m.promoted_piece().is_some()).collect();
    assert_eq!(promotions.len(), 8);
    assert_eq!(
        promotions.iter().filter(|m| m.capture() == Some(Pieces::KNIGHT)).count(),
        4
    );
}

#[test]
fn checkmate_is_told_from_stalemate() {
    let (tables, keys) = setup();
    let mated = game_of("R5k1/5ppp/8/8/8/8/8/K7 b - - 0 1", &tables, &keys);
    let (moves, state) = generated(&mated);
    assert!(moves.is_empty());
    assert_eq!(state, GameState::Checkmate);
    let stale = game_of("7k/5Q2/6K1/8/8/8/8/8 b - - 0 1", &tables, &keys);
    let (moves, state) = generated(&stale);
    assert!(moves.is_empty());
    assert_eq!(state, GameState::Draw);
}

#[test]
fn draw_once_the_clock_has_passed_a_hundred() {
    let (tables, keys) = setup();
    let game = game_of("4k3/8/8/8/8/8/8/4K2R w - - 101 90", &tables, &keys);
    let (moves, state) = generated(&game);
    assert!(moves.is_empty());
    assert_eq!(state, GameState::Draw);
    let game = game_of("4k3/8/8/8/8/8/8/4K2R w - - 100 90", &tables, &keys);
    let (moves, state) = generated(&game);
    assert_eq!(moves.len(), 14);
    assert_eq!(state, GameState::Normal);
}

#[test]
fn only_the_king_moves_in_double_check() {
    let (tables, keys) = setup();
    let game = game_of("4k3/8/8/8/8/3n4/4r3/R3K2R w KQ - 0 1", &tables, &keys);
    let (moves, state) = generated(&game);
    assert_eq!(state, GameState::Normal);
    assert!(moves.iter().all(|m| m.piece_moved() == Pieces::KING && !m.castle()));
    assert!(game.king_attacked(Color::WHITE));
    assert!(!game.king_attacked(Color::BLACK));
}

#[test]
fn a_check_is_blocked_or_the_checker_taken() {
    let (tables, keys) = setup();
    let game = game_of("4k3/8/8/8/8/8/3N4/r3K3 w - - 0 1", &tables, &keys);
    assert_eq!(texts(&game), vec!["d2b1", "e1e2", "e1f2"]);
}

#[test]
fn a_pinned_piece_stays_on_its_line() {
    let (tables, keys) = setup();
    let game = game_of("4k3/8/8/8/4r3/8/4R3/4K3 w - - 0 1", &tables, &keys);
    let rook_moves: Vec<String> = generated(&game)
        .0
        .iter()
        .filter(|m| m.piece_moved() == Pieces::ROOK)
        .map(|m| m.to_string())
        .collect();
    assert_eq!(rook_moves, vec!["e2e4", "e2e3"]);
    let game = game_of("4k3/8/8/8/4r3/8/4N3/4K3 w - - 0 1", &tables, &keys);
    assert!(generated(&game).0.iter().all(|m| m.piece_moved() == Pieces::KING));
}

#[test]
fn make_sets_everything_that_a_move_changes() {
    let (tables, keys) = setup();
    let mut game = game_of(START, &tables, &keys);
    game.parse_moves(vec!["e2e4".to_string()]).unwrap();
    assert_eq!(game.side, Color::BLACK);
    assert_eq!(game.en_passant(), Some(44));
    assert_eq!(game.halfmove_timer(), 0);
    assert_eq!(game.fullmove_number(), 1);
    assert_eq!(game.piece_at(36), Some((Color::WHITE, Pieces::PAWN)));
    assert_eq!(game.piece_at(52), None);
    assert_eq!(game.history_len(), 1);
    game.parse_moves(vec!["g8f6".to_string()]).unwrap();
    assert_eq!(game.side, Color::WHITE);
    assert_eq!(game.en_passant(), None);
    assert_eq!(game.halfmove_timer(), 1);
    assert_eq!(game.fullmove_number(), 2);
    assert_eq!(game.hash(), recomputed_hash(&game, &keys));
    check_boards(&game);
}

#[test]
fn castling_moves_the_rook_and_loses_the_rights() {
    let (tables, keys) = setup();
    let mut game = game_of("r3k2r/8/8/8/8/8/8/R3K2R w KQkq - 0 1", &tables, &keys);
    let before = snapshot(&game);
    game.parse_moves(vec!["e1g1".to_string()]).unwrap();
    assert_eq!(game.piece_at(62), Some((Color::WHITE, Pieces::KING)));
    assert_eq!(game.piece_at(61), Some((Color::WHITE, Pieces::ROOK)));
    assert_eq!(game.piece_at(63), None);
    assert_eq!(game.piece_at(60), None);
    assert_eq!(game.castle_rights(), 0b1100);
    assert_eq!(game.hash(), recomputed_hash(&game, &keys));
    game.parse_moves(vec!["a8a1".to_string()]).unwrap();
    assert_eq!(game.castle_rights(), 0b0100);
    assert_eq!(game.piece_at(56), Some((Color::BLACK, Pieces::ROOK)));
    game.unmake_move();
    game.unmake_move();
    assert!(same(&before, &snapshot(&game)));
}

#[test]
fn en_passant_takes_the_pawn_beside() {
    let (tables, keys) = setup();
    let mut game = game_of("4k3/8/8/8/2pP4/8/8/4K3 b - d3 0 1", &tables, &keys);
    let before = snapshot(&game);
    game.parse_moves(vec!["c4d3".to_string()]).unwrap();
    assert_eq!(game.piece_at(43), Some((Color::BLACK, Pieces::PAWN)));
    assert_eq!(game.piece_at(35), None);
    assert_eq!(game.piece_at(34), None);
    assert_eq!(game.occupancies[0].0, 1 << 60);
    assert_eq!(game.hash(), recomputed_hash(&game, &keys));
    check_boards(&game);
    game.unmake_move();
    assert!(same(&before, &snapshot(&game)));
}

#[test]
fn promotion_replaces_the_pawn() {
    let (tables, keys) = setup();
    let mut game = game_of("1n5k/P7/8/8/8/8/8/K7 w - - 0 1", &tables, &keys);
    let before = snapshot(&game);
    game.parse_moves(vec!["a7b8n".to_string()]).unwrap();
    assert_eq!(game.piece_at(1), Some((Color::WHITE, Pieces::KNIGHT)));
    assert_eq!(game.piece_at(8), None);
    assert_eq!(game.piece_positions[0][1].0, 0);
    assert_eq!(game.piece_positions[1][2].0, 0);
    assert_eq!(game.hash(), recomputed_hash(&game, &keys));
    game.unmake_move();
    assert!(same(&before, &snapshot(&game)));
}

#[test]
fn make_then_unmake_restores_everything() {
    let (tables, keys) = setup();
    for fen in [START, KIWIPETE, EDGE, "4k3/8/8/8/2pP4/8/8/4K3 b - d3 0 1"] {
        let mut game = game_of(fen, &tables, &keys);
        let before = snapshot(&game);
        let (moves, _) = generated(&game);
        for m in moves {
            game.make_move(&m);
            assert_eq!(game.history_len(), 1);
            game.unmake_move();
            assert!(same(&before, &snapshot(&game)), "{} in {}", m.to_string(), fen);
        }
    }
}

#[test]
fn hash_returns_after_every_unmake_to_depth_three() {
    let (tables, keys) = setup();
    let mut game = game_of(START, &tables, &keys);
    let initial = game.hash();
    walk(&mut game, &keys, 3);
    assert_eq!(game.hash(), initial);
    assert_eq!(game.history_len(), 0);
}

#[test]
fn boards_and_hash_hold_along_every_line() {
    let (tables, keys) = setup();
    let mut game = game_of(KIWIPETE, &tables, &keys);
    walk(&mut game, &keys, 2);
    let mut game = game_of(EDGE, &tables, &keys);
    walk(&mut game, &keys, 3);
    let mut game = game_of("r3k2r/Pppp1ppp/1b3nbN/nP6/BBP1P3/q4N2/Pp1P2PP/R2Q1RK1 w kq - 0 1", &tables, &keys);
    walk(&mut game, &keys, 2);
}

#[test]
fn a_move_that_does_not_fit_is_not_accepted() {
    let (tables, keys) = setup();
    let start = game_of(START, &tables, &keys);
    let other = game_of("4k3/8/8/8/2pP4/8/8/4K3 b - d3 0 1", &tables, &keys);
    let (moves, _) = generated(&other);
    assert!(moves.iter().all(|m| !start.accepts_move(m)));
    let (moves, _) = generated(&start);
    assert!(moves.iter().all(|m| start.accepts_move(m)));
    assert!(moves.iter().all(|m| !other.accepts_move(m)));
}

#[test]
fn moves_from_text() {
    let (tables, keys) = setup();
    let mut game = game_of(START, &tables, &keys);
    let played = game.parse_moves(vec![
        "e2e4".to_string(),
        "e7e5".to_string(),
        "g1f3".to_string(),
        "b8c6".to_string(),
    ]);
    assert_eq!(played, Ok(()));
    assert_eq!(game.history_len(), 4);
    assert_eq!(game.piece_at(45), Some((Color::WHITE, Pieces::KNIGHT)));
    assert_eq!(game.piece_at(18), Some((Color::BLACK, Pieces::KNIGHT)));
    assert_eq!(game.fullmove_number(), 3);
    assert_eq!(game.halfmove_timer(), 2);
}

#[test]
fn a_move_that_is_not_legal_is_passed_over() {
    let (tables, keys) = setup();
    let mut game = game_of(START, &tables, &keys);
    let before = snapshot(&game);
    assert_eq!(game.parse_moves(vec!["e2e5".to_string(), "0000".to_string()]), Ok(()));
    assert!(same(&before, &snapshot(&game)));
}

#[test]
fn a_move_of_the_wrong_size_is_an_error() {
    let (tables, keys) = setup();
    let mut game = game_of(START, &tables, &keys);
    let played = game.parse_moves(vec!["e2e4".to_string(), "e7".to_string(), "d7d5".to_string()]);
    assert_eq!(played, Err("move is wrong size: e7".to_string()));
    assert_eq!(game.history_len(), 1);
    assert_eq!(
        game.parse_moves(vec!["e7e5e7".to_string()]),
        Err("move is wrong size: e7e5e7".to_string())
    );
}

#[test]
fn a_malformed_move_is_an_error() {
    let (tables, keys) = setup();
    let mut game = game_of(START, &tables, &keys);
    assert_eq!(
        game.parse_moves(vec!["e2x4".to_string()]),
        Err("move is malformed: e2x4".to_string())
    );
    assert_eq!(
        game.parse_moves(vec!["e2e4k".to_string()]),
        Err("move is malformed: e2e4k".to_string())
    );
    assert_eq!(game.history_len(), 0);
}

#[test]
fn king_present_says_whether_there_is_a_king() {
    let (tables, keys) = setup();
    assert!(game_of(START, &tables, &keys).king_present());
    assert!(!game_of("4k3/8/8/8/8/8/8/8 w - - 0 1", &tables, &keys).king_present());
    assert!(!Game::new(&tables, &keys).king_present());
}

#[test]
fn boards_by_side_and_kind() {
    let (tables, keys) = setup();
    let game = game_of(START, &tables, &keys);
    assert_eq!(game.get_piece_positions(Color::WHITE, Pieces::KING).0, 1 << 60);
    assert_eq!(game.get_piece_positions(Color::BLACK, Pieces::PAWN).0, 0xFF00);
    assert_eq!(game.both_occupancy().0, 0xFFFF_0000_0000_FFFF);
}

#[test]
fn en_passant_that_uncovers_a_diagonal_is_still_found() {
    let (tables, keys) = setup();
    let mut game = game_of("7b/8/8/3Pp3/8/8/8/K6k w - e6 0 1", &tables, &keys);
    assert!(game.is_sound());
    let (moves, _) = generated(&game);
    let capture: Vec<&EncodedMove> = moves.iter().filter(|m| m.en_passant()).collect();
    assert_eq!(capture.len(), 1);
    assert_eq!(capture[0].to_string(), "d5e6");
    let capture = *capture[0];
    assert!(game.accepts_move(&capture));
    game.make_move(&capture);
    assert!(game.king_attacked(Color::WHITE));
    game.unmake_move();
    assert!(!game.king_attacked(Color::WHITE));
}

#[test]
fn king_steps_never_land_on_an_attacked_square() {
    let (tables, keys) = setup();
    for fen in [
        START,
        KIWIPETE,
        EDGE,
        "4k3/8/8/8/8/3n4/4r3/R3K2R w KQ - 0 1",
        "4k3/8/8/8/8/8/3N4/r3K3 w - - 0 1",
        "7b/8/8/3Pp3/8/8/8/K6k w - e6 0 1",
        "8/8/8/2k5/3q4/8/5K2/8 w - - 0 1",
    ] {
        let mut game = game_of(fen, &tables, &keys);
        assert!(game.is_sound());
        let mover = game.side;
        let (moves, _) = generated(&game);
        for m in moves {
            if m.piece_moved() == Pieces::KING && !m.castle() {
                game.make_move(&m);
                assert!(!game.king_attacked(mover), "{} in {}", m.to_string(), fen);
                game.unmake_move();
            }
        }
    }
}

#[test]
fn sound_positions_are_told_from_unsound() {
    let (tables, keys) = setup();
    assert!(game_of(START, &tables, &keys).is_sound());
    assert!(game_of(KIWIPETE, &tables, &keys).is_sound());
    assert!(game_of("4k3/8/8/8/2pP4/8/8/4K3 b - d3 0 1", &tables, &keys).is_sound());
    // no king for the side to move
    assert!(!game_of("4k3/8/8/8/8/8/8/8 w - - 0 1", &tables, &keys).is_sound());
    // a castle right without its rook
    assert!(!game_of("4k3/8/8/8/8/8/8/4K3 w K - 0 1", &tables, &keys).is_sound());
    assert!(game_of("4k3/8/8/8/8/8/8/4K3 w kq - 0 1", &tables, &keys).is_sound());
    assert!(!game_of("4k3/8/8/8/8/8/8/4K3 b kq - 0 1", &tables, &keys).is_sound());
    // a castle right with the king off its home square
    assert!(!game_of("4k3/8/8/8/8/8/8/3K3R w K - 0 1", &tables, &keys).is_sound());
    // an en-passant square without the pawn beyond it
    assert!(!game_of("4k3/8/8/8/8/8/8/4K3 w - e6 0 1", &tables, &keys).is_sound());
    // the fullmove number cannot grow
    assert!(!game_of("4k3/8/8/8/8/8/8/4K3 b - - 0 65535", &tables, &keys).is_sound());
    assert!(game_of("4k3/8/8/8/8/8/8/4K3 w - - 0 65535", &tables, &keys).is_sound());
}

#[test]
fn every_generated_move_of_a_sound_position_is_accepted() {
    let (tables, keys) = setup();
    for fen in [
        START,
        KIWIPETE,
        EDGE,
        "r3k2r/8/8/8/8/8/8/R3K2R b KQkq - 0 1",
        "1n5k/P7/8/8/8/8/8/K7 w - - 0 1",
        "4k3/8/8/8/2pP4/8/8/4K3 b - d3 0 1",
        "rnbq1k1r/pp1Pbppp/2p5/8/2B5/8/PPP1NnPP/RNBQK2R w KQ - 1 8",
    ] {
        let game = game_of(fen, &tables, &keys);
        assert!(game.is_sound(), "{}", fen);
        let (moves, _) = generated(&game);
        assert!(!moves.is_empty());
        assert!(moves.iter().all(|m| game.accepts_move(m)), "{}", fen);
    }
}
