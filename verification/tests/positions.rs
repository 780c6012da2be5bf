use rice::common::{AllMoveData, Color, Pieces, ZobristHashes};
use rice::move_generation::Game;
use rice::notation::FenError;
use rice::precalculator::{compute_move_data, generate_hashes};

const START: &str = "rnbqkbnr/pppppppp/8/8/8/8/PPPPPPPP/RNBQKBNR w KQkq - 0 1";
const KIWIPETE: &str = "r3k2r/p1ppqpb1/bn2pnp1/3PN3/1p2P3/2N2Q1p/PPPBBPPP/R3K2R w KQkq - 0 1";

fn setup() -> (AllMoveData, ZobristHashes) {
    (compute_move_data().unwrap(), generate_hashes())
}

fn recomputed_hash(game: &Game, keys: &ZobristHashes) -> u64 {
    let mut hash = 0u64;
    for color in 0..2usize {
        for kind in 0..6usize {
            for square in 0..64u8 {
                if game.piece_positions[color][kind].get_bit(square) {
                    hash ^= keys.pieces[color * 6 + kind][square as usize];
                }
            }
        }
    }
    if game.side == Color::BLACK {
        hash ^= keys.side;
    }
    hash ^= keys.castle_rights[game.castle_rights() as usize];
    if let Some(square) = game.en_passant() {
        hash ^= keys.en_passant_file[(square % 8) as usize];
    }
    hash
}

fn error_of(fen: &str) -> FenError {
    let (tables, keys) = setup();
    match Game::new_fen(fen.to_string(), &tables, &keys) {
        Ok(_) => panic!("accepted {}", fen),
        Err(e) => e,
    }
}

#[test]
fn empty_game() {
    let (tables, keys) = setup();
    let game = Game::new(&tables, &keys);
    assert!(game.occupancies.iter().all(|board| board.0 == 0));
    assert!(game.piece_positions.iter().all(|row| row.iter().all(|board| board.0 == 0)));
    assert_eq!(game.side, Color::WHITE);
    assert_eq!(game.castle_rights(), 0b1111);
    assert_eq!(game.en_passant(), None);
    assert_eq!(game.halfmove_timer(), 0);
    assert_eq!(game.fullmove_number(), 0);
    assert_eq!(game.history_len(), 0);
    assert_eq!(game.hash(), recomputed_hash(&game, &keys));
}

#[test]
fn starting_position_from_text() {
    let (tables, keys) = setup();
    let game = Game::new_fen(START.to_string(), &tables, &keys).unwrap();
    assert_eq!(game.piece_positions[0][0].0, 1 << 60);
    assert_eq!(game.piece_positions[0][1].0, 0x00FF_0000_0000_0000);
    assert_eq!(game.piece_positions[0][2].0, (1 << 57) | (1 << 62));
    assert_eq!(game.piece_positions[0][3].0, (1 << 58) | (1 << 61));
    assert_eq!(game.piece_positions[0][4].0, (1 << 56) | (1 << 63));
    assert_eq!(game.piece_positions[0][5].0, 1 << 59);
    assert_eq!(game.piece_positions[1][0].0, 1 << 4);
    assert_eq!(game.piece_positions[1][1].0, 0xFF00);
    assert_eq!(game.piece_positions[1][2].0, (1 << 1) | (1 << 6));
    assert_eq!(game.piece_positions[1][3].0, (1 << 2) | (1 << 5));
    assert_eq!(game.piece_positions[1][4].0, (1 << 0) | (1 << 7));
    assert_eq!(game.piece_positions[1][5].0, 1 << 3);
    assert_eq!(game.occupancies[0].0, 0xFFFF_0000_0000_0000);
    assert_eq!(game.occupancies[1].0, 0xFFFF);
    assert_eq!(game.occupancies[2].0, 0xFFFF_0000_0000_FFFF);
    assert_eq!(game.side, Color::WHITE);
    assert_eq!(game.side_to_move(), Color::WHITE);
    assert_eq!(game.castle_rights(), 0b1111);
    assert_eq!(game.en_passant(), None);
    assert_eq!(game.halfmove_timer(), 0);
    assert_eq!(game.fullmove_number(), 1);
    assert_eq!(game.history_len(), 0);
}

#[test]
fn starting_position_built_is_starting_position_read() {
    let (tables, keys) = setup();
    let read = Game::new_fen(START.to_string(), &tables, &keys).unwrap();
    let built = Game::new_starting(&tables, &keys);
    assert_eq!(built.piece_positions, read.piece_positions);
    assert_eq!(built.occupancies, read.occupancies);
    assert_eq!(built.hash(), read.hash());
    assert_eq!(built.castle_rights(), read.castle_rights());
    assert_eq!(built.fullmove_number(), read.fullmove_number());
}

#[test]
fn scalars_from_text() {
    let (tables, keys) = setup();
    let game = Game::new_fen(
        "rnbqkbnr/pppp1ppp/8/4p3/4P3/8/PPPP1PPP/RNBQKBNR b Kq e3 12 34".to_string(),
        &tables,
        &keys,
    )
    .unwrap();
    assert_eq!(game.side, Color::BLACK);
    assert_eq!(game.castle_rights(), 0b1001);
    assert_eq!(game.en_passant(), Some(44));
    assert_eq!(game.halfmove_timer(), 12);
    assert_eq!(game.fullmove_number(), 34);
    assert_eq!(game.piece_at(36), Some((Color::WHITE, Pieces::PAWN)));
    assert_eq!(game.piece_at(28), Some((Color::BLACK, Pieces::PAWN)));
    assert_eq!(game.piece_at(44), None);
}

#[test]
fn hash_is_the_recomputation() {
    let (tables, keys) = setup();
    for fen in [
        START,
        KIWIPETE,
        "8/2p5/3p4/KP5r/1R3p1k/8/4P1P1/8 w - - 0 1",
        "rnbqkbnr/pppp1ppp/8/4p3/4P3/8/PPPP1PPP/RNBQKBNR b Kq e3 12 34",
        "8/8/8/8/k1pP3K/8/8/8 b - d3 0 1",
    ] {
        let game = Game::new_fen(fen.to_string(), &tables, &keys).unwrap();
        assert_eq!(game.hash(), recomputed_hash(&game, &keys));
    }
}

#[test]
fn extra_spaces_between_fields() {
    let (tables, keys) = setup();
    let spaced = "  rnbqkbnr/pppppppp/8/8/8/8/PPPPPPPP/RNBQKBNR   w \t KQkq  -  0   1 ";
    let a = Game::new_fen(spaced.to_string(), &tables, &keys).unwrap();
    let b = Game::new_fen(START.to_string(), &tables, &keys).unwrap();
    assert_eq!(a.hash(), b.hash());
    assert_eq!(a.piece_positions, b.piece_positions);
}

#[test]
fn rights_end_at_a_dash() {
    let (tables, keys) = setup();
    let game =
        Game::new_fen("4k3/8/8/8/8/8/8/4K3 w K-q - 0 1".to_string(), &tables, &keys).unwrap();
    assert_eq!(game.castle_rights(), 0b1);
    let game = Game::new_fen("4k3/8/8/8/8/8/8/4K3 w - - 0 1".to_string(), &tables, &keys).unwrap();
    assert_eq!(game.castle_rights(), 0);
}

#[test]
fn wrong_number_of_fields() {
    assert_eq!(error_of(""), FenError::FieldCount);
    assert_eq!(error_of("8/8/8/8/8/8/8/8 w - - 0"), FenError::FieldCount);
    assert_eq!(error_of("8/8/8/8/8/8/8/8 w - - 0 1 extra"), FenError::FieldCount);
}

#[test]
fn malformed_placement() {
    assert_eq!(error_of("8/8/8/8/8/8/8/7 w - - 0 1"), FenError::Placement);
    assert_eq!(error_of("8/8/8/8/8/8/8/9 w - - 0 1"), FenError::Placement);
    assert_eq!(error_of("8/8/8/8/8/8/8/8p w - - 0 1"), FenError::Placement);
    assert_eq!(error_of("8/8/8/8/8/8/8/7x w - - 0 1"), FenError::Placement);
    assert_eq!(error_of("8/8/8/8/8/8/8/7? w - - 0 1"), FenError::Placement);
}

#[test]
fn malformed_side() {
    assert_eq!(error_of("8/8/8/8/8/8/8/8 x - - 0 1"), FenError::Side);
    assert_eq!(error_of("8/8/8/8/8/8/8/8 ww - - 0 1"), FenError::Side);
}

#[test]
fn malformed_rights() {
    assert_eq!(error_of("8/8/8/8/8/8/8/8 w KX - 0 1"), FenError::CastleRights);
}

#[test]
fn malformed_en_passant() {
    assert_eq!(error_of("8/8/8/8/8/8/8/8 w - e 0 1"), FenError::EnPassant);
    assert_eq!(error_of("8/8/8/8/8/8/8/8 w - i3 0 1"), FenError::EnPassant);
    assert_eq!(error_of("8/8/8/8/8/8/8/8 w - e9 0 1"), FenError::EnPassant);
    assert_eq!(error_of("8/8/8/8/8/8/8/8 w - e1 0 1"), FenError::EnPassant);
    assert_eq!(error_of("8/8/8/8/8/8/8/8 w - e8 0 1"), FenError::EnPassant);
    assert_eq!(error_of("8/8/8/8/8/8/8/8 w - e33 0 1"), FenError::EnPassant);
}

#[test]
fn malformed_clocks() {
    assert_eq!(error_of("8/8/8/8/8/8/8/8 w - - x 1"), FenError::HalfmoveClock);
    assert_eq!(error_of("8/8/8/8/8/8/8/8 w - - 256 1"), FenError::HalfmoveClock);
    assert_eq!(error_of("8/8/8/8/8/8/8/8 w - - 0 65536"), FenError::FullmoveNumber);
    assert_eq!(error_of("8/8/8/8/8/8/8/8 w - - 0 -1"), FenError::FullmoveNumber);
}

#[test]
fn largest_clocks_are_read() {
    let (tables, keys) = setup();
    let game =
        Game::new_fen("8/8/8/8/8/8/8/8 w - - 255 65535".to_string(), &tables, &keys).unwrap();
    assert_eq!(game.halfmove_timer(), 255);
    assert_eq!(game.fullmove_number(), 65535);
    let game =
        Game::new_fen("8/8/8/8/8/8/8/8 w - - 0007 00012".to_string(), &tables, &keys).unwrap();
    assert_eq!(game.halfmove_timer(), 7);
    assert_eq!(game.fullmove_number(), 12);
}

#[test]
fn game_as_text() {
    let (tables, keys) = setup();
    let game = Game::new_fen(START.to_string(), &tables, &keys).unwrap();
    let text = game.to_string();
    assert!(text.starts_with("\nwhite occupancy: \n\n--------\n"));
    assert!(text.contains(" \nblack occupancy: \n\nXXXXXXXX\nXXXXXXXX\n--------"));
    assert!(text.contains(" \nboth_occupancy: "));
    assert!(text.ends_with(
        "\nrnbqkbnr\npppppppp\n--------\n--------\n--------\n--------\nPPPPPPPP\nRNBQKBNR\nside: w, castle rights: 1111"
    ));
}
