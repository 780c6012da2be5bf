use rice::common::{AllMoveData, Pieces, ZobristHashes};
use rice::engine::eval_data::EvalData;
use rice::engine::move_heuristics::MoveSorter;
use rice::engine::transposition_table::{Bound, TranspositionTable};
use rice::engine::Engine;
use rice::move_encoding::Move;
use rice::move_generation::{EncodedMove, Game};
use rice::precalculator::{compute_move_data, generate_hashes};
use rice::score::Score;

fn setup() -> (AllMoveData, ZobristHashes) {
    (compute_move_data().unwrap(), generate_hashes())
}

fn engine_at(fen: &str, tables: &AllMoveData, keys: &ZobristHashes) -> Engine {
    let mut engine = Engine::with_table(tables, keys, 1 << 16);
    engine.set_game(Game::new_fen(fen.to_string(), tables, keys).unwrap());
    engine
}

fn quiet(source: u8, target: u8) -> EncodedMove {
    Move {
        source_square: source,
        target_square: target,
        piece_moved: Pieces::KNIGHT,
        promoted_piece: None,
        capture: None,
        double_push: false,
        en_passant: false,
        castle: false,
    }
    .encode()
}

fn capture(piece: Pieces, taken: Pieces) -> EncodedMove {
    Move {
        source_square: 10,
        target_square: 20,
        piece_moved: piece,
        promoted_piece: None,
        capture: Some(taken),
        double_push: false,
        en_passant: false,
        castle: false,
    }
    .encode()
}

#[test]
fn weights_of_the_evaluation() {
    assert_eq!(EvalData::material_value(Pieces::KING), 0);
    assert_eq!(EvalData::material_value(Pieces::PAWN), 100);
    assert_eq!(EvalData::material_value(Pieces::KNIGHT), 320);
    assert_eq!(EvalData::material_value(Pieces::BISHOP), 330);
    assert_eq!(EvalData::material_value(Pieces::ROOK), 500);
    assert_eq!(EvalData::material_value(Pieces::QUEEN), 900);
    assert_eq!(EvalData::mobility_value(Pieces::KNIGHT), 4);
    assert_eq!(EvalData::mobility_value(Pieces::KING), 0);
}

#[test]
fn promise_of_a_move() {
    assert_eq!(MoveSorter::score_move(quiet(1, 18)), 0);
    assert_eq!(MoveSorter::score_move(capture(Pieces::PAWN, Pieces::QUEEN)), 10_000 + 900 - 1);
    assert_eq!(MoveSorter::score_move(capture(Pieces::QUEEN, Pieces::PAWN)), 10_000 + 100 - 1);
    assert_eq!(MoveSorter::score_move(capture(Pieces::KNIGHT, Pieces::ROOK)), 10_000 + 500 - 4);
    let castle = Move {
        source_square: 60,
        target_square: 62,
        piece_moved: Pieces::KING,
        promoted_piece: None,
        capture: None,
        double_push: false,
        en_passant: false,
        castle: true,
    }
    .encode();
    assert_eq!(MoveSorter::score_move(castle), 5_000);
    let promotion = Move {
        source_square: 8,
        target_square: 1,
        piece_moved: Pieces::PAWN,
        promoted_piece: Some(Pieces::QUEEN),
        capture: Some(Pieces::KNIGHT),
        double_push: false,
        en_passant: false,
        castle: false,
    }
    .encode();
    assert_eq!(MoveSorter::score_move(promotion), 10_000 + 320 - 1 + 5_000);
}

#[test]
fn moves_are_sorted_by_promise() {
    let moves = vec![
        quiet(1, 18),
        capture(Pieces::QUEEN, Pieces::PAWN),
        quiet(6, 21),
        capture(Pieces::PAWN, Pieces::QUEEN),
        capture(Pieces::KNIGHT, Pieces::ROOK),
    ];
    let sorted = MoveSorter::sort(moves);
    let scores: Vec<i32> = sorted.iter().map(|m| MoveSorter::score_move(*m)).collect();
    assert_eq!(scores, vec![10_899, 10_496, 10_099, 0, 0]);
    assert_eq!(sorted[3].source_square(), 1);
    assert_eq!(sorted[4].source_square(), 6);
    assert!(MoveSorter::sort(Vec::new()).is_empty());
}

#[test]
fn an_empty_table_finds_nothing() {
    let table = TranspositionTable::with_entries(64);
    assert_eq!(table.len(), 64);
    assert!(table.lookup(12345, 0).is_none());
    assert_eq!(TranspositionTable::with_entries(0).len(), 1);
}

#[test]
fn a_stored_entry_is_found_at_its_depth_and_below() {
    let mut table = TranspositionTable::with_entries(64);
    let best = quiet(1, 18);
    table.store(1000, Score::Playing(42), Bound::Lower, 5, Some(best));
    let entry = table.lookup(1000, 5).unwrap();
    assert_eq!(entry.hash, 1000);
    assert_eq!(entry.depth, 5);
    assert!(entry.score == Score::Playing(42));
    assert_eq!(entry.bound, Bound::Lower);
    assert_eq!(entry.best_move.unwrap().to_string(), best.to_string());
    assert!(table.lookup(1000, 3).is_some());
    assert!(table.lookup(1000, 6).is_none());
}

#[test]
fn another_hash_of_the_same_slot_is_not_found_and_replaces() {
    let mut table = TranspositionTable::with_entries(64);
    table.store(1000, Score::Playing(42), Bound::Exact, 5, None);
    assert!(table.lookup(1000 + 64, 0).is_none());
    assert!(table.lookup(1001, 0).is_none());
    table.store(1000 + 64, Score::Draw, Bound::Upper, 1, None);
    assert!(table.lookup(1000, 0).is_none());
    let entry = table.lookup(1000 + 64, 1).unwrap();
    assert_eq!(entry.bound, Bound::Upper);
    assert!(entry.score == Score::Draw);
}

#[test]
fn a_new_engine_stands_at_the_start() {
    let (tables, keys) = setup();
    let engine = Engine::with_table(&tables, &keys, 1024);
    assert_eq!(engine.get_id_info(), ("RICE", "Parker White"));
    let start = Game::new_starting(&tables, &keys);
    assert_eq!(engine.game().hash(), start.hash());
    assert_eq!(engine.get_move().unwrap().to_string(), "a2a4");
    assert!(engine.game_string().ends_with("side: w, castle rights: 1111"));
}

#[test]
fn first_move_or_none() {
    let (tables, keys) = setup();
    let engine = engine_at("R5k1/5ppp/8/8/8/8/8/K7 b - - 0 1", &tables, &keys);
    assert!(engine.get_move().is_none());
    assert!(engine.get_best_found_move().is_none());
}

#[test]
fn search_finds_the_mate_in_one() {
    let (tables, keys) = setup();
    let mut engine = engine_at("6k1/5ppp/8/8/8/8/8/R3K3 w - - 0 1", &tables, &keys);
    let before = engine.game().hash();
    engine.search_to_depth(2);
    assert_eq!(engine.get_best_found_move().unwrap().to_string(), "a1a8");
    assert_eq!(engine.game().hash(), before);
    assert_eq!(engine.game().history_len(), 0);
}

#[test]
fn search_takes_the_hanging_queen() {
    let (tables, keys) = setup();
    let mut engine = engine_at("4k3/8/8/3q4/8/8/8/3RK3 w - - 0 1", &tables, &keys);
    engine.search_to_depth(1);
    assert_eq!(engine.get_best_found_move().unwrap().to_string(), "d1d5");
    engine.search_to_depth(3);
    assert_eq!(engine.get_best_found_move().unwrap().to_string(), "d1d5");
}

#[test]
fn search_is_repeatable() {
    let (tables, keys) = setup();
    let fen = "r3k2r/p1ppqpb1/bn2pnp1/3PN3/1p2P3/2N2Q1p/PPPBBPPP/R3K2R w KQkq - 0 1";
    let mut first = engine_at(fen, &tables, &keys);
    let mut second = engine_at(fen, &tables, &keys);
    first.search_to_depth(2);
    second.search_to_depth(2);
    assert_eq!(
        first.get_best_found_move().unwrap().to_string(),
        second.get_best_found_move().unwrap().to_string()
    );
}

#[test]
fn search_leaves_the_game_as_it_was() {
    let (tables, keys) = setup();
    let mut engine = Engine::with_table(&tables, &keys, 1 << 16);
    let pieces = engine.game().piece_positions.clone();
    let hash = engine.game().hash();
    engine.search_to_depth(2);
    assert_eq!(engine.game().piece_positions, pieces);
    assert_eq!(engine.game().hash(), hash);
    assert_eq!(engine.game().history_len(), 0);
    assert!(engine.get_best_found_move().is_some());
}

#[test]
fn best_evaluation_without_search_takes_material() {
    let (tables, keys) = setup();
    let mut engine = engine_at("4k3/8/8/3q4/8/8/8/3RK3 w - - 0 1", &tables, &keys);
    let hash = engine.game().hash();
    assert_eq!(engine.no_search_best_eval().unwrap().to_string(), "d1d5");
    assert_eq!(engine.game().hash(), hash);
    let mut mated = engine_at("R5k1/5ppp/8/8/8/8/8/K7 b - - 0 1", &tables, &keys);
    assert!(mated.no_search_best_eval().is_none());
}

#[test]
fn the_table_of_default_size_is_empty() {
    let table = TranspositionTable::new();
    assert!(table.len() > 1_000_000);
    assert!(table.lookup(77, 0).is_none());
}
