use rice::move_generation::Game;
use rice::perft::count_nodes;
use rice::precalculator::{compute_move_data, generate_hashes};

const START: &str = "rnbqkbnr/pppppppp/8/8/8/8/PPPPPPPP/RNBQKBNR w KQkq - 0 1";
const KIWIPETE: &str = "r3k2r/p1ppqpb1/bn2pnp1/3PN3/1p2P3/2N2Q1p/PPPBBPPP/R3K2R w KQkq - 0 1";
const EDGE: &str = "8/2p5/3p4/KP5r/1R3p1k/8/4P1P1/8 w - - 0 1";

fn nodes(fen: &str, depth: u32) -> u64 {
    let tables = compute_move_data().unwrap();
    let keys = generate_hashes();
    let mut game = Game::new_fen(fen.to_string(), &tables, &keys).unwrap();
    let before = game.hash();
    let count = count_nodes(depth, &mut game);
    assert_eq!(game.hash(), before);
    assert_eq!(game.history_len(), 0);
    count
}

#[test]
fn perft_start_depth_1() {
    assert_eq!(nodes(START, 1), 20);
}

#[test]
fn perft_start_depth_2() {
    assert_eq!(nodes(START, 2), 400);
}

#[test]
fn perft_start_depth_3() {
    assert_eq!(nodes(START, 3), 8902);
}

#[test]
fn perft_start_depth_4() {
    assert_eq!(nodes(START, 4), 197281);
}

#[test]
fn perft_kiwipete_depth_1() {
    assert_eq!(nodes(KIWIPETE, 1), 48);
}

#[test]
fn perft_kiwipete_depth_2() {
    assert_eq!(nodes(KIWIPETE, 2), 2039);
}

#[test]
fn perft_kiwipete_depth_3() {
    assert_eq!(nodes(KIWIPETE, 3), 97862);
}

#[test]
fn perft_en_passant_edge_depth_1() {
    assert_eq!(nodes(EDGE, 1), 14);
}

#[test]
fn perft_en_passant_edge_depth_2() {
    assert_eq!(nodes(EDGE, 2), 191);
}

#[test]
fn perft_en_passant_edge_depth_3() {
    assert_eq!(nodes(EDGE, 3), 2812);
}

#[test]
fn perft_en_passant_edge_depth_4() {
    assert_eq!(nodes(EDGE, 4), 43238);
}
