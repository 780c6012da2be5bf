use rice::common::{AllMoveData, ZobristHashes};
use rice::engine::Engine;
use rice::move_generation::Game;
use rice::precalculator::{compute_move_data, generate_hashes};
use rice::uci::{
    command_kind, find_word, handle_line, is_word, join_words, perft_divide, read_depth,
    CommandKind,
};

fn setup() -> (AllMoveData, ZobristHashes) {
    (compute_move_data().unwrap(), generate_hashes())
}

fn words(line: &str) -> Vec<Vec<char>> {
    line.split_whitespace().map(|word| word.chars().collect()).collect()
}

#[test]
fn kinds_of_lines() {
    assert_eq!(command_kind(&words("uci")), CommandKind::Uci);
    assert_eq!(command_kind(&words("isready")), CommandKind::IsReady);
    assert_eq!(command_kind(&words("position startpos")), CommandKind::Position);
    assert_eq!(command_kind(&words("go depth 3")), CommandKind::Go);
    assert_eq!(command_kind(&words("printgame")), CommandKind::PrintGame);
    assert_eq!(command_kind(&words("quit")), CommandKind::Quit);
    assert_eq!(command_kind(&words("")), CommandKind::Ignored);
    assert_eq!(command_kind(&words("ucinewgame")), CommandKind::Ignored);
    assert_eq!(command_kind(&words("stop")), CommandKind::Ignored);
}

#[test]
fn words_are_found_and_joined() {
    let tokens = words("position fen a b c moves e2e4");
    assert_eq!(find_word(&tokens, "moves"), 5);
    assert_eq!(find_word(&tokens, "fen"), 1);
    assert_eq!(find_word(&tokens, "depth"), 7);
    assert!(is_word(&tokens[0], "position"));
    assert!(!is_word(&tokens[0], "positions"));
    assert!(!is_word(&tokens[0], "positio"));
    let joined: String = join_words(&tokens, 2, 5).into_iter().collect();
    assert_eq!(joined, "a b c");
    assert!(join_words(&tokens, 3, 3).is_empty());
}

#[test]
fn depth_of_a_go_line() {
    assert_eq!(read_depth(&words("go depth 5")), Some(5));
    assert_eq!(read_depth(&words("go depth 255")), Some(255));
    assert_eq!(read_depth(&words("go depth 256")), None);
    assert_eq!(read_depth(&words("go depth")), None);
    assert_eq!(read_depth(&words("go infinite")), None);
    assert_eq!(read_depth(&words("go depth x")), None);
}

#[test]
fn handshake() {
    let (tables, keys) = setup();
    let mut engine = Engine::with_table(&tables, &keys, 1024);
    let reply = handle_line(&mut engine, &tables, &keys, "uci");
    assert_eq!(reply.lines, vec!["id name RICE author Parker White", "uciok"]);
    assert!(!reply.quit);
    let reply = handle_line(&mut engine, &tables, &keys, "isready");
    assert_eq!(reply.lines, vec!["readyok"]);
    let reply = handle_line(&mut engine, &tables, &keys, "quit");
    assert!(reply.quit);
    assert!(reply.lines.is_empty());
    let reply = handle_line(&mut engine, &tables, &keys, "hello there");
    assert!(reply.lines.is_empty() && reply.complaints.is_empty() && !reply.quit);
}

#[test]
fn position_and_go() {
    let (tables, keys) = setup();
    let mut engine = Engine::with_table(&tables, &keys, 1 << 16);
    let reply = handle_line(&mut engine, &tables, &keys, "position startpos moves e2e4 e7e5");
    assert!(reply.lines.is_empty() && reply.complaints.is_empty());
    assert_eq!(engine.game().history_len(), 2);
    let reply = handle_line(
        &mut engine,
        &tables,
        &keys,
        "position fen 6k1/5ppp/8/8/8/8/8/R3K3 w - - 0 1",
    );
    assert!(reply.complaints.is_empty());
    let reply = handle_line(&mut engine, &tables, &keys, "go depth 2");
    assert_eq!(reply.lines, vec!["bestmove a1a8"]);
    let reply = handle_line(&mut engine, &tables, &keys, "go nothink");
    assert_eq!(reply.lines.len(), 1);
    assert!(reply.lines[0].starts_with("bestmove "));
    let reply = handle_line(&mut engine, &tables, &keys, "printgame");
    assert!(reply.lines[0].ends_with("side: w, castle rights: 0"));
}

#[test]
fn a_malformed_position_keeps_the_game() {
    let (tables, keys) = setup();
    let mut engine = Engine::with_table(&tables, &keys, 1024);
    let before = engine.game().hash();
    let reply = handle_line(&mut engine, &tables, &keys, "position fen 8/8/8 w - - 0 1");
    assert_eq!(reply.complaints, vec!["placement is malformed"]);
    assert_eq!(engine.game().hash(), before);
    let reply = handle_line(&mut engine, &tables, &keys, "position fen 8/8/8/8/8/8/8/8 w - -");
    assert_eq!(reply.complaints, vec!["position has not six fields"]);
    let reply = handle_line(&mut engine, &tables, &keys, "position startpos moves e2e4 e7");
    assert_eq!(reply.complaints, vec!["move is wrong size: e7"]);
    assert_eq!(engine.game().hash(), before);
    assert_eq!(engine.game().history_len(), 0);
}

#[test]
fn leaves_by_first_move() {
    let (tables, keys) = setup();
    let mut game = Game::new_starting(&tables, &keys);
    let (lines, total) = perft_divide(2, &mut game);
    assert_eq!(total, 400);
    assert_eq!(lines.len(), 20);
    assert_eq!(lines[0], "a2a4 20");
    assert!(lines.iter().all(|line| line.ends_with(" 20")));
    let (lines, total) = perft_divide(0, &mut game);
    assert_eq!(total, 0);
    assert!(lines.iter().all(|line| line.ends_with(" 0")));
    assert_eq!(game.history_len(), 0);
}
