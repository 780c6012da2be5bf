//! The commands of the line protocol: what a line asks for, and what the
//! engine does and answers.

use crate::common::{AllMoveData, ZobristHashes};
use crate::engine::model::{best_of, first_of, searched, slots, Slot};
use crate::engine::{Engine, DEFAULT_DEPTH};
use crate::move_encoding::{EncodedMove, Move};
use crate::move_generation::Game;
use crate::move_generation::describing::{played, string_views};
use crate::notation::{
    chars_of, field_views, fields, move_error_text, parse_fen, parse_number, read_move_text,
    read_number, split_fields, start_position, FenError,
};
use crate::position::Position;
use crate::tables::MoveTables;
use crate::perft::{count_nodes, perft, saturated};
use crate::text::{push_move, push_number, push_str, string_of};
use vstd::prelude::*;

verus! {

/// What a line asks for.
#[derive(Copy, Clone, PartialEq, Eq, Structural, Debug)]
pub enum CommandKind {
    Uci,
    IsReady,
    Position,
    Go,
    PrintGame,
    Quit,
    Ignored,
}

/// What a line asks for, by its first word: `uci`, `isready`, `position`,
/// `go`, `printgame` or `quit`; anything else, and the empty line, is
/// passed over.
pub open spec fn kind_of(tokens: Seq<Seq<char>>) -> CommandKind {
    if tokens.len() == 0 {
        CommandKind::Ignored
    } else if tokens[0] == "uci"@ {
        CommandKind::Uci
    } else if tokens[0] == "isready"@ {
        CommandKind::IsReady
    } else if tokens[0] == "position"@ {
        CommandKind::Position
    } else if tokens[0] == "go"@ {
        CommandKind::Go
    } else if tokens[0] == "printgame"@ {
        CommandKind::PrintGame
    } else if tokens[0] == "quit"@ {
        CommandKind::Quit
    } else {
        CommandKind::Ignored
    }
}

/// The index of the first of the words from `from` on that is `word`; the
/// number of words if there is none.
pub open spec fn word_index(tokens: Seq<Seq<char>>, word: Seq<char>, from: int) -> int
    decreases tokens.len() - from,
{
    if from < 0 || from >= tokens.len() {
        tokens.len() as int
    } else if tokens[from] == word {
        from
    } else {
        word_index(tokens, word, from + 1)
    }
}

/// The depth that a `go` line asks for: the number up to 255 that follows
/// the word `depth`.
pub open spec fn depth_asked(tokens: Seq<Seq<char>>) -> Option<u8> {
    let at = word_index(tokens, "depth"@, 0);
    if at + 1 < tokens.len() {
        match parse_number(tokens[at + 1], 255) {
            Some(depth) => Some(depth as u8),
            None => None,
        }
    } else {
        None
    }
}

/// The words of `tokens` from index `from` up to index `to`, joined by
/// single spaces.
pub open spec fn joined(tokens: Seq<Seq<char>>, from: int, to: int) -> Seq<char>
    decreases to - from,
{
    if from >= to {
        Seq::empty()
    } else if from + 1 == to {
        tokens[from]
    } else {
        joined(tokens, from, to - 1) + seq![' '] + tokens[to - 1]
    }
}

/// Whether `token` is the word `word`.
pub fn is_word(token: &Vec<char>, word: &str) -> (r: bool)
    ensures
        r == (token@ == word@),
{
    let n = word.unicode_len();
    if token.len() != n {
        return false;
    }
    let mut i: usize = 0;
    while i < n
        invariant
            i <= n,
            n == word@.len(),
            token.len() == n,
            forall|k: int| 0 <= k < i ==> token@[k] == word@[k],
        decreases n - i,
    {
        if token[i] != word.get_char(i) {
            return false;
        }
        i += 1;
    }
    assert(token@ =~= word@);
    true
}

/// What a line asks for.
pub fn command_kind(tokens: &Vec<Vec<char>>) -> (r: CommandKind)
    ensures
        r == kind_of(field_views(tokens@)),
{
    if tokens.len() == 0 {
        return CommandKind::Ignored;
    }
    assert(field_views(tokens@)[0] == tokens[0]@);
    if is_word(&tokens[0], "uci") {
        CommandKind::Uci
    } else if is_word(&tokens[0], "isready") {
        CommandKind::IsReady
    } else if is_word(&tokens[0], "position") {
        CommandKind::Position
    } else if is_word(&tokens[0], "go") {
        CommandKind::Go
    } else if is_word(&tokens[0], "printgame") {
        CommandKind::PrintGame
    } else if is_word(&tokens[0], "quit") {
        CommandKind::Quit
    } else {
        CommandKind::Ignored
    }
}

/// The index of the first of the words that is `word`; the number of
/// words if there is none.
pub fn find_word(tokens: &Vec<Vec<char>>, word: &str) -> (r: usize)
    ensures
        r == word_index(field_views(tokens@), word@, 0),
        r <= tokens.len(),
{
    let mut i: usize = 0;
    while i < tokens.len()
        invariant
            i <= tokens.len(),
            word_index(field_views(tokens@), word@, 0) == word_index(
                field_views(tokens@),
                word@,
                i as int,
            ),
        decreases tokens.len() - i,
    {
        assert(field_views(tokens@)[i as int] == tokens[i as int]@);
        if is_word(&tokens[i], word) {
            return i;
        }
        i += 1;
    }
    i
}

/// The depth that a `go` line asks for.
pub fn read_depth(tokens: &Vec<Vec<char>>) -> (r: Option<u8>)
    ensures
        r == depth_asked(field_views(tokens@)),
{
    let at = find_word(tokens, "depth");
    if at < tokens.len() && at + 1 < tokens.len() {
        assert(field_views(tokens@)[at + 1] == tokens[at + 1]@);
        match read_number(&tokens[at + 1], 255) {
            Some(depth) => Some(depth as u8),
            None => None,
        }
    } else {
        None
    }
}

/// The words from index `from` up to index `to`, joined by single spaces.
pub fn join_words(tokens: &Vec<Vec<char>>, from: usize, to: usize) -> (r: Vec<char>)
    requires
        from <= to <= tokens.len(),
    ensures
        r@ == joined(field_views(tokens@), from as int, to as int),
{
    let mut text: Vec<char> = Vec::new();
    let mut i: usize = from;
    while i < to
        invariant
            from <= i <= to,
            to <= tokens.len(),
            text@ == joined(field_views(tokens@), from as int, i as int),
        decreases to - i,
    {
        assert(field_views(tokens@)[i as int] == tokens[i as int]@);
        if i > from {
            text.push(' ');
        }
        let ghost before = text@;
        let mut k: usize = 0;
        assert(text@ =~= before + tokens[i as int]@.subrange(0, 0));
        while k < tokens[i].len()
            invariant
                i < tokens.len(),
                k <= tokens[i as int].len(),
                text@ == before + tokens[i as int]@.subrange(0, k as int),
            decreases tokens[i as int].len() - k,
        {
            text.push(tokens[i][k]);
            k += 1;
            assert(text@ =~= before + tokens[i as int]@.subrange(0, k as int));
        }
        assert(tokens[i as int]@.subrange(0, tokens[i as int].len() as int) =~= tokens[i as int]@);
        i += 1;
        assert(text@ =~= joined(field_views(tokens@), from as int, i as int));
    }
    text
}

/// What the engine answers to a line: the lines to print, the complaints,
/// and whether the line asked to quit.
pub struct Reply {
    pub lines: Vec<String>,
    pub complaints: Vec<String>,
    pub quit: bool,
}

/// The line that names a move as the best.
pub open spec fn best_move_line(m: crate::move_encoding::Move) -> Seq<char> {
    "bestmove "@ + crate::text::move_text(m)
}

fn best_move_text(m: &EncodedMove) -> (s: String)
    ensures
        s@ == best_move_line(m@),
{
    let mut text: Vec<char> = Vec::new();
    push_str(&mut text, "bestmove ");
    push_move(&mut text, m);
    assert(text@ =~= best_move_line(m@));
    string_of(&text)
}

/// The complaint about a position string that was rejected.
pub open spec fn fen_error_text(error: FenError) -> Seq<char> {
    match error {
        FenError::FieldCount => "position has not six fields"@,
        FenError::Placement => "placement is malformed"@,
        FenError::Side => "side is malformed"@,
        FenError::CastleRights => "castle rights are malformed"@,
        FenError::EnPassant => "en-passant square is malformed"@,
        FenError::HalfmoveClock => "halfmove clock is malformed"@,
        FenError::FullmoveNumber => "fullmove number is malformed"@,
    }
}

fn fen_complaint(error: FenError) -> (r: String)
    ensures
        r@ == fen_error_text(error),
{
    match error {
        FenError::FieldCount => String::from_str("position has not six fields"),
        FenError::Placement => String::from_str("placement is malformed"),
        FenError::Side => String::from_str("side is malformed"),
        FenError::CastleRights => String::from_str("castle rights are malformed"),
        FenError::EnPassant => String::from_str("en-passant square is malformed"),
        FenError::HalfmoveClock => String::from_str("halfmove clock is malformed"),
        FenError::FullmoveNumber => String::from_str("fullmove number is malformed"),
    }
}

/// Where the words of the position string of a `position` line end: at the
/// word `moves`, or at the end of the line.
pub open spec fn fen_end(tokens: Seq<Seq<char>>) -> int {
    let moves_at = word_index(tokens, "moves"@, 0);
    if moves_at < 2 {
        2
    } else {
        moves_at
    }
}

/// The position that a `position` line starts from: that of the words
/// after the word `fen`, where that is the second word of the line; the
/// starting position otherwise.
pub open spec fn base_asked(tokens: Seq<Seq<char>>) -> Result<Position, FenError> {
    if tokens.len() > 1 && tokens[1] == "fen"@ {
        parse_fen(joined(tokens, 2, fen_end(tokens)))
    } else {
        Ok(start_position())
    }
}

/// The moves that a `position` line asks to play: the words after the
/// word `moves`.
pub open spec fn moves_asked(tokens: Seq<Seq<char>>) -> Seq<Seq<char>> {
    let moves_at = word_index(tokens, "moves"@, 0);
    if moves_at < tokens.len() {
        tokens.subrange(moves_at + 1, tokens.len() as int)
    } else {
        Seq::empty()
    }
}

/// The index of the first of the first `n` texts that is no move, if
/// there is one.
pub open spec fn first_malformed(texts: Seq<Seq<char>>, n: nat) -> Option<int>
    decreases n,
{
    if n == 0 {
        None
    } else {
        match first_malformed(texts, (n - 1) as nat) {
            Some(k) => Some(k),
            None => if read_move_text(texts[n - 1]) is Err {
                Some(n - 1)
            } else {
                None
            },
        }
    }
}

/// The first malformed text is the one before which every text is a move.
proof fn lemma_first_malformed(texts: Seq<Seq<char>>, n: nat, k: int)
    requires
        n <= texts.len(),
        0 <= k <= n,
        forall|j: int| 0 <= j < k ==> read_move_text(#[trigger] texts[j]) is Ok,
        k < n ==> read_move_text(texts[k]) is Err,
    ensures
        first_malformed(texts, n) == if k < n {
            Some(k)
        } else {
            None::<int>
        },
    decreases n,
{
    if n > 0 {
        if k < n {
            lemma_first_malformed(texts, (n - 1) as nat, k);
        } else {
            lemma_first_malformed(texts, (n - 1) as nat, k - 1);
            assert(read_move_text(texts[n - 1]) is Ok);
        }
    }
}

/// The position that a `position` line asks for, with the tables `t`: the
/// position it starts from, played on by the moves it asks to play; or
/// the complaint about the position string, or about the first text that
/// is no move.
pub open spec fn position_wanted(tokens: Seq<Seq<char>>, t: MoveTables) -> Result<
    Position,
    Seq<char>,
> {
    match base_asked(tokens) {
        Err(error) => Err(fen_error_text(error)),
        Ok(base) => {
            let texts = moves_asked(tokens);
            match first_malformed(texts, texts.len()) {
                Some(k) => Err(move_error_text(read_move_text(texts[k])->Err_0, texts[k])),
                None => Ok(played(base, t, texts, texts.len())),
            }
        },
    }
}

/// The game that a `position` line asks for: the starting position, or
/// the position of the six fields after the word `fen`; then played on by
/// the moves after the word `moves`. Nothing if a field or a move is
/// malformed, with the complaint.
fn position_asked(tokens: &Vec<Vec<char>>, move_data: &AllMoveData, hashes: &ZobristHashes) -> (r:
    Result<Game, String>)
    requires
        move_data@.wf(),
        hashes@.wf(),
    ensures
        match position_wanted(field_views(tokens@), move_data@) {
            Ok(p) => r is Ok && r->Ok_0@ == p,
            Err(complaint) => r is Err && r->Err_0@ == complaint,
        },
        r matches Ok(game) ==> game.valid() && game.tables() == move_data@ && game.keys()
            == hashes@,
{
    let ghost words = field_views(tokens@);
    let moves_at = find_word(tokens, "moves");
    let mut game = Game::new_starting(move_data, hashes);
    if tokens.len() > 1 {
        assert(words[1] == tokens[1]@);
    }
    if tokens.len() > 1 && is_word(&tokens[1], "fen") {
        let end = if moves_at < 2 {
            2
        } else {
            moves_at
        };
        let fen = string_of(&join_words(tokens, 2, end));
        match Game::new_fen(fen, move_data, hashes) {
            Ok(read) => {
                game = read;
            },
            Err(error) => {
                return Err(fen_complaint(error));
            },
        }
    }
    assert(base_asked(words) == Ok::<Position, FenError>(game@));
    let ghost base = game@;
    let mut moves: Vec<String> = Vec::new();
    let start = if moves_at < tokens.len() {
        moves_at + 1
    } else {
        tokens.len()
    };
    let mut i: usize = start;
    while i < tokens.len()
        invariant
            start <= i <= tokens.len(),
            moves.len() == i - start,
            forall|k: int| 0 <= k < moves.len() ==> (#[trigger] moves[k])@ == tokens[start + k]@,
        decreases tokens.len() - i,
    {
        moves.push(string_of(&tokens[i]));
        i += 1;
    }
    let ghost texts = moves_asked(words);
    assert(string_views(moves@) =~= texts);
    match game.parse_moves(moves) {
        Ok(()) => {
            proof {
                assert forall|j: int| 0 <= j < texts.len() implies read_move_text(
                    #[trigger] texts[j],
                ) is Ok by {
                    assert(texts[j] == moves[j]@);
                }
                lemma_first_malformed(texts, texts.len(), texts.len() as int);
            }
            Ok(game)
        },
        Err(message) => {
            proof {
                let k = choose|k: int|
                    #![trigger moves[k]]
                    {
                        &&& 0 <= k < moves.len()
                        &&& forall|j: int| 0 <= j < k ==> read_move_text(#[trigger] moves[j]@) is Ok
                        &&& read_move_text(moves[k]@) matches Err(error) && message@
                            == move_error_text(error, moves[k]@)
                    };
                assert(texts[k] == moves[k]@);
                assert forall|j: int| 0 <= j < k implies read_move_text(#[trigger] texts[j]) is Ok by {
                    assert(texts[j] == moves[j]@);
                }
                lemma_first_malformed(texts, texts.len(), k);
            }
            Err(message)
        },
    }
}

/// Whether a `go` line holds the word `word`.
pub open spec fn go_asks(tokens: Seq<Seq<char>>, word: Seq<char>) -> bool {
    word_index(tokens, word, 0) < tokens.len()
}

/// The line that names a move as the best, if there is a move.
pub open spec fn answer(m: Option<Move>) -> Seq<Seq<char>> {
    match m {
        Some(m) => seq![best_move_line(m)],
        None => Seq::empty(),
    }
}

/// What a `go` line is answered, and the table of positions that it
/// leaves: for the word `nothink` the first move; then for the word
/// `depth` and a number a search to that depth and the best move that the
/// table then holds; then for the word `infinite` a search to the default
/// depth and the best move that the table then holds.
pub open spec fn go_reply(
    tokens: Seq<Seq<char>>,
    p: Position,
    t: MoveTables,
    keys: crate::tables::Keys,
    hash: u64,
    table: Seq<Option<Slot>>,
) -> (Seq<Seq<char>>, Seq<Option<Slot>>) {
    let first = first_of(p, t);
    let quick = if go_asks(tokens, "nothink"@) {
        answer(first)
    } else {
        Seq::empty()
    };
    let table_then = match depth_asked(tokens) {
        Some(depth) => searched(p, t, keys, table, depth),
        None => table,
    };
    let deep = if depth_asked(tokens) is Some {
        answer(best_of(table_then, hash, first))
    } else {
        Seq::empty()
    };
    let table_last = if go_asks(tokens, "infinite"@) {
        searched(p, t, keys, table_then, DEFAULT_DEPTH)
    } else {
        table_then
    };
    let last = if go_asks(tokens, "infinite"@) {
        answer(best_of(table_last, hash, first))
    } else {
        Seq::empty()
    };
    (quick + deep + last, table_last)
}

/// The line that names the engine and its author.
pub open spec fn id_line() -> Seq<char> {
    "id name "@ + "RICE"@ + " author "@ + "Parker White"@
}

/// Does what a line asks for, and answers. `uci` names the engine and is
/// answered with `uciok`; `isready` is answered with `readyok`; `position`
/// sets the game to the position wanted, or complains and leaves the game;
/// `go` answers the first move for `nothink`, then the best move found by
/// a search for `depth` and a number, then that for `infinite`;
/// `printgame` gives the game as text; `quit` asks to end. Any other line
/// is passed over.
pub fn handle_line(engine: &mut Engine, move_data: &AllMoveData, hashes: &ZobristHashes, line: &str) -> (reply:
    Reply)
    requires
        old(engine).valid(),
        move_data@.wf(),
        hashes@.wf(),
    ensures
        final(engine).valid(),
        reply.quit == (kind_of(fields(line@)) == CommandKind::Quit),
        match kind_of(fields(line@)) {
            CommandKind::Uci => {
                &&& reply.lines@.len() == 2
                &&& reply.lines@[0]@ == id_line()
                &&& reply.lines@[1]@ == "uciok"@
                &&& reply.complaints@.len() == 0
            },
            CommandKind::IsReady => {
                &&& reply.lines@.len() == 1
                &&& reply.lines@[0]@ == "readyok"@
                &&& reply.complaints@.len() == 0
            },
            CommandKind::Position => reply.lines@.len() == 0 && match position_wanted(
                fields(line@),
                move_data@,
            ) {
                Ok(p) => {
                    &&& final(engine).position() == p
                    &&& final(engine).tables() == move_data@
                    &&& final(engine).keys() == hashes@
                    &&& reply.complaints@.len() == 0
                },
                Err(complaint) => {
                    &&& reply.complaints@.len() == 1
                    &&& reply.complaints@[0]@ == complaint
                },
            },
            CommandKind::Go => {
                let wanted = go_reply(
                    fields(line@),
                    old(engine).position(),
                    old(engine).tables(),
                    old(engine).keys(),
                    old(engine).hash_value(),
                    slots(old(engine).table()@),
                );
                &&& reply.complaints@.len() == 0
                &&& string_views(reply.lines@) == wanted.0
                &&& slots(final(engine).table()@) == wanted.1
            },
            CommandKind::PrintGame => {
                &&& reply.lines@.len() == 1
                &&& reply.lines@[0]@ == crate::move_generation::describing::position_text(
                    old(engine).position(),
                )
                &&& reply.complaints@.len() == 0
            },
            CommandKind::Quit => reply.lines@.len() == 0 && reply.complaints@.len() == 0,
            CommandKind::Ignored => reply.lines@.len() == 0 && reply.complaints@.len() == 0,
        },
        kind_of(fields(line@)) != CommandKind::Position || position_wanted(
            fields(line@),
            move_data@,
        ) is Err ==> {
            &&& final(engine).position() == old(engine).position()
            &&& final(engine).tables() == old(engine).tables()
            &&& final(engine).hash_value() == old(engine).hash_value()
            &&& final(engine).history_len() == old(engine).history_len()
            &&& final(engine).keys() == old(engine).keys()
        },
        kind_of(fields(line@)) != CommandKind::Go ==> final(engine).table() == old(engine).table(),
{
    let text = chars_of(line);
    let tokens = split_fields(&text);
    let mut reply = Reply { lines: Vec::new(), complaints: Vec::new(), quit: false };
    match command_kind(&tokens) {
        CommandKind::Uci => {
            let (name, author) = engine.get_id_info();
            let mut id: Vec<char> = Vec::new();
            push_str(&mut id, "id name ");
            push_str(&mut id, name);
            push_str(&mut id, " author ");
            push_str(&mut id, author);
            assert(id@ =~= id_line());
            reply.lines.push(string_of(&id));
            reply.lines.push(String::from_str("uciok"));
        },
        CommandKind::IsReady => {
            reply.lines.push(String::from_str("readyok"));
        },
        CommandKind::Position => {
            match position_asked(&tokens, move_data, hashes) {
                Ok(game) => {
                    engine.set_game(game);
                },
                Err(message) => {
                    reply.complaints.push(message);
                },
            }
        },
        CommandKind::Go => {
            let ghost first = engine.first_move();
            let ghost hash = engine.hash_value();
            assert(string_views(reply.lines@) =~= Seq::<Seq<char>>::empty());
            if find_word(&tokens, "nothink") < tokens.len() {
                if let Some(m) = engine.get_move() {
                    reply.lines.push(best_move_text(&m));
                }
            }
            let ghost quick = string_views(reply.lines@);
            assert(quick =~= if go_asks(fields(line@), "nothink"@) {
                answer(first)
            } else {
                Seq::<Seq<char>>::empty()
            });
            if let Some(depth) = read_depth(&tokens) {
                engine.search_to_depth(depth);
                if let Some(m) = engine.get_best_found_move() {
                    reply.lines.push(best_move_text(&m));
                }
            }
            let ghost table_then = slots(engine.table()@);
            let ghost deep = string_views(reply.lines@);
            assert(deep =~= quick + if depth_asked(fields(line@)) is Some {
                answer(best_of(table_then, hash, first))
            } else {
                Seq::<Seq<char>>::empty()
            });
            if find_word(&tokens, "infinite") < tokens.len() {
                engine.search_to_depth(DEFAULT_DEPTH);
                if let Some(m) = engine.get_best_found_move() {
                    reply.lines.push(best_move_text(&m));
                }
            }
            assert(string_views(reply.lines@) =~= deep + if go_asks(fields(line@), "infinite"@) {
                answer(best_of(slots(engine.table()@), hash, first))
            } else {
                Seq::<Seq<char>>::empty()
            });
        },
        CommandKind::PrintGame => {
            reply.lines.push(engine.game_string());
        },
        CommandKind::Quit => {
            reply.quit = true;
        },
        CommandKind::Ignored => {},
    }
    reply
}

/// What a move counts in a division of depth `depth`: the leaves of depth
/// `depth - 1` below the position that it leads to; nothing at depth 0.
pub open spec fn leaves_below(p: Position, t: MoveTables, m: Move, depth: nat) -> u64 {
    if depth > 0 {
        saturated(perft(p.make(m), t, (depth - 1) as nat))
    } else {
        0
    }
}

/// The line of a move in a division: the move, a space, and what the move
/// counts.
pub open spec fn divide_line(p: Position, t: MoveTables, m: Move, depth: nat) -> Seq<char> {
    crate::text::move_text(m) + seq![' '] + crate::text::digits(
        leaves_below(p, t, m, depth) as int,
        10,
    )
}

/// The lines of a division of depth `depth`: one for each of `moves` that
/// the position accepts, in their order.
pub open spec fn divide_lines(p: Position, t: MoveTables, moves: Seq<Move>, depth: nat) -> Seq<
    Seq<char>,
>
    decreases moves.len(),
{
    if moves.len() == 0 {
        Seq::empty()
    } else if p.accepts(moves.last()) {
        divide_lines(p, t, moves.drop_last(), depth).push(divide_line(p, t, moves.last(), depth))
    } else {
        divide_lines(p, t, moves.drop_last(), depth)
    }
}

/// The leaves of the tree of moves of depth `depth` below `game`, counted
/// by first move: for every generated move that the position accepts, in
/// the generator's order, a line with the move and the number of leaves of
/// depth `depth - 1` below it; and the sum of those numbers. At depth 0
/// every move counts nothing. Without a king of the side to move there is
/// no line. The game is left as it was.
pub fn perft_divide(depth: u32, game: &mut Game) -> (r: (Vec<String>, u64))
    requires
        old(game).valid(),
    ensures
        final(game).valid(),
        final(game)@ == old(game)@,
        final(game).hash_value() == old(game).hash_value(),
        final(game).history_view() == old(game).history_view(),
        final(game).tables() == old(game).tables(),
        string_views(r.0@) == if old(game)@.has_king() {
            divide_lines(
                old(game)@,
                old(game).tables(),
                old(game)@.moves(old(game).tables()),
                depth as nat,
            )
        } else {
            Seq::<Seq<char>>::empty()
        },
        r.1 == if depth > 0 && old(game)@.has_king() {
            saturated(
                crate::perft::perft_over(
                    old(game)@,
                    old(game).tables(),
                    old(game)@.moves(old(game).tables()),
                    (depth - 1) as nat,
                ),
            )
        } else {
            0
        },
{
    let mut lines: Vec<String> = Vec::new();
    let mut total_nodes: u64 = 0;
    proof {
        game.lemma_layout_of_view();
    }
    if !game.king_present() {
        assert(string_views(lines@) =~= Seq::<Seq<char>>::empty());
        return (lines, total_nodes);
    }
    let ghost p = game@;
    let ghost t = game.tables();
    let ghost h = game.hash_value();
    let ghost trail = game.history_view();
    let mut move_options: Vec<EncodedMove> = Vec::new();
    game.generate_moves(&mut move_options);
    let ghost all = crate::generation::views(move_options@);
    assert(all =~= p.moves(t));
    let mut i: usize = 0;
    assert(all.take(0) =~= Seq::<Move>::empty());
    assert(string_views(lines@) =~= divide_lines(p, t, all.take(0), depth as nat));
    while i < move_options.len()
        invariant
            i <= move_options.len(),
            game.valid(),
            game@ == p,
            game.tables() == t,
            game.hash_value() == h,
            game.history_view() == trail,
            all == crate::generation::views(move_options@),
            string_views(lines@) == divide_lines(p, t, all.take(i as int), depth as nat),
            depth > 0 ==> total_nodes == saturated(
                crate::perft::perft_over(p, t, all.take(i as int), (depth - 1) as nat),
            ),
            depth == 0 ==> total_nodes == 0,
        decreases move_options.len() - i,
    {
        let game_move = move_options[i];
        let mut move_nodes: u64 = 0;
        let ghost before = string_views(lines@);
        proof {
            assert(all.take(i + 1).drop_last() =~= all.take(i as int));
            assert(all.take(i + 1).last() == game_move@);
            game.lemma_boards();
        }
        if game.accepts_move(&game_move) {
            if depth > 0 {
                game.make_move(&game_move);
                move_nodes = count_nodes(depth - 1, game);
                game.unmake_move();
                proof {
                    crate::position::lemma_make_unmake(p, game_move@, h);
                    assert(game.history_view() =~= trail);
                }
            }
            assert(move_nodes == leaves_below(p, t, game_move@, depth as nat));
            total_nodes = total_nodes.saturating_add(move_nodes);
            let mut line: Vec<char> = Vec::new();
            push_move(&mut line, &game_move);
            line.push(' ');
            push_number(&mut line, move_nodes, 10);
            assert(line@ =~= divide_line(p, t, game_move@, depth as nat));
            lines.push(string_of(&line));
            assert(string_views(lines@) =~= before.push(
                divide_line(p, t, game_move@, depth as nat),
            ));
        }
        i += 1;
    }
    assert(all.take(move_options.len() as int) =~= all);
    (lines, total_nodes)
}

} // verus!
