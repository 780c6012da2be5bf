//! What the search computes, as a function of the position, the tables,
//! the keys and the table of positions that it starts with.

use crate::engine::move_heuristics::ordered;
use crate::engine::transposition_table::{found, slot_of_hash, Bound, TranspositionEntry};
use crate::engine::{evaluation, retrieved_score, stored_score, QUIESCENCE_PLIES};
use crate::generation::GameState;
use crate::move_encoding::Move;
use crate::position::Position;
use crate::score::Score;
use crate::tables::{Keys, MoveTables};
use vstd::prelude::*;

verus! {

/// What a slot of the table of positions says: an entry, with its best
/// move as a record.
pub struct Slot {
    pub hash: u64,
    pub depth: u8,
    pub score: Score,
    pub bound: Bound,
    pub best_move: Option<Move>,
}

/// What an entry says.
pub open spec fn slot_of(entry: TranspositionEntry) -> Slot {
    Slot {
        hash: entry.hash,
        depth: entry.depth,
        score: entry.score,
        bound: entry.bound,
        best_move: move_view(entry.best_move),
    }
}

/// What an optional move says.
pub open spec fn move_view(m: Option<crate::move_encoding::EncodedMove>) -> Option<Move> {
    match m {
        Some(m) => Some(m@),
        None => None,
    }
}

/// What the slots of a table say.
pub open spec fn slots(table: Seq<Option<TranspositionEntry>>) -> Seq<Option<Slot>> {
    Seq::new(
        table.len(),
        |i: int|
            match table[i] {
                Some(entry) => Some(slot_of(entry)),
                None => None,
            },
    )
}

/// What a lookup finds: the slot of the hash, if it holds an entry of that
/// hash searched to at least `depth`.
pub open spec fn found_slot(table: Seq<Option<Slot>>, hash: u64, depth: u8) -> Option<Slot> {
    match table[slot_of_hash(table.len(), hash)] {
        Some(slot) => if slot.depth >= depth && slot.hash == hash {
            Some(slot)
        } else {
            None
        },
        None => None,
    }
}

/// A lookup finds in the slots what it finds in the table.
pub proof fn lemma_found_slot(table: Seq<Option<TranspositionEntry>>, hash: u64, depth: u8)
    requires
        table.len() > 0,
    ensures
        found_slot(slots(table), hash, depth) == match found(table, hash, depth) {
            Some(entry) => Some(slot_of(entry)),
            None => None,
        },
{
    assert(0 <= slot_of_hash(table.len(), hash) < table.len());
}

/// The greater of two scores; the first if they are equal.
pub open spec fn higher(a: Score, b: Score) -> Score {
    if b.key() > a.key() {
        b
    } else {
        a
    }
}

/// The lesser of two scores; the first if they are equal.
pub open spec fn lower(a: Score, b: Score) -> Score {
    if b.key() < a.key() {
        b
    } else {
        a
    }
}

/// The window of a search after the table of positions has been asked:
/// its two ends, and the score if the table settles the search.
pub struct Window {
    pub alpha: Score,
    pub beta: Score,
    pub settled: Option<Score>,
}

/// The window from `alpha` to `beta` after a lookup that found `hit`: an
/// exact score settles the search; a lower bound raises `alpha` and an
/// upper bound lowers `beta`, and settles the search if the window is then
/// empty. A score that cannot be used at `ply` changes nothing.
pub open spec fn window_after(hit: Option<Slot>, ply: u32, alpha: Score, beta: Score) -> Window {
    match hit {
        Some(slot) => match retrieved_score(slot.score, ply) {
            Some(score) => {
                let a = if slot.bound == Bound::Lower {
                    higher(alpha, score)
                } else {
                    alpha
                };
                let b = if slot.bound == Bound::Upper {
                    lower(beta, score)
                } else {
                    beta
                };
                Window {
                    alpha: a,
                    beta: b,
                    settled: if slot.bound == Bound::Exact || a.key() >= b.key() {
                        Some(score)
                    } else {
                        None
                    },
                }
            },
            None => Window { alpha, beta, settled: None },
        },
        None => Window { alpha, beta, settled: None },
    }
}

/// Whether the quiescence tries a move: it captures, promotes or castles,
/// and the position accepts it.
pub open spec fn loud(p: Position, m: Move) -> bool {
    (m.capture is Some || m.promoted_piece is Some || m.castle) && p.accepts(m)
}

/// The score of the quiescence of `p` with `budget` plies left, at `ply`,
/// within the window from `alpha` to `beta`: a mate suffered at `ply`
/// without a king or when mated, a draw when drawn; else the evaluation of
/// the position, raised by what its loud moves reach.
pub open spec fn quiet_value(
    p: Position,
    t: MoveTables,
    budget: u8,
    ply: u32,
    alpha: Score,
    beta: Score,
) -> Score
    decreases budget, 1nat, 0nat,
{
    if !p.has_king() {
        Score::Checkmate((false, ply))
    } else {
        match p.state(t) {
            GameState::Checkmate => Score::Checkmate((false, ply)),
            GameState::Draw => Score::Draw,
            GameState::Normal => {
                let stand_pat = Score::Playing(evaluation(p, t) as i32);
                if budget == 0 || stand_pat.key() >= beta.key() {
                    stand_pat
                } else {
                    quiet_from(
                        p,
                        t,
                        ordered(p.moves(t)),
                        0,
                        budget,
                        ply,
                        higher(alpha, stand_pat),
                        beta,
                        stand_pat,
                    )
                }
            },
        }
    }
}

/// The score of the quiescence once the moves before index `i` have been
/// tried, with `best` the best score so far and `alpha` the lower end of
/// the window as they have raised it.
pub open spec fn quiet_from(
    p: Position,
    t: MoveTables,
    moves: Seq<Move>,
    i: nat,
    budget: u8,
    ply: u32,
    alpha: Score,
    beta: Score,
    best: Score,
) -> Score
    decreases budget, 0nat, moves.len() - i,
{
    if i >= moves.len() || budget == 0 {
        best
    } else if !loud(p, moves[i as int]) {
        quiet_from(p, t, moves, i + 1, budget, ply, alpha, beta, best)
    } else {
        let score = quiet_value(
            p.make(moves[i as int]),
            t,
            (budget - 1) as u8,
            (ply + 1) as u32,
            beta.negated(),
            alpha.negated(),
        ).negated();
        if higher(alpha, score).key() >= beta.key() {
            higher(best, score)
        } else {
            quiet_from(
                p,
                t,
                moves,
                i + 1,
                budget,
                ply,
                higher(alpha, score),
                beta,
                higher(best, score),
            )
        }
    }
}

/// What a search leaves: the best score, the move that reached it, and
/// the table of positions.
pub struct Found {
    pub best: Score,
    pub best_move: Option<Move>,
    pub table: Seq<Option<Slot>>,
}

/// What the search of `p` to `depth` plies at `ply`, within the window
/// from `alpha` to `beta`, returns and leaves in the table of positions.
/// The table is asked first; at depth 0 the quiescence answers; a
/// position without a king or mated is a mate suffered at `ply`, a drawn
/// one a draw; else the moves are tried in the order of their promise,
/// and the result is stored: as an upper bound if it is not above
/// `alpha`, as a lower bound if it is not below the upper end of the
/// window, else as exact.
pub open spec fn search_value(
    p: Position,
    t: MoveTables,
    keys: Keys,
    table: Seq<Option<Slot>>,
    depth: u8,
    ply: u32,
    alpha: Score,
    beta: Score,
) -> (Score, Seq<Option<Slot>>)
    decreases depth, 1nat, 0nat,
{
    let hash = p.hash(keys);
    let window = window_after(found_slot(table, hash, depth), ply, alpha, beta);
    if window.settled is Some {
        (window.settled->0, table)
    } else if depth == 0 {
        (quiet_value(p, t, QUIESCENCE_PLIES, ply, window.alpha, window.beta), table)
    } else if !p.has_king() {
        (Score::Checkmate((false, ply)), table)
    } else {
        match p.state(t) {
            GameState::Checkmate => (Score::Checkmate((false, ply)), table),
            GameState::Draw => (Score::Draw, table),
            GameState::Normal => {
                let found = search_from(
                    p,
                    t,
                    keys,
                    ordered(p.moves(t)),
                    0,
                    depth,
                    ply,
                    window.alpha,
                    window.beta,
                    Found { best: Score::Checkmate((false, 0)), best_move: None, table },
                );
                let bound = if found.best.key() <= alpha.key() {
                    Bound::Upper
                } else if found.best.key() >= window.beta.key() {
                    Bound::Lower
                } else {
                    Bound::Exact
                };
                (
                    found.best,
                    found.table.update(
                        slot_of_hash(found.table.len(), hash),
                        Some(
                            Slot {
                                hash,
                                depth,
                                score: stored_score(found.best, ply),
                                bound,
                                best_move: found.best_move,
                            },
                        ),
                    ),
                )
            },
        }
    }
}

/// What the search leaves once the moves before index `i` have been
/// tried, with `so_far` what they have left and `alpha` the lower end of
/// the window as they have raised it. A move that the position does not
/// accept is passed over; the search ends when the window is empty.
pub open spec fn search_from(
    p: Position,
    t: MoveTables,
    keys: Keys,
    moves: Seq<Move>,
    i: nat,
    depth: u8,
    ply: u32,
    alpha: Score,
    beta: Score,
    so_far: Found,
) -> Found
    decreases depth, 0nat, moves.len() - i,
{
    if i >= moves.len() || depth == 0 {
        so_far
    } else if !p.accepts(moves[i as int]) {
        search_from(p, t, keys, moves, i + 1, depth, ply, alpha, beta, so_far)
    } else {
        let below = search_value(
            p.make(moves[i as int]),
            t,
            keys,
            so_far.table,
            (depth - 1) as u8,
            (ply + 1) as u32,
            beta.negated(),
            alpha.negated(),
        );
        let score = below.0.negated();
        let next = Found {
            best: higher(so_far.best, score),
            best_move: if score.key() > so_far.best.key() {
                Some(moves[i as int])
            } else {
                so_far.best_move
            },
            table: below.1,
        };
        if higher(alpha, score).key() >= beta.key() {
            next
        } else {
            search_from(p, t, keys, moves, i + 1, depth, ply, higher(alpha, score), beta, next)
        }
    }
}

/// The best move that a table of positions holds for the position of hash
/// `hash`; `first` if it holds none.
pub open spec fn best_of(table: Seq<Option<Slot>>, hash: u64, first: Option<Move>) -> Option<Move> {
    match found_slot(table, hash, 0) {
        Some(slot) => match slot.best_move {
            Some(m) => Some(m),
            None => first,
        },
        None => first,
    }
}

/// The first move that the generator emits in `p`, if the side to move
/// has a king and a move.
pub open spec fn first_of(p: Position, t: MoveTables) -> Option<Move> {
    if p.has_king() && p.moves(t).len() > 0 {
        Some(p.moves(t)[0])
    } else {
        None
    }
}

/// The table of positions after a search of `p` to `depth` plies from the
/// first ply, with the widest window.
pub open spec fn searched(
    p: Position,
    t: MoveTables,
    keys: Keys,
    table: Seq<Option<Slot>>,
    depth: u8,
) -> Seq<Option<Slot>> {
    search_value(
        p,
        t,
        keys,
        table,
        depth,
        0,
        Score::Checkmate((false, 0)),
        Score::Checkmate((true, 0)),
    ).1
}

} // verus!
