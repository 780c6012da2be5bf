//! The order in which the search tries moves.

use crate::engine::eval_data::{material_weight, mobility_weight, EvalData};
use crate::generation::views;
use crate::move_encoding::{EncodedMove, Move};
use vstd::prelude::*;
use vstd::seq_lib::{to_multiset_build, to_multiset_insert};

verus! {

/// Sorts moves so that the more promising come first.
pub struct MoveSorter;

/// The promise of a move: a capture scores 10000 and the material weight
/// of what it takes, less the mobility weight of what takes; a castle or
/// a promotion scores 5000 more; any other move scores nothing.
pub open spec fn move_score(m: Move) -> int {
    (match m.capture {
        Some(captured) => 10000 + (material_weight(captured) - mobility_weight(m.piece_moved)),
        None => 0,
    }) + if m.castle || m.promoted_piece is Some {
        5000int
    } else {
        0int
    }
}

/// Whether the moves stand in descending order of their promise.
pub open spec fn descending(moves: Seq<EncodedMove>) -> bool {
    forall|a: int, b: int|
        0 <= a < b < moves.len() ==> move_score(moves[a]@) >= move_score(moves[b]@)
}

/// Where a move of promise `score` goes into `moves`: before the first
/// move whose promise is below `score`, or at the end.
pub open spec fn place_of(moves: Seq<Move>, score: int) -> int
    decreases moves.len(),
{
    if moves.len() == 0 {
        0
    } else if move_score(moves[0]) < score {
        0
    } else {
        1 + place_of(moves.drop_first(), score)
    }
}

/// The first `n` of `moves` in descending order of their promise, moves
/// of equal promise in the order in which they stand in `moves`.
pub open spec fn ordered_upto(moves: Seq<Move>, n: nat) -> Seq<Move>
    decreases n,
{
    if n == 0 {
        Seq::empty()
    } else {
        let before = ordered_upto(moves, (n - 1) as nat);
        before.insert(place_of(before, move_score(moves[n - 1])), moves[n - 1])
    }
}

/// The moves in descending order of their promise, moves of equal promise
/// in the order in which they stand.
pub open spec fn ordered(moves: Seq<Move>) -> Seq<Move> {
    ordered_upto(moves, moves.len())
}

/// The place of a move is behind every move that promises no less and
/// before one that promises less.
proof fn lemma_place(moves: Seq<Move>, score: int, j: int)
    requires
        0 <= j <= moves.len(),
        forall|k: int| 0 <= k < j ==> move_score(moves[k]) >= score,
        j < moves.len() ==> move_score(moves[j]) < score,
    ensures
        place_of(moves, score) == j,
    decreases j,
{
    if j > 0 {
        let rest = moves.drop_first();
        assert forall|k: int| 0 <= k < j - 1 implies move_score(rest[k]) >= score by {
            assert(rest[k] == moves[k + 1]);
        }
        if j < moves.len() {
            assert(rest[j - 1] == moves[j]);
        }
        assert(move_score(moves[0]) >= score);
        lemma_place(rest, score, j - 1);
    }
}

impl MoveSorter {
    /// The moves in descending order of their promise; moves of equal
    /// promise keep their order.
    pub fn sort(moves: Vec<EncodedMove>) -> (sorted: Vec<EncodedMove>)
        ensures
            views(sorted@) == ordered(views(moves@)),
            sorted@.to_multiset() == moves@.to_multiset(),
            sorted.len() == moves.len(),
            descending(sorted@),
    {
        let mut sorted: Vec<EncodedMove> = Vec::new();
        let mut i: usize = 0;
        assert(moves@.take(0) =~= Seq::<EncodedMove>::empty());
        while i < moves.len()
            invariant
                i <= moves.len(),
                sorted.len() == i,
                views(sorted@) == ordered_upto(views(moves@), i as nat),
                sorted@.to_multiset() == moves@.take(i as int).to_multiset(),
                descending(sorted@),
            decreases moves.len() - i,
        {
            let m = moves[i];
            let score = Self::score_move(m);
            let mut j: usize = 0;
            while j < sorted.len() && Self::score_move(sorted[j]) >= score
                invariant
                    j <= sorted.len(),
                    score == move_score(m@),
                    forall|k: int| 0 <= k < j ==> move_score(sorted@[k]@) >= score,
                decreases sorted.len() - j,
            {
                j += 1;
            }
            let ghost before = sorted@;
            proof {
                assert forall|k: int| 0 <= k < j implies move_score(views(before)[k]) >= score by {
                    assert(views(before)[k] == before[k]@);
                }
                lemma_place(views(before), score as int, j as int);
            }
            sorted.insert(j, m);
            proof {
                assert(views(sorted@) =~= views(before).insert(j as int, m@));
                assert(views(moves@)[i as int] == m@);
                to_multiset_insert(before, j as int, m);
                to_multiset_build(moves@.take(i as int), m);
                assert(moves@.take(i + 1) =~= moves@.take(i as int).push(m));
                assert forall|a: int, b: int| 0 <= a < b < sorted@.len() implies move_score(
                    sorted@[a]@,
                ) >= move_score(sorted@[b]@) by {
                    if a < j && b > j {
                        assert(sorted@[a] == before[a] && sorted@[b] == before[b - 1]);
                    } else if a < j && b < j {
                        assert(sorted@[a] == before[a] && sorted@[b] == before[b]);
                    } else if a > j {
                        assert(sorted@[a] == before[a - 1] && sorted@[b] == before[b - 1]);
                    } else if a == j {
                        assert(sorted@[b] == before[b - 1]);
                        assert(move_score(before[j as int]@) < score);
                        if b - 1 > j {
                            assert(move_score(before[j as int]@) >= move_score(before[b - 1]@));
                        }
                    }
                }
            }
            i += 1;
        }
        assert(moves@.take(moves.len() as int) =~= moves@);
        sorted
    }

    pub fn score_move(m: EncodedMove) -> (total_score: i32)
        ensures
            total_score == move_score(m@),
    {
        let mut total_score: i32 = 0;

        if let Some(captured_piece) = m.capture() {
            let moved_piece = m.piece_moved();
            let capture_value = EvalData::material_value(captured_piece);
            let moved_value = EvalData::mobility_value(moved_piece);

            total_score += 10_000 + (capture_value - moved_value);
        }
        if m.castle() || m.promoted_piece().is_some() {
            total_score += 5_000;
        }
        total_score
    }
}

} // verus!
