//! What the list of generated moves is known to hold: where the moves of a
//! piece land, and that no step of the king lands on a danger square.

use crate::bits::{bit, group_bits, lemma_without_lowest, without_lowest};
use crate::common::Pieces;
use crate::generation::{concat_over, squares_of, Layout};
use crate::move_encoding::Move;
use crate::tables::MoveTables;
use vstd::prelude::*;

verus! {

/// The squares of a word are its members, each below 64.
pub proof fn lemma_squares_are_members(x: u64)
    ensures
        forall|i: int|
            0 <= i < squares_of(x).len() ==> bit(x, #[trigger] squares_of(x)[i]),
    decreases x,
{
    broadcast use group_bits;

    if x != 0 {
        lemma_without_lowest(x);
        crate::bits::lemma_lowest(x);
        lemma_squares_are_members(without_lowest(x));
        let rest = squares_of(without_lowest(x));
        assert forall|i: int| 0 <= i < squares_of(x).len() implies bit(
            x,
            #[trigger] squares_of(x)[i],
        ) by {
            if i > 0 {
                assert(squares_of(x)[i] == rest[i - 1]);
                assert(bit(without_lowest(x), rest[i - 1]));
            }
        }
    }
}

/// Whether `m` is a move of the piece of kind `piece` on `source` to a
/// member of `targets`, with the castle flag `castle`.
pub open spec fn lands_in(m: Move, source: u8, targets: u64, piece: Pieces, castle: bool) -> bool {
    m.source_square == source && bit(targets, m.target_square) && m.piece_moved == piece
        && m.castle == castle
}

proof fn lemma_concat_lands(
    l: Layout,
    t: MoveTables,
    squares: Seq<u8>,
    source: u8,
    targets: u64,
    piece: Pieces,
    castle: bool,
)
    requires
        forall|i: int| 0 <= i < squares.len() ==> bit(targets, #[trigger] squares[i]),
    ensures
        forall|k: int|
            0 <= k < concat_over(squares, l.moves_to_fn(t, source, piece, castle)).len()
                ==> lands_in(
                #[trigger] concat_over(squares, l.moves_to_fn(t, source, piece, castle))[k],
                source,
                targets,
                piece,
                castle,
            ),
    decreases squares.len(),
{
    if squares.len() > 0 {
        lemma_concat_lands(l, t, squares.drop_last(), source, targets, piece, castle);
        let before = concat_over(squares.drop_last(), l.moves_to_fn(t, source, piece, castle));
        let last = l.moves_to(t, source, squares.last(), piece, castle);
        assert(bit(targets, squares[squares.len() - 1]));
        assert forall|k: int|
            0 <= k < concat_over(squares, l.moves_to_fn(t, source, piece, castle)).len() implies lands_in(
            #[trigger] concat_over(squares, l.moves_to_fn(t, source, piece, castle))[k],
            source,
            targets,
            piece,
            castle,
        ) by {
            if k >= before.len() {
                assert(concat_over(squares, l.moves_to_fn(t, source, piece, castle))[k] == last[k
                    - before.len()]);
            } else {
                assert(concat_over(squares, l.moves_to_fn(t, source, piece, castle))[k]
                    == before[k]);
            }
        }
    }
}

/// Every move of a piece to the members of `targets` starts on the piece's
/// square and lands on a member of `targets`.
pub proof fn lemma_moves_land_in_targets(
    l: Layout,
    t: MoveTables,
    source: u8,
    targets: u64,
    piece: Pieces,
    castle: bool,
)
    ensures
        forall|k: int|
            0 <= k < l.moves_from(t, source, targets, piece, castle).len() ==> lands_in(
                #[trigger] l.moves_from(t, source, targets, piece, castle)[k],
                source,
                targets,
                piece,
                castle,
            ),
{
    lemma_squares_are_members(targets);
    lemma_concat_lands(l, t, squares_of(targets), source, targets, piece, castle);
}

/// No step of the king lands on a square that the other side attacks once
/// the king is lifted off the board, nor on a square that its own side
/// occupies; and every step lands on a square that the king attacks.
pub proof fn lemma_king_steps_avoid_danger(l: Layout, t: MoveTables)
    ensures
        forall|k: int|
            0 <= k < l.king_moves(t).len() ==> {
                let m = #[trigger] l.king_moves(t)[k];
                &&& m.source_square == l.king_square()
                &&& m.piece_moved == Pieces::KING
                &&& !m.castle
                &&& !bit(l.danger(t), m.target_square)
                &&& !bit(l.own(), m.target_square)
                &&& bit(
                    t.attacks(l.king_square() as int, Pieces::KING, l.side, l.both()),
                    m.target_square,
                )
            },
{
    broadcast use group_bits;

    lemma_moves_land_in_targets(l, t, l.king_square(), l.king_targets(t), Pieces::KING, false);
    assert forall|k: int| 0 <= k < l.king_moves(t).len() implies {
        let m = #[trigger] l.king_moves(t)[k];
        &&& m.source_square == l.king_square()
        &&& m.piece_moved == Pieces::KING
        &&& !m.castle
        &&& !bit(l.danger(t), m.target_square)
        &&& !bit(l.own(), m.target_square)
        &&& bit(t.attacks(l.king_square() as int, Pieces::KING, l.side, l.both()), m.target_square)
    } by {
        let m = l.king_moves(t)[k];
        assert(lands_in(m, l.king_square(), l.king_targets(t), Pieces::KING, false));
        assert(m.target_square < 64);
    }
}

/// Every castle is a move of the king from its square to one of the
/// castle targets, with the castle flag set.
pub proof fn lemma_castles_start_at_the_king(l: Layout, t: MoveTables)
    ensures
        forall|k: int|
            0 <= k < l.castle_moves(t).len() ==> {
                let m = #[trigger] l.castle_moves(t)[k];
                &&& m.source_square == l.king_square()
                &&& m.piece_moved == Pieces::KING
                &&& m.castle
                &&& bit(l.castle_targets(t), m.target_square)
            },
{
    lemma_moves_land_in_targets(l, t, l.king_square(), l.castle_targets(t), Pieces::KING, true);
    assert forall|k: int| 0 <= k < l.castle_moves(t).len() implies {
        let m = #[trigger] l.castle_moves(t)[k];
        &&& m.source_square == l.king_square()
        &&& m.piece_moved == Pieces::KING
        &&& m.castle
        &&& bit(l.castle_targets(t), m.target_square)
    } by {
        let m = l.castle_moves(t)[k];
        assert(lands_in(m, l.king_square(), l.castle_targets(t), Pieces::KING, true));
    }
}

} // verus!
