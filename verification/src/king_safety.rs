//! No step of the king leaves it on a square that the other side attacks in
//! the position after the step.

use crate::accepted::lemma_layout_bits;
use crate::bits::{
    bit, group_bits, lemma_bits_equal, lemma_lowest, lemma_without_lowest, lowest, without_lowest,
};
use crate::common::{Color, Constants, Pieces};
use crate::generation::{attacks_fn, or_over, squares_of, Layout};
use crate::geometry::{
    attack_acc, first_direction, on_board, ray_attacks, relevance_mask, slider_attacks,
    square_word, steps_left,
};
use crate::magic::lemma_lookup_is_ray_walk;
use crate::position::Position;
use crate::precalculator::{computed, slider_computed};
use crate::safety::{lemma_king_steps_avoid_danger, lemma_squares_are_members};
use crate::tables::{MoveTables, SlidingTable};
use vstd::prelude::*;

verus! {

/// Every member of a word is one of its squares.
pub proof fn lemma_members_are_squares(x: u64, i: u8)
    requires
        bit(x, i),
    ensures
        exists|k: int| 0 <= k < squares_of(x).len() && squares_of(x)[k] == i,
    decreases x,
{
    broadcast use group_bits;

    lemma_lowest(x);
    if x != 0 {
        lemma_without_lowest(x);
        if i == lowest(x) {
            assert(squares_of(x)[0] == i);
        } else {
            lemma_members_are_squares(without_lowest(x), i);
            let k = choose|k: int|
                0 <= k < squares_of(without_lowest(x)).len() && squares_of(without_lowest(x))[k]
                    == i;
            assert(squares_of(x)[k + 1] == i);
        }
    }
}

/// The members of a union over squares are those of the start and those
/// that some square gives.
pub proof fn lemma_or_over_bits(acc: u64, squares: Seq<u8>, f: spec_fn(u8) -> u64, x: u8)
    ensures
        bit(or_over(acc, squares, f), x) == (bit(acc, x) || exists|i: int|
            0 <= i < squares.len() && bit(f(#[trigger] squares[i]), x)),
    decreases squares.len(),
{
    broadcast use group_bits;

    if squares.len() > 0 {
        lemma_or_over_bits(acc, squares.drop_last(), f, x);
        let front = squares.drop_last();
        if bit(f(squares.last()), x) {
            assert(bit(f(squares[squares.len() - 1]), x));
        }
        if exists|i: int| 0 <= i < front.len() && bit(f(#[trigger] front[i]), x) {
            let i = choose|i: int| 0 <= i < front.len() && bit(f(#[trigger] front[i]), x);
            assert(bit(f(squares[i]), x));
        }
        if exists|i: int| 0 <= i < squares.len() && bit(f(#[trigger] squares[i]), x) {
            let i = choose|i: int| 0 <= i < squares.len() && bit(f(#[trigger] squares[i]), x);
            if i < squares.len() - 1 {
                assert(bit(f(front[i]), x));
            }
        }
    }
}

/// Whether the piece of `side` of the kind with code `kind` on `source`
/// attacks `x`, with the board occupied as in `occupancy`.
pub open spec fn attacks_from(
    l: Layout,
    t: MoveTables,
    side: Color,
    occupancy: u64,
    kind: int,
    source: u8,
    x: u8,
) -> bool {
    bit(l.pieces[side.code()][kind], source) && bit(
        t.attacks(source as int, Pieces::from_code(kind), side, occupancy),
        x,
    )
}

/// A square is attacked by a side exactly when one of its pieces attacks
/// it.
pub proof fn lemma_attacked_by_bits(
    l: Layout,
    t: MoveTables,
    side: Color,
    occupancy: u64,
    kinds: nat,
    x: u8,
)
    ensures
        bit(l.attacked_by(t, side, occupancy, kinds), x) == exists|kind: int, source: u8|
            0 <= kind < kinds && #[trigger] attacks_from(l, t, side, occupancy, kind, source, x),
    decreases kinds,
{
    broadcast use group_bits;

    if kinds > 0 {
        lemma_attacked_by_bits(l, t, side, occupancy, (kinds - 1) as nat, x);
        let board = l.pieces[side.code()][kinds - 1];
        let f = attacks_fn(t, Pieces::from_code(kinds - 1), side, occupancy);
        let before = l.attacked_by(t, side, occupancy, (kinds - 1) as nat);
        lemma_or_over_bits(before, squares_of(board), f, x);
        lemma_squares_are_members(board);
        if bit(l.attacked_by(t, side, occupancy, kinds), x) {
            if bit(before, x) {
                let (kind, source) = choose|kind: int, source: u8|
                    0 <= kind < kinds - 1 && #[trigger] attacks_from(
                        l,
                        t,
                        side,
                        occupancy,
                        kind,
                        source,
                        x,
                    );
                assert(attacks_from(l, t, side, occupancy, kind, source, x));
            } else {
                let i = choose|i: int|
                    0 <= i < squares_of(board).len() && bit(f(#[trigger] squares_of(board)[i]), x);
                assert(attacks_from(l, t, side, occupancy, kinds - 1, squares_of(board)[i], x));
            }
        }
        if exists|kind: int, source: u8|
            0 <= kind < kinds && #[trigger] attacks_from(l, t, side, occupancy, kind, source, x) {
            let (kind, source) = choose|kind: int, source: u8|
                0 <= kind < kinds && #[trigger] attacks_from(
                    l,
                    t,
                    side,
                    occupancy,
                    kind,
                    source,
                    x,
                );
            if kind < kinds - 1 {
                assert(attacks_from(l, t, side, occupancy, kind, source, x));
            } else {
                lemma_members_are_squares(board, source);
                let i = choose|i: int|
                    0 <= i < squares_of(board).len() && squares_of(board)[i] == source;
                assert(bit(f(squares_of(board)[i]), x));
            }
        }
    }
}

proof fn lemma_blocked(b: u64, i: u8)
    by (bit_vector)
    requires
        i < 64,
    ensures
        ((0u64 | (1u64 << i)) & b != 0) == (b & (1u64 << i) != 0),
{
}

/// A walk stops on a square exactly when the square is occupied.
pub proof fn lemma_blocked_square(b: u64, i: u8)
    requires
        i < 64,
    ensures
        ((0u64 | (1u64 << i)) & b != 0) == bit(b, i),
{
    lemma_blocked(b, i);
}

/// What is joined to `acc` along the walk of a ray stays joined.
proof fn lemma_walk_grows(
    acc: u64,
    file: int,
    rank: int,
    file_dir: int,
    rank_dir: int,
    blocking: u64,
    i: u8,
)
    requires
        bit(acc, i),
    ensures
        bit(attack_acc(acc, file, rank, file_dir, rank_dir, blocking), i),
    decreases steps_left(file, rank, file_dir, rank_dir),
{
    broadcast use group_bits;

    if !on_board(file, rank) || (file_dir == 0 && rank_dir == 0) {
    } else if (0u64 | square_word(file, rank)) & blocking != 0 {
    } else {
        lemma_walk_grows(
            acc | (0u64 | square_word(file, rank)),
            file + file_dir,
            rank + rank_dir,
            file_dir,
            rank_dir,
            blocking,
            i,
        );
    }
}

/// Whether a slider attacks a square does not depend on whether that
/// square is occupied: if the walk of a ray reaches `target` with the board
/// occupied as in `other`, it reaches it with the board occupied as in
/// `blocking`, which differs from `other` on `target` at most.
proof fn lemma_walk_reaches(
    acc: u64,
    file: int,
    rank: int,
    file_dir: int,
    rank_dir: int,
    blocking: u64,
    other: u64,
    target: u8,
)
    requires
        target < 64,
        forall|i: u8| i < 64 && i != target ==> bit(blocking, i) == bit(other, i),
        bit(attack_acc(acc, file, rank, file_dir, rank_dir, other), target),
    ensures
        bit(attack_acc(acc, file, rank, file_dir, rank_dir, blocking), target),
    decreases steps_left(file, rank, file_dir, rank_dir),
{
    broadcast use group_bits;

    if !on_board(file, rank) || (file_dir == 0 && rank_dir == 0) {
    } else {
        let i = (rank * 8 + file) as u8;
        let word = 0u64 | square_word(file, rank);
        lemma_blocked(blocking, i);
        lemma_blocked(other, i);
        assert(bit(word, i));
        if i == target {
            if word & blocking != 0 {
            } else {
                lemma_walk_grows(
                    acc | word,
                    file + file_dir,
                    rank + rank_dir,
                    file_dir,
                    rank_dir,
                    blocking,
                    target,
                );
            }
        } else {
            assert(bit(blocking, i) == bit(other, i));
            if word & other != 0 {
            } else {
                lemma_walk_reaches(
                    acc | word,
                    file + file_dir,
                    rank + rank_dir,
                    file_dir,
                    rank_dir,
                    blocking,
                    other,
                    target,
                );
            }
        }
    }
}

/// Whether a bishop or a rook attacks a square does not depend on whether
/// that square is occupied.
pub proof fn lemma_slider_reaches(piece: u8, square: int, blocking: u64, other: u64, target: u8)
    requires
        target < 64,
        forall|i: u8| i < 64 && i != target ==> bit(blocking, i) == bit(other, i),
        bit(slider_attacks(piece, square, other), target),
    ensures
        bit(slider_attacks(piece, square, blocking), target),
{
    broadcast use group_bits;

    let (fd, rd) = first_direction(piece);
    let file = square % 8;
    let rank = square / 8;
    if bit(ray_attacks(square, fd, rd, other), target) {
        lemma_walk_reaches(0, file + fd, rank + rd, fd, rd, blocking, other, target);
    }
    if bit(ray_attacks(square, -fd, -rd, other), target) {
        lemma_walk_reaches(0, file - fd, rank - rd, -fd, -rd, blocking, other, target);
    }
    if bit(ray_attacks(square, -rd, fd, other), target) {
        lemma_walk_reaches(0, file - rd, rank + fd, -rd, fd, blocking, other, target);
    }
    if bit(ray_attacks(square, rd, -fd, other), target) {
        lemma_walk_reaches(0, file + rd, rank - fd, rd, -fd, blocking, other, target);
    }
}

/// Looking up any occupancy in a computed table gives what the slider
/// attacks when only the relevant squares of the occupancy are occupied.
pub proof fn lemma_lookup_any(piece: u8, t: SlidingTable, square: int, occupancy: u64)
    requires
        slider_computed(piece, t),
        0 <= square < 64,
    ensures
        t.lookup(square, occupancy) == slider_attacks(
            piece,
            square,
            occupancy & relevance_mask(piece, square),
        ),
{
    broadcast use group_bits;

    let mask = relevance_mask(piece, square);
    let relevant = occupancy & mask;
    assert(t.masks[square] == mask);
    assert forall|i: u8| i < 64 implies bit(relevant & !mask, i) == bit(0u64, i) by {}
    lemma_bits_equal(relevant & !mask, 0);
    assert forall|i: u8| i < 64 implies bit(relevant & mask, i) == bit(relevant, i) by {}
    lemma_bits_equal(relevant & mask, relevant);
    lemma_lookup_is_ray_walk(piece, t, square, relevant);
}

/// Whether a table slider attacks a square does not depend on whether that
/// square is occupied.
proof fn lemma_lookup_reaches(
    piece: u8,
    t: SlidingTable,
    square: int,
    blocking: u64,
    other: u64,
    target: u8,
)
    requires
        slider_computed(piece, t),
        0 <= square < 64,
        target < 64,
        forall|i: u8| i < 64 && i != target ==> bit(blocking, i) == bit(other, i),
        bit(t.lookup(square, other), target),
    ensures
        bit(t.lookup(square, blocking), target),
{
    broadcast use group_bits;

    let mask = relevance_mask(piece, square);
    lemma_lookup_any(piece, t, square, blocking);
    lemma_lookup_any(piece, t, square, other);
    assert forall|i: u8| i < 64 && i != target implies bit(blocking & mask, i) == bit(
        other & mask,
        i,
    ) by {
        assert(bit(blocking, i) == bit(other, i));
    }
    lemma_slider_reaches(piece, square, blocking & mask, other & mask, target);
}

/// Whether a piece attacks a square, by the computed tables, does not
/// depend on whether that square is occupied.
pub proof fn lemma_attacks_reach(
    t: MoveTables,
    source: u8,
    piece: Pieces,
    side: Color,
    blocking: u64,
    other: u64,
    target: u8,
)
    requires
        computed(t),
        source < 64,
        target < 64,
        forall|i: u8| i < 64 && i != target ==> bit(blocking, i) == bit(other, i),
        bit(t.attacks(source as int, piece, side, other), target),
    ensures
        bit(t.attacks(source as int, piece, side, blocking), target),
{
    broadcast use group_bits;

    match piece {
        Pieces::BISHOP => {
            lemma_lookup_reaches(Constants::_BISHOP, t.bishop, source as int, blocking, other, target);
        },
        Pieces::ROOK => {
            lemma_lookup_reaches(Constants::_ROOK, t.rook, source as int, blocking, other, target);
        },
        Pieces::QUEEN => {
            if bit(t.bishop.lookup(source as int, other), target) {
                lemma_lookup_reaches(
                    Constants::_BISHOP,
                    t.bishop,
                    source as int,
                    blocking,
                    other,
                    target,
                );
            }
            if bit(t.rook.lookup(source as int, other), target) {
                lemma_lookup_reaches(
                    Constants::_ROOK,
                    t.rook,
                    source as int,
                    blocking,
                    other,
                    target,
                );
            }
        },
        _ => {},
    }
}

/// Whether the side to move has no king but the one that the generator
/// moves.
pub open spec fn one_king(p: Position) -> bool {
    forall|i: int|
        0 <= i < 64 && #[trigger] p.squares[i] == Some((p.side, Pieces::KING)) ==> i
            == p.layout().king_square()
}

/// No step of the king that the generator emits in a sound position, with
/// the computed tables, leaves the king on a square that the other side
/// attacks in the position after the step.
pub proof fn lemma_king_steps_are_safe(p: Position, t: MoveTables)
    requires
        p.sound(),
        computed(t),
        one_king(p),
    ensures
        forall|k: int|
            0 <= k < p.layout().king_moves(t).len() ==> !bit(
                p.make(#[trigger] p.layout().king_moves(t)[k]).layout().attacked_by(
                    t,
                    p.side.other(),
                    p.make(p.layout().king_moves(t)[k]).layout().both(),
                    6,
                ),
                p.layout().king_moves(t)[k].target_square,
            ),
{
    assert forall|k: int| 0 <= k < p.layout().king_moves(t).len() implies !bit(
        p.make(#[trigger] p.layout().king_moves(t)[k]).layout().attacked_by(
            t,
            p.side.other(),
            p.make(p.layout().king_moves(t)[k]).layout().both(),
            6,
        ),
        p.layout().king_moves(t)[k].target_square,
    ) by {
        lemma_king_step_is_safe(p, t, k);
    }
}

proof fn lemma_king_step_is_safe(p: Position, t: MoveTables, k: int)
    requires
        p.sound(),
        computed(t),
        one_king(p),
        0 <= k < p.layout().king_moves(t).len(),
    ensures
        !bit(
            p.make(p.layout().king_moves(t)[k]).layout().attacked_by(
                t,
                p.side.other(),
                p.make(p.layout().king_moves(t)[k]).layout().both(),
                6,
            ),
            p.layout().king_moves(t)[k].target_square,
        ),
{
    broadcast use group_bits;

    let l = p.layout();
    let m = l.king_moves(t)[k];
    let q = p.make(m);
    let ql = q.layout();
    let us = p.side;
    let them = p.side.other();
    let source = m.source_square;
    let target = m.target_square;
    lemma_king_steps_avoid_danger(l, t);
    crate::accepted::lemma_king_moves_plain(l, t);
    assert(crate::accepted::plain(l, t, m));
    let listed = l.moves_to(t, m.source_square, m.target_square, m.piece_moved, false);
    let j = choose|j: int| 0 <= j < listed.len() && listed[j] == m;
    assert(listed[j] == m);
    assert(!m.en_passant && m.promoted_piece is None && !m.castle);
    lemma_layout_bits(p);
    lemma_layout_bits(q);
    lemma_lowest(l.board(us, Pieces::KING));
    assert(p.squares[source as int] == Some((us, Pieces::KING)));
    let lifted = l.both() & !l.board(us, Pieces::KING);
    assert forall|i: u8| i < 64 && i != target implies bit(lifted, i) == bit(ql.both(), i) by {
        assert(bit(l.board(us, Pieces::KING), i) == (p.squares[i as int] == Some(
            (us, Pieces::KING),
        )));
        if i != source {
            assert(q.squares[i as int] == p.squares[i as int]);
        } else {
            assert(q.squares[i as int] is None);
        }
    }
    if bit(ql.attacked_by(t, them, ql.both(), 6), target) {
        lemma_attacked_by_bits(ql, t, them, ql.both(), 6, target);
        let (kind, s) = choose|kind: int, s: u8|
            0 <= kind < 6 && #[trigger] attacks_from(ql, t, them, ql.both(), kind, s, target);
        assert(attacks_from(ql, t, them, ql.both(), kind, s, target));
        let piece = Pieces::from_code(kind);
        assert(ql.pieces[them.code()][kind] == ql.board(them, piece));
        assert(l.pieces[them.code()][kind] == l.board(them, piece));
        assert(bit(ql.board(them, piece), s));
        assert(q.squares[s as int] == Some((them, piece)));
        assert(s != target && s != source);
        assert(p.squares[s as int] == Some((them, piece)));
        assert(bit(l.board(them, piece), s));
        lemma_attacks_reach(t, s, piece, them, lifted, ql.both(), target);
        assert(attacks_from(l, t, them, lifted, kind, s, target));
        lemma_attacked_by_bits(l, t, them, lifted, 6, target);
        assert(bit(l.danger(t), target));
    }
}

} // verus!
