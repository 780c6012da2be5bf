//! What a slider sees, told square by square: two squares of one line, the
//! squares inside them, and what the tables of sliders and of lines hold.

use crate::bits::{bit, group_bits};
use crate::common::{is_direction, spec_direction_to_index, Color, Constants, Pieces};
use crate::geometry::slider_attacks;
use crate::lines::{
    lemma_lookup_is_ray_walk_on_any_board, lemma_ray_bits, lemma_slider_bits, lies, nth, sees,
    span,
};
use crate::precalculator::{computed, direction_of};
use crate::tables::{signum, MoveTables};
use vstd::prelude::*;

verus! {

/// The unit step that leads from `a` towards `b`: the signs of the
/// differences of their files and of their ranks.
pub open spec fn heading(a: u8, b: u8) -> (int, int) {
    (signum(b % 8 - a % 8), signum(b / 8 - a / 8))
}

/// Whether two squares differ and stand on one file, rank or diagonal.
pub open spec fn aligned(a: u8, b: u8) -> bool {
    let files = b % 8 - a % 8;
    let ranks = b / 8 - a / 8;
    a != b && (files == 0 || ranks == 0 || files == ranks || files == -ranks)
}

/// Whether two squares differ in file and in rank.
pub open spec fn diagonal(a: u8, b: u8) -> bool {
    a % 8 != b % 8 && a / 8 != b / 8
}

/// Whether `z` stands inside the line from `a` to `b`: strictly between
/// the two.
pub open spec fn inside(a: u8, b: u8, z: u8) -> bool {
    &&& aligned(a, b)
    &&& aligned(a, z)
    &&& aligned(z, b)
    &&& heading(a, z) == heading(a, b)
    &&& heading(z, b) == heading(a, b)
}

/// Whether a slider on `a` that moves towards `b` gets there with the
/// board occupied as in `blocking`: the two are aligned, and no square
/// inside their line is occupied.
pub open spec fn reaches(blocking: u64, a: u8, b: u8) -> bool {
    aligned(a, b) && forall|z: u8| z < 64 && #[trigger] inside(a, b, z) ==> !bit(blocking, z)
}

/// Whether a piece of kind `piece` slides along the line of two squares.
pub open spec fn suits(piece: Pieces, a: u8, b: u8) -> bool {
    match piece {
        Pieces::BISHOP => diagonal(a, b),
        Pieces::ROOK => !diagonal(a, b),
        Pieces::QUEEN => true,
        _ => false,
    }
}

/// A square is inside a line whichever end the line is told from.
pub proof fn lemma_inside_back(a: u8, b: u8, z: u8)
    requires
        a < 64,
        b < 64,
        z < 64,
    ensures
        inside(a, b, z) == inside(b, a, z),
{
}

/// What reaches one end of a line from the other reaches back.
pub proof fn lemma_reaches_back(blocking: u64, a: u8, b: u8)
    requires
        a < 64,
        b < 64,
    ensures
        reaches(blocking, a, b) == reaches(blocking, b, a),
{
    if reaches(blocking, a, b) {
        assert forall|z: u8| z < 64 && #[trigger] inside(b, a, z) implies !bit(blocking, z) by {
            assert(inside(a, b, z));
        }
    }
    if reaches(blocking, b, a) {
        assert forall|z: u8| z < 64 && #[trigger] inside(a, b, z) implies !bit(blocking, z) by {
            assert(inside(b, a, z));
        }
    }
}

/// A square inside a line is one of the squares that are stepped over on
/// the way along it.
proof fn lemma_inside_is_stepped(s: u8, file_dir: int, rank_dir: int, x: u8, z: u8)
    requires
        is_direction(file_dir, rank_dir),
        s < 64,
        x < 64,
        z < 64,
        heading(s, x) == (file_dir, rank_dir),
        inside(s, x, z),
    ensures
        1 <= span((s % 8) as int, (s / 8) as int, file_dir, rank_dir, z) < span(
            (s % 8) as int,
            (s / 8) as int,
            file_dir,
            rank_dir,
            x,
        ),
        nth(
            s % 8 + file_dir,
            s / 8 + rank_dir,
            file_dir,
            rank_dir,
            span((s % 8) as int, (s / 8) as int, file_dir, rank_dir, z) - 1,
        ) == z,
{
}

/// A square that is stepped over on the way along a line is inside it.
proof fn lemma_stepped_is_inside(s: u8, file_dir: int, rank_dir: int, x: u8, j: int)
    requires
        is_direction(file_dir, rank_dir),
        s < 64,
        x < 64,
        lies(
            (s % 8) as int,
            (s / 8) as int,
            file_dir,
            rank_dir,
            x,
            span((s % 8) as int, (s / 8) as int, file_dir, rank_dir, x),
        ),
        0 <= j < span((s % 8) as int, (s / 8) as int, file_dir, rank_dir, x) - 1,
    ensures
        nth(s % 8 + file_dir, s / 8 + rank_dir, file_dir, rank_dir, j) < 64,
        inside(s, x, nth(s % 8 + file_dir, s / 8 + rank_dir, file_dir, rank_dir, j)),
{
    let z = nth(s % 8 + file_dir, s / 8 + rank_dir, file_dir, rank_dir, j);
    let zf = crate::accepted::along(s % 8 + file_dir, file_dir, j);
    let zr = crate::accepted::along(s / 8 + rank_dir, rank_dir, j);
    assert(0 <= zf < 8 && 0 <= zr < 8);
    assert(z == zr * 8 + zf);
    assert(z % 8 == zf && z / 8 == zr);
}

/// To see a square in a direction is to reach it, heading that way.
pub proof fn lemma_sees_is_reaching(blocking: u64, s: u8, file_dir: int, rank_dir: int, x: u8)
    requires
        is_direction(file_dir, rank_dir),
        s < 64,
        x < 64,
    ensures
        sees(blocking, s, file_dir, rank_dir, x) == (heading(s, x) == (file_dir, rank_dir)
            && reaches(blocking, s, x)),
{
    let file = (s % 8) as int;
    let rank = (s / 8) as int;
    let k = span(file, rank, file_dir, rank_dir, x);
    if sees(blocking, s, file_dir, rank_dir, x) {
        assert(heading(s, x) == (file_dir, rank_dir));
        assert(aligned(s, x));
        assert forall|z: u8| z < 64 && #[trigger] inside(s, x, z) implies !bit(blocking, z) by {
            lemma_inside_is_stepped(s, file_dir, rank_dir, x, z);
        }
    }
    if heading(s, x) == (file_dir, rank_dir) && reaches(blocking, s, x) {
        assert(k >= 1 && lies(file, rank, file_dir, rank_dir, x, k));
        assert forall|j: int| 0 <= j < k - 1 implies !bit(
            blocking,
            #[trigger] nth(file + file_dir, rank + rank_dir, file_dir, rank_dir, j),
        ) by {
            lemma_stepped_is_inside(s, file_dir, rank_dir, x, j);
        }
    }
}

/// A bishop (`piece` 0) attacks the squares that it reaches along a
/// diagonal, a rook (`piece` 1) those that it reaches along a file or a
/// rank.
pub proof fn lemma_slider_reaches_bits(piece: u8, s: u8, blocking: u64, x: u8)
    requires
        piece == 0 || piece == 1,
        s < 64,
        x < 64,
    ensures
        bit(slider_attacks(piece, s as int, blocking), x) == (reaches(blocking, s, x) && (piece
            == 0) == diagonal(s, x)),
{
    let (fd, rd) = crate::geometry::first_direction(piece);
    lemma_slider_bits(piece, s, blocking, x);
    lemma_sees_is_reaching(blocking, s, fd, rd, x);
    lemma_sees_is_reaching(blocking, s, -fd, -rd, x);
    lemma_sees_is_reaching(blocking, s, -rd, fd, x);
    lemma_sees_is_reaching(blocking, s, rd, -fd, x);
}

/// With the computed tables a bishop, a rook or a queen attacks, on any
/// board, the squares that it reaches along the lines that suit it.
pub proof fn lemma_table_reaches(
    t: MoveTables,
    piece: Pieces,
    side: Color,
    s: u8,
    blocking: u64,
    x: u8,
)
    requires
        computed(t),
        piece == Pieces::BISHOP || piece == Pieces::ROOK || piece == Pieces::QUEEN,
        s < 64,
        x < 64,
    ensures
        bit(t.attacks(s as int, piece, side, blocking), x) == (reaches(blocking, s, x) && suits(
            piece,
            s,
            x,
        )),
{
    broadcast use group_bits;

    lemma_lookup_is_ray_walk_on_any_board(Constants::_BISHOP, t.bishop, s, blocking);
    lemma_lookup_is_ray_walk_on_any_board(Constants::_ROOK, t.rook, s, blocking);
    lemma_slider_reaches_bits(0, s, blocking, x);
    lemma_slider_reaches_bits(1, s, blocking, x);
}

/// With the computed tables the squares between two squares are those
/// inside their line.
pub proof fn lemma_between_inside(t: MoveTables, a: u8, b: u8, z: u8)
    requires
        computed(t),
        a < 64,
        b < 64,
        z < 64,
    ensures
        bit(t.between(a as int, b as int), z) == inside(a, b, z),
{
    broadcast use group_bits;

    if a != b {
        let (fd, rd) = heading(a, b);
        let there = spec_direction_to_index(fd, rd);
        let back = spec_direction_to_index(-fd, -rd);
        assert(direction_of(there) == (fd, rd));
        assert(direction_of(back) == (-fd, -rd));
        assert(t.directions[there][a as int] == crate::geometry::ray(a as int, fd, rd));
        assert(t.directions[back][b as int] == crate::geometry::ray(b as int, -fd, -rd));
        lemma_ray_bits(a, fd, rd, z);
        lemma_ray_bits(b, -fd, -rd, z);
    }
}

/// A square inside one part of a line is inside the whole line, and is not
/// the square that parts the line.
pub proof fn lemma_inside_nests(a: u8, b: u8, y: u8, z: u8)
    requires
        a < 64,
        b < 64,
        y < 64,
        z < 64,
        inside(a, b, y),
        inside(a, y, z) || inside(y, b, z),
    ensures
        inside(a, b, z),
        z != y,
{
}

/// Of two squares that both have `y` inside their lines to `b`, one is
/// inside the line from the other to `y`.
pub proof fn lemma_inside_orders(a: u8, other: u8, b: u8, y: u8)
    requires
        a < 64,
        other < 64,
        b < 64,
        y < 64,
        inside(a, b, y),
        inside(other, b, y),
        a != other,
    ensures
        inside(other, y, a) || inside(a, y, other),
{
}

/// A line suits a piece whichever end it is told from, and so does each
/// part of it.
pub proof fn lemma_inside_suits(piece: Pieces, a: u8, b: u8, y: u8)
    requires
        a < 64,
        b < 64,
        y < 64,
        inside(a, b, y),
    ensures
        suits(piece, a, b) == suits(piece, a, y),
        suits(piece, a, b) == suits(piece, b, y),
{
}

/// No square is inside the line of two squares that are a king's step
/// apart, nor inside a knight's jump.
pub proof fn lemma_leaps_hold_nothing(a: u8, b: u8, z: u8)
    requires
        a < 64,
        b < 64,
        z < 64,
        crate::leapers::knight_jump(a, b) || crate::leapers::king_step(a, b),
    ensures
        !inside(a, b, z),
{
}

/// No corner of the board is inside a line.
pub proof fn lemma_corners_are_outside(a: u8, b: u8, z: u8)
    requires
        a < 64,
        b < 64,
        z == 0 || z == 7 || z == 56 || z == 63,
    ensures
        !inside(a, b, z),
{
}

} // verus!
