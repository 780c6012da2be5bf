//! Rays and the walks of sliders, square by square: which squares a ray
//! holds, and which squares a slider attacks along it.

use crate::accepted::along;
use crate::bits::{bit, group_bits};
use crate::common::is_direction;
use crate::geometry::{
    attack_acc, first_direction, inner, on_board, ray, ray_acc, ray_attacks, relevance_acc,
    relevance_mask, slider_attacks, square_word, steps_left,
};
use vstd::prelude::*;

verus! {

/// The square `j` steps from `(file, rank)` in a direction.
pub open spec fn nth(file: int, rank: int, file_dir: int, rank_dir: int, j: int) -> u8 {
    (along(rank, rank_dir, j) * 8 + along(file, file_dir, j)) as u8
}

/// How many steps in a direction lead from `(file, rank)` to `x`, if `x`
/// lies in that direction.
pub open spec fn span(file: int, rank: int, file_dir: int, rank_dir: int, x: u8) -> int {
    if file_dir == 1 {
        x % 8 - file
    } else if file_dir == -1 {
        file - x % 8
    } else if rank_dir == 1 {
        x / 8 - rank
    } else {
        rank - x / 8
    }
}

/// Whether `x` lies `k` steps from `(file, rank)` in a direction.
pub open spec fn lies(file: int, rank: int, file_dir: int, rank_dir: int, x: u8, k: int) -> bool {
    x < 64 && x % 8 == along(file, file_dir, k) && x / 8 == along(rank, rank_dir, k)
}

/// Whether `x` lies in a direction from `(file, rank)`, the square itself
/// included.
pub open spec fn from_here(file: int, rank: int, file_dir: int, rank_dir: int, x: u8) -> bool {
    span(file, rank, file_dir, rank_dir, x) >= 0 && lies(
        file,
        rank,
        file_dir,
        rank_dir,
        x,
        span(file, rank, file_dir, rank_dir, x),
    )
}

/// Whether none of the first `k` squares from `(file, rank)` in a
/// direction, the square itself included, is a member of `blocking`.
pub open spec fn clear(
    blocking: u64,
    file: int,
    rank: int,
    file_dir: int,
    rank_dir: int,
    k: int,
) -> bool {
    forall|j: int| 0 <= j < k ==> !bit(blocking, #[trigger] nth(file, rank, file_dir, rank_dir, j))
}

/// The members of a ray from a square on: those of the start, and the
/// squares that lie in its direction.
pub proof fn lemma_ray_acc_bits(
    acc: u64,
    file: int,
    rank: int,
    file_dir: int,
    rank_dir: int,
    x: u8,
)
    requires
        is_direction(file_dir, rank_dir),
        -1 <= file <= 8,
        -1 <= rank <= 8,
        x < 64,
    ensures
        bit(ray_acc(acc, file, rank, file_dir, rank_dir), x) == (bit(acc, x) || (on_board(
            file,
            rank,
        ) && from_here(file, rank, file_dir, rank_dir, x))),
    decreases steps_left(file, rank, file_dir, rank_dir),
{
    broadcast use group_bits;

    if on_board(file, rank) {
        lemma_ray_acc_bits(
            acc | square_word(file, rank),
            file + file_dir,
            rank + rank_dir,
            file_dir,
            rank_dir,
            x,
        );
        assert(bit(square_word(file, rank), x) == (x == (rank * 8 + file) as u8));
    }
}

/// A ray holds the squares that lie at least one step in its direction.
pub proof fn lemma_ray_bits(square: u8, file_dir: int, rank_dir: int, x: u8)
    requires
        is_direction(file_dir, rank_dir),
        square < 64,
        x < 64,
    ensures
        bit(ray(square as int, file_dir, rank_dir), x) == (span(
            (square % 8) as int,
            (square / 8) as int,
            file_dir,
            rank_dir,
            x,
        ) >= 1 && from_here((square % 8) as int, (square / 8) as int, file_dir, rank_dir, x)),
{
    broadcast use group_bits;

    lemma_ray_acc_bits(
        0,
        square % 8 + file_dir,
        square / 8 + rank_dir,
        file_dir,
        rank_dir,
        x,
    );
}

/// The members of the walk of a slider from a square on: those of the
/// start, and the squares that lie in its direction with no member of
/// `blocking` before them.
pub proof fn lemma_walk_bits(
    acc: u64,
    file: int,
    rank: int,
    file_dir: int,
    rank_dir: int,
    blocking: u64,
    x: u8,
)
    requires
        is_direction(file_dir, rank_dir),
        -1 <= file <= 8,
        -1 <= rank <= 8,
        x < 64,
    ensures
        bit(attack_acc(acc, file, rank, file_dir, rank_dir, blocking), x) == (bit(acc, x) || (
        on_board(file, rank) && from_here(file, rank, file_dir, rank_dir, x) && clear(
            blocking,
            file,
            rank,
            file_dir,
            rank_dir,
            span(file, rank, file_dir, rank_dir, x),
        ))),
    decreases steps_left(file, rank, file_dir, rank_dir),
{
    broadcast use group_bits;

    if on_board(file, rank) {
        let here = (rank * 8 + file) as u8;
        let word = 0u64 | square_word(file, rank);
        let k = span(file, rank, file_dir, rank_dir, x);
        assert(bit(word, x) == (x == here));
        assert(nth(file, rank, file_dir, rank_dir, 0) == here);
        crate::king_safety::lemma_blocked_square(blocking, here);
        if word & blocking != 0 {
            assert(bit(blocking, here));
            if from_here(file, rank, file_dir, rank_dir, x) && k >= 1 {
                assert(!clear(blocking, file, rank, file_dir, rank_dir, k));
            }
        } else {
            lemma_walk_bits(
                acc | word,
                file + file_dir,
                rank + rank_dir,
                file_dir,
                rank_dir,
                blocking,
                x,
            );
            let next = span(file + file_dir, rank + rank_dir, file_dir, rank_dir, x);
            if from_here(file, rank, file_dir, rank_dir, x) && k >= 1 {
                assert(next == k - 1);
                if clear(blocking, file, rank, file_dir, rank_dir, k) {
                    assert forall|j: int| 0 <= j < next implies !bit(
                        blocking,
                        #[trigger] nth(file + file_dir, rank + rank_dir, file_dir, rank_dir, j),
                    ) by {
                        assert(nth(file + file_dir, rank + rank_dir, file_dir, rank_dir, j) == nth(
                            file,
                            rank,
                            file_dir,
                            rank_dir,
                            j + 1,
                        ));
                    }
                }
                if clear(blocking, file + file_dir, rank + rank_dir, file_dir, rank_dir, next) {
                    assert forall|j: int| 0 <= j < k implies !bit(
                        blocking,
                        #[trigger] nth(file, rank, file_dir, rank_dir, j),
                    ) by {
                        if j > 0 {
                            assert(nth(file, rank, file_dir, rank_dir, j) == nth(
                                file + file_dir,
                                rank + rank_dir,
                                file_dir,
                                rank_dir,
                                j - 1,
                            ));
                        }
                    }
                }
            }
        }
    }
}

/// Whether a slider on `s` sees `x` in a direction, with the board
/// occupied as in `blocking`: `x` lies at least one step in the direction,
/// and no square before it is occupied.
pub open spec fn sees(blocking: u64, s: u8, file_dir: int, rank_dir: int, x: u8) -> bool {
    let file = (s % 8) as int;
    let rank = (s / 8) as int;
    let k = span(file, rank, file_dir, rank_dir, x);
    k >= 1 && lies(file, rank, file_dir, rank_dir, x, k) && clear(
        blocking,
        file + file_dir,
        rank + rank_dir,
        file_dir,
        rank_dir,
        k - 1,
    )
}

/// What a slider attacks in one direction are the squares that it sees.
pub proof fn lemma_ray_attacks_bits(s: u8, file_dir: int, rank_dir: int, blocking: u64, x: u8)
    requires
        is_direction(file_dir, rank_dir),
        s < 64,
        x < 64,
    ensures
        bit(ray_attacks(s as int, file_dir, rank_dir, blocking), x) == sees(
            blocking,
            s,
            file_dir,
            rank_dir,
            x,
        ),
{
    broadcast use group_bits;

    lemma_walk_bits(0, s % 8 + file_dir, s / 8 + rank_dir, file_dir, rank_dir, blocking, x);
}

/// Whether a bishop (`piece` 0) or a rook (`piece` 1) on `s` sees `x`.
pub open spec fn slider_sees(piece: u8, blocking: u64, s: u8, x: u8) -> bool {
    let (fd, rd) = first_direction(piece);
    sees(blocking, s, fd, rd, x) || sees(blocking, s, -fd, -rd, x) || sees(
        blocking,
        s,
        -rd,
        fd,
        x,
    ) || sees(blocking, s, rd, -fd, x)
}

/// What a bishop or a rook attacks are the squares that it sees along its
/// four directions.
pub proof fn lemma_slider_bits(piece: u8, s: u8, blocking: u64, x: u8)
    requires
        piece == 0 || piece == 1,
        s < 64,
        x < 64,
    ensures
        bit(slider_attacks(piece, s as int, blocking), x) == slider_sees(piece, blocking, s, x),
{
    broadcast use group_bits;

    let (fd, rd) = first_direction(piece);
    lemma_ray_attacks_bits(s, fd, rd, blocking, x);
    lemma_ray_attacks_bits(s, -fd, -rd, blocking, x);
    lemma_ray_attacks_bits(s, -rd, fd, blocking, x);
    lemma_ray_attacks_bits(s, rd, -fd, blocking, x);
}

/// The relevant squares from a square on in a direction: those of the
/// start, and the squares that lie in the direction and are not on the
/// edge that the direction runs into.
pub proof fn lemma_relevance_acc_bits(
    acc: u64,
    file: int,
    rank: int,
    file_dir: int,
    rank_dir: int,
    x: u8,
)
    requires
        is_direction(file_dir, rank_dir),
        -1 <= file <= 8,
        -1 <= rank <= 8,
        file_dir == 1 ==> file >= 1,
        file_dir == -1 ==> file <= 6,
        rank_dir == 1 ==> rank >= 1,
        rank_dir == -1 ==> rank <= 6,
        file_dir == 0 ==> 0 <= file < 8,
        rank_dir == 0 ==> 0 <= rank < 8,
        x < 64,
    ensures
        bit(relevance_acc(acc, file, rank, file_dir, rank_dir), x) == (bit(acc, x) || (from_here(
            file,
            rank,
            file_dir,
            rank_dir,
            x,
        ) && inner((x % 8) as int, (x / 8) as int, file_dir, rank_dir))),
    decreases steps_left(file, rank, file_dir, rank_dir),
{
    broadcast use group_bits;

    if on_board(file, rank) && inner(file, rank, file_dir, rank_dir) {
        lemma_relevance_acc_bits(
            acc | square_word(file, rank),
            file + file_dir,
            rank + rank_dir,
            file_dir,
            rank_dir,
            x,
        );
        assert(bit(square_word(file, rank), x) == (x == (rank * 8 + file) as u8));
    }
}

/// Whether `x` is a relevant square of a slider on `s` in a direction.
pub open spec fn relevant(s: u8, file_dir: int, rank_dir: int, x: u8) -> bool {
    span((s % 8) as int, (s / 8) as int, file_dir, rank_dir, x) >= 1 && from_here(
        (s % 8) as int,
        (s / 8) as int,
        file_dir,
        rank_dir,
        x,
    ) && inner((x % 8) as int, (x / 8) as int, file_dir, rank_dir)
}

/// The relevance mask of a bishop or a rook holds the squares of its four
/// rays that are not on the edge that the ray runs into.
pub proof fn lemma_relevance_bits(piece: u8, s: u8, x: u8)
    requires
        piece == 0 || piece == 1,
        s < 64,
        x < 64,
    ensures
        bit(relevance_mask(piece, s as int), x) == ({
            let (fd, rd) = first_direction(piece);
            relevant(s, fd, rd, x) || relevant(s, -fd, -rd, x) || relevant(s, -rd, fd, x)
                || relevant(s, rd, -fd, x)
        }),
{
    broadcast use group_bits;

    let (fd, rd) = first_direction(piece);
    lemma_relevance_acc_bits(0, s % 8 + fd, s / 8 + rd, fd, rd, x);
    lemma_relevance_acc_bits(0, s % 8 - fd, s / 8 - rd, -fd, -rd, x);
    lemma_relevance_acc_bits(0, s % 8 - rd, s / 8 + fd, -rd, fd, x);
    lemma_relevance_acc_bits(0, s % 8 + rd, s / 8 - fd, rd, -fd, x);
}

/// Whether a direction is one of the four of a bishop (`piece` 0) or of a
/// rook (`piece` 1).
pub open spec fn direction_of_slider(piece: u8, file_dir: int, rank_dir: int) -> bool {
    let (fd, rd) = first_direction(piece);
    (file_dir == fd && rank_dir == rd) || (file_dir == -fd && rank_dir == -rd) || (file_dir == -rd
        && rank_dir == fd) || (file_dir == rd && rank_dir == -fd)
}

/// A square strictly before another one on a ray of a slider is a member
/// of the slider's relevance mask.
proof fn lemma_before_is_relevant(piece: u8, s: u8, file_dir: int, rank_dir: int, x: u8, j: int)
    requires
        piece == 0 || piece == 1,
        s < 64,
        x < 64,
        is_direction(file_dir, rank_dir),
        direction_of_slider(piece, file_dir, rank_dir),
        lies(
            (s % 8) as int,
            (s / 8) as int,
            file_dir,
            rank_dir,
            x,
            span((s % 8) as int, (s / 8) as int, file_dir, rank_dir, x),
        ),
        0 <= j < span((s % 8) as int, (s / 8) as int, file_dir, rank_dir, x) - 1,
    ensures
        nth(s % 8 + file_dir, s / 8 + rank_dir, file_dir, rank_dir, j) < 64,
        bit(
            relevance_mask(piece, s as int),
            nth(s % 8 + file_dir, s / 8 + rank_dir, file_dir, rank_dir, j),
        ),
{
    let y = nth(s % 8 + file_dir, s / 8 + rank_dir, file_dir, rank_dir, j);
    let file = along(s % 8 + file_dir, file_dir, j);
    let rank = along(s / 8 + rank_dir, rank_dir, j);
    assert(0 <= file < 8 && 0 <= rank < 8);
    assert(y == rank * 8 + file);
    assert(y % 8 == file && y / 8 == rank);
    assert(relevant(s, file_dir, rank_dir, y));
    lemma_relevance_bits(piece, s, y);
}

/// Whether a slider sees a square does not depend on the squares off its
/// relevance mask: a blocker on the edge that a ray runs into hides
/// nothing.
proof fn lemma_sees_relevant(piece: u8, blocking: u64, s: u8, file_dir: int, rank_dir: int, x: u8)
    requires
        piece == 0 || piece == 1,
        s < 64,
        x < 64,
        is_direction(file_dir, rank_dir),
        direction_of_slider(piece, file_dir, rank_dir),
    ensures
        sees(blocking & relevance_mask(piece, s as int), s, file_dir, rank_dir, x) == sees(
            blocking,
            s,
            file_dir,
            rank_dir,
            x,
        ),
{
    let file = (s % 8) as int;
    let rank = (s / 8) as int;
    let k = span(file, rank, file_dir, rank_dir, x);
    let mask = relevance_mask(piece, s as int);
    if k >= 1 && lies(file, rank, file_dir, rank_dir, x, k) {
        assert forall|j: int| 0 <= j < k - 1 implies bit(
            blocking & mask,
            #[trigger] nth(file + file_dir, rank + rank_dir, file_dir, rank_dir, j),
        ) == bit(blocking, nth(file + file_dir, rank + rank_dir, file_dir, rank_dir, j)) by {
            lemma_before_is_relevant(piece, s, file_dir, rank_dir, x, j);
            crate::bits::lemma_bit_and(
                blocking,
                mask,
                nth(file + file_dir, rank + rank_dir, file_dir, rank_dir, j),
            );
        }
    }
}

/// What a slider attacks does not depend on the squares off its relevance
/// mask.
pub proof fn lemma_slider_attacks_relevant(piece: u8, s: u8, blocking: u64)
    requires
        piece == 0 || piece == 1,
        s < 64,
    ensures
        slider_attacks(piece, s as int, blocking & relevance_mask(piece, s as int))
            == slider_attacks(piece, s as int, blocking),
{
    let (fd, rd) = first_direction(piece);
    let masked = blocking & relevance_mask(piece, s as int);
    assert forall|x: u8| x < 64 implies bit(slider_attacks(piece, s as int, masked), x) == bit(
        slider_attacks(piece, s as int, blocking),
        x,
    ) by {
        lemma_slider_bits(piece, s, masked, x);
        lemma_slider_bits(piece, s, blocking, x);
        lemma_sees_relevant(piece, blocking, s, fd, rd, x);
        lemma_sees_relevant(piece, blocking, s, -fd, -rd, x);
        lemma_sees_relevant(piece, blocking, s, -rd, fd, x);
        lemma_sees_relevant(piece, blocking, s, rd, -fd, x);
    }
    crate::bits::lemma_bits_equal(
        slider_attacks(piece, s as int, masked),
        slider_attacks(piece, s as int, blocking),
    );
}

/// Looking up any occupancy of the board in a computed table gives what
/// the slider attacks under it, found by walking its rays.
pub proof fn lemma_lookup_is_ray_walk_on_any_board(
    piece: u8,
    t: crate::tables::SlidingTable,
    square: u8,
    occupancy: u64,
)
    requires
        piece == 0 || piece == 1,
        crate::precalculator::slider_computed(piece, t),
        square < 64,
    ensures
        t.lookup(square as int, occupancy) == slider_attacks(piece, square as int, occupancy),
{
    crate::king_safety::lemma_lookup_any(piece, t, square as int, occupancy);
    lemma_slider_attacks_relevant(piece, square, occupancy);
}

} // verus!
