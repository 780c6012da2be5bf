//! The geometry of the board: rays, the attacks of sliders along them, and
//! the relevance masks of the magic tables.

use crate::bits::{bit, group_bits, lemma_bit_single};
use vstd::prelude::*;

verus! {

/// Whether `(file, rank)` is a square of the board.
pub open spec fn on_board(file: int, rank: int) -> bool {
    0 <= file < 8 && 0 <= rank < 8
}

/// The one-square word of the square at `(file, rank)`.
pub open spec fn square_word(file: int, rank: int) -> u64 {
    1u64 << ((rank * 8 + file) as u8)
}

/// How many squares of the board lie ahead of `(file, rank)` in the
/// direction `(file_dir, rank_dir)`, the square itself included, at most.
pub open spec fn steps_left(file: int, rank: int, file_dir: int, rank_dir: int) -> nat {
    if !on_board(file, rank) {
        0
    } else if file_dir > 0 {
        (8 - file) as nat
    } else if file_dir < 0 {
        (file + 1) as nat
    } else if rank_dir > 0 {
        (8 - rank) as nat
    } else if rank_dir < 0 {
        (rank + 1) as nat
    } else {
        0
    }
}

/// `acc` joined with the squares from `(file, rank)` on in the direction
/// `(file_dir, rank_dir)`, up to the edge of the board.
pub open spec fn ray_acc(acc: u64, file: int, rank: int, file_dir: int, rank_dir: int) -> u64
    decreases steps_left(file, rank, file_dir, rank_dir),
{
    if !on_board(file, rank) || (file_dir == 0 && rank_dir == 0) {
        acc
    } else {
        ray_acc(acc | square_word(file, rank), file + file_dir, rank + rank_dir, file_dir, rank_dir)
    }
}

/// The ray from `square` in a direction: the squares that follow it, up to
/// the edge of the board.
pub open spec fn ray(square: int, file_dir: int, rank_dir: int) -> u64 {
    ray_acc(0, square % 8 + file_dir, square / 8 + rank_dir, file_dir, rank_dir)
}

/// `acc` joined with the squares from `(file, rank)` on in a direction, up
/// to and with the first square that `blocking` holds.
pub open spec fn attack_acc(
    acc: u64,
    file: int,
    rank: int,
    file_dir: int,
    rank_dir: int,
    blocking: u64,
) -> u64
    decreases steps_left(file, rank, file_dir, rank_dir),
{
    if !on_board(file, rank) || (file_dir == 0 && rank_dir == 0) {
        acc
    } else if (0u64 | square_word(file, rank)) & blocking != 0 {
        acc | (0u64 | square_word(file, rank))
    } else {
        attack_acc(
            acc | (0u64 | square_word(file, rank)),
            file + file_dir,
            rank + rank_dir,
            file_dir,
            rank_dir,
            blocking,
        )
    }
}

/// What a slider on `square` attacks in one direction.
pub open spec fn ray_attacks(square: int, file_dir: int, rank_dir: int, blocking: u64) -> u64 {
    attack_acc(0, square % 8 + file_dir, square / 8 + rank_dir, file_dir, rank_dir, blocking)
}

/// Whether a blocker on `(file, rank)` can change what a slider attacks in
/// the direction `(file_dir, rank_dir)`: the square is not on the edge that
/// the direction runs into.
pub open spec fn inner(file: int, rank: int, file_dir: int, rank_dir: int) -> bool {
    (file_dir == 0 || (1 <= file <= 6)) && (rank_dir == 0 || (1 <= rank <= 6))
}

/// `acc` joined with the relevant squares from `(file, rank)` on in a
/// direction.
pub open spec fn relevance_acc(acc: u64, file: int, rank: int, file_dir: int, rank_dir: int) -> u64
    decreases steps_left(file, rank, file_dir, rank_dir),
{
    if !on_board(file, rank) || (file_dir == 0 && rank_dir == 0) || !inner(
        file,
        rank,
        file_dir,
        rank_dir,
    ) {
        acc
    } else {
        relevance_acc(
            acc | square_word(file, rank),
            file + file_dir,
            rank + rank_dir,
            file_dir,
            rank_dir,
        )
    }
}

/// The relevant squares of a slider on `square` in one direction.
pub open spec fn ray_relevance(square: int, file_dir: int, rank_dir: int) -> u64 {
    relevance_acc(0, square % 8 + file_dir, square / 8 + rank_dir, file_dir, rank_dir)
}

/// The first direction of a slider: diagonal for a bishop (0), straight for
/// a rook (1).
pub open spec fn first_direction(piece: u8) -> (int, int) {
    if piece == 0 {
        (1, 1)
    } else {
        (1, 0)
    }
}

/// What a bishop (`piece` 0) or a rook (`piece` 1) on `square` attacks with
/// the board occupied as in `blocking`: along each of its four rays up to
/// and with the first occupied square.
pub open spec fn slider_attacks(piece: u8, square: int, blocking: u64) -> u64 {
    let (fd, rd) = first_direction(piece);
    0u64 | ray_attacks(square, fd, rd, blocking) | ray_attacks(square, -fd, -rd, blocking)
        | ray_attacks(square, -rd, fd, blocking) | ray_attacks(square, rd, -fd, blocking)
}

/// The relevance mask of a bishop or a rook on `square`: the squares of its
/// four rays on which a blocker changes what it attacks.
pub open spec fn relevance_mask(piece: u8, square: int) -> u64 {
    let (fd, rd) = first_direction(piece);
    0u64 | ray_relevance(square, fd, rd) | ray_relevance(square, -fd, -rd) | ray_relevance(
        square,
        -rd,
        fd,
    ) | ray_relevance(square, rd, -fd)
}

/// What is joined to `acc` along a ray stays joined.
pub proof fn lemma_attack_acc_grows(
    acc: u64,
    file: int,
    rank: int,
    file_dir: int,
    rank_dir: int,
    blocking: u64,
    i: u8,
)
    requires
        bit(acc, i),
    ensures
        bit(attack_acc(acc, file, rank, file_dir, rank_dir, blocking), i),
    decreases steps_left(file, rank, file_dir, rank_dir),
{
    broadcast use group_bits;

    if !on_board(file, rank) || (file_dir == 0 && rank_dir == 0) {
    } else if (0u64 | square_word(file, rank)) & blocking != 0 {
    } else {
        lemma_attack_acc_grows(
            acc | (0u64 | square_word(file, rank)),
            file + file_dir,
            rank + rank_dir,
            file_dir,
            rank_dir,
            blocking,
            i,
        );
    }
}

/// A slider attacks the first square of a ray that starts on the board.
pub proof fn lemma_ray_attacks_first(square: int, file_dir: int, rank_dir: int, blocking: u64)
    requires
        0 <= square < 64,
        !(file_dir == 0 && rank_dir == 0),
        on_board(square % 8 + file_dir, square / 8 + rank_dir),
    ensures
        ray_attacks(square, file_dir, rank_dir, blocking) != 0,
{
    broadcast use group_bits;

    let file = square % 8 + file_dir;
    let rank = square / 8 + rank_dir;
    let i = (rank * 8 + file) as u8;
    let w = 0u64 | (0u64 | square_word(file, rank));
    assert(bit(w, i));
    if (0u64 | square_word(file, rank)) & blocking != 0 {
    } else {
        lemma_attack_acc_grows(w, file + file_dir, rank + rank_dir, file_dir, rank_dir, blocking, i);
    }
    lemma_bit_single(0);
}

/// A bishop or a rook attacks at least one square, wherever it stands and
/// however the board is occupied.
pub proof fn lemma_slider_attacks_nonzero(piece: u8, square: int, blocking: u64)
    requires
        0 <= square < 64,
        piece == 0 || piece == 1,
    ensures
        slider_attacks(piece, square, blocking) != 0,
{
    broadcast use group_bits;

    let (fd, rd) = first_direction(piece);
    let a = ray_attacks(square, fd, rd, blocking);
    let b = ray_attacks(square, -fd, -rd, blocking);
    let c = ray_attacks(square, -rd, fd, blocking);
    let d = ray_attacks(square, rd, -fd, blocking);
    let file = square % 8;
    let rank = square / 8;
    if on_board(file + fd, rank + rd) {
        lemma_ray_attacks_first(square, fd, rd, blocking);
    }
    if on_board(file - fd, rank - rd) {
        lemma_ray_attacks_first(square, -fd, -rd, blocking);
    }
    if on_board(file - rd, rank + fd) {
        lemma_ray_attacks_first(square, -rd, fd, blocking);
    }
    if on_board(file + rd, rank - fd) {
        lemma_ray_attacks_first(square, rd, -fd, blocking);
    }
    assert(a != 0 || b != 0 || c != 0 || d != 0);
    lemma_or_nonzero(0u64 | a, b);
    lemma_or_nonzero(0u64 | a | b, c);
    lemma_or_nonzero(0u64 | a | b | c, d);
    lemma_or_nonzero(0u64, a);
}

/// A union is empty only if both its parts are.
pub proof fn lemma_or_nonzero(x: u64, y: u64)
    by (bit_vector)
    ensures
        (x | y == 0) == (x == 0 && y == 0),
{
}

} // verus!
