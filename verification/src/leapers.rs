//! What the leaper tables mean on the board: the knight's jumps, the king's
//! steps and the pawn's captures, by file and rank.

use crate::bits::bit;
use crate::common::Color;
use crate::precalculator::{
    join_down, join_up, king_attack_set, knight_attack_set, pawn_attack_set, placed,
    standard_not_files,
};
use vstd::prelude::*;

verus! {

/// The squares that a knight on `index` attacks, with the four masks as
/// words.
pub open spec fn knight_word(index: u8, a: u64, h: u64, ab: u64, gh: u64) -> u64 {
    let p = placed(index);
    let a1 = join_down(0, p, 17, h);
    let a2 = join_down(a1, p, 15, a);
    let a3 = join_down(a2, p, 10, gh);
    let a4 = join_down(a3, p, 6, ab);
    let a5 = join_up(a4, p, 17, a);
    let a6 = join_up(a5, p, 15, h);
    let a7 = join_up(a6, p, 10, ab);
    join_up(a7, p, 6, gh)
}

/// The squares that a king on `index` attacks, with the masks as words.
pub open spec fn king_word(index: u8, a: u64, h: u64) -> u64 {
    let p = placed(index);
    let all = 0xFFFF_FFFF_FFFF_FFFFu64;
    let a1 = join_down(0, p, 8, all);
    let a2 = join_down(a1, p, 9, h);
    let a3 = join_down(a2, p, 7, a);
    let a4 = join_down(a3, p, 1, h);
    let a5 = join_up(a4, p, 8, all);
    let a6 = join_up(a5, p, 9, a);
    let a7 = join_up(a6, p, 7, h);
    join_up(a7, p, 1, a)
}

/// The squares that a white pawn on `index` attacks.
pub open spec fn white_pawn_word(index: u8, a: u64, h: u64) -> u64 {
    let p = placed(index);
    join_down(join_down(0, p, 7, a), p, 9, h)
}

/// The squares that a black pawn on `index` attacks.
pub open spec fn black_pawn_word(index: u8, a: u64, h: u64) -> u64 {
    let p = placed(index);
    join_up(join_up(0, p, 7, h), p, 9, a)
}

/// Whether `to` is a knight's jump from `from`: one file and two ranks
/// away, or two files and one rank.
pub open spec fn knight_jump(from: u8, to: u8) -> bool {
    let df = (to % 8) as int - (from % 8) as int;
    let dr = (to / 8) as int - (from / 8) as int;
    ((df == 1 || df == -1) && (dr == 2 || dr == -2)) || ((df == 2 || df == -2) && (dr == 1 || dr
        == -1))
}

/// Whether `to` is a king's step from `from`: another square at most one
/// file and one rank away.
pub open spec fn king_step(from: u8, to: u8) -> bool {
    let df = (to % 8) as int - (from % 8) as int;
    let dr = (to / 8) as int - (from / 8) as int;
    -1 <= df <= 1 && -1 <= dr <= 1 && from != to
}

/// Whether a pawn of `side` on `from` attacks `to`: the square one file
/// away on the next rank ahead, which for white is the rank with the
/// smaller squares.
pub open spec fn pawn_capture(side: Color, from: u8, to: u8) -> bool {
    let df = (to % 8) as int - (from % 8) as int;
    let dr = (to / 8) as int - (from / 8) as int;
    (df == 1 || df == -1) && dr == (match side {
        Color::WHITE => -1int,
        Color::BLACK => 1int,
    })
}

proof fn lemma_knight_word(from: u8, to: u8)
    by (bit_vector)
    requires
        from < 64,
        to < 64,
    ensures
        (knight_word(
            from,
            0xFEFE_FEFE_FEFE_FEFEu64,
            0x7F7F_7F7F_7F7F_7F7Fu64,
            0xFCFC_FCFC_FCFC_FCFCu64,
            0x3F3F_3F3F_3F3F_3F3Fu64,
        ) & (1u64 << to) != 0) == ({
            let ff = from & 7;
            let fr = from >> 3;
            let tf = to & 7;
            let tr = to >> 3;
            ((tf == ff + 1 || ff == tf + 1) && (tr == fr + 2 || fr == tr + 2)) || ((tf == ff + 2
                || ff == tf + 2) && (tr == fr + 1 || fr == tr + 1))
        }),
{
}

proof fn lemma_king_word(from: u8, to: u8)
    by (bit_vector)
    requires
        from < 64,
        to < 64,
    ensures
        (king_word(from, 0xFEFE_FEFE_FEFE_FEFEu64, 0x7F7F_7F7F_7F7F_7F7Fu64) & (1u64 << to) != 0)
            == ({
            let ff = from & 7;
            let fr = from >> 3;
            let tf = to & 7;
            let tr = to >> 3;
            (tf == ff || tf == ff + 1 || ff == tf + 1) && (tr == fr || tr == fr + 1 || fr == tr + 1)
                && from != to
        }),
{
}

proof fn lemma_pawn_words(from: u8, to: u8)
    by (bit_vector)
    requires
        from < 64,
        to < 64,
    ensures
        (white_pawn_word(from, 0xFEFE_FEFE_FEFE_FEFEu64, 0x7F7F_7F7F_7F7F_7F7Fu64) & (1u64 << to)
            != 0) == ({
            let ff = from & 7;
            let fr = from >> 3;
            let tf = to & 7;
            let tr = to >> 3;
            (tf == ff + 1 || ff == tf + 1) && fr == tr + 1
        }),
        (black_pawn_word(from, 0xFEFE_FEFE_FEFE_FEFEu64, 0x7F7F_7F7F_7F7F_7F7Fu64) & (1u64 << to)
            != 0) == ({
            let ff = from & 7;
            let fr = from >> 3;
            let tf = to & 7;
            let tr = to >> 3;
            (tf == ff + 1 || ff == tf + 1) && tr == fr + 1
        }),
{
}

proof fn lemma_file_rank(square: u8)
    by (bit_vector)
    requires
        square < 64,
    ensures
        square & 7 == square % 8,
        square >> 3 == square / 8,
        square & 7 < 8,
        square >> 3 < 8,
{
}

/// The knight table holds the knight's jumps.
pub proof fn lemma_knight_attacks(from: u8, to: u8)
    requires
        from < 64,
        to < 64,
    ensures
        bit(knight_attack_set(from, standard_not_files()), to) == knight_jump(from, to),
{
    lemma_knight_word(from, to);
    lemma_file_rank(from);
    lemma_file_rank(to);
    assert(knight_attack_set(from, standard_not_files()) == knight_word(
        from,
        0xFEFE_FEFE_FEFE_FEFEu64,
        0x7F7F_7F7F_7F7F_7F7Fu64,
        0xFCFC_FCFC_FCFC_FCFCu64,
        0x3F3F_3F3F_3F3F_3F3Fu64,
    ));
}

/// The king table holds the king's steps.
pub proof fn lemma_king_attacks(from: u8, to: u8)
    requires
        from < 64,
        to < 64,
    ensures
        bit(king_attack_set(from, standard_not_files()), to) == king_step(from, to),
{
    lemma_king_word(from, to);
    lemma_file_rank(from);
    lemma_file_rank(to);
    assert(king_attack_set(from, standard_not_files()) == king_word(
        from,
        0xFEFE_FEFE_FEFE_FEFEu64,
        0x7F7F_7F7F_7F7F_7F7Fu64,
    ));
}

/// The pawn tables hold the pawn's captures.
pub proof fn lemma_pawn_attacks(side: Color, from: u8, to: u8)
    requires
        from < 64,
        to < 64,
    ensures
        bit(pawn_attack_set(side, from, standard_not_files()), to) == pawn_capture(side, from, to),
{
    lemma_pawn_words(from, to);
    lemma_file_rank(from);
    lemma_file_rank(to);
    assert(pawn_attack_set(Color::WHITE, from, standard_not_files()) == white_pawn_word(
        from,
        0xFEFE_FEFE_FEFE_FEFEu64,
        0x7F7F_7F7F_7F7F_7F7Fu64,
    ));
    assert(pawn_attack_set(Color::BLACK, from, standard_not_files()) == black_pawn_word(
        from,
        0xFEFE_FEFE_FEFE_FEFEu64,
        0x7F7F_7F7F_7F7F_7F7Fu64,
    ));
}

} // verus!
