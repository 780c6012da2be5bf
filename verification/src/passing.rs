//! En-passant captures: where their squares lie, when the generator leaves
//! one out, and which of them uncover the king.

use crate::accepted::lemma_layout_bits;
use crate::bits::{bit, group_bits, lemma_bit_single, lemma_bits_equal, lemma_lowest, popcount};
use crate::common::{Color, Pieces};
use crate::cover::{
    leaves_king_safe, lemma_answers_check, lemma_en_passant_flag, lemma_lone_blocker_keeps_line,
    listed, occupied_after,
};
use crate::generation::{squares_of, Layout};
use crate::king_safety::lemma_members_are_squares;
use crate::leapers::{lemma_pawn_attacks, pawn_capture};
use crate::move_encoding::Move;
use crate::position::Position;
use crate::precalculator::computed;
use crate::sight::{
    diagonal, inside, lemma_between_inside, lemma_inside_back, lemma_reaches_back,
    lemma_table_reaches, reaches, suits,
};
use crate::tables::MoveTables;
use vstd::prelude::*;

verus! {

/// Whether the en-passant square, if there is one, is on the rank that a
/// double push of the other side passes over.
pub open spec fn en_passant_in_place(p: Position) -> bool {
    p.en_passant matches Some(square) ==> match p.side {
        Color::WHITE => 16 <= square < 24,
        Color::BLACK => 40 <= square < 48,
    }
}

/// Whether no piece, but for the one on `c`, stands inside the line from
/// `s` to the king of the side to move.
pub open spec fn bare_but(p: Position, s: u8, c: u8) -> bool {
    forall|z: u8|
        z < 64 && #[trigger] inside(s, p.layout().king_square(), z) && z != c
            ==> p.squares[z as int] is None
}

/// Whether the en-passant capture `m` opens the diagonal from the bishop
/// or queen on `s` to the king: the pawn that `m` takes is the one piece
/// inside it.
pub open spec fn uncovered_by(p: Position, m: Move, s: u8) -> bool {
    let king = p.layout().king_square();
    &&& s < 64
    &&& m.en_passant
    &&& p.squares[s as int] == Some((p.side.other(), Pieces::BISHOP)) || p.squares[s as int]
        == Some((p.side.other(), Pieces::QUEEN))
    &&& diagonal(s, king)
    &&& inside(s, king, p.capture_square(m))
    &&& bare_but(p, s, p.capture_square(m))
}

/// Whether the en-passant capture `m` opens a diagonal from a bishop or a
/// queen of the other side to the king.
pub open spec fn uncovers(p: Position, m: Move) -> bool {
    exists|s: u8| uncovered_by(p, m, s)
}

proof fn lemma_ranks(i: u8)
    by (bit_vector)
    requires
        i < 64,
    ensures
        (0x0000_00FF_0000_0000u64 & (1u64 << i) != 0) == (32 <= i < 40),
        (0x0000_0000_FF00_0000u64 & (1u64 << i) != 0) == (24 <= i < 32),
        (0x00FF_0000_0000_0000u64 & (1u64 << i) != 0) == (48 <= i < 56),
        (0x0000_0000_0000_FF00u64 & (1u64 << i) != 0) == (8 <= i < 16),
{
}

/// Where the squares of an en-passant capture lie: the pawn that is taken
/// stands beside the pawn that takes, on the file of the en-passant
/// square, which is empty; and the capture is one of the pawn's attacks
/// that the capture mask of pawns lets through.
pub proof fn lemma_en_passant_squares(p: Position, t: MoveTables, m: Move)
    requires
        p.sound(),
        computed(t),
        en_passant_in_place(p),
        listed(p.layout(), t, m),
        m.en_passant,
    ensures
        m.piece_moved == Pieces::PAWN,
        p.en_passant == Some(m.target_square),
        p.capture_square(m) < 64,
        p.capture_square(m) == p.layout().pushed_pawn(m.target_square),
        p.squares[p.capture_square(m) as int] == Some((p.side.other(), Pieces::PAWN)),
        p.squares[m.target_square as int] is None,
        p.squares[m.source_square as int] == Some((p.side, Pieces::PAWN)),
        p.capture_square(m) % 8 == m.target_square % 8,
        p.capture_square(m) / 8 == m.source_square / 8,
        m.source_square % 8 - m.target_square % 8 == 1 || m.source_square % 8 - m.target_square % 8
            == -1,
        m.target_square / 8 - m.source_square / 8 == 1 || m.target_square / 8 - m.source_square / 8
            == -1,
        bit(
            p.layout().pawn_capture_mask(
                t,
                m.source_square,
                p.layout().capture_mask(t),
                p.layout().king_square(),
                t.attacks(m.source_square as int, Pieces::PAWN, p.side, p.layout().both()),
            ),
            m.target_square,
        ),
{
    broadcast use group_bits;

    let l = p.layout();
    let x = m.target_square;
    let y = m.source_square;
    let us = p.side;
    lemma_layout_bits(p);
    lemma_en_passant_flag(l, t, m);
    lemma_ranks(y);
    assert(p.squares[y as int] == Some((us, Pieces::PAWN)));
    let geometry = t.leaping.pawn_moves[us.code()][y as int];
    assert(geometry == crate::precalculator::pawn_push_set(
        crate::precalculator::color_of(us.code()),
        y,
        crate::precalculator::WHITE_HOME,
        crate::precalculator::BLACK_HOME,
    ));
    if y >= 8 {
        lemma_bit_single((y - 8) as u8);
    }
    if y >= 16 {
        lemma_bit_single((y - 16) as u8);
    }
    if y < 56 {
        lemma_bit_single((y + 8) as u8);
    }
    if y < 48 {
        lemma_bit_single((y + 16) as u8);
    }
    assert(!bit(geometry, x));
    assert(!bit(l.pawn_pushes(t, y, l.block_mask(t)), x));
    assert(t.leaping.pawn_attacks[us.code()][y as int] == crate::precalculator::pawn_attack_set(
        crate::precalculator::color_of(us.code()),
        y,
        crate::precalculator::standard_not_files(),
    ));
    lemma_pawn_attacks(us, y, x);
    assert(pawn_capture(us, y, x));
}

/// A slider of a list that has exactly the two pawns between itself and
/// the king exposes the king.
proof fn lemma_exposed_holds(
    l: Layout,
    t: MoveTables,
    sliders: Seq<u8>,
    king_square: u8,
    pawns: u64,
    j: int,
)
    requires
        0 <= j < sliders.len(),
        t.between(king_square as int, sliders[j] as int) & l.both() == pawns,
    ensures
        l.exposed_to(t, sliders, king_square, pawns),
    decreases sliders.len(),
{
    if j < sliders.len() - 1 {
        lemma_exposed_holds(l, t, sliders.drop_last(), king_square, pawns, j);
    }
}

/// When the generator emits an en-passant capture whose two pawns stand
/// inside the line from a rook or a queen of the other side to the king,
/// some other piece stands inside that line as well.
pub proof fn lemma_rank_is_shared(p: Position, t: MoveTables, m: Move, s: u8, i: int)
    requires
        p.sound(),
        computed(t),
        en_passant_in_place(p),
        listed(p.layout(), t, m),
        m.en_passant,
        0 <= i < 3,
        s < 64,
        bit(p.layout().board(p.side.other(), Layout::slider_kind(i)), s),
        suits(Layout::slider_kind(i), s, p.layout().king_square()),
        inside(s, p.layout().king_square(), m.source_square),
        inside(s, p.layout().king_square(), p.capture_square(m)),
    ensures
        exists|z: u8|
            z < 64 && #[trigger] inside(s, p.layout().king_square(), z) && z != m.source_square
                && z != p.capture_square(m) && bit(p.layout().both(), z),
{
    broadcast use group_bits;

    let l = p.layout();
    let us = p.side;
    let them = p.side.other();
    let king = l.king_square();
    let x = m.target_square;
    let y = m.source_square;
    let c = p.capture_square(m);
    let kind = Layout::slider_kind(i);
    if forall|z: u8|
        z < 64 && #[trigger] inside(s, king, z) && z != y && z != c ==> !bit(l.both(), z) {
        lemma_en_passant_squares(p, t, m);
        lemma_layout_bits(p);
        lemma_lowest(l.board(us, Pieces::KING));
        lemma_ranks(king);
        lemma_ranks(s);
        lemma_ranks(c);
        let rank = t.double_push_ranks[them.code()];
        assert(c / 8 == king / 8 && c / 8 == s / 8);
        assert(bit(rank, king));
        assert(bit(rank, s));
        assert(kind == Pieces::ROOK || kind == Pieces::QUEEN);
        let pawns = (1u64 << y) | (1u64 << l.pushed_pawn(x));
        let between = t.between(king as int, s as int) & l.both();
        lemma_bit_single(y);
        lemma_bit_single(c);
        assert forall|z: u8| z < 64 implies bit(between, z) == bit(pawns, z) by {
            lemma_between_inside(t, king, s, z);
            lemma_inside_back(king, s, z);
            if inside(s, king, z) && z != y && z != c {
                assert(!bit(l.both(), z));
            }
        }
        lemma_bits_equal(between, pawns);
        let sliders = squares_of(l.board(them, kind) & rank);
        lemma_members_are_squares(l.board(them, kind) & rank, s);
        let j = choose|j: int| 0 <= j < sliders.len() && sliders[j] == s;
        lemma_exposed_holds(l, t, sliders, king, pawns, j);
        let attacks = t.attacks(y as int, Pieces::PAWN, us, l.both());
        assert(bit(
            l.legal_targets(t, y, Pieces::PAWN, l.block_mask(t), l.capture_mask(t), king),
            x,
        ));
        assert(bit(attacks, x));
        assert(l.en_passant_exposes(t, y, king, attacks, x));
        lemma_bit_single(x);
        assert(!bit(l.pawn_capture_mask(t, y, l.capture_mask(t), king, attacks), x));
    }
}

/// Once an en-passant capture that uncovers no diagonal has been made, no
/// bishop, rook or queen of the other side attacks the king.
pub proof fn lemma_no_slider_attacks_then(
    p: Position,
    t: MoveTables,
    m: Move,
    after: u64,
    s: u8,
    i: int,
)
    requires
        p.sound(),
        computed(t),
        en_passant_in_place(p),
        popcount(p.layout().checkers(t)) <= 1,
        listed(p.layout(), t, m),
        m.en_passant,
        !uncovers(p, m),
        occupied_after(p, m, after),
        0 <= i < 3,
        s < 64,
        bit(p.layout().board(p.side.other(), Layout::slider_kind(i)), s),
    ensures
        !bit(
            t.attacks(s as int, Layout::slider_kind(i), p.side.other(), after),
            p.layout().king_square(),
        ),
{
    let l = p.layout();
    let us = p.side;
    let them = p.side.other();
    let king = l.king_square();
    let x = m.target_square;
    let y = m.source_square;
    let c = p.capture_square(m);
    let kind = Layout::slider_kind(i);
    lemma_lowest(l.board(us, Pieces::KING));
    lemma_layout_bits(p);
    lemma_en_passant_squares(p, t, m);
    assert(p.squares[s as int] == Some((them, kind)));
    assert(p.squares[king as int] == Some((us, Pieces::KING)));
    if bit(t.attacks(s as int, kind, them, after), king) {
        lemma_table_reaches(t, kind, them, s, after, king);
        assert(reaches(after, s, king));
        if inside(s, king, x) {
            assert(bit(after, x));
        }
        assert(!inside(s, king, x));
        if inside(s, king, c) {
            if inside(s, king, y) {
                lemma_rank_is_shared(p, t, m, s, i);
                let z = choose|z: u8|
                    z < 64 && #[trigger] inside(s, king, z) && z != y && z != c && bit(
                        l.both(),
                        z,
                    );
                assert(bit(after, z));
            } else if diagonal(s, king) {
                assert forall|z: u8|
                    z < 64 && #[trigger] inside(s, king, z) && z != c implies p.squares[z as int]
                    is None by {
                    assert(!bit(after, z));
                }
                assert(bare_but(p, s, c));
                assert(uncovered_by(p, m, s));
            }
        } else if inside(s, king, y) {
            assert forall|z: u8| z < 64 && #[trigger] inside(s, king, z) && z != y implies !bit(
                l.both(),
                z,
            ) by {
                assert(!bit(after, z));
            }
            lemma_lone_blocker_keeps_line(p, t, m, s, i);
        } else {
            assert forall|z: u8| z < 64 && #[trigger] inside(s, king, z) implies !bit(
                l.both(),
                z,
            ) by {
                assert(!bit(after, z));
            }
            assert(reaches(l.both(), s, king));
            lemma_reaches_back(l.both(), s, king);
            lemma_table_reaches(t, kind, us, king, l.both(), s);
            lemma_answers_check(p, t, m, kind, s);
            lemma_inside_back(king, s, x);
        }
    }
}

/// An en-passant capture that uncovers a diagonal leaves the king on a
/// square that a bishop or a queen of the other side attacks.
pub proof fn lemma_uncovering_is_unsafe(p: Position, t: MoveTables, m: Move)
    requires
        p.sound(),
        computed(t),
        en_passant_in_place(p),
        listed(p.layout(), t, m),
        m.en_passant,
        uncovers(p, m),
    ensures
        !leaves_king_safe(p, t, m),
{
    let l = p.layout();
    let q = p.make(m);
    let ql = q.layout();
    let us = p.side;
    let them = p.side.other();
    let king = l.king_square();
    let x = m.target_square;
    let y = m.source_square;
    let c = p.capture_square(m);
    let s = choose|s: u8| uncovered_by(p, m, s);
    lemma_en_passant_squares(p, t, m);
    lemma_en_passant_flag(l, t, m);
    lemma_layout_bits(p);
    lemma_layout_bits(q);
    lemma_lowest(l.board(us, Pieces::KING));
    let kind = if p.squares[s as int] == Some((them, Pieces::BISHOP)) {
        Pieces::BISHOP
    } else {
        Pieces::QUEEN
    };
    assert(q.squares[c as int] is None);
    assert(q.squares[s as int] == Some((them, kind)));
    assert forall|z: u8| z < 64 && #[trigger] inside(s, king, z) implies !bit(ql.both(), z) by {
        if z != c {
            assert(p.squares[z as int] is None);
            assert(z != x);
            assert(q.squares[z as int] == p.squares[z as int]);
        }
    }
    assert(reaches(ql.both(), s, king));
    lemma_table_reaches(t, kind, them, s, ql.both(), king);
    assert(ql.pieces[them.code()][kind.code()] == ql.board(them, kind));
    assert(crate::king_safety::attacks_from(ql, t, them, ql.both(), kind.code(), s, king));
    crate::king_safety::lemma_attacked_by_bits(ql, t, them, ql.both(), 6, king);
}

} // verus!
