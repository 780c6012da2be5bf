//! No move that the generator emits leaves the king of the side that
//! moved attacked, but for the en-passant captures that uncover a
//! diagonal.

use crate::accepted::{
    all_moves, flags_fit, lemma_all_joined, lemma_castle_accepted, lemma_free_moves_plain,
    lemma_layout_bits, lemma_moves_from_fit, lemma_pin_moves_plain, plain, plain_fn,
};
use crate::bits::{
    bit, group_bits, lemma_bit_single, lemma_lowest, lemma_popcount_zero, lemma_without_lowest,
    lowest, popcount, without_lowest,
};
use crate::common::{Color, Pieces};
use crate::generation::{right_bit, squares_of, Layout};
use crate::leapers::{
    king_step, knight_jump, lemma_king_attacks, lemma_knight_attacks, lemma_pawn_attacks,
    pawn_capture,
};
use crate::move_encoding::Move;
use crate::passing::{
    en_passant_in_place, lemma_en_passant_squares, lemma_no_slider_attacks_then, uncovers,
};
use crate::king_safety::{lemma_king_steps_are_safe, one_king};
use crate::pinning::{
    bound, free, free_fn, held, held_by, held_fn, lemma_free_moves_free, lemma_pin_moves_held,
    lemma_pinned_holds, pins,
};
use crate::safety::{lands_in, lemma_king_steps_avoid_danger, lemma_moves_land_in_targets};
use crate::position::{rook_squares, Position};
use crate::precalculator::computed;
use crate::sight::{
    inside, lemma_between_inside, lemma_inside_nests, lemma_inside_suits, lemma_reaches_back,
    lemma_table_reaches, reaches, suits,
};
use crate::tables::{castle_info, MoveTables};
use vstd::prelude::*;

verus! {

/// A word with at most one member has no member but a given one.
pub proof fn lemma_single_member(x: u64, s: u8)
    requires
        popcount(x) <= 1,
        bit(x, s),
    ensures
        popcount(x) == 1,
        lowest(x) == s,
        forall|i: u8| bit(x, i) ==> i == s,
{
    lemma_bit_single(0);
    lemma_lowest(x);
    lemma_without_lowest(x);
    lemma_popcount_zero(without_lowest(x));
    assert(without_lowest(x) == 0);
    assert forall|i: u8| bit(x, i) implies i == lowest(x) by {
        assert(!bit(without_lowest(x), i));
    }
}

/// An enemy piece, other than a king, on a square that a piece of its kind
/// would attack from the king's square gives check.
pub proof fn lemma_checker_listed(l: Layout, t: MoveTables, kinds: nat, piece: Pieces, s: u8)
    requires
        kinds <= 6,
        1 <= piece.code() < kinds,
        bit(l.board(l.side.other(), piece), s),
        bit(t.attacks(l.king_square() as int, piece, l.side, l.both()), s),
    ensures
        bit(l.checkers_upto(t, kinds), s),
    decreases kinds,
{
    broadcast use group_bits;

    if piece.code() < kinds - 1 {
        lemma_checker_listed(l, t, (kinds - 1) as nat, piece, s);
    } else {
        assert(Pieces::from_code(kinds - 1) == piece);
    }
}

proof fn lemma_member(b: u64, i: u8)
    by (bit_vector)
    requires
        i < 64,
    ensures
        ((1u64 << i) & b != 0) == (b & (1u64 << i) != 0),
{
}

/// A legal target of a piece is on the block mask or on the capture mask,
/// unless the piece is a pawn, the target is the en-passant square, and
/// the pawn that made the double push is on the capture mask.
pub proof fn lemma_legal_targets_masked(
    l: Layout,
    t: MoveTables,
    square: u8,
    piece: Pieces,
    block_mask: u64,
    capture_mask: u64,
    king_square: u8,
    x: u8,
)
    requires
        l.wf(),
        bit(l.legal_targets(t, square, piece, block_mask, capture_mask, king_square), x),
    ensures
        bit(block_mask, x) || bit(capture_mask, x) || (piece == Pieces::PAWN && l.en_passant
            == Some(x) && bit(capture_mask, l.pushed_pawn(x))),
{
    broadcast use group_bits;

    if let Some(en_passant) = l.en_passant {
        lemma_bit_single(en_passant);
        lemma_member(capture_mask, l.pushed_pawn(en_passant));
    }
}

proof fn lemma_promotion_ranks(x: u8)
    by (bit_vector)
    requires
        x < 64,
    ensures
        (1u64 << x) & 0xFFu64 != 0 ==> x < 8,
        (1u64 << x) & 0xFF00_0000_0000_0000u64 != 0 ==> x >= 56,
{
}

/// The en-passant captures among the plain moves are the moves of a pawn
/// to the en-passant square; they promote nothing.
pub proof fn lemma_en_passant_flag(l: Layout, t: MoveTables, m: Move)
    requires
        l.wf(),
        computed(t),
        plain(l, t, m),
    ensures
        m.en_passant == (m.piece_moved == Pieces::PAWN && l.en_passant == Some(m.target_square)),
        m.en_passant ==> m.promoted_piece is None && m.capture == Some(Pieces::PAWN),
        !m.en_passant ==> m.capture == l.captured_at(m.target_square),
{
    lemma_promotion_ranks(m.target_square);
    let listed = l.moves_to(t, m.source_square, m.target_square, m.piece_moved, m.castle);
    let j = choose|j: int| 0 <= j < listed.len() && listed[j] == m;
    assert(listed[j] == m);
}

/// Whether `m` is one of the moves that the generator emits for a piece
/// other than the king: a plain move to a legal target, of a piece that
/// is not pinned or along the line of its pin.
pub open spec fn listed(l: Layout, t: MoveTables, m: Move) -> bool {
    &&& plain(l, t, m)
    &&& bound(l, t, m)
    &&& held(l, t, m) || free(l, t, l.all_pinned(t, 3), m)
}

/// When one piece gives check, a listed move takes it or lands inside the
/// line from the king to it.
pub proof fn lemma_answers_check(p: Position, t: MoveTables, m: Move, piece: Pieces, s: u8)
    requires
        p.sound(),
        computed(t),
        popcount(p.layout().checkers(t)) <= 1,
        listed(p.layout(), t, m),
        s < 64,
        piece != Pieces::KING,
        bit(p.layout().board(p.side.other(), piece), s),
        bit(t.attacks(p.layout().king_square() as int, piece, p.side, p.layout().both()), s),
    ensures
        m.target_square == s || inside(p.layout().king_square(), s, m.target_square) || (
        m.en_passant && p.capture_square(m) == s),
{
    let l = p.layout();
    let king = l.king_square();
    lemma_lowest(l.board(p.side, Pieces::KING));
    lemma_checker_listed(l, t, 6, piece, s);
    lemma_single_member(l.checkers(t), s);
    lemma_en_passant_flag(l, t, m);
    lemma_legal_targets_masked(
        l,
        t,
        m.source_square,
        m.piece_moved,
        l.block_mask(t),
        l.capture_mask(t),
        king,
        m.target_square,
    );
    if bit(l.block_mask(t), m.target_square) {
        lemma_between_inside(t, king, s, m.target_square);
    }
}

/// A piece that stands alone inside the line from a bishop, a rook or a
/// queen of the other side to the king, where the line suits that piece,
/// moves only along the line: it takes the slider or lands inside.
pub proof fn lemma_lone_blocker_keeps_line(p: Position, t: MoveTables, m: Move, s: u8, i: int)
    requires
        p.sound(),
        computed(t),
        listed(p.layout(), t, m),
        0 <= i < 3,
        s < 64,
        bit(p.layout().board(p.side.other(), Layout::slider_kind(i)), s),
        suits(Layout::slider_kind(i), s, p.layout().king_square()),
        inside(s, p.layout().king_square(), m.source_square),
        forall|z: u8|
            z < 64 && #[trigger] inside(s, p.layout().king_square(), z) && z != m.source_square
                ==> !bit(p.layout().both(), z),
    ensures
        m.target_square == s || inside(s, p.layout().king_square(), m.target_square),
{
    broadcast use group_bits;

    let l = p.layout();
    let us = p.side;
    let them = p.side.other();
    let king = l.king_square();
    let x = m.target_square;
    let y = m.source_square;
    let kind = Layout::slider_kind(i);
    let piece = m.piece_moved;
    lemma_layout_bits(p);
    lemma_lowest(l.board(us, Pieces::KING));
    assert(p.squares[s as int] == Some((them, kind)));
    assert(p.squares[y as int] == Some((us, piece)));
    assert forall|z: u8| z < 64 && #[trigger] inside(s, y, z) implies !bit(l.both(), z) by {
        lemma_inside_nests(s, king, y, z);
        assert(inside(s, king, z));
    }
    assert(reaches(l.both(), s, y));
    assert forall|z: u8| z < 64 && #[trigger] inside(king, y, z) implies !bit(l.both(), z) by {
        crate::sight::lemma_inside_back(king, y, z);
        lemma_inside_nests(s, king, y, z);
        assert(inside(s, king, z));
    }
    assert(reaches(l.both(), king, y));
    lemma_inside_suits(kind, s, king, y);
    lemma_table_reaches(t, kind, them, s, l.both(), y);
    lemma_table_reaches(t, Pieces::QUEEN, us, king, l.both(), y);
    lemma_between_inside(t, s, king, y);
    assert(bit(t.between(s as int, king as int), y));
    assert(pins(l, t, s, kind, piece, y));
    lemma_pinned_holds(l, t, 3, i, s, piece, y);
    assert(held(l, t, m));
    let (other, j) = choose|other: u8, j: int|
        0 <= j < 3 && other < 64 && bit(l.board(them, Layout::slider_kind(j)), other)
            && #[trigger] held_by(l, t, other, Layout::slider_kind(j), m);
    let other_kind = Layout::slider_kind(j);
    assert(p.squares[other as int] == Some((them, other_kind)));
    lemma_between_inside(t, other, king, y);
    lemma_table_reaches(t, other_kind, them, other, l.both(), y);
    assert(inside(other, king, y));
    assert(reaches(l.both(), other, y));
    if other != s {
        crate::sight::lemma_inside_orders(s, other, king, y);
        if inside(other, y, s) {
            assert(bit(l.both(), s));
        } else {
            lemma_inside_nests(s, king, y, other);
            assert(inside(s, king, other));
            assert(bit(l.both(), other));
        }
    }
    assert(other == s);
    lemma_between_inside(t, s, king, x);
    lemma_bit_single(s);
}

/// Whether `after` is the occupancy of the board once `m`, which is no
/// castle, has been made: the source and the square of a captured piece
/// are left, the target is taken, and nothing else has changed.
pub open spec fn occupied_after(p: Position, m: Move, after: u64) -> bool {
    forall|z: u8|
        z < 64 ==> #[trigger] bit(after, z) == (z == m.target_square || (z != m.source_square
            && z != p.capture_square(m) && bit(p.layout().both(), z)))
}

/// Once a listed move that is no en-passant capture has been made, no
/// bishop, rook or queen of the other side that the move has not taken
/// attacks the king.
proof fn lemma_no_slider_attacks(
    p: Position,
    t: MoveTables,
    m: Move,
    after: u64,
    s: u8,
    i: int,
)
    requires
        p.sound(),
        computed(t),
        popcount(p.layout().checkers(t)) <= 1,
        listed(p.layout(), t, m),
        !m.en_passant,
        occupied_after(p, m, after),
        0 <= i < 3,
        s < 64,
        s != m.target_square,
        bit(p.layout().board(p.side.other(), Layout::slider_kind(i)), s),
    ensures
        !bit(
            t.attacks(s as int, Layout::slider_kind(i), p.side.other(), after),
            p.layout().king_square(),
        ),
{
    let l = p.layout();
    let us = p.side;
    let them = p.side.other();
    let king = l.king_square();
    let x = m.target_square;
    let y = m.source_square;
    let kind = Layout::slider_kind(i);
    lemma_lowest(l.board(us, Pieces::KING));
    if bit(t.attacks(s as int, kind, them, after), king) {
        lemma_table_reaches(t, kind, them, s, after, king);
        assert(reaches(after, s, king));
        if inside(s, king, x) {
            assert(bit(after, x));
        }
        assert(!inside(s, king, x));
        if inside(s, king, y) {
            assert forall|z: u8| z < 64 && #[trigger] inside(s, king, z) && z != y implies !bit(
                l.both(),
                z,
            ) by {
                assert(!bit(after, z));
            }
            lemma_lone_blocker_keeps_line(p, t, m, s, i);
        } else {
            assert forall|z: u8| z < 64 && #[trigger] inside(s, king, z) implies !bit(
                l.both(),
                z,
            ) by {
                assert(!bit(after, z));
            }
            assert(reaches(l.both(), s, king));
            lemma_reaches_back(l.both(), s, king);
            lemma_table_reaches(t, kind, us, king, l.both(), s);
            lemma_answers_check(p, t, m, kind, s);
            crate::sight::lemma_inside_back(king, s, x);
        }
    }
}

/// Once a listed move has been made, no pawn or knight of the other side
/// that the move has not taken attacks the king.
proof fn lemma_no_leaper_attacks(
    p: Position,
    t: MoveTables,
    m: Move,
    after: u64,
    s: u8,
    piece: Pieces,
)
    requires
        p.sound(),
        computed(t),
        popcount(p.layout().checkers(t)) <= 1,
        listed(p.layout(), t, m),
        s < 64,
        s != m.target_square,
        s != p.capture_square(m),
        piece == Pieces::PAWN || piece == Pieces::KNIGHT,
        bit(p.layout().board(p.side.other(), piece), s),
    ensures
        !bit(t.attacks(s as int, piece, p.side.other(), after), p.layout().king_square()),
{
    let l = p.layout();
    let us = p.side;
    let them = p.side.other();
    let king = l.king_square();
    lemma_lowest(l.board(us, Pieces::KING));
    if bit(t.attacks(s as int, piece, them, after), king) {
        if piece == Pieces::KNIGHT {
            assert(t.leaping.knight[s as int] == crate::precalculator::knight_attack_set(
                s,
                crate::precalculator::standard_not_files(),
            ));
            assert(t.leaping.knight[king as int] == crate::precalculator::knight_attack_set(
                king,
                crate::precalculator::standard_not_files(),
            ));
            lemma_knight_attacks(s, king);
            lemma_knight_attacks(king, s);
            assert(knight_jump(king, s));
        } else {
            assert(t.leaping.pawn_attacks[them.code()][s as int]
                == crate::precalculator::pawn_attack_set(
                crate::precalculator::color_of(them.code()),
                s,
                crate::precalculator::standard_not_files(),
            ));
            assert(t.leaping.pawn_attacks[us.code()][king as int]
                == crate::precalculator::pawn_attack_set(
                crate::precalculator::color_of(us.code()),
                king,
                crate::precalculator::standard_not_files(),
            ));
            lemma_pawn_attacks(them, s, king);
            lemma_pawn_attacks(us, king, s);
            assert(pawn_capture(us, king, s));
            assert(king_step(king, s));
        }
        lemma_answers_check(p, t, m, piece, s);
        crate::sight::lemma_leaps_hold_nothing(king, s, m.target_square);
    }
}

/// Whether no king stands a king's step from a king of the other colour.
pub open spec fn kings_apart(p: Position) -> bool {
    forall|i: u8, j: u8|
        i < 64 && j < 64 && p.squares[i as int] == Some((Color::WHITE, Pieces::KING))
            && p.squares[j as int] == Some((Color::BLACK, Pieces::KING)) ==> !#[trigger] king_step(
            i,
            j,
        )
}

/// Whether the king of the side that made `m` stands, once `m` has been
/// made, on a square that no piece of the other side attacks.
pub open spec fn leaves_king_safe(p: Position, t: MoveTables, m: Move) -> bool {
    !bit(
        p.make(m).layout().attacked_by(t, p.side.other(), p.make(m).layout().both(), 6),
        if m.piece_moved == Pieces::KING {
            m.target_square
        } else {
            p.layout().king_square()
        },
    )
}

/// A listed move leaves the king on a square that no piece of the other
/// side attacks, unless it is an en-passant capture that uncovers a
/// diagonal.
proof fn lemma_listed_move_is_safe(p: Position, t: MoveTables, m: Move)
    requires
        p.sound(),
        computed(t),
        kings_apart(p),
        en_passant_in_place(p),
        popcount(p.layout().checkers(t)) <= 1,
        listed(p.layout(), t, m),
        m.en_passant ==> !uncovers(p, m),
    ensures
        leaves_king_safe(p, t, m),
{
    let l = p.layout();
    let q = p.make(m);
    let ql = q.layout();
    let us = p.side;
    let them = p.side.other();
    let king = l.king_square();
    let x = m.target_square;
    let y = m.source_square;
    lemma_layout_bits(p);
    lemma_layout_bits(q);
    lemma_lowest(l.board(us, Pieces::KING));
    let taken = p.capture_square(m);
    lemma_en_passant_flag(l, t, m);
    if m.en_passant {
        lemma_en_passant_squares(p, t, m);
    }
    assert(p.squares[y as int] == Some((us, m.piece_moved)));
    assert(x != y && taken < 64 && taken != y);
    assert(q.squares[y as int] is None);
    assert(q.squares[x as int] matches Some((c, _)) && c == us);
    assert(m.en_passant ==> q.squares[taken as int] is None);
    assert forall|z: u8| z < 64 && z != x && z != y && z != taken implies q.squares[z as int]
        == p.squares[z as int] by {}
    assert(occupied_after(p, m, ql.both()));
    if bit(ql.attacked_by(t, them, ql.both(), 6), king) {
        crate::king_safety::lemma_attacked_by_bits(ql, t, them, ql.both(), 6, king);
        let (kind, s) = choose|kind: int, s: u8|
            0 <= kind < 6 && #[trigger] crate::king_safety::attacks_from(
                ql,
                t,
                them,
                ql.both(),
                kind,
                s,
                king,
            );
        let piece = Pieces::from_code(kind);
        assert(ql.pieces[them.code()][kind] == ql.board(them, piece));
        assert(bit(ql.board(them, piece), s));
        assert(q.squares[s as int] == Some((them, piece)));
        assert(s != x && s != y && s != taken);
        assert(p.squares[s as int] == Some((them, piece)));
        assert(bit(l.board(them, piece), s));
        match piece {
            Pieces::KING => {
                assert(t.leaping.king[s as int] == crate::precalculator::king_attack_set(
                    s,
                    crate::precalculator::standard_not_files(),
                ));
                lemma_king_attacks(s, king);
                assert(king_step(s, king));
                assert(king_step(king, s));
            },
            Pieces::PAWN => {
                lemma_no_leaper_attacks(p, t, m, ql.both(), s, piece);
            },
            Pieces::KNIGHT => {
                lemma_no_leaper_attacks(p, t, m, ql.both(), s, piece);
            },
            Pieces::BISHOP => {
                if m.en_passant {
                    lemma_no_slider_attacks_then(p, t, m, ql.both(), s, 0);
                } else {
                    lemma_no_slider_attacks(p, t, m, ql.both(), s, 0);
                }
            },
            Pieces::ROOK => {
                if m.en_passant {
                    lemma_no_slider_attacks_then(p, t, m, ql.both(), s, 1);
                } else {
                    lemma_no_slider_attacks(p, t, m, ql.both(), s, 1);
                }
            },
            Pieces::QUEEN => {
                if m.en_passant {
                    lemma_no_slider_attacks_then(p, t, m, ql.both(), s, 2);
                } else {
                    lemma_no_slider_attacks(p, t, m, ql.both(), s, 2);
                }
            },
        }
    }
}

/// No castle target is a danger square.
proof fn lemma_castle_targets_safe(l: Layout, t: MoveTables, n: nat)
    requires
        n <= 4,
    ensures
        forall|i: u8| #[trigger] bit(l.castle_targets_upto(t, n), i) ==> !bit(l.danger(t), i),
    decreases n,
{
    broadcast use group_bits;

    if n > 0 {
        lemma_castle_targets_safe(l, t, (n - 1) as nat);
        let before = l.castle_targets_upto(t, (n - 1) as nat);
        assert forall|i: u8| #[trigger] bit(l.castle_targets_upto(t, n), i) implies !bit(
            l.danger(t),
            i,
        ) by {
            if !bit(before, i) {
                let (target, crossed) = castle_info(right_bit(n - 1), l.side)->0;
                lemma_bit_single(target);
                assert(i == target);
                assert(bit(crossed, target));
                assert(!bit(crossed & l.danger(t), target));
            }
        }
    }
}

/// A castle leaves the king on a square that no piece of the other side
/// attacks.
proof fn lemma_castle_is_safe(p: Position, t: MoveTables, m: Move)
    requires
        p.sound(),
        computed(t),
        p.halfmove <= 100,
        lands_in(m, p.layout().king_square(), p.layout().castle_targets(t), Pieces::KING, true),
        flags_fit(p.layout(), t, m),
    ensures
        leaves_king_safe(p, t, m),
{
    broadcast use group_bits;

    let l = p.layout();
    let q = p.make(m);
    let ql = q.layout();
    let us = p.side;
    let them = p.side.other();
    let king = l.king_square();
    let x = m.target_square;
    let (corner, beside) = rook_squares(x);
    lemma_castle_accepted(p, t, m);
    lemma_castle_targets_safe(l, t, 4);
    lemma_layout_bits(p);
    lemma_layout_bits(q);
    lemma_lowest(l.board(us, Pieces::KING));
    let listed = l.moves_to(t, king, x, Pieces::KING, true);
    let j = choose|j: int| 0 <= j < listed.len() && listed[j] == m;
    assert(listed[j] == m);
    assert(bit(l.castle_targets_upto(t, 4), x));
    assert(!bit(l.danger(t), x));
    assert(p.squares[king as int] == Some((us, Pieces::KING)));
    assert(p.squares[x as int] is None);
    assert(p.squares[beside as int] is None);
    assert(p.squares[corner as int] == Some((us, Pieces::ROOK)));
    assert(king != x && king != beside && king != corner);
    assert(q.squares[x as int] == Some((us, Pieces::KING)));
    assert(q.squares[beside as int] == Some((us, Pieces::ROOK)));
    assert(q.squares[king as int] is None);
    assert(q.squares[corner as int] is None);
    assert forall|z: u8|
        z < 64 && z != x && z != king && z != corner && z != beside implies q.squares[z as int]
        == p.squares[z as int] by {}
    let lifted = l.both() & !l.board(us, Pieces::KING);
    if bit(ql.attacked_by(t, them, ql.both(), 6), x) {
        crate::king_safety::lemma_attacked_by_bits(ql, t, them, ql.both(), 6, x);
        let (kind, s) = choose|kind: int, s: u8|
            0 <= kind < 6 && #[trigger] crate::king_safety::attacks_from(
                ql,
                t,
                them,
                ql.both(),
                kind,
                s,
                x,
            );
        let piece = Pieces::from_code(kind);
        assert(ql.pieces[them.code()][kind] == ql.board(them, piece));
        assert(l.pieces[them.code()][kind] == l.board(them, piece));
        assert(bit(ql.board(them, piece), s));
        assert(q.squares[s as int] == Some((them, piece)));
        assert(p.squares[s as int] == Some((them, piece)));
        assert(bit(l.board(them, piece), s));
        if piece == Pieces::BISHOP || piece == Pieces::ROOK || piece == Pieces::QUEEN {
            lemma_table_reaches(t, piece, them, s, ql.both(), x);
            assert forall|z: u8| z < 64 && #[trigger] inside(s, x, z) implies !bit(lifted, z) by {
                if z == corner {
                    crate::sight::lemma_corners_are_outside(s, x, z);
                }
                assert(!bit(ql.both(), z));
            }
            assert(reaches(lifted, s, x));
            lemma_table_reaches(t, piece, them, s, lifted, x);
        }
        assert(crate::king_safety::attacks_from(l, t, them, lifted, kind, s, x));
        crate::king_safety::lemma_attacked_by_bits(l, t, them, lifted, 6, x);
    }
}

/// Whether `m` leaves the king safe, or is an en-passant capture that
/// uncovers a diagonal.
pub open spec fn safe_or_uncovering(p: Position, t: MoveTables, m: Move) -> bool {
    leaves_king_safe(p, t, m) || (m.en_passant && uncovers(p, m))
}

/// `safe_or_uncovering`, as a function of the move.
pub open spec fn safe_fn(p: Position, t: MoveTables) -> spec_fn(Move) -> bool {
    |m: Move| safe_or_uncovering(p, t, m)
}

/// In a sound position whose kings stand apart and whose en-passant square
/// is in its place, with the computed tables, every move that the
/// generator emits leaves the king of the side that moved on a square that
/// no piece of the other side attacks; but for the en-passant captures
/// that take the one piece inside the diagonal from a bishop or a queen of
/// the other side to the king.
pub proof fn lemma_generated_moves_are_safe(p: Position, t: MoveTables)
    requires
        p.sound(),
        computed(t),
        one_king(p),
        kings_apart(p),
        en_passant_in_place(p),
    ensures
        forall|k: int|
            0 <= k < p.moves(t).len() ==> safe_or_uncovering(p, t, #[trigger] p.moves(t)[k]),
{
    let l = p.layout();
    let safe = safe_fn(p, t);
    let steps = l.king_moves(t);
    lemma_king_steps_are_safe(p, t);
    lemma_king_steps_avoid_danger(l, t);
    assert forall|k: int| 0 <= k < steps.len() implies safe(#[trigger] steps[k]) by {
        assert(steps[k].piece_moved == Pieces::KING);
    }
    if l.halfmove <= 100 && popcount(l.checkers(t)) <= 1 {
        let castles = l.castle_moves(t);
        let pinned = l.all_pin_moves(t, 3);
        let others = l.free_moves_upto(t, l.all_pinned(t, 3), 6);
        lemma_moves_land_in_targets(l, t, l.king_square(), l.castle_targets(t), Pieces::KING, true);
        lemma_moves_from_fit(
            l,
            t,
            squares_of(l.castle_targets(t)),
            l.king_square(),
            Pieces::KING,
            true,
        );
        assert forall|k: int| 0 <= k < castles.len() implies safe(#[trigger] castles[k]) by {
            let m = castles[k];
            assert(lands_in(m, l.king_square(), l.castle_targets(t), Pieces::KING, true));
            assert(flags_fit(l, t, m));
            if popcount(l.checkers(t)) == 1 {
                crate::bits::lemma_bit_none(m.target_square);
            } else {
                lemma_castle_is_safe(p, t, m);
            }
        }
        lemma_pin_moves_held(l, t, 3);
        lemma_pin_moves_plain(l, t, 3);
        assert forall|k: int| 0 <= k < pinned.len() implies safe(#[trigger] pinned[k]) by {
            let m = pinned[k];
            assert(held_fn(l, t)(m));
            assert(plain_fn(l, t)(m));
            let (slider, i) = choose|slider: u8, i: int|
                0 <= i < 3 && slider < 64 && bit(
                    l.board(l.side.other(), Layout::slider_kind(i)),
                    slider,
                ) && #[trigger] held_by(l, t, slider, Layout::slider_kind(i), m);
            if !(m.en_passant && uncovers(p, m)) {
                lemma_listed_move_is_safe(p, t, m);
            }
        }
        lemma_free_moves_free(l, t, l.all_pinned(t, 3), 6);
        lemma_free_moves_plain(l, t, l.all_pinned(t, 3), 6);
        assert forall|k: int| 0 <= k < others.len() implies safe(#[trigger] others[k]) by {
            let m = others[k];
            assert(free_fn(l, t, l.all_pinned(t, 3))(m));
            assert(plain_fn(l, t)(m));
            if !(m.en_passant && uncovers(p, m)) {
                lemma_listed_move_is_safe(p, t, m);
            }
        }
        lemma_all_joined(steps, castles, safe);
        lemma_all_joined(steps + castles, pinned, safe);
        lemma_all_joined(steps + castles + pinned, others, safe);
    }
    assert(all_moves(p.moves(t), safe));
    assert forall|k: int| 0 <= k < p.moves(t).len() implies safe_or_uncovering(
        p,
        t,
        #[trigger] p.moves(t)[k],
    ) by {
        assert(safe(p.moves(t)[k]));
    }
}

} // verus!
