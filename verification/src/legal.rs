//! Positions as they arise in play, and that the generator's moves lead
//! from one such position to another.

use crate::accepted::{
    all_moves, flags_fit, lemma_all_joined, lemma_castle_accepted, lemma_free_moves_plain,
    lemma_layout_bits, lemma_moves_from_fit, lemma_pin_moves_plain, plain, plain_fn,
};
use crate::bits::{bit, group_bits, lemma_bit_single, lemma_lowest, lowest, popcount};
use crate::common::{Color, Pieces};
use crate::cover::{kings_apart, leaves_king_safe, listed};
use crate::generation::squares_of;
use crate::king_safety::{attacks_from, lemma_attacked_by_bits, one_king};
use crate::leapers::king_step;
use crate::move_encoding::Move;
use crate::passing::{en_passant_in_place, uncovers};
use crate::pinning::{free_fn, held_fn, lemma_free_moves_free, lemma_pin_moves_held};
use crate::position::{corner_right, rook_squares, side_rights, Position};
use crate::precalculator::computed;
use crate::safety::{lands_in, lemma_moves_land_in_targets};
use crate::tables::MoveTables;
use vstd::prelude::*;

verus! {

/// The square of the king of `side`.
pub open spec fn king_of(p: Position, side: Color) -> u8 {
    lowest(p.layout().board(side, Pieces::KING)) as u8
}

/// Whether `side` has a king, and one only.
pub open spec fn lone_king(p: Position, side: Color) -> bool {
    &&& king_of(p, side) < 64
    &&& p.squares[king_of(p, side) as int] == Some((side, Pieces::KING))
    &&& forall|i: int|
        0 <= i < 64 && #[trigger] p.squares[i] == Some((side, Pieces::KING)) ==> i == king_of(
            p,
            side,
        )
}

/// Whether every castle right of `side` finds the king of `side` on its
/// home square and the rook on its corner.
pub open spec fn rights_at_home(p: Position, side: Color) -> bool {
    match side {
        Color::WHITE => {
            &&& p.castle_rights & 0b1 != 0 ==> p.squares[60] == Some((side, Pieces::KING))
                && p.squares[63] == Some((side, Pieces::ROOK))
            &&& p.castle_rights & 0b10 != 0 ==> p.squares[60] == Some((side, Pieces::KING))
                && p.squares[56] == Some((side, Pieces::ROOK))
        },
        Color::BLACK => {
            &&& p.castle_rights & 0b100 != 0 ==> p.squares[4] == Some((side, Pieces::KING))
                && p.squares[7] == Some((side, Pieces::ROOK))
            &&& p.castle_rights & 0b1000 != 0 ==> p.squares[4] == Some((side, Pieces::KING))
                && p.squares[0] == Some((side, Pieces::ROOK))
        },
    }
}

/// Whether the king of the side that is not to move stands on a square
/// that no piece of the side to move attacks.
pub open spec fn unchecked(p: Position, t: MoveTables) -> bool {
    !bit(
        p.layout().attacked_by(t, p.side, p.layout().both(), 6),
        king_of(p, p.side.other()),
    )
}

/// Whether a position is one that arises in play: it is sound; either
/// side has one king, and the kings stand apart; the en-passant square is
/// in its place; the castle rights of either side find king and rook at
/// home; the side that has moved has not left its king attacked; and the
/// fullmove number can still grow.
pub open spec fn legal(p: Position, t: MoveTables) -> bool {
    &&& p.sound()
    &&& lone_king(p, Color::WHITE)
    &&& lone_king(p, Color::BLACK)
    &&& kings_apart(p)
    &&& en_passant_in_place(p)
    &&& rights_at_home(p, Color::WHITE)
    &&& rights_at_home(p, Color::BLACK)
    &&& unchecked(p, t)
    &&& p.fullmove < 65535
}

/// Whether `m` is one of the moves that the generator emits in `p`.
pub open spec fn emitted(p: Position, t: MoveTables, m: Move) -> bool {
    exists|k: int| 0 <= k < p.moves(t).len() && #[trigger] p.moves(t)[k] == m
}

/// Whether `m` is a step of the king, a castle, or a listed move of
/// another piece.
pub open spec fn sorted_out(p: Position, t: MoveTables, m: Move) -> bool {
    let l = p.layout();
    ||| (plain(l, t, m) && m.piece_moved == Pieces::KING && m.source_square == l.king_square()
        && bit(l.king_targets(t), m.target_square))
    ||| (lands_in(m, l.king_square(), l.castle_targets(t), Pieces::KING, true) && flags_fit(
        l,
        t,
        m,
    ) && popcount(l.checkers(t)) == 0)
    ||| (listed(l, t, m) && popcount(l.checkers(t)) <= 1)
}

/// `sorted_out`, as a function of the move.
pub open spec fn sorted_out_fn(p: Position, t: MoveTables) -> spec_fn(Move) -> bool {
    |m: Move| sorted_out(p, t, m)
}

/// Every move that the generator emits is a step of the king, a castle,
/// or a listed move of another piece.
pub proof fn lemma_emitted_are_sorted_out(p: Position, t: MoveTables)
    requires
        p.sound(),
        computed(t),
    ensures
        all_moves(p.moves(t), sorted_out_fn(p, t)),
{
    broadcast use group_bits;

    let l = p.layout();
    let pred = sorted_out_fn(p, t);
    let steps = l.king_moves(t);
    lemma_lowest(l.board(l.side, Pieces::KING));
    crate::accepted::lemma_king_moves_plain(l, t);
    lemma_moves_land_in_targets(l, t, l.king_square(), l.king_targets(t), Pieces::KING, false);
    assert forall|k: int| 0 <= k < steps.len() implies pred(#[trigger] steps[k]) by {
        assert(plain_fn(l, t)(steps[k]));
        assert(lands_in(steps[k], l.king_square(), l.king_targets(t), Pieces::KING, false));
    }
    if l.halfmove <= 100 && popcount(l.checkers(t)) <= 1 {
        let castles = l.castle_moves(t);
        let pinned = l.all_pin_moves(t, 3);
        let others = l.free_moves_upto(t, l.all_pinned(t, 3), 6);
        lemma_moves_land_in_targets(l, t, l.king_square(), l.castle_targets(t), Pieces::KING, true);
        lemma_moves_from_fit(
            l,
            t,
            squares_of(l.castle_targets(t)),
            l.king_square(),
            Pieces::KING,
            true,
        );
        assert forall|k: int| 0 <= k < castles.len() implies pred(#[trigger] castles[k]) by {
            let m = castles[k];
            assert(lands_in(m, l.king_square(), l.castle_targets(t), Pieces::KING, true));
            assert(flags_fit(l, t, m));
            if popcount(l.checkers(t)) == 1 {
                crate::bits::lemma_bit_none(m.target_square);
            }
        }
        lemma_pin_moves_held(l, t, 3);
        lemma_pin_moves_plain(l, t, 3);
        assert forall|k: int| 0 <= k < pinned.len() implies pred(#[trigger] pinned[k]) by {
            assert(held_fn(l, t)(pinned[k]));
            assert(plain_fn(l, t)(pinned[k]));
            assert(listed(l, t, pinned[k]));
        }
        lemma_free_moves_free(l, t, l.all_pinned(t, 3), 6);
        lemma_free_moves_plain(l, t, l.all_pinned(t, 3), 6);
        assert forall|k: int| 0 <= k < others.len() implies pred(#[trigger] others[k]) by {
            assert(free_fn(l, t, l.all_pinned(t, 3))(others[k]));
            assert(plain_fn(l, t)(others[k]));
        }
        lemma_all_joined(steps, castles, pred);
        lemma_all_joined(steps + castles, pinned, pred);
        lemma_all_joined(steps + castles + pinned, others, pred);
    }
}

/// Whether making `m` changes what stands on `z`: `z` is the source or
/// the target, the square of the pawn that an en-passant capture takes,
/// or one of the rook's two squares of a castle.
pub open spec fn touched(p: Position, m: Move, z: u8) -> bool {
    ||| z == m.source_square
    ||| z == m.target_square
    ||| (m.en_passant && z == p.capture_square(m))
    ||| (m.castle && (z == rook_squares(m.target_square).0 || z == rook_squares(
        m.target_square,
    ).1))
}

/// The piece that stands on the target once `m` has been made.
pub open spec fn placed(m: Move) -> Pieces {
    match m.promoted_piece {
        Some(promoted) => promoted,
        None => m.piece_moved,
    }
}

/// What a move that the generator emits finds and leaves on the squares
/// that it touches: its piece on the source, which it leaves empty;
/// nothing or a piece of the other side, which it attacks and which is no
/// king where the king of the other side is not attacked, on the target,
/// where it leaves its piece, or what its pawn is promoted to; the pawn
/// that an en-passant capture takes beside the source; and the rook of a
/// castle on its corner, which it leaves for the empty square beside the
/// king.
pub proof fn lemma_effect(p: Position, t: MoveTables, m: Move)
    requires
        p.sound(),
        computed(t),
        p.halfmove <= 100,
        en_passant_in_place(p),
        sorted_out(p, t, m),
    ensures
        p.accepts(m),
        m.source_square != m.target_square,
        p.make(m).squares.len() == 64,
        p.make(m).squares[m.source_square as int] is None,
        p.make(m).squares[m.target_square as int] == Some((p.side, placed(m))),
        placed(m) == Pieces::KING ==> m.piece_moved == Pieces::KING,
        m.piece_moved == Pieces::KING ==> m.source_square == p.layout().king_square(),
        m.promoted_piece is Some ==> m.piece_moved == Pieces::PAWN,
        forall|z: u8|
            z < 64 && !touched(p, m, z) ==> #[trigger] p.make(m).squares[z as int]
                == p.squares[z as int],
        m.en_passant ==> {
            &&& !m.castle
            &&& m.piece_moved == Pieces::PAWN
            &&& p.capture_square(m) < 64
            &&& p.squares[p.capture_square(m) as int] == Some((p.side.other(), Pieces::PAWN))
            &&& p.squares[m.target_square as int] is None
            &&& p.make(m).squares[p.capture_square(m) as int] is None
        },
        m.castle ==> {
            &&& m.piece_moved == Pieces::KING
            &&& m.capture is None
            &&& p.squares[m.target_square as int] is None
            &&& p.squares[rook_squares(m.target_square).0 as int] == Some(
                (p.side, Pieces::ROOK),
            )
            &&& p.squares[rook_squares(m.target_square).1 as int] is None
            &&& p.make(m).squares[rook_squares(m.target_square).0 as int] is None
            &&& p.make(m).squares[rook_squares(m.target_square).1 as int] == Some(
                (p.side, Pieces::ROOK),
            )
        },
        !m.en_passant ==> match m.capture {
            Some(captured) => p.squares[m.target_square as int] == Some(
                (p.side.other(), captured),
            ),
            None => p.squares[m.target_square as int] is None,
        },
        p.squares[m.target_square as int] is Some ==> bit(
            t.attacks(m.source_square as int, m.piece_moved, p.side, p.layout().both()),
            m.target_square,
        ),
{
    broadcast use group_bits;

    let l = p.layout();
    let x = m.target_square;
    let y = m.source_square;
    lemma_layout_bits(p);
    lemma_lowest(l.board(p.side, Pieces::KING));
    if plain(l, t, m) {
        crate::accepted::lemma_plain_accepted(p, t, m);
        crate::cover::lemma_en_passant_flag(l, t, m);
        let listed_moves = l.moves_to(t, y, x, m.piece_moved, m.castle);
        let j = choose|j: int| 0 <= j < listed_moves.len() && listed_moves[j] == m;
        assert(listed_moves[j] == m);
        if m.en_passant {
            assert(p.en_passant == Some(x));
        }
        if m.piece_moved != Pieces::KING {
            assert(listed(l, t, m));
            if let Some(en_passant) = l.en_passant {
                lemma_bit_single(en_passant);
            }
        }
    } else {
        lemma_castle_accepted(p, t, m);
        let listed_moves = l.moves_to(t, y, x, m.piece_moved, m.castle);
        let j = choose|j: int| 0 <= j < listed_moves.len() && listed_moves[j] == m;
        assert(listed_moves[j] == m);
    }
    assert(p.squares[y as int] == Some((p.side, m.piece_moved)));
}

/// The king of a side that has one king stands where its board says, and
/// the board holds no other square.
pub proof fn lemma_king_of(p: Position, side: Color, k: u8)
    requires
        p.squares.len() == 64,
        k < 64,
        p.squares[k as int] == Some((side, Pieces::KING)),
        forall|i: int|
            0 <= i < 64 && #[trigger] p.squares[i] == Some((side, Pieces::KING)) ==> i == k,
    ensures
        king_of(p, side) == k,
        lone_king(p, side),
{
    lemma_layout_bits(p);
    lemma_bit_single(0);
    let board = p.layout().board(side, Pieces::KING);
    assert(bit(board, k));
    lemma_lowest(board);
    assert(bit(board, lowest(board) as u8));
}

/// No move that the generator emits in a legal position takes a king.
pub proof fn lemma_no_king_is_taken(p: Position, t: MoveTables, m: Move)
    requires
        legal(p, t),
        computed(t),
        p.halfmove <= 100,
        sorted_out(p, t, m),
    ensures
        m.target_square != king_of(p, p.side.other()),
        m.capture != Some(Pieces::KING),
{
    let l = p.layout();
    let them = p.side.other();
    lemma_effect(p, t, m);
    lemma_layout_bits(p);
    if m.target_square == king_of(p, them) {
        assert(p.squares[m.target_square as int] == Some((them, Pieces::KING)));
        assert(l.pieces[p.side.code()][m.piece_moved.code()] == l.board(p.side, m.piece_moved));
        assert(attacks_from(
            l,
            t,
            p.side,
            l.both(),
            m.piece_moved.code(),
            m.source_square,
            m.target_square,
        ));
        lemma_attacked_by_bits(l, t, p.side, l.both(), 6, m.target_square);
    }
}

/// Once a move that the generator emits in a legal position has been
/// made, either side still has its one king: that of the side that moved
/// on the target if it was the king that moved, else where it stood; and
/// that of the other side where it stood.
pub proof fn lemma_kings_stay(p: Position, t: MoveTables, m: Move)
    requires
        legal(p, t),
        computed(t),
        p.halfmove <= 100,
        sorted_out(p, t, m),
    ensures
        lone_king(p.make(m), Color::WHITE),
        lone_king(p.make(m), Color::BLACK),
        king_of(p.make(m), p.side.other()) == king_of(p, p.side.other()),
        king_of(p.make(m), p.side) == if m.piece_moved == Pieces::KING {
            m.target_square
        } else {
            king_of(p, p.side)
        },
{
    let q = p.make(m);
    let us = p.side;
    let them = p.side.other();
    let ours = king_of(p, us);
    let theirs = king_of(p, them);
    lemma_effect(p, t, m);
    lemma_no_king_is_taken(p, t, m);
    assert(lone_king(p, us) && lone_king(p, them));
    assert(!touched(p, m, theirs));
    assert(q.squares[theirs as int] == Some((them, Pieces::KING)));
    assert forall|i: int|
        0 <= i < 64 && #[trigger] q.squares[i] == Some((them, Pieces::KING)) implies i
        == theirs by {
        if !touched(p, m, i as u8) {
            assert(q.squares[(i as u8) as int] == p.squares[i]);
        }
    }
    lemma_king_of(q, them, theirs);
    let now = if m.piece_moved == Pieces::KING {
        m.target_square
    } else {
        ours
    };
    if m.piece_moved != Pieces::KING {
        assert(!touched(p, m, ours));
    }
    assert(q.squares[now as int] == Some((us, Pieces::KING)));
    assert forall|i: int|
        0 <= i < 64 && #[trigger] q.squares[i] == Some((us, Pieces::KING)) implies i == now by {
        if !touched(p, m, i as u8) {
            assert(q.squares[(i as u8) as int] == p.squares[i]);
        }
    }
    lemma_king_of(q, us, now);
}

proof fn lemma_right_left(rights: u8, lost: u8, flag: u8)
    by (bit_vector)
    requires
        flag == 1 || flag == 2 || flag == 4 || flag == 8,
        (rights & !lost) & flag != 0,
    ensures
        rights & flag != 0,
        lost & flag == 0,
        lost != flag,
        flag == 1 || flag == 2 ==> lost != 3,
        flag == 4 || flag == 8 ==> lost != 12,
{
}

/// A castle right that is left once a move has been made was held before,
/// and the move neither moved the king of its side, nor moved or took the
/// rook on its corner.
proof fn lemma_right_kept(p: Position, m: Move, flag: u8)
    requires
        p.castle_rights < 16,
        flag == 1 || flag == 2 || flag == 4 || flag == 8,
        p.rights_after(m) & flag != 0,
    ensures
        p.castle_rights & flag != 0,
        m.capture == Some(Pieces::ROOK) ==> corner_right(m.target_square) != flag,
        m.piece_moved == Pieces::ROOK ==> corner_right(m.source_square) != flag,
        m.piece_moved == Pieces::KING ==> match p.side {
            Color::WHITE => flag == 4 || flag == 8,
            Color::BLACK => flag == 1 || flag == 2,
        },
{
    let after_capture = if m.capture == Some(Pieces::ROOK) {
        p.castle_rights & !corner_right(m.target_square)
    } else {
        p.castle_rights
    };
    if m.piece_moved == Pieces::KING {
        lemma_right_left(after_capture, side_rights(p.side), flag);
    } else if m.piece_moved == Pieces::ROOK {
        lemma_right_left(after_capture, corner_right(m.source_square), flag);
    }
    if m.capture == Some(Pieces::ROOK) {
        lemma_right_left(p.castle_rights, corner_right(m.target_square), flag);
    }
}

/// Once a move that the generator emits in a legal position has been
/// made, the castle rights of either side still find king and rook at
/// home.
pub proof fn lemma_rights_stay(p: Position, t: MoveTables, m: Move)
    requires
        legal(p, t),
        computed(t),
        p.halfmove <= 100,
        sorted_out(p, t, m),
    ensures
        rights_at_home(p.make(m), Color::WHITE),
        rights_at_home(p.make(m), Color::BLACK),
{
    let q = p.make(m);
    lemma_effect(p, t, m);
    lemma_no_king_is_taken(p, t, m);
    assert(lone_king(p, p.side) && lone_king(p, p.side.other()));
    assert(q.castle_rights == p.rights_after(m));
    if q.castle_rights & 1 != 0 {
        lemma_right_kept(p, m, 1);
        assert(!touched(p, m, 60) && !touched(p, m, 63));
    }
    if q.castle_rights & 2 != 0 {
        lemma_right_kept(p, m, 2);
        assert(!touched(p, m, 60) && !touched(p, m, 56));
    }
    if q.castle_rights & 4 != 0 {
        lemma_right_kept(p, m, 4);
        assert(!touched(p, m, 4) && !touched(p, m, 7));
    }
    if q.castle_rights & 8 != 0 {
        lemma_right_kept(p, m, 8);
        assert(!touched(p, m, 4) && !touched(p, m, 0));
    }
}

proof fn lemma_push_ranks(i: u8)
    by (bit_vector)
    requires
        i < 64,
    ensures
        ((1u64 << i) & 0x0000_00FF_0000_0000u64 != 0) == (32 <= i < 40),
        ((1u64 << i) & 0x0000_0000_FF00_0000u64 != 0) == (24 <= i < 32),
        (0x0000_FF00_0000_0000u64 & (1u64 << i) != 0) == (40 <= i < 48),
        (0x0000_0000_00FF_0000u64 & (1u64 << i) != 0) == (16 <= i < 24),
        (0x00FF_0000_0000_0000u64 & (1u64 << i) != 0) == (48 <= i < 56),
        (0x0000_0000_0000_FF00u64 & (1u64 << i) != 0) == (8 <= i < 16),
{
}

/// A word of two squares has two members.
proof fn lemma_two_members(word: u64, a: u8, b: u8)
    requires
        a < b < 64,
        forall|i: u8| i < 64 ==> bit(word, i) == (i == a || i == b),
    ensures
        popcount(word) == 2,
{
    lemma_bit_single(0);
    assert(bit(word, a));
    lemma_lowest(word);
    crate::bits::lemma_without_lowest(word);
    assert(bit(word, lowest(word) as u8));
    assert(lowest(word) == a);
    let rest = crate::bits::without_lowest(word);
    assert(bit(rest, b));
    lemma_lowest(rest);
    crate::bits::lemma_without_lowest(rest);
    assert(bit(rest, lowest(rest) as u8));
    assert(lowest(rest) == b);
    let none = crate::bits::without_lowest(rest);
    assert forall|i: u8| i < 64 implies bit(none, i) == bit(0u64, i) by {}
    crate::bits::lemma_bits_equal(none, 0);
    crate::bits::lemma_popcount_zero(none);
}

/// A double push among the listed moves is a move of a pawn from its home
/// rank two squares ahead, over a square that is empty; it is no capture
/// and promotes nothing.
pub proof fn lemma_double_push(p: Position, t: MoveTables, m: Move)
    requires
        p.sound(),
        computed(t),
        en_passant_in_place(p),
        listed(p.layout(), t, m),
        m.double_push,
    ensures
        m.piece_moved == Pieces::PAWN,
        !m.en_passant,
        m.promoted_piece is None,
        m.capture is None,
        match p.side {
            Color::WHITE => 48 <= m.source_square < 56 && m.target_square == m.source_square - 16,
            Color::BLACK => 8 <= m.source_square < 16 && m.target_square == m.source_square + 16,
        },
        p.passed_square(m) < 64,
        p.squares[p.passed_square(m) as int] is None,
        p.squares[m.target_square as int] is None,
{
    broadcast use group_bits;

    let l = p.layout();
    let us = p.side;
    let x = m.target_square;
    let y = m.source_square;
    lemma_layout_bits(p);
    crate::cover::lemma_en_passant_flag(l, t, m);
    let listed_moves = l.moves_to(t, y, x, m.piece_moved, m.castle);
    let j = choose|j: int| 0 <= j < listed_moves.len() && listed_moves[j] == m;
    assert(listed_moves[j] == m);
    lemma_push_ranks(x);
    lemma_push_ranks(y);
    assert(m.piece_moved == Pieces::PAWN);
    let geometry = t.leaping.pawn_moves[us.code()][y as int];
    assert(geometry == crate::precalculator::pawn_push_set(
        crate::precalculator::color_of(us.code()),
        y,
        crate::precalculator::WHITE_HOME,
        crate::precalculator::BLACK_HOME,
    ));
    assert(t.leaping.pawn_attacks[us.code()][y as int] == crate::precalculator::pawn_attack_set(
        crate::precalculator::color_of(us.code()),
        y,
        crate::precalculator::standard_not_files(),
    ));
    crate::leapers::lemma_pawn_attacks(us, y, x);
    if let Some(en_passant) = l.en_passant {
        lemma_bit_single(en_passant);
    }
    if y >= 16 {
        lemma_bit_single((y - 8) as u8);
        lemma_bit_single((y - 16) as u8);
        lemma_push_ranks((y - 8) as u8);
    }
    if y < 48 {
        lemma_bit_single((y + 8) as u8);
        lemma_bit_single((y + 16) as u8);
        lemma_push_ranks((y + 8) as u8);
    }
    assert(bit(geometry, x));
    let middle = p.passed_square(m);
    match us {
        Color::WHITE => {
            assert(48 <= y < 56 && x == y - 16);
            lemma_two_members(geometry, (y - 16) as u8, (y - 8) as u8);
        },
        Color::BLACK => {
            assert(8 <= y < 16 && x == y + 16);
            lemma_two_members(geometry, (y + 8) as u8, (y + 16) as u8);
        },
    }
    assert(!crate::leapers::pawn_capture(us, y, x));
    assert(bit(l.pawn_pushes(t, y, l.block_mask(t)), x));
    assert(!bit(l.enemy(), x) && !bit(l.own(), x));
    assert(p.squares[x as int] is None);
    crate::accepted::lemma_captured_at(p, x);
    if p.squares[middle as int] is Some {
        assert(bit(l.both(), middle));
        assert(bit(l.both() & (t.single_push_ranks[us.code()] & geometry), middle));
        crate::bits::lemma_bit_none(middle);
    }
}

/// Every move that the generator emits in a legal position, with the
/// computed tables, leads to a legal position again; but for the
/// en-passant captures that uncover a diagonal, and as long as the
/// fullmove number can grow.
pub proof fn lemma_legal_stays(p: Position, t: MoveTables, m: Move)
    requires
        legal(p, t),
        computed(t),
        p.fullmove < 65534,
        emitted(p, t, m),
        !(m.en_passant && uncovers(p, m)),
    ensures
        p.accepts(m),
        legal(p.make(m), t),
{
    broadcast use group_bits;

    let q = p.make(m);
    let ql = q.layout();
    let us = p.side;
    let them = p.side.other();
    let k = choose|k: int| 0 <= k < p.moves(t).len() && #[trigger] p.moves(t)[k] == m;
    lemma_emitted_are_sorted_out(p, t);
    assert(sorted_out_fn(p, t)(p.moves(t)[k]));
    assert(one_king(p));
    crate::cover::lemma_generated_moves_are_safe(p, t);
    assert(crate::cover::safe_or_uncovering(p, t, p.moves(t)[k]));
    assert(leaves_king_safe(p, t, m));
    lemma_effect(p, t, m);
    lemma_kings_stay(p, t, m);
    lemma_rights_stay(p, t, m);
    crate::position::lemma_make_wf(p, m);
    lemma_layout_bits(q);
    lemma_bit_single(0);
    let ours = king_of(q, us);
    let theirs = king_of(q, them);
    assert(bit(ql.board(them, Pieces::KING), theirs));
    assert(q.has_king());
    if m.double_push {
        assert(listed(p.layout(), t, m)) by {
            let listed_moves = p.layout().moves_to(
                t,
                m.source_square,
                m.target_square,
                m.piece_moved,
                m.castle,
            );
            let j = choose|j: int| 0 <= j < listed_moves.len() && listed_moves[j] == m;
            assert(listed_moves[j] == m);
        }
        lemma_double_push(p, t, m);
        assert(!touched(p, m, p.passed_square(m)));
    }
    assert(q.sound());
    assert(en_passant_in_place(q));
    assert(unchecked(q, t));
    assert forall|i: u8, j: u8|
        i < 64 && j < 64 && q.squares[i as int] == Some((Color::WHITE, Pieces::KING))
            && q.squares[j as int] == Some((Color::BLACK, Pieces::KING)) implies !#[trigger] king_step(
        i,
        j,
    ) by {
        assert(lone_king(q, Color::WHITE) && lone_king(q, Color::BLACK));
        assert(lone_king(p, Color::WHITE) && lone_king(p, Color::BLACK));
        if m.piece_moved == Pieces::KING {
            if king_step(i, j) {
                assert(king_step(theirs, ours));
                assert(t.leaping.king[theirs as int] == crate::precalculator::king_attack_set(
                    theirs,
                    crate::precalculator::standard_not_files(),
                ));
                crate::leapers::lemma_king_attacks(theirs, ours);
                assert(ql.pieces[them.code()][0] == ql.board(them, Pieces::KING));
                assert(attacks_from(ql, t, them, ql.both(), 0, theirs, ours));
                lemma_attacked_by_bits(ql, t, them, ql.both(), 6, ours);
            }
        } else {
            assert(p.squares[i as int] == Some((Color::WHITE, Pieces::KING)));
            assert(p.squares[j as int] == Some((Color::BLACK, Pieces::KING)));
        }
    }
}

proof fn lemma_all_rights()
    by (bit_vector)
    ensures
        0b1111u8 & 0b1 != 0,
        0b1111u8 & 0b10 != 0,
        0b1111u8 & 0b100 != 0,
        0b1111u8 & 0b1000 != 0,
{
}

/// The position in which a game starts is legal.
pub proof fn lemma_start_is_legal(t: MoveTables)
    requires
        computed(t),
    ensures
        legal(crate::notation::start_position(), t),
{
    let p = crate::notation::start_position();
    let l = p.layout();
    lemma_layout_bits(p);
    lemma_all_rights();
    lemma_bit_single(0);
    assert(p.squares[60] == Some((Color::WHITE, Pieces::KING)));
    assert(p.squares[4] == Some((Color::BLACK, Pieces::KING)));
    assert(p.squares[63] == Some((Color::WHITE, Pieces::ROOK)));
    assert(p.squares[56] == Some((Color::WHITE, Pieces::ROOK)));
    assert(p.squares[7] == Some((Color::BLACK, Pieces::ROOK)));
    assert(p.squares[0] == Some((Color::BLACK, Pieces::ROOK)));
    lemma_king_of(p, Color::WHITE, 60);
    lemma_king_of(p, Color::BLACK, 4);
    assert(bit(l.board(Color::WHITE, Pieces::KING), 60));
    assert(p.has_king());
    assert(p.sound());
    if bit(l.attacked_by(t, Color::WHITE, l.both(), 6), 4) {
        lemma_attacked_by_bits(l, t, Color::WHITE, l.both(), 6, 4);
        let (kind, s) = choose|kind: int, s: u8|
            0 <= kind < 6 && #[trigger] attacks_from(l, t, Color::WHITE, l.both(), kind, s, 4);
        let piece = Pieces::from_code(kind);
        assert(l.pieces[Color::WHITE.code()][kind] == l.board(Color::WHITE, piece));
        assert(p.squares[s as int] == Some((Color::WHITE, piece)));
        assert(s >= 48);
        match piece {
            Pieces::KING => {
                assert(t.leaping.king[s as int] == crate::precalculator::king_attack_set(
                    s,
                    crate::precalculator::standard_not_files(),
                ));
                crate::leapers::lemma_king_attacks(s, 4);
            },
            Pieces::KNIGHT => {
                assert(t.leaping.knight[s as int] == crate::precalculator::knight_attack_set(
                    s,
                    crate::precalculator::standard_not_files(),
                ));
                crate::leapers::lemma_knight_attacks(s, 4);
            },
            Pieces::PAWN => {
                assert(t.leaping.pawn_attacks[0][s as int]
                    == crate::precalculator::pawn_attack_set(
                    crate::precalculator::color_of(0),
                    s,
                    crate::precalculator::standard_not_files(),
                ));
                crate::leapers::lemma_pawn_attacks(Color::WHITE, s, 4);
            },
            _ => {
                crate::sight::lemma_table_reaches(t, piece, Color::WHITE, s, l.both(), 4);
            },
        }
    }
}

/// In a legal position, with the computed tables, every move that the
/// generator emits is accepted by the position and leaves the king of
/// the side that moved on a square that no piece of the other side
/// attacks; but for the en-passant captures that uncover a diagonal,
/// which leave it attacked.
pub proof fn lemma_legal_moves_are_safe(p: Position, t: MoveTables)
    requires
        legal(p, t),
        computed(t),
    ensures
        forall|k: int|
            0 <= k < p.moves(t).len() ==> {
                let m = #[trigger] p.moves(t)[k];
                &&& p.accepts(m)
                &&& leaves_king_safe(p, t, m) == !(m.en_passant && uncovers(p, m))
            },
{
    assert(one_king(p));
    crate::cover::lemma_generated_moves_are_safe(p, t);
    crate::accepted::lemma_generated_are_accepted(p, t);
    lemma_emitted_are_sorted_out(p, t);
    assert forall|k: int| 0 <= k < p.moves(t).len() implies {
        let m = #[trigger] p.moves(t)[k];
        &&& p.accepts(m)
        &&& leaves_king_safe(p, t, m) == !(m.en_passant && uncovers(p, m))
    } by {
        let m = p.moves(t)[k];
        assert(crate::cover::safe_or_uncovering(p, t, m));
        assert(sorted_out_fn(p, t)(m));
        if m.en_passant && uncovers(p, m) {
            lemma_effect(p, t, m);
            assert(listed(p.layout(), t, m));
            crate::passing::lemma_uncovering_is_unsafe(p, t, m);
        }
    }
}

} // verus!
