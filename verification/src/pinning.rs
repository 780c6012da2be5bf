//! Where the moves of the pieces other than the king come from: a piece
//! that is pinned moves along the line of its pin, a piece that moves
//! freely is not pinned, and both go to their legal targets only.

use crate::accepted::{all_moves, lemma_all_concat, lemma_all_joined};
use crate::bits::{bit, group_bits, lemma_bit_single};
use crate::common::Pieces;
use crate::generation::{concat_over, single_fn, squares_of, Layout};
use crate::king_safety::{lemma_members_are_squares, lemma_or_over_bits};
use crate::move_encoding::Move;
use crate::safety::{lands_in, lemma_moves_land_in_targets, lemma_squares_are_members};
use crate::tables::MoveTables;
use vstd::prelude::*;

verus! {

/// Whether `m` moves a piece other than the king to one of its legal
/// targets.
pub open spec fn bound(l: Layout, t: MoveTables, m: Move) -> bool {
    &&& m.piece_moved != Pieces::KING
    &&& bit(
        l.legal_targets(
            t,
            m.source_square,
            m.piece_moved,
            l.block_mask(t),
            l.capture_mask(t),
            l.king_square(),
        ),
        m.target_square,
    )
}

/// Whether `m` moves a piece that the slider on `slider`, of kind `kind`,
/// pins, to a square between the slider and the king or onto the slider.
pub open spec fn held_by(l: Layout, t: MoveTables, slider: u8, kind: Pieces, m: Move) -> bool {
    &&& bound(l, t, m)
    &&& bit(
        l.pinned_by(t, slider, l.pin_candidates(t, slider, kind), m.piece_moved),
        m.source_square,
    )
    &&& bit(t.between(slider as int, l.king_square() as int) | (1u64 << slider), m.target_square)
}

/// `held_by`, as a function of the move.
pub open spec fn held_by_fn(l: Layout, t: MoveTables, slider: u8, kind: Pieces) -> spec_fn(
    Move,
) -> bool {
    |m: Move| held_by(l, t, slider, kind, m)
}

/// Whether `m` moves a piece that some slider of the other side pins, along
/// the line of that pin.
pub open spec fn held(l: Layout, t: MoveTables, m: Move) -> bool {
    exists|slider: u8, i: int|
        0 <= i < 3 && slider < 64 && bit(l.board(l.side.other(), Layout::slider_kind(i)), slider)
            && #[trigger] held_by(l, t, slider, Layout::slider_kind(i), m)
}

/// `held`, as a function of the move.
pub open spec fn held_fn(l: Layout, t: MoveTables) -> spec_fn(Move) -> bool {
    |m: Move| held(l, t, m)
}

/// Whether `m` moves a piece that `ignore` does not hold.
pub open spec fn free(l: Layout, t: MoveTables, ignore: u64, m: Move) -> bool {
    bound(l, t, m) && !bit(ignore, m.source_square)
}

/// `free`, as a function of the move.
pub open spec fn free_fn(l: Layout, t: MoveTables, ignore: u64) -> spec_fn(Move) -> bool {
    |m: Move| free(l, t, ignore, m)
}

/// The moves of the pieces that one slider pins are held by it.
proof fn lemma_pinned_upto_held(
    l: Layout,
    t: MoveTables,
    slider: u8,
    kind: Pieces,
    kinds: nat,
)
    requires
        kinds <= 6,
    ensures
        all_moves(
            l.pinned_moves_upto(t, slider, l.pin_candidates(t, slider, kind), kinds),
            held_by_fn(l, t, slider, kind),
        ),
    decreases kinds,
{
    broadcast use group_bits;

    let candidates = l.pin_candidates(t, slider, kind);
    if kinds > 1 {
        lemma_pinned_upto_held(l, t, slider, kind, (kinds - 1) as nat);
        let piece = Pieces::from_code(kinds - 1);
        let pinned = l.pinned_by(t, slider, candidates, piece);
        let f = l.pinned_moves_fn(t, slider, piece);
        lemma_squares_are_members(pinned);
        assert forall|i: int| 0 <= i < squares_of(pinned).len() implies all_moves(
            f(#[trigger] squares_of(pinned)[i]),
            held_by_fn(l, t, slider, kind),
        ) by {
            let square = squares_of(pinned)[i];
            assert(bit(pinned, square));
            let line = t.between(slider as int, l.king_square() as int) | (1u64 << slider);
            let targets = line & l.legal_targets(
                t,
                square,
                piece,
                l.block_mask(t),
                l.capture_mask(t),
                l.king_square(),
            );
            lemma_moves_land_in_targets(l, t, square, targets, piece, false);
            assert forall|k: int| 0 <= k < f(square).len() implies held_by(
                l,
                t,
                slider,
                kind,
                #[trigger] f(square)[k],
            ) by {
                assert(lands_in(f(square)[k], square, targets, piece, false));
            }
        }
        lemma_all_concat(squares_of(pinned), f, held_by_fn(l, t, slider, kind));
        lemma_all_joined(
            l.pinned_moves_upto(t, slider, candidates, (kinds - 1) as nat),
            concat_over(squares_of(pinned), f),
            held_by_fn(l, t, slider, kind),
        );
    } else if kinds == 1 {
        lemma_pinned_upto_held(l, t, slider, kind, 0);
    }
}

/// The moves of the pieces that the sliders of a list pin are held.
proof fn lemma_pin_moves_over_held(l: Layout, t: MoveTables, sliders: Seq<u8>, i: int)
    requires
        0 <= i < 3,
        forall|j: int|
            0 <= j < sliders.len() ==> bit(
                l.board(l.side.other(), Layout::slider_kind(i)),
                #[trigger] sliders[j],
            ),
    ensures
        all_moves(l.pin_moves_over(t, sliders, Layout::slider_kind(i)), held_fn(l, t)),
    decreases sliders.len(),
{
    if sliders.len() > 0 {
        let kind = Layout::slider_kind(i);
        let slider = sliders.last();
        lemma_pin_moves_over_held(l, t, sliders.drop_last(), i);
        lemma_pinned_upto_held(l, t, slider, kind, 6);
        let last = l.slider_pin_moves(t, slider, l.pin_candidates(t, slider, kind));
        assert(bit(l.board(l.side.other(), kind), sliders[sliders.len() - 1]));
        assert forall|k: int| 0 <= k < last.len() implies held(l, t, #[trigger] last[k]) by {
            assert(held_by(l, t, slider, Layout::slider_kind(i), last[k]));
        }
        lemma_all_joined(l.pin_moves_over(t, sliders.drop_last(), kind), last, held_fn(l, t));
    }
}

/// Every move of a pinned piece is held: the piece goes to one of its
/// legal targets, on the line of a slider that pins it.
pub proof fn lemma_pin_moves_held(l: Layout, t: MoveTables, n: nat)
    requires
        n <= 3,
    ensures
        all_moves(l.all_pin_moves(t, n), held_fn(l, t)),
    decreases n,
{
    if n > 0 {
        let sliders = squares_of(l.board(l.side.other(), Layout::slider_kind(n - 1)));
        lemma_pin_moves_held(l, t, (n - 1) as nat);
        lemma_squares_are_members(l.board(l.side.other(), Layout::slider_kind(n - 1)));
        lemma_pin_moves_over_held(l, t, sliders, n - 1);
        lemma_all_joined(
            l.all_pin_moves(t, (n - 1) as nat),
            l.pin_moves_over(t, sliders, Layout::slider_kind(n - 1)),
            held_fn(l, t),
        );
    }
}

/// Every move of a piece that is not pinned goes to one of the piece's
/// legal targets, and no such piece is one of those left out.
pub proof fn lemma_free_moves_free(l: Layout, t: MoveTables, ignore: u64, kinds: nat)
    requires
        kinds <= 6,
    ensures
        all_moves(l.free_moves_upto(t, ignore, kinds), free_fn(l, t, ignore)),
    decreases kinds,
{
    broadcast use group_bits;

    if kinds > 1 {
        lemma_free_moves_free(l, t, ignore, (kinds - 1) as nat);
        let piece = Pieces::from_code(kinds - 1);
        let board = l.pieces[l.side.code()][kinds - 1] & !ignore;
        let f = l.free_moves_fn(t, piece);
        lemma_squares_are_members(board);
        assert forall|i: int| 0 <= i < squares_of(board).len() implies all_moves(
            f(#[trigger] squares_of(board)[i]),
            free_fn(l, t, ignore),
        ) by {
            let square = squares_of(board)[i];
            assert(bit(board, square));
            let targets = l.legal_targets(
                t,
                square,
                piece,
                l.block_mask(t),
                l.capture_mask(t),
                l.king_square(),
            );
            lemma_moves_land_in_targets(l, t, square, targets, piece, false);
            assert forall|k: int| 0 <= k < f(square).len() implies free(
                l,
                t,
                ignore,
                #[trigger] f(square)[k],
            ) by {
                assert(lands_in(f(square)[k], square, targets, piece, false));
            }
        }
        lemma_all_concat(squares_of(board), f, free_fn(l, t, ignore));
        lemma_all_joined(
            l.free_moves_upto(t, ignore, (kinds - 1) as nat),
            concat_over(squares_of(board), f),
            free_fn(l, t, ignore),
        );
    } else if kinds == 1 {
        lemma_free_moves_free(l, t, ignore, 0);
    }
}

/// Whether the slider on `slider`, of kind `kind`, pins the piece of kind
/// `piece` on `square`: some square lies between the slider and the king,
/// and the piece is one of those that the slider pins.
pub open spec fn pins(
    l: Layout,
    t: MoveTables,
    slider: u8,
    kind: Pieces,
    piece: Pieces,
    square: u8,
) -> bool {
    &&& t.between(slider as int, l.king_square() as int) != 0
    &&& piece != Pieces::KING
    &&& bit(l.pinned_by(t, slider, l.pin_candidates(t, slider, kind), piece), square)
}

/// The set of the pieces that one slider pins holds what it was joined to
/// and every piece, but for a king, that the slider pins.
proof fn lemma_pinned_set_holds(
    l: Layout,
    t: MoveTables,
    acc: u64,
    slider: u8,
    candidates: u64,
    kinds: nat,
    piece: Pieces,
    square: u8,
)
    requires
        kinds <= 6,
        square < 64,
        bit(acc, square) || (1 <= piece.code() < kinds && bit(
            l.pinned_by(t, slider, candidates, piece),
            square,
        )),
    ensures
        bit(l.pinned_set_upto(t, acc, slider, candidates, kinds), square),
    decreases kinds,
{
    if kinds > 1 {
        let before = l.pinned_set_upto(t, acc, slider, candidates, (kinds - 1) as nat);
        let pinned = l.pinned_by(t, slider, candidates, Pieces::from_code(kinds - 1));
        lemma_or_over_bits(before, squares_of(pinned), single_fn(), square);
        if bit(acc, square) || piece.code() < kinds - 1 {
            lemma_pinned_set_holds(
                l,
                t,
                acc,
                slider,
                candidates,
                (kinds - 1) as nat,
                piece,
                square,
            );
        } else {
            assert(Pieces::from_code(kinds - 1) == piece);
            lemma_members_are_squares(pinned, square);
            let k = choose|k: int|
                0 <= k < squares_of(pinned).len() && squares_of(pinned)[k] == square;
            lemma_bit_single(square);
            assert(bit(single_fn()(squares_of(pinned)[k]), square));
        }
    } else if kinds == 1 {
        lemma_pinned_set_holds(l, t, acc, slider, candidates, 0, piece, square);
    }
}

/// The set of the pieces that the sliders of a list pin holds what it was
/// joined to and every piece that one of the sliders pins.
proof fn lemma_pin_set_over_holds(
    l: Layout,
    t: MoveTables,
    acc: u64,
    sliders: Seq<u8>,
    kind: Pieces,
    j: int,
    piece: Pieces,
    square: u8,
)
    requires
        square < 64,
        bit(acc, square) || (0 <= j < sliders.len() && pins(l, t, sliders[j], kind, piece, square)),
    ensures
        bit(l.pin_set_over(t, acc, sliders, kind), square),
    decreases sliders.len(),
{
    if sliders.len() > 0 {
        let before = l.pin_set_over(t, acc, sliders.drop_last(), kind);
        let slider = sliders.last();
        let candidates = l.pin_candidates(t, slider, kind);
        if bit(acc, square) || j < sliders.len() - 1 {
            lemma_pin_set_over_holds(l, t, acc, sliders.drop_last(), kind, j, piece, square);
            lemma_pinned_set_holds(l, t, before, slider, candidates, 6, piece, square);
        } else {
            assert(sliders[j] == slider);
            lemma_pinned_set_holds(l, t, before, slider, candidates, 6, piece, square);
        }
    }
}

/// The set of the pinned pieces holds every piece that a slider of one of
/// the sliding kinds pins.
pub proof fn lemma_pinned_holds(
    l: Layout,
    t: MoveTables,
    n: nat,
    i: int,
    slider: u8,
    piece: Pieces,
    square: u8,
)
    requires
        n <= 3,
        square < 64,
        0 <= i < n,
        bit(l.board(l.side.other(), Layout::slider_kind(i)), slider),
        pins(l, t, slider, Layout::slider_kind(i), piece, square),
    ensures
        bit(l.all_pinned(t, n), square),
    decreases n,
{
    let kind = Layout::slider_kind(n - 1);
    let sliders = squares_of(l.board(l.side.other(), kind));
    let before = l.all_pinned(t, (n - 1) as nat);
    if i < n - 1 {
        lemma_pinned_holds(l, t, (n - 1) as nat, i, slider, piece, square);
        lemma_pin_set_over_holds(l, t, before, sliders, kind, 0, piece, square);
    } else {
        lemma_members_are_squares(l.board(l.side.other(), kind), slider);
        let j = choose|j: int| 0 <= j < sliders.len() && sliders[j] == slider;
        lemma_pin_set_over_holds(l, t, before, sliders, kind, j, piece, square);
    }
}

} // verus!
