//! Every move that the generator emits in a sound position is a move that
//! the position accepts.

use crate::bits::{bit, group_bits, lemma_lowest, popcount};
use crate::common::{is_direction, Color, Pieces};
use crate::generation::{
    board_word, concat_over, lemma_board_word, lemma_occupancy_word, occupancy_word, right_bit,
    squares_of, Layout,
};
use crate::geometry::{on_board, ray, ray_acc, square_word, steps_left};
use crate::move_encoding::Move;
use crate::position::{rook_squares, Position};
use crate::precalculator::{computed, direction_of};
use crate::safety::{lands_in, lemma_moves_land_in_targets, lemma_squares_are_members};
use crate::tables::{castle_info, MoveTables};
use vstd::prelude::*;

verus! {

/// Whether every move of a list satisfies `pred`.
pub open spec fn all_moves(moves: Seq<Move>, pred: spec_fn(Move) -> bool) -> bool {
    forall|k: int| 0 <= k < moves.len() ==> pred(#[trigger] moves[k])
}

/// What holds of both of two lists holds of the one after the other.
pub proof fn lemma_all_joined(a: Seq<Move>, b: Seq<Move>, pred: spec_fn(Move) -> bool)
    requires
        all_moves(a, pred),
        all_moves(b, pred),
    ensures
        all_moves(a + b, pred),
{
    assert forall|k: int| 0 <= k < (a + b).len() implies pred(#[trigger] (a + b)[k]) by {
        if k < a.len() {
            assert((a + b)[k] == a[k]);
        } else {
            assert((a + b)[k] == b[k - a.len()]);
        }
    }
}

/// What holds of the list of every square holds of the lists of all
/// squares, one after another.
pub proof fn lemma_all_concat(squares: Seq<u8>, f: spec_fn(u8) -> Seq<Move>, pred: spec_fn(Move) -> bool)
    requires
        forall|i: int| 0 <= i < squares.len() ==> all_moves(f(#[trigger] squares[i]), pred),
    ensures
        all_moves(concat_over(squares, f), pred),
    decreases squares.len(),
{
    if squares.len() > 0 {
        lemma_all_concat(squares.drop_last(), f, pred);
        assert(all_moves(f(squares[squares.len() - 1]), pred));
        lemma_all_joined(concat_over(squares.drop_last(), f), f(squares.last()), pred);
    }
}

/// Whether `m` is one of the moves that the move list holds for its
/// source, its target, its piece and its castle flag: its promotion, its
/// capture and its other flags are what the generator works out for them.
pub open spec fn flags_fit(l: Layout, t: MoveTables, m: Move) -> bool {
    l.moves_to(t, m.source_square, m.target_square, m.piece_moved, m.castle).contains(m)
}

/// Whether `m` is a move of a piece of the side to move that stands on its
/// source, to a square that its own side does not occupy, with the flags
/// that the generator gives it, and no castle.
pub open spec fn plain(l: Layout, t: MoveTables, m: Move) -> bool {
    &&& m.source_square < 64
    &&& m.target_square < 64
    &&& bit(l.board(l.side, m.piece_moved), m.source_square)
    &&& !bit(l.own(), m.target_square)
    &&& !m.castle
    &&& flags_fit(l, t, m)
}

/// `plain`, as a function of the move.
pub open spec fn plain_fn(l: Layout, t: MoveTables) -> spec_fn(Move) -> bool {
    |m: Move| plain(l, t, m)
}

/// The moves of one square to the members of `targets` fit their flags.
pub proof fn lemma_moves_from_fit(
    l: Layout,
    t: MoveTables,
    squares: Seq<u8>,
    source: u8,
    piece: Pieces,
    castle: bool,
)
    ensures
        forall|k: int|
            0 <= k < concat_over(squares, l.moves_to_fn(t, source, piece, castle)).len()
                ==> flags_fit(
                l,
                t,
                #[trigger] concat_over(squares, l.moves_to_fn(t, source, piece, castle))[k],
            ),
    decreases squares.len(),
{
    if squares.len() > 0 {
        lemma_moves_from_fit(l, t, squares.drop_last(), source, piece, castle);
        let before = concat_over(squares.drop_last(), l.moves_to_fn(t, source, piece, castle));
        let last = l.moves_to(t, source, squares.last(), piece, castle);
        assert forall|k: int|
            0 <= k < concat_over(squares, l.moves_to_fn(t, source, piece, castle)).len() implies flags_fit(
            l,
            t,
            #[trigger] concat_over(squares, l.moves_to_fn(t, source, piece, castle))[k],
        ) by {
            let m = concat_over(squares, l.moves_to_fn(t, source, piece, castle))[k];
            if k >= before.len() {
                let j = k - before.len();
                assert(m == last[j]);
                assert(m.source_square == source && m.target_square == squares.last()
                    && m.piece_moved == piece && m.castle == castle);
                assert(l.moves_to(t, m.source_square, m.target_square, m.piece_moved, m.castle)
                    == last);
                assert(last[j] == m);
            } else {
                assert(m == before[k]);
            }
        }
    }
}

/// The moves of a piece of the side to move to squares that its own side
/// does not occupy are plain.
pub proof fn lemma_moves_from_plain(
    l: Layout,
    t: MoveTables,
    source: u8,
    targets: u64,
    piece: Pieces,
)
    requires
        source < 64,
        bit(l.board(l.side, piece), source),
        forall|i: u8| bit(targets, i) ==> !bit(l.own(), i),
    ensures
        all_moves(l.moves_from(t, source, targets, piece, false), plain_fn(l, t)),
{
    lemma_moves_land_in_targets(l, t, source, targets, piece, false);
    lemma_moves_from_fit(l, t, squares_of(targets), source, piece, false);
    assert forall|k: int|
        0 <= k < l.moves_from(t, source, targets, piece, false).len() implies plain(
        l,
        t,
        #[trigger] l.moves_from(t, source, targets, piece, false)[k],
    ) by {
        let m = l.moves_from(t, source, targets, piece, false)[k];
        assert(lands_in(m, source, targets, piece, false));
        assert(flags_fit(l, t, m));
    }
}

/// The legal targets of a piece are squares that its own side does not
/// occupy.
pub proof fn lemma_legal_targets_not_own(
    l: Layout,
    t: MoveTables,
    square: u8,
    piece: Pieces,
    block_mask: u64,
    capture_mask: u64,
    king_square: u8,
    filter: u64,
)
    ensures
        forall|i: u8|
            bit(
                filter & l.legal_targets(t, square, piece, block_mask, capture_mask, king_square),
                i,
            ) ==> !bit(l.own(), i),
        forall|i: u8|
            bit(l.legal_targets(t, square, piece, block_mask, capture_mask, king_square), i)
                ==> !bit(l.own(), i),
{
    broadcast use group_bits;

}

/// The king's steps are plain moves.
pub proof fn lemma_king_moves_plain(l: Layout, t: MoveTables)
    requires
        l.board(l.side, Pieces::KING) != 0,
    ensures
        all_moves(l.king_moves(t), plain_fn(l, t)),
{
    broadcast use group_bits;

    lemma_lowest(l.board(l.side, Pieces::KING));
    lemma_moves_from_plain(l, t, l.king_square(), l.king_targets(t), Pieces::KING);
}

/// The moves of the pieces that one slider pins are plain moves.
proof fn lemma_pinned_upto_plain(l: Layout, t: MoveTables, slider: u8, candidates: u64, kinds: nat)
    requires
        kinds <= 6,
    ensures
        all_moves(l.pinned_moves_upto(t, slider, candidates, kinds), plain_fn(l, t)),
    decreases kinds,
{
    broadcast use group_bits;

    if kinds > 1 {
        lemma_pinned_upto_plain(l, t, slider, candidates, (kinds - 1) as nat);
        let piece = Pieces::from_code(kinds - 1);
        let pinned = l.pinned_by(t, slider, candidates, piece);
        let f = l.pinned_moves_fn(t, slider, piece);
        lemma_squares_are_members(pinned);
        assert forall|i: int| 0 <= i < squares_of(pinned).len() implies all_moves(
            f(#[trigger] squares_of(pinned)[i]),
            plain_fn(l, t),
        ) by {
            let square = squares_of(pinned)[i];
            assert(bit(pinned, square));
            let line = t.between(slider as int, l.king_square() as int) | (1u64 << slider);
            lemma_legal_targets_not_own(
                l,
                t,
                square,
                piece,
                l.block_mask(t),
                l.capture_mask(t),
                l.king_square(),
                line,
            );
            lemma_moves_from_plain(
                l,
                t,
                square,
                line & l.legal_targets(
                    t,
                    square,
                    piece,
                    l.block_mask(t),
                    l.capture_mask(t),
                    l.king_square(),
                ),
                piece,
            );
        }
        lemma_all_concat(squares_of(pinned), f, plain_fn(l, t));
        lemma_all_joined(
            l.pinned_moves_upto(t, slider, candidates, (kinds - 1) as nat),
            concat_over(squares_of(pinned), f),
            plain_fn(l, t),
        );
    } else if kinds == 1 {
        lemma_pinned_upto_plain(l, t, slider, candidates, 0);
    }
}

/// The moves of the pieces that the sliders of a list pin are plain moves.
proof fn lemma_pin_moves_over_plain(l: Layout, t: MoveTables, sliders: Seq<u8>, slider_kind: Pieces)
    ensures
        all_moves(l.pin_moves_over(t, sliders, slider_kind), plain_fn(l, t)),
    decreases sliders.len(),
{
    if sliders.len() > 0 {
        lemma_pin_moves_over_plain(l, t, sliders.drop_last(), slider_kind);
        lemma_pinned_upto_plain(
            l,
            t,
            sliders.last(),
            l.pin_candidates(t, sliders.last(), slider_kind),
            6,
        );
        lemma_all_joined(
            l.pin_moves_over(t, sliders.drop_last(), slider_kind),
            l.slider_pin_moves(
                t,
                sliders.last(),
                l.pin_candidates(t, sliders.last(), slider_kind),
            ),
            plain_fn(l, t),
        );
    }
}

/// The moves of the pinned pieces are plain moves.
pub proof fn lemma_pin_moves_plain(l: Layout, t: MoveTables, n: nat)
    requires
        n <= 3,
    ensures
        all_moves(l.all_pin_moves(t, n), plain_fn(l, t)),
    decreases n,
{
    if n > 0 {
        lemma_pin_moves_plain(l, t, (n - 1) as nat);
        lemma_pin_moves_over_plain(
            l,
            t,
            squares_of(l.board(l.side.other(), Layout::slider_kind(n - 1))),
            Layout::slider_kind(n - 1),
        );
        lemma_all_joined(
            l.all_pin_moves(t, (n - 1) as nat),
            l.pin_moves_over(
                t,
                squares_of(l.board(l.side.other(), Layout::slider_kind(n - 1))),
                Layout::slider_kind(n - 1),
            ),
            plain_fn(l, t),
        );
    }
}

/// The moves of the pieces that are not pinned are plain moves.
pub proof fn lemma_free_moves_plain(l: Layout, t: MoveTables, ignore: u64, kinds: nat)
    requires
        kinds <= 6,
    ensures
        all_moves(l.free_moves_upto(t, ignore, kinds), plain_fn(l, t)),
    decreases kinds,
{
    broadcast use group_bits;

    if kinds > 1 {
        lemma_free_moves_plain(l, t, ignore, (kinds - 1) as nat);
        let piece = Pieces::from_code(kinds - 1);
        let board = l.pieces[l.side.code()][kinds - 1] & !ignore;
        let f = l.free_moves_fn(t, piece);
        lemma_squares_are_members(board);
        assert forall|i: int| 0 <= i < squares_of(board).len() implies all_moves(
            f(#[trigger] squares_of(board)[i]),
            plain_fn(l, t),
        ) by {
            let square = squares_of(board)[i];
            assert(bit(board, square));
            lemma_legal_targets_not_own(
                l,
                t,
                square,
                piece,
                l.block_mask(t),
                l.capture_mask(t),
                l.king_square(),
                0,
            );
            lemma_moves_from_plain(
                l,
                t,
                square,
                l.legal_targets(
                    t,
                    square,
                    piece,
                    l.block_mask(t),
                    l.capture_mask(t),
                    l.king_square(),
                ),
                piece,
            );
        }
        lemma_all_concat(squares_of(board), f, plain_fn(l, t));
        lemma_all_joined(
            l.free_moves_upto(t, ignore, (kinds - 1) as nat),
            concat_over(squares_of(board), f),
            plain_fn(l, t),
        );
    } else if kinds == 1 {
        lemma_free_moves_plain(l, t, ignore, 0);
    }
}

/// Where a coordinate stands after `k` steps in a direction.
pub open spec fn along(from: int, dir: int, k: int) -> int {
    if dir == 1 {
        from + k
    } else if dir == -1 {
        from - k
    } else {
        from
    }
}

/// What is joined to `acc` along a ray stays joined.
proof fn lemma_ray_acc_grows(acc: u64, file: int, rank: int, file_dir: int, rank_dir: int, i: u8)
    requires
        bit(acc, i),
    ensures
        bit(ray_acc(acc, file, rank, file_dir, rank_dir), i),
    decreases steps_left(file, rank, file_dir, rank_dir),
{
    broadcast use group_bits;

    if !on_board(file, rank) || (file_dir == 0 && rank_dir == 0) {
    } else {
        lemma_ray_acc_grows(
            acc | square_word(file, rank),
            file + file_dir,
            rank + rank_dir,
            file_dir,
            rank_dir,
            i,
        );
    }
}

/// A ray holds every square of the board that lies `k` steps along it.
proof fn lemma_ray_acc_reaches(acc: u64, file: int, rank: int, file_dir: int, rank_dir: int, k: nat)
    requires
        is_direction(file_dir, rank_dir),
        on_board(file, rank),
        on_board(along(file, file_dir, k as int), along(rank, rank_dir, k as int)),
    ensures
        bit(
            ray_acc(acc, file, rank, file_dir, rank_dir),
            (along(rank, rank_dir, k as int) * 8 + along(file, file_dir, k as int)) as u8,
        ),
    decreases k,
{
    broadcast use group_bits;

    if k == 0 {
        lemma_ray_acc_grows(
            acc | square_word(file, rank),
            file + file_dir,
            rank + rank_dir,
            file_dir,
            rank_dir,
            (rank * 8 + file) as u8,
        );
    } else {
        lemma_ray_acc_reaches(
            acc | square_word(file, rank),
            file + file_dir,
            rank + rank_dir,
            file_dir,
            rank_dir,
            (k - 1) as nat,
        );
    }
}

/// The squares between a rook's corner and the king's home square, as the
/// computed rays give them, hold the squares that a castle needs empty.
proof fn lemma_between_home(t: MoveTables)
    requires
        computed(t),
    ensures
        bit(t.between(63, 60), 61),
        bit(t.between(63, 60), 62),
        bit(t.between(56, 60), 58),
        bit(t.between(56, 60), 59),
        bit(t.between(7, 4), 5),
        bit(t.between(7, 4), 6),
        bit(t.between(0, 4), 2),
        bit(t.between(0, 4), 3),
{
    broadcast use group_bits;

    assert(t.directions[4][63] == ray(63, direction_of(4).0, direction_of(4).1));
    assert(t.directions[0][60] == ray(60, direction_of(0).0, direction_of(0).1));
    assert(t.directions[0][56] == ray(56, direction_of(0).0, direction_of(0).1));
    assert(t.directions[4][60] == ray(60, direction_of(4).0, direction_of(4).1));
    assert(t.directions[4][7] == ray(7, direction_of(4).0, direction_of(4).1));
    assert(t.directions[0][4] == ray(4, direction_of(0).0, direction_of(0).1));
    assert(t.directions[0][0] == ray(0, direction_of(0).0, direction_of(0).1));
    assert(t.directions[4][4] == ray(4, direction_of(4).0, direction_of(4).1));
    // from h1 leftwards, from e1 rightwards
    lemma_ray_acc_reaches(0, 6, 7, -1, 0, 0);
    lemma_ray_acc_reaches(0, 6, 7, -1, 0, 1);
    lemma_ray_acc_reaches(0, 5, 7, 1, 0, 0);
    lemma_ray_acc_reaches(0, 5, 7, 1, 0, 1);
    // from a1 rightwards, from e1 leftwards
    lemma_ray_acc_reaches(0, 1, 7, 1, 0, 1);
    lemma_ray_acc_reaches(0, 1, 7, 1, 0, 2);
    lemma_ray_acc_reaches(0, 3, 7, -1, 0, 0);
    lemma_ray_acc_reaches(0, 3, 7, -1, 0, 1);
    // from h8 leftwards, from e8 rightwards
    lemma_ray_acc_reaches(0, 6, 0, -1, 0, 0);
    lemma_ray_acc_reaches(0, 6, 0, -1, 0, 1);
    lemma_ray_acc_reaches(0, 5, 0, 1, 0, 0);
    lemma_ray_acc_reaches(0, 5, 0, 1, 0, 1);
    // from a8 rightwards, from e8 leftwards
    lemma_ray_acc_reaches(0, 1, 0, 1, 0, 1);
    lemma_ray_acc_reaches(0, 1, 0, 1, 0, 2);
    lemma_ray_acc_reaches(0, 3, 0, -1, 0, 0);
    lemma_ray_acc_reaches(0, 3, 0, -1, 0, 1);
}

impl Position {
    /// Whether the position is sound: it is well formed; the side to move
    /// has a king; the fullmove number can still grow; every castle right
    /// of the side to move finds the king on its home square and the rook
    /// on its corner; and the en-passant square is empty, with a pawn of
    /// the other side on the square beyond it.
    pub open spec fn sound(self) -> bool {
        let us = self.side;
        let king = self.layout().king_square();
        &&& self.wf()
        &&& self.has_king()
        &&& us == Color::BLACK ==> self.fullmove < 65535
        &&& us == Color::WHITE && self.castle_rights & 0b1 != 0 ==> king == 60 && self.squares[63]
            == Some((Color::WHITE, Pieces::ROOK))
        &&& us == Color::WHITE && self.castle_rights & 0b10 != 0 ==> king == 60 && self.squares[56]
            == Some((Color::WHITE, Pieces::ROOK))
        &&& us == Color::BLACK && self.castle_rights & 0b100 != 0 ==> king == 4 && self.squares[7]
            == Some((Color::BLACK, Pieces::ROOK))
        &&& us == Color::BLACK && self.castle_rights & 0b1000 != 0 ==> king == 4 && self.squares[0]
            == Some((Color::BLACK, Pieces::ROOK))
        &&& self.en_passant matches Some(square) ==> self.squares[square as int] is None
            && self.squares[(match us {
            Color::WHITE => square + 8,
            Color::BLACK => square - 8,
        }) as int] == Some((us.other(), Pieces::PAWN))
    }
}

/// The boards of a position hold the squares of their pieces, and its
/// occupancies the squares of their colours.
pub proof fn lemma_layout_bits(p: Position)
    requires
        p.squares.len() == 64,
    ensures
        forall|c: Color, k: Pieces, i: u8|
            #[trigger] bit(p.layout().board(c, k), i) == (i < 64 && p.squares[i as int] == Some(
                (c, k),
            )),
        forall|i: u8|
            #[trigger] bit(p.layout().own(), i) == (i < 64 && (p.squares[i as int] matches Some(
                (c, _),
            ) && c == p.side)),
        forall|i: u8|
            #[trigger] bit(p.layout().enemy(), i) == (i < 64 && (p.squares[i as int] matches Some(
                (c, _),
            ) && c == p.side.other())),
        forall|i: u8| #[trigger] bit(p.layout().both(), i) == (i < 64 && p.squares[i as int] is Some),
{
    assert forall|c: Color, k: Pieces, i: u8|
        #[trigger] bit(p.layout().board(c, k), i) == (i < 64 && p.squares[i as int] == Some(
            (c, k),
        )) by {
        lemma_board_word(p.squares, Color::from_code(c.code()), Pieces::from_code(k.code()), 64);
        assert(p.layout().pieces[c.code()][k.code()] == board_word(
            p.squares,
            Color::from_code(c.code()),
            Pieces::from_code(k.code()),
            64,
        ));
    }
    lemma_occupancy_word(p.squares, Some(Color::WHITE), 64);
    lemma_occupancy_word(p.squares, Some(Color::BLACK), 64);
    lemma_occupancy_word(p.squares, None, 64);
    assert(p.layout().occupancies[0] == occupancy_word(p.squares, Some(Color::WHITE), 64));
    assert(p.layout().occupancies[1] == occupancy_word(p.squares, Some(Color::BLACK), 64));
    assert(p.layout().occupancies[2] == occupancy_word(p.squares, None, 64));
}

proof fn lemma_double_push_rank(target: u8)
    by (bit_vector)
    requires
        target < 64,
    ensures
        (1u64 << target) & 0x0000_00FF_0000_0000u64 != 0 ==> 32 <= target < 40,
        (1u64 << target) & 0x0000_0000_FF00_0000u64 != 0 ==> 24 <= target < 32,
{
}

/// What the generator takes to stand on a target is what stands there.
pub proof fn lemma_captured_at(p: Position, target: u8)
    requires
        p.squares.len() == 64,
        target < 64,
    ensures
        match p.layout().captured_at(target) {
            Some(captured) => p.squares[target as int] == Some((p.side.other(), captured)),
            None => !(p.squares[target as int] matches Some((c, _)) && c == p.side.other()),
        },
{
    lemma_layout_bits(p);
    let l = p.layout();
    let them = p.side.other();
    assert(l.pieces[them.code()][0] == l.board(them, Pieces::KING));
    assert(l.pieces[them.code()][1] == l.board(them, Pieces::PAWN));
    assert(l.pieces[them.code()][2] == l.board(them, Pieces::KNIGHT));
    assert(l.pieces[them.code()][3] == l.board(them, Pieces::BISHOP));
    assert(l.pieces[them.code()][4] == l.board(them, Pieces::ROOK));
    assert(l.pieces[them.code()][5] == l.board(them, Pieces::QUEEN));
    if p.layout().captured_at(target) is None {
        match p.squares[target as int] {
            Some((c, k)) => {
                if c == them {
                    assert(bit(l.board(them, k), target));
                }
            },
            None => {},
        }
    }
}

/// A plain move of the generator is a move that a sound position accepts.
pub proof fn lemma_plain_accepted(p: Position, t: MoveTables, m: Move)
    requires
        p.sound(),
        computed(t),
        p.halfmove <= 100,
        plain(p.layout(), t, m),
    ensures
        p.accepts(m),
{
    let l = p.layout();
    lemma_layout_bits(p);
    lemma_captured_at(p, m.target_square);
    lemma_double_push_rank(m.target_square);
    assert(bit(l.board(p.side, m.piece_moved), m.source_square));
    let listed = l.moves_to(t, m.source_square, m.target_square, m.piece_moved, false);
    let j = choose|j: int| 0 <= j < listed.len() && listed[j] == m;
    assert(listed[j] == m);
    assert(!bit(l.own(), m.target_square));
}

/// Whether the castle by the `j`-th right is open and lands the king on
/// `target`.
pub open spec fn castle_open(l: Layout, t: MoveTables, j: int, target: u8) -> bool {
    &&& l.castle_rights & right_bit(j) != 0
    &&& castle_info(right_bit(j), l.side) matches Some((landing, crossed)) && landing == target
    &&& t.between(rook_squares(target).0 as int, l.king_square() as int) & l.both() == 0
}

/// Every castle target is the landing square of an open castle.
proof fn lemma_castle_targets(l: Layout, t: MoveTables, n: nat)
    requires
        n <= 4,
    ensures
        forall|i: u8|
            #[trigger] bit(l.castle_targets_upto(t, n), i) ==> exists|j: int|
                0 <= j < n && castle_open(l, t, j, i),
    decreases n,
{
    broadcast use group_bits;

    if n > 0 {
        lemma_castle_targets(l, t, (n - 1) as nat);
        let before = l.castle_targets_upto(t, (n - 1) as nat);
        assert forall|i: u8| #[trigger] bit(l.castle_targets_upto(t, n), i) implies exists|j: int|
            0 <= j < n && castle_open(l, t, j, i) by {
            if bit(before, i) {
                let j = choose|j: int| 0 <= j < n - 1 && castle_open(l, t, j, i);
                assert(castle_open(l, t, j, i));
            } else {
                assert(castle_open(l, t, n - 1, i));
            }
        }
    }
}

/// A castle of the generator is a move that a sound position accepts.
pub proof fn lemma_castle_accepted(p: Position, t: MoveTables, m: Move)
    requires
        p.sound(),
        computed(t),
        p.halfmove <= 100,
        lands_in(
            m,
            p.layout().king_square(),
            p.layout().castle_targets(t),
            Pieces::KING,
            true,
        ),
        flags_fit(p.layout(), t, m),
    ensures
        p.accepts(m),
{
    broadcast use group_bits;

    let l = p.layout();
    let king = l.king_square();
    lemma_layout_bits(p);
    lemma_lowest(l.board(p.side, Pieces::KING));
    lemma_between_home(t);
    lemma_castle_targets(l, t, 4);
    let target = m.target_square;
    assert(bit(l.castle_targets_upto(t, 4), target));
    let j = choose|j: int| 0 <= j < 4 && castle_open(l, t, j, target);
    assert(castle_open(l, t, j, target));
    let between = t.between(rook_squares(target).0 as int, king as int);
    assert(forall|i: u8| bit(between, i) ==> !bit(l.both(), i)) by {
        assert forall|i: u8| bit(between, i) implies !bit(l.both(), i) by {
            assert(!bit(between & l.both(), i));
        }
    }
    assert(p.squares[target as int] is None);
    assert(p.squares[rook_squares(target).1 as int] is None);
    lemma_captured_at(p, target);
    let listed = l.moves_to(t, m.source_square, m.target_square, m.piece_moved, true);
    let k = choose|k: int| 0 <= k < listed.len() && listed[k] == m;
    assert(listed[k] == m);
    assert(bit(l.board(p.side, Pieces::KING), king));
}

/// `accepts`, as a function of the move.
pub open spec fn accepts_fn(p: Position) -> spec_fn(Move) -> bool {
    |m: Move| p.accepts(m)
}

/// Plain moves are accepted moves.
proof fn lemma_plain_all_accepted(p: Position, t: MoveTables, moves: Seq<Move>)
    requires
        p.sound(),
        computed(t),
        p.halfmove <= 100,
        all_moves(moves, plain_fn(p.layout(), t)),
    ensures
        all_moves(moves, accepts_fn(p)),
{
    assert forall|k: int| 0 <= k < moves.len() implies p.accepts(#[trigger] moves[k]) by {
        assert(plain(p.layout(), t, moves[k]));
        lemma_plain_accepted(p, t, moves[k]);
    }
}

/// Every move that the generator emits in a sound position, with the
/// computed tables, is a move that the position accepts.
pub proof fn lemma_generated_are_accepted(p: Position, t: MoveTables)
    requires
        p.sound(),
        computed(t),
    ensures
        forall|k: int| 0 <= k < p.moves(t).len() ==> p.accepts(#[trigger] p.moves(t)[k]),
{
    let l = p.layout();
    if p.halfmove <= 100 {
        lemma_king_moves_plain(l, t);
        lemma_plain_all_accepted(p, t, l.king_moves(t));
        if popcount(l.checkers(t)) <= 1 {
            lemma_moves_land_in_targets(
                l,
                t,
                l.king_square(),
                l.castle_targets(t),
                Pieces::KING,
                true,
            );
            lemma_moves_from_fit(
                l,
                t,
                squares_of(l.castle_targets(t)),
                l.king_square(),
                Pieces::KING,
                true,
            );
            assert forall|k: int| 0 <= k < l.castle_moves(t).len() implies p.accepts(
                #[trigger] l.castle_moves(t)[k],
            ) by {
                let m = l.castle_moves(t)[k];
                assert(lands_in(m, l.king_square(), l.castle_targets(t), Pieces::KING, true));
                assert(flags_fit(l, t, m));
                if popcount(l.checkers(t)) == 1 {
                    crate::bits::lemma_bit_none(m.target_square);
                } else {
                    lemma_castle_accepted(p, t, m);
                }
            }
            lemma_pin_moves_plain(l, t, 3);
            lemma_plain_all_accepted(p, t, l.all_pin_moves(t, 3));
            lemma_free_moves_plain(l, t, l.all_pinned(t, 3), 6);
            lemma_plain_all_accepted(p, t, l.free_moves_upto(t, l.all_pinned(t, 3), 6));
            lemma_all_joined(l.king_moves(t), l.castle_moves(t), accepts_fn(p));
            lemma_all_joined(
                l.king_moves(t) + l.castle_moves(t),
                l.all_pin_moves(t, 3),
                accepts_fn(p),
            );
            lemma_all_joined(
                l.king_moves(t) + l.castle_moves(t) + l.all_pin_moves(t, 3),
                l.free_moves_upto(t, l.all_pinned(t, 3), 6),
                accepts_fn(p),
            );
        }
        assert(all_moves(p.moves(t), accepts_fn(p)));
        assert forall|k: int| 0 <= k < p.moves(t).len() implies p.accepts(
            #[trigger] p.moves(t)[k],
        ) by {
            assert(accepts_fn(p)(p.moves(t)[k]));
        }
    }
}

/// Making any move that the generator emits in a sound position, with the
/// computed tables, and then unmaking it gives the position back: every
/// square, the side to move, the castle rights, the en-passant square and
/// both counters; and what is remembered of the move holds the hash that
/// the position had.
pub proof fn lemma_generated_make_unmake(p: Position, t: MoveTables, hash: u64)
    requires
        p.sound(),
        computed(t),
    ensures
        forall|k: int|
            0 <= k < p.moves(t).len() ==> p.accepts(#[trigger] p.moves(t)[k]) && p.make(
                p.moves(t)[k],
            ).unmake(p.undo_of(p.moves(t)[k], hash)) == p && p.undo_of(p.moves(t)[k], hash).hash
                == hash,
{
    lemma_generated_are_accepted(p, t);
    assert forall|k: int| 0 <= k < p.moves(t).len() implies p.accepts(#[trigger] p.moves(t)[k])
        && p.make(p.moves(t)[k]).unmake(p.undo_of(p.moves(t)[k], hash)) == p && p.undo_of(
        p.moves(t)[k],
        hash,
    ).hash == hash by {
        crate::position::lemma_make_unmake(p, p.moves(t)[k], hash);
    }
}

} // verus!
