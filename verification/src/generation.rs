//! What the move generator computes, stated over the bitboards that it
//! reads: the king's danger squares, the checkers, the two masks that a
//! check imposes, the castles, the pinned pieces, and the list of moves in
//! the order in which they are found.

use crate::bits::{bit, lemma_without_lowest, lowest, popcount, without_lowest};
use crate::common::{Color, Pieces};
use crate::move_encoding::{EncodedMove, Move};
use crate::position::{rook_squares, Content, Position};
use crate::tables::{castle_info, has_shape, MoveTables};
use vstd::prelude::*;

verus! {

/// The members of `x` in ascending order.
pub open spec fn squares_of(x: u64) -> Seq<u8>
    decreases x,
{
    if x == 0 {
        Seq::empty()
    } else {
        proof {
            lemma_without_lowest(x);
        }
        seq![lowest(x) as u8] + squares_of(without_lowest(x))
    }
}

/// `acc` joined with `f` of every square of `squares`, from first to last.
pub open spec fn or_over(acc: u64, squares: Seq<u8>, f: spec_fn(u8) -> u64) -> u64
    decreases squares.len(),
{
    if squares.len() == 0 {
        acc
    } else {
        or_over(acc, squares.drop_last(), f) | f(squares.last())
    }
}

/// The lists that `f` gives for the squares of `squares`, one after another.
pub open spec fn concat_over(squares: Seq<u8>, f: spec_fn(u8) -> Seq<Move>) -> Seq<Move>
    decreases squares.len(),
{
    if squares.len() == 0 {
        Seq::empty()
    } else {
        concat_over(squares.drop_last(), f) + f(squares.last())
    }
}

/// What a piece of kind `piece` and colour `side` attacks, as a function of
/// its square.
pub open spec fn attacks_fn(t: MoveTables, piece: Pieces, side: Color, occupancy: u64) -> spec_fn(
    u8,
) -> u64 {
    |s: u8| t.attacks(s as int, piece, side, occupancy)
}

/// The one-square word of a square, as a function of the square.
pub open spec fn single_fn() -> spec_fn(u8) -> u64 {
    |s: u8| 1u64 << s
}

/// The views of a list of encoded moves.
pub open spec fn views(moves: Seq<EncodedMove>) -> Seq<Move> {
    Seq::new(moves.len(), |i: int| moves[i]@)
}

/// One more pass of a loop over the members of a word: with `done` the
/// members passed so far and `x` those to come, the least member of `x` is
/// passed next.
pub proof fn lemma_squares_step(x: u64, done: Seq<u8>, all: Seq<u8>)
    requires
        x != 0,
        done + squares_of(x) == all,
    ensures
        lowest(x) < 64,
        bit(x, lowest(x) as u8),
        without_lowest(x) < x,
        done.push(lowest(x) as u8) + squares_of(without_lowest(x)) == all,
{
    lemma_without_lowest(x);
    crate::bits::lemma_lowest(x);
    assert(done.push(lowest(x) as u8) + squares_of(without_lowest(x)) =~= done + squares_of(x));
}

/// A word has as many squares as members, at most 64.
pub proof fn lemma_squares_len(x: u64)
    ensures
        squares_of(x).len() == popcount(x),
        popcount(x) <= 64,
    decreases x,
{
    crate::bits::lemma_popcount_zero(x);
    if x != 0 {
        lemma_without_lowest(x);
        lemma_squares_len(without_lowest(x));
    }
}

/// `acc` plus `f` of every square of `squares`.
pub open spec fn sum_over(acc: int, squares: Seq<u8>, f: spec_fn(u8) -> int) -> int
    decreases squares.len(),
{
    if squares.len() == 0 {
        acc
    } else {
        sum_over(acc, squares.drop_last(), f) + f(squares.last())
    }
}

/// `sum_over` after one more square.
pub proof fn lemma_sum_over_push(acc: int, squares: Seq<u8>, s: u8, f: spec_fn(u8) -> int)
    ensures
        sum_over(acc, squares.push(s), f) == sum_over(acc, squares, f) + f(s),
{
    assert(squares.push(s).drop_last() =~= squares);
}

/// The end of a loop over the members of a word: all have been passed.
pub proof fn lemma_squares_end(done: Seq<u8>, all: Seq<u8>)
    requires
        done + squares_of(0) == all,
    ensures
        done == all,
{
    assert(done + squares_of(0) =~= done);
}

/// `or_over` after one more square.
pub proof fn lemma_or_over_push(acc: u64, squares: Seq<u8>, s: u8, f: spec_fn(u8) -> u64)
    ensures
        or_over(acc, squares.push(s), f) == or_over(acc, squares, f) | f(s),
{
    assert(squares.push(s).drop_last() =~= squares);
}

/// `concat_over` after one more square.
pub proof fn lemma_concat_over_push(squares: Seq<u8>, s: u8, f: spec_fn(u8) -> Seq<Move>)
    ensures
        concat_over(squares.push(s), f) == concat_over(squares, f) + f(s),
{
    assert(squares.push(s).drop_last() =~= squares);
}

/// The bit of the `i`-th castle right.
pub open spec fn right_bit(i: int) -> u8 {
    if i == 0 {
        0b1
    } else if i == 1 {
        0b10
    } else if i == 2 {
        0b100
    } else {
        0b1000
    }
}

/// What the generator reads of a game: the twelve piece boards, the three
/// occupancies, the side to move, the en-passant square, the castle rights
/// and the halfmove clock.
pub struct Layout {
    pub pieces: Seq<Seq<u64>>,
    pub occupancies: Seq<u64>,
    pub side: Color,
    pub en_passant: Option<u8>,
    pub castle_rights: u8,
    pub halfmove: u8,
}

impl Layout {
    pub open spec fn wf(self) -> bool {
        &&& has_shape(self.pieces, 2, 6)
        &&& self.occupancies.len() == 3
        &&& self.castle_rights < 16
        &&& self.en_passant matches Some(square) ==> 8 <= square < 56
    }

    /// The occupancy of the side to move.
    pub open spec fn own(self) -> u64 {
        self.occupancies[self.side.code()]
    }

    /// The occupancy of the other side.
    pub open spec fn enemy(self) -> u64 {
        self.occupancies[self.side.other().code()]
    }

    /// The occupancy of both sides.
    pub open spec fn both(self) -> u64 {
        self.occupancies[2]
    }

    /// The board of the pieces of one colour and kind.
    pub open spec fn board(self, color: Color, piece: Pieces) -> u64 {
        self.pieces[color.code()][piece.code()]
    }

    /// The square of the king of the side to move.
    pub open spec fn king_square(self) -> u8 {
        lowest(self.board(self.side, Pieces::KING)) as u8
    }

    /// The squares that the pieces of `side` of the first `kinds` kinds
    /// attack, with the board occupied as in `occupancy`.
    pub open spec fn attacked_by(self, t: MoveTables, side: Color, occupancy: u64, kinds: nat) -> u64
        decreases kinds,
    {
        if kinds == 0 {
            0
        } else {
            or_over(
                self.attacked_by(t, side, occupancy, (kinds - 1) as nat),
                squares_of(self.pieces[side.code()][kinds - 1]),
                attacks_fn(t, Pieces::from_code(kinds - 1), side, occupancy),
            )
        }
    }

    /// The squares that the king may not step on: those that the other side
    /// attacks when the king is taken off the board, so that sliders see
    /// through it.
    pub open spec fn danger(self, t: MoveTables) -> u64 {
        self.attacked_by(
            t,
            self.side.other(),
            self.both() & !self.board(self.side, Pieces::KING),
            6,
        )
    }

    /// The squares that the king can step to: those it attacks, but for
    /// those that its own side occupies and the danger squares.
    pub open spec fn king_targets(self, t: MoveTables) -> u64 {
        (t.attacks(self.king_square() as int, Pieces::KING, self.side, self.both()) & !self.own())
            & !self.danger(t)
    }

    /// The enemy pieces of the first `kinds` kinds, but for the king, that
    /// give check: those that a piece of their kind would attack from the
    /// king's square.
    pub open spec fn checkers_upto(self, t: MoveTables, kinds: nat) -> u64
        decreases kinds,
    {
        if kinds == 0 {
            0
        } else if kinds == 1 {
            self.checkers_upto(t, 0)
        } else {
            self.checkers_upto(t, (kinds - 1) as nat) | (self.pieces[self.side.other().code()][kinds
                - 1] & t.attacks(
                self.king_square() as int,
                Pieces::from_code(kinds - 1),
                self.side,
                self.both(),
            ))
        }
    }

    /// The enemy pieces that give check.
    pub open spec fn checkers(self, t: MoveTables) -> u64 {
        self.checkers_upto(t, 6)
    }

    /// Where a capture must land: on the checker when one piece gives
    /// check, anywhere otherwise.
    pub open spec fn capture_mask(self, t: MoveTables) -> u64 {
        if popcount(self.checkers(t)) == 1 {
            self.checkers(t)
        } else {
            0xffff_ffff_ffff_ffff
        }
    }

    /// Where a move that captures nothing must land: between the king and
    /// the checker when one piece gives check, anywhere otherwise.
    pub open spec fn block_mask(self, t: MoveTables) -> u64 {
        if popcount(self.checkers(t)) == 1 {
            t.between(self.king_square() as int, lowest(self.checkers(t)) as int)
        } else {
            0xffff_ffff_ffff_ffff
        }
    }

    /// The king's targets of the castles among the first `n` rights: the
    /// right is held, belongs to the side to move, no square that the king
    /// crosses is a danger square, and no square between rook and king is
    /// occupied.
    pub open spec fn castle_targets_upto(self, t: MoveTables, n: nat) -> u64
        decreases n,
    {
        if n == 0 {
            0
        } else {
            let before = self.castle_targets_upto(t, (n - 1) as nat);
            let flag = right_bit(n - 1);
            if self.castle_rights & flag == 0 {
                before
            } else {
                match castle_info(flag, self.side) {
                    Some((target, crossed)) => {
                        if crossed & self.danger(t) != 0 {
                            before
                        } else if t.between(
                            rook_squares(target).0 as int,
                            self.king_square() as int,
                        ) & self.both() != 0 {
                            before
                        } else {
                            before | (1u64 << target)
                        }
                    },
                    None => before,
                }
            }
        }
    }

    /// The king's targets of the castles that are open: none while in check.
    pub open spec fn castle_targets(self, t: MoveTables) -> u64 {
        if popcount(self.checkers(t)) == 1 {
            0
        } else {
            self.castle_targets_upto(t, 4)
        }
    }

    /// The kind of the enemy piece on `target`, if there is one: the first
    /// kind, in the order of the codes, whose board has the square.
    pub open spec fn captured_at(self, target: u8) -> Option<Pieces> {
        let them = self.side.other().code();
        if bit(self.pieces[them][0], target) {
            Some(Pieces::KING)
        } else if bit(self.pieces[them][1], target) {
            Some(Pieces::PAWN)
        } else if bit(self.pieces[them][2], target) {
            Some(Pieces::KNIGHT)
        } else if bit(self.pieces[them][3], target) {
            Some(Pieces::BISHOP)
        } else if bit(self.pieces[them][4], target) {
            Some(Pieces::ROOK)
        } else if bit(self.pieces[them][5], target) {
            Some(Pieces::QUEEN)
        } else {
            None
        }
    }

    /// One promotion of a pawn from `source` to `target`.
    pub open spec fn promotion(self, source: u8, target: u8, promoted: Pieces, castle: bool) -> Move {
        Move {
            source_square: source,
            target_square: target,
            piece_moved: Pieces::PAWN,
            promoted_piece: Some(promoted),
            capture: self.captured_at(target),
            double_push: false,
            en_passant: false,
            castle,
        }
    }

    /// The moves of the piece on `source` to `target`: the four promotions
    /// for a pawn that reaches the promotion rank; else one move, which is
    /// an en-passant capture for a pawn that lands on the en-passant
    /// square, and a double push for a pawn that goes from its home rank to
    /// the double-push rank.
    pub open spec fn moves_to(
        self,
        t: MoveTables,
        source: u8,
        target: u8,
        piece: Pieces,
        castle: bool,
    ) -> Seq<Move> {
        if piece == Pieces::PAWN && (1u64 << target) & t.promotion_ranks[self.side.code()] != 0 {
            seq![
                self.promotion(source, target, Pieces::QUEEN, castle),
                self.promotion(source, target, Pieces::BISHOP, castle),
                self.promotion(source, target, Pieces::ROOK, castle),
                self.promotion(source, target, Pieces::KNIGHT, castle),
            ]
        } else {
            let en_passant = piece == Pieces::PAWN && self.en_passant == Some(target);
            let double_push = piece == Pieces::PAWN && (1u64 << target)
                & t.double_push_ranks[self.side.code()] != 0 && (8 <= source < 16 || 48 <= source
                < 56);
            seq![
                Move {
                    source_square: source,
                    target_square: target,
                    piece_moved: piece,
                    promoted_piece: None,
                    capture: if en_passant {
                        Some(Pieces::PAWN)
                    } else {
                        self.captured_at(target)
                    },
                    double_push,
                    en_passant,
                    castle,
                },
            ]
        }
    }

    /// The moves of the piece on `source` to a target, as a function of the
    /// target.
    pub open spec fn moves_to_fn(
        self,
        t: MoveTables,
        source: u8,
        piece: Pieces,
        castle: bool,
    ) -> spec_fn(u8) -> Seq<Move> {
        |target: u8| self.moves_to(t, source, target, piece, castle)
    }

    /// The moves of the piece on `source` to each member of `targets`, in
    /// ascending order of the target.
    pub open spec fn moves_from(
        self,
        t: MoveTables,
        source: u8,
        targets: u64,
        piece: Pieces,
        castle: bool,
    ) -> Seq<Move> {
        concat_over(squares_of(targets), self.moves_to_fn(t, source, piece, castle))
    }

    /// The square of the pawn that made the double push which left the
    /// en-passant square `en_passant`.
    pub open spec fn pushed_pawn(self, en_passant: u8) -> u8 {
        match self.side.other() {
            Color::WHITE => (en_passant - 8) as u8,
            Color::BLACK => (en_passant + 8) as u8,
        }
    }

    /// Whether one of the enemy pieces on `sliders` would attack the king
    /// along the rank once the two pawns of an en-passant capture have left
    /// it: the occupied squares between the king and that piece are
    /// exactly those of the two pawns.
    pub open spec fn exposed_to(
        self,
        t: MoveTables,
        sliders: Seq<u8>,
        king_square: u8,
        pawns: u64,
    ) -> bool
        decreases sliders.len(),
    {
        sliders.len() > 0 && (self.exposed_to(t, sliders.drop_last(), king_square, pawns)
            || t.between(king_square as int, sliders.last() as int) & self.both() == pawns)
    }

    /// Whether capturing en passant with the pawn on `square` would leave
    /// the king attacked along the rank by a rook or a queen: the pawn
    /// attacks the en-passant square, the king stands on the rank of the
    /// two pawns, and some enemy rook or queen on that rank has only the
    /// two pawns between itself and the king.
    pub open spec fn en_passant_exposes(
        self,
        t: MoveTables,
        square: u8,
        king_square: u8,
        attacks: u64,
        en_passant: u8,
    ) -> bool {
        let rank = t.double_push_ranks[self.side.other().code()];
        let pawns = (1u64 << square) | (1u64 << self.pushed_pawn(en_passant));
        &&& attacks & (1u64 << en_passant) != 0
        &&& rank & (1u64 << king_square) != 0
        &&& (self.exposed_to(
            t,
            squares_of(self.board(self.side.other(), Pieces::ROOK) & rank),
            king_square,
            pawns,
        ) || self.exposed_to(
            t,
            squares_of(self.board(self.side.other(), Pieces::QUEEN) & rank),
            king_square,
            pawns,
        ))
    }

    /// Where the enemy pieces that the pawn on `square` may capture stand:
    /// on the capture mask; and the en-passant square as well when the pawn
    /// that made the double push is on the capture mask, unless the capture
    /// would expose the king.
    pub open spec fn pawn_capture_mask(
        self,
        t: MoveTables,
        square: u8,
        capture_mask: u64,
        king_square: u8,
        attacks: u64,
    ) -> u64 {
        let plain = self.enemy() & capture_mask;
        match self.en_passant {
            Some(en_passant) => {
                let with_en_passant = if (1u64 << self.pushed_pawn(en_passant)) & capture_mask
                    != 0 {
                    plain | (1u64 << en_passant)
                } else {
                    plain
                };
                if self.en_passant_exposes(t, square, king_square, attacks, en_passant) {
                    with_en_passant & !(1u64 << en_passant)
                } else {
                    with_en_passant
                }
            },
            None => plain,
        }
    }

    /// Where the pawn on `square` may push to: one square ahead, and two
    /// from its home rank, unless the square ahead is occupied; on the
    /// block mask, and not onto an enemy piece.
    pub open spec fn pawn_pushes(self, t: MoveTables, square: u8, block_mask: u64) -> u64 {
        let geometry = t.leaping.pawn_moves[self.side.code()][square as int];
        let open = if popcount(geometry) == 2 && self.both() & (t.single_push_ranks[self.side.code()]
            & geometry) != 0 {
            0
        } else {
            geometry
        };
        (open & block_mask) & !self.enemy()
    }

    /// Where the piece of kind `piece` on `square` may go, pins aside: what
    /// it attacks, on the block mask or the capture mask; for a pawn its
    /// captures and its pushes; and never onto a piece of its own side.
    pub open spec fn legal_targets(
        self,
        t: MoveTables,
        square: u8,
        piece: Pieces,
        block_mask: u64,
        capture_mask: u64,
        king_square: u8,
    ) -> u64 {
        let attacks = t.attacks(square as int, piece, self.side, self.both());
        let reach = if piece == Pieces::PAWN {
            (attacks & self.pawn_capture_mask(t, square, capture_mask, king_square, attacks))
                | self.pawn_pushes(t, square, block_mask)
        } else {
            attacks & (block_mask | capture_mask)
        };
        reach & !self.own()
    }

    /// The moves of the piece of kind `piece` pinned on `square` by the
    /// slider on `slider`: its legal targets on the line between slider and
    /// king, or on the slider.
    pub open spec fn pinned_moves(self, t: MoveTables, slider: u8, piece: Pieces, square: u8) -> Seq<
        Move,
    > {
        let line = t.between(slider as int, self.king_square() as int) | (1u64 << slider);
        self.moves_from(
            t,
            square,
            line & self.legal_targets(
                t,
                square,
                piece,
                self.block_mask(t),
                self.capture_mask(t),
                self.king_square(),
            ),
            piece,
            false,
        )
    }

    /// The moves of a piece of kind `piece` pinned by the slider on
    /// `slider`, as a function of the piece's square.
    pub open spec fn pinned_moves_fn(self, t: MoveTables, slider: u8, piece: Pieces) -> spec_fn(
        u8,
    ) -> Seq<Move> {
        |square: u8| self.pinned_moves(t, slider, piece, square)
    }

    /// What a slider of kind `slider_kind` on `slider` attacks among the
    /// squares that a queen on the king's square would attack: where a
    /// piece pinned by that slider can stand.
    pub open spec fn pin_candidates(self, t: MoveTables, slider: u8, slider_kind: Pieces) -> u64 {
        t.attacks(slider as int, slider_kind, self.side.other(), self.both()) & t.attacks(
            self.king_square() as int,
            Pieces::QUEEN,
            self.side,
            self.both(),
        )
    }

    /// The pieces of kind `piece` that the slider on `slider` pins: those
    /// of the side to move among `candidates` that stand between the
    /// slider and the king.
    pub open spec fn pinned_by(self, t: MoveTables, slider: u8, candidates: u64, piece: Pieces) -> u64 {
        (self.board(self.side, piece) & candidates) & t.between(
            slider as int,
            self.king_square() as int,
        )
    }

    /// The moves of the pieces of the first `kinds` kinds, but for the
    /// king, that the slider on `slider` pins.
    pub open spec fn pinned_moves_upto(
        self,
        t: MoveTables,
        slider: u8,
        candidates: u64,
        kinds: nat,
    ) -> Seq<Move>
        decreases kinds,
    {
        if kinds == 0 {
            Seq::empty()
        } else if kinds == 1 {
            self.pinned_moves_upto(t, slider, candidates, 0)
        } else {
            self.pinned_moves_upto(t, slider, candidates, (kinds - 1) as nat) + concat_over(
                squares_of(self.pinned_by(t, slider, candidates, Pieces::from_code(kinds - 1))),
                self.pinned_moves_fn(t, slider, Pieces::from_code(kinds - 1)),
            )
        }
    }

    /// `acc` joined with the pieces of the first `kinds` kinds, but for the
    /// king, that the slider on `slider` pins.
    pub open spec fn pinned_set_upto(
        self,
        t: MoveTables,
        acc: u64,
        slider: u8,
        candidates: u64,
        kinds: nat,
    ) -> u64
        decreases kinds,
    {
        if kinds == 0 {
            acc
        } else if kinds == 1 {
            self.pinned_set_upto(t, acc, slider, candidates, 0)
        } else {
            or_over(
                self.pinned_set_upto(t, acc, slider, candidates, (kinds - 1) as nat),
                squares_of(self.pinned_by(t, slider, candidates, Pieces::from_code(kinds - 1))),
                single_fn(),
            )
        }
    }

    /// The moves of the pieces that the slider on `slider` pins; none when
    /// no square lies between the slider and the king.
    pub open spec fn slider_pin_moves(self, t: MoveTables, slider: u8, candidates: u64) -> Seq<
        Move,
    > {
        if t.between(slider as int, self.king_square() as int) == 0 {
            Seq::empty()
        } else {
            self.pinned_moves_upto(t, slider, candidates, 6)
        }
    }

    /// `acc` joined with the pieces that the slider on `slider` pins.
    pub open spec fn slider_pin_set(self, t: MoveTables, acc: u64, slider: u8, candidates: u64) -> u64 {
        if t.between(slider as int, self.king_square() as int) == 0 {
            acc
        } else {
            self.pinned_set_upto(t, acc, slider, candidates, 6)
        }
    }

    /// The moves of the pieces pinned by the sliders of `sliders`, all of
    /// kind `slider_kind`.
    pub open spec fn pin_moves_over(self, t: MoveTables, sliders: Seq<u8>, slider_kind: Pieces) -> Seq<
        Move,
    >
        decreases sliders.len(),
    {
        if sliders.len() == 0 {
            Seq::empty()
        } else {
            self.pin_moves_over(t, sliders.drop_last(), slider_kind) + self.slider_pin_moves(
                t,
                sliders.last(),
                self.pin_candidates(t, sliders.last(), slider_kind),
            )
        }
    }

    /// `acc` joined with the pieces pinned by the sliders of `sliders`.
    pub open spec fn pin_set_over(
        self,
        t: MoveTables,
        acc: u64,
        sliders: Seq<u8>,
        slider_kind: Pieces,
    ) -> u64
        decreases sliders.len(),
    {
        if sliders.len() == 0 {
            acc
        } else {
            self.slider_pin_set(
                t,
                self.pin_set_over(t, acc, sliders.drop_last(), slider_kind),
                sliders.last(),
                self.pin_candidates(t, sliders.last(), slider_kind),
            )
        }
    }

    /// The kind of the `i`-th sliding kind: bishop, rook, queen.
    pub open spec fn slider_kind(i: int) -> Pieces {
        if i == 0 {
            Pieces::BISHOP
        } else if i == 1 {
            Pieces::ROOK
        } else {
            Pieces::QUEEN
        }
    }

    /// The moves of the pieces pinned by enemy sliders of the first `n`
    /// sliding kinds.
    pub open spec fn all_pin_moves(self, t: MoveTables, n: nat) -> Seq<Move>
        decreases n,
    {
        if n == 0 {
            Seq::empty()
        } else {
            self.all_pin_moves(t, (n - 1) as nat) + self.pin_moves_over(
                t,
                squares_of(self.board(self.side.other(), Self::slider_kind(n - 1))),
                Self::slider_kind(n - 1),
            )
        }
    }

    /// The pieces pinned by enemy sliders of the first `n` sliding kinds.
    pub open spec fn all_pinned(self, t: MoveTables, n: nat) -> u64
        decreases n,
    {
        if n == 0 {
            0
        } else {
            self.pin_set_over(
                t,
                self.all_pinned(t, (n - 1) as nat),
                squares_of(self.board(self.side.other(), Self::slider_kind(n - 1))),
                Self::slider_kind(n - 1),
            )
        }
    }

    /// The moves of a piece of kind `piece` that is not pinned, as a
    /// function of its square.
    pub open spec fn free_moves_fn(self, t: MoveTables, piece: Pieces) -> spec_fn(u8) -> Seq<Move> {
        |square: u8|
            self.moves_from(
                t,
                square,
                self.legal_targets(
                    t,
                    square,
                    piece,
                    self.block_mask(t),
                    self.capture_mask(t),
                    self.king_square(),
                ),
                piece,
                false,
            )
    }

    /// The moves of the pieces of the first `kinds` kinds, but for the king
    /// and for the pieces of `ignore`.
    pub open spec fn free_moves_upto(self, t: MoveTables, ignore: u64, kinds: nat) -> Seq<Move>
        decreases kinds,
    {
        if kinds == 0 {
            Seq::empty()
        } else if kinds == 1 {
            self.free_moves_upto(t, ignore, 0)
        } else {
            self.free_moves_upto(t, ignore, (kinds - 1) as nat) + concat_over(
                squares_of(self.pieces[self.side.code()][kinds - 1] & !ignore),
                self.free_moves_fn(t, Pieces::from_code(kinds - 1)),
            )
        }
    }

    /// The moves of the king to the squares it can step to.
    pub open spec fn king_moves(self, t: MoveTables) -> Seq<Move> {
        self.moves_from(t, self.king_square(), self.king_targets(t), Pieces::KING, false)
    }

    /// The castles.
    pub open spec fn castle_moves(self, t: MoveTables) -> Seq<Move> {
        self.moves_from(t, self.king_square(), self.castle_targets(t), Pieces::KING, true)
    }

    /// The moves that the generator emits, in its order: none once the
    /// halfmove clock has passed 100; else the king's moves; and unless two
    /// pieces give check, the castles, the moves of the pinned pieces, and
    /// the moves of all other pieces.
    pub open spec fn generated(self, t: MoveTables) -> Seq<Move> {
        if self.halfmove > 100 {
            Seq::empty()
        } else if popcount(self.checkers(t)) > 1 {
            self.king_moves(t)
        } else {
            self.king_moves(t) + self.castle_moves(t) + self.all_pin_moves(t, 3)
                + self.free_moves_upto(t, self.all_pinned(t, 3), 6)
        }
    }

    /// Whether the side to move is in check.
    pub open spec fn in_check(self, t: MoveTables) -> bool {
        popcount(self.checkers(t)) != 0
    }
}

/// The word of the squares below `n` that hold a piece of `color` and
/// `piece`.
pub open spec fn board_word(squares: Seq<Content>, color: Color, piece: Pieces, n: nat) -> u64
    decreases n,
{
    if n == 0 {
        0
    } else if squares[n - 1] == Some((color, piece)) {
        board_word(squares, color, piece, (n - 1) as nat) | (1u64 << ((n - 1) as u8))
    } else {
        board_word(squares, color, piece, (n - 1) as nat)
    }
}

/// The word of the squares below `n` that hold a piece of `color`, or of
/// either colour if `color` is none.
pub open spec fn occupancy_word(squares: Seq<Content>, color: Option<Color>, n: nat) -> u64
    decreases n,
{
    if n == 0 {
        0
    } else if squares[n - 1] matches Some((c, _)) && (color is None || color == Some(c)) {
        occupancy_word(squares, color, (n - 1) as nat) | (1u64 << ((n - 1) as u8))
    } else {
        occupancy_word(squares, color, (n - 1) as nat)
    }
}

/// The members of a board word are the squares that hold its piece.
pub proof fn lemma_board_word(squares: Seq<Content>, color: Color, piece: Pieces, n: nat)
    requires
        n <= 64,
    ensures
        forall|i: u8|
            #[trigger] bit(board_word(squares, color, piece, n), i) == (i < n && squares[i as int]
                == Some((color, piece))),
    decreases n,
{
    if n > 0 {
        lemma_board_word(squares, color, piece, (n - 1) as nat);
        let rest = board_word(squares, color, piece, (n - 1) as nat);
        let k = (n - 1) as u8;
        assert forall|i: u8|
            #[trigger] bit(board_word(squares, color, piece, n), i) == (i < n && squares[i as int]
                == Some((color, piece))) by {
            assert(bit(rest, i) == (i < n - 1 && squares[i as int] == Some((color, piece))));
            crate::bits::lemma_bit_one(k, i);
            crate::bits::lemma_bit_or(rest, 1u64 << k, i);
        }
    } else {
        assert forall|i: u8| !#[trigger] bit(board_word(squares, color, piece, n), i) by {
            crate::bits::lemma_bit_none(i);
        }
    }
}

/// The members of an occupancy word are the squares that hold a piece of
/// its colour.
pub proof fn lemma_occupancy_word(squares: Seq<Content>, color: Option<Color>, n: nat)
    requires
        n <= 64,
    ensures
        forall|i: u8|
            #[trigger] bit(occupancy_word(squares, color, n), i) == (i < n && (squares[i as int] matches Some(
                (c, _),
            ) && (color is None || color == Some(c)))),
    decreases n,
{
    if n > 0 {
        lemma_occupancy_word(squares, color, (n - 1) as nat);
        let rest = occupancy_word(squares, color, (n - 1) as nat);
        let k = (n - 1) as u8;
        assert forall|i: u8|
            #[trigger] bit(occupancy_word(squares, color, n), i) == (i < n && (squares[i as int] matches Some(
                (c, _),
            ) && (color is None || color == Some(c)))) by {
            assert(bit(rest, i) == (i < n - 1 && (squares[i as int] matches Some((c, _)) && (color is None
                || color == Some(c)))));
            crate::bits::lemma_bit_one(k, i);
            crate::bits::lemma_bit_or(rest, 1u64 << k, i);
        }
    } else {
        assert forall|i: u8| !#[trigger] bit(occupancy_word(squares, color, n), i) by {
            crate::bits::lemma_bit_none(i);
        }
    }
}

impl Position {
    /// The bitboards of this position: for each colour and kind the word
    /// of the squares that hold such a piece, and the occupancies of white,
    /// of black and of both.
    pub open spec fn layout(self) -> Layout {
        Layout {
            pieces: Seq::new(
                2,
                |c: int|
                    Seq::new(
                        6,
                        |k: int|
                            board_word(self.squares, Color::from_code(c), Pieces::from_code(k), 64),
                    ),
            ),
            occupancies: Seq::new(
                3,
                |c: int|
                    occupancy_word(
                        self.squares,
                        if c == 2 {
                            None
                        } else {
                            Some(Color::from_code(c))
                        },
                        64,
                    ),
            ),
            side: self.side,
            en_passant: self.en_passant,
            castle_rights: self.castle_rights,
            halfmove: self.halfmove,
        }
    }

    /// Whether the side to move has a king.
    pub open spec fn has_king(self) -> bool {
        self.layout().board(self.side, Pieces::KING) != 0
    }

    /// The moves that the generator emits in this position, in its order.
    pub open spec fn moves(self, t: MoveTables) -> Seq<Move> {
        self.layout().generated(t)
    }

    /// How this position stands for the side to move: a draw once the
    /// halfmove clock has passed 100; else normal when there is a move;
    /// else checkmate in check and a draw outside it.
    pub open spec fn state(self, t: MoveTables) -> GameState {
        if self.halfmove > 100 {
            GameState::Draw
        } else if self.moves(t).len() > 0 {
            GameState::Normal
        } else if self.layout().in_check(t) {
            GameState::Checkmate
        } else {
            GameState::Draw
        }
    }
}

/// How a position stands for the side to move.
#[derive(Copy, Clone, PartialEq, Eq, Structural, Debug)]
pub enum GameState {
    Draw,
    Checkmate,
    Normal,
}

} // verus!
