//! The generator of moves.

use super::{content_of, Game, GameState};
use crate::bits::{bit, group_bits, lemma_bits_equal, lemma_popcount_zero};
use crate::generation::{lemma_board_word, lemma_occupancy_word};
use crate::common::{BitBoard, CastleRights, Color, Constants, Pieces};
use crate::generation::{
    attacks_fn, concat_over, lemma_concat_over_push, lemma_or_over_push, lemma_squares_end,
    lemma_squares_step, or_over, right_bit, single_fn, squares_of, views, Layout,
};
use crate::move_encoding::{EncodedMove, Move};
use std::ops::Not;
use vstd::prelude::*;

verus! {

impl Game {
    /// Whether the side to move has a king.
    pub open spec fn has_king(&self) -> bool {
        self.layout().board(self.layout().side, Pieces::KING) != 0
    }

    /// The bitboards of a valid game are those of its position.
    pub proof fn lemma_layout_of_view(&self)
        requires
            self.valid(),
        ensures
            self.layout() == self@.layout(),
            self.has_king() == self@.has_king(),
    {
        broadcast use group_bits;

        self.lemma_layout();
        let l = self.layout();
        let p = self@.layout();
        let squares = self@.squares;
        let b = self.piece_positions@;
        assert forall|c: int, k: int| 0 <= c < 2 && 0 <= k < 6 implies #[trigger] l.pieces[c][k]
            == p.pieces[c][k] by {
            let color = Color::from_code(c);
            let piece = Pieces::from_code(k);
            lemma_board_word(squares, color, piece, 64);
            assert(b[color.code()][piece.code()] == b[c][k]);
            assert forall|i: u8| i < 64 implies bit(l.pieces[c][k], i) == bit(p.pieces[c][k], i) by {
                Self::lemma_holder(b, i, color, piece);
            }
            lemma_bits_equal(l.pieces[c][k], p.pieces[c][k]);
        }
        assert(l.pieces[0] =~= p.pieces[0]);
        assert(l.pieces[1] =~= p.pieces[1]);
        assert(l.pieces =~= p.pieces);
        assert forall|c: int| 0 <= c < 3 implies #[trigger] l.occupancies[c] == p.occupancies[c] by {
            let color = if c == 2 {
                None
            } else {
                Some(Color::from_code(c))
            };
            lemma_occupancy_word(squares, color, 64);
            assert forall|i: u8| i < 64 implies bit(l.occupancies[c], i) == bit(
                p.occupancies[c],
                i,
            ) by {
                assert(self.occupancies@[c].has(i) == bit(l.occupancies[c], i));
            }
            lemma_bits_equal(l.occupancies[c], p.occupancies[c]);
        }
        assert(l.occupancies =~= p.occupancies);
    }

    /// A board has a square exactly when what stands on the square is the
    /// board's piece, provided that no two boards share a square.
    proof fn lemma_holder(b: Seq<Vec<BitBoard>>, i: u8, color: Color, piece: Pieces)
        requires
            i < 64,
            forall|c: Color, k: Pieces, sq: u8|
                sq < 64 && #[trigger] b[c.code()][k.code()].has(sq) ==> content_of(b, sq) == Some(
                    (c, k),
                ),
        ensures
            b[color.code()][piece.code()].has(i) == (content_of(b, i) == Some((color, piece))),
    {
        let w = Color::WHITE;
        let k = Color::BLACK;
        assert(b[w.code()][Pieces::KING.code()] == b[0][0]);
        assert(b[w.code()][Pieces::PAWN.code()] == b[0][1]);
        assert(b[w.code()][Pieces::KNIGHT.code()] == b[0][2]);
        assert(b[w.code()][Pieces::BISHOP.code()] == b[0][3]);
        assert(b[w.code()][Pieces::ROOK.code()] == b[0][4]);
        assert(b[w.code()][Pieces::QUEEN.code()] == b[0][5]);
        assert(b[k.code()][Pieces::KING.code()] == b[1][0]);
        assert(b[k.code()][Pieces::PAWN.code()] == b[1][1]);
        assert(b[k.code()][Pieces::KNIGHT.code()] == b[1][2]);
        assert(b[k.code()][Pieces::BISHOP.code()] == b[1][3]);
        assert(b[k.code()][Pieces::ROOK.code()] == b[1][4]);
        assert(b[k.code()][Pieces::QUEEN.code()] == b[1][5]);
    }

    proof fn lemma_layout(&self)
        requires
            self.valid(),
        ensures
            self.layout().wf(),
            self.tables().wf(),
            self.piece_positions.len() == 2,
            self.piece_positions[0].len() == 6,
            self.piece_positions[1].len() == 6,
            self.occupancies.len() == 3,
            forall|c: int, k: int|
                0 <= c < 2 && 0 <= k < 6 ==> #[trigger] self.layout().pieces[c][k]
                    == self.piece_positions[c][k].0,
            forall|c: int| 0 <= c < 3 ==> #[trigger] self.layout().occupancies[c] == self.occupancies[c].0,
            self.tables() == self.move_data@,
    {
    }

    pub fn get_piece_positions(&self, side: Color, piece: Pieces) -> (r: BitBoard)
        requires
            self.valid(),
        ensures
            r.0 == self.layout().board(side, piece),
    {
        proof {
            self.lemma_layout();
        }
        self.piece_positions[side as usize][piece as usize]
    }

    /// Whether the king of `side` stands on a square that the other side
    /// attacks.
    pub fn king_attacked(&self, side: Color) -> (r: bool)
        requires
            self.valid(),
        ensures
            r == (self.layout().board(side, Pieces::KING) & self.layout().attacked_by(
                self.tables(),
                side.other(),
                self.layout().both(),
                6,
            ) != 0),
    {
        let both = self.both_occupancy();
        let attacked = self.get_attacked_squares(side.not(), &both);
        (self.get_piece_positions(side, Pieces::KING) & attacked).not_zero()
    }

    /// Two valid games with the same position and the same keys hold the
    /// same boards, the same occupancies and the same hash: what can be
    /// observed of a game is a function of its position.
    pub proof fn lemma_same_position(&self, other: &Game)
        requires
            self.valid(),
            other.valid(),
            self@ == other@,
            self.keys() == other.keys(),
        ensures
            self.layout() == other.layout(),
            self.hash_value() == other.hash_value(),
            forall|c: int, k: int|
                0 <= c < 2 && 0 <= k < 6 ==> #[trigger] self.piece_boards()[c][k]
                    == other.piece_boards()[c][k],
            forall|c: int| 0 <= c < 3 ==> #[trigger] self.occupancy_boards()[c] == other.occupancy_boards()[c],
    {
        self.lemma_layout_of_view();
        other.lemma_layout_of_view();
        self.lemma_layout();
        other.lemma_layout();
        assert forall|c: int, k: int| 0 <= c < 2 && 0 <= k < 6 implies #[trigger] self.piece_boards()[c][k]
            == other.piece_boards()[c][k] by {
            assert(self.layout().pieces[c][k] == other.layout().pieces[c][k]);
        }
        assert forall|c: int| 0 <= c < 3 implies #[trigger] self.occupancy_boards()[c]
            == other.occupancy_boards()[c] by {
            assert(self.layout().occupancies[c] == other.layout().occupancies[c]);
        }
    }

    /// The occupancy of both sides.
    pub fn both_occupancy(&self) -> (r: BitBoard)
        requires
            self.valid(),
        ensures
            r.0 == self.layout().both(),
    {
        proof {
            self.lemma_layout();
        }
        self.occupancies[Constants::BOTH_OCCUPANCIES]
    }

    /// The tables of a valid game are well formed, and its layout is that
    /// of a game.
    pub proof fn lemma_layout_wf(&self)
        requires
            self.valid(),
        ensures
            self.layout().wf(),
            self.tables().wf(),
            self.layout().side == self@.side,
            self.layout().halfmove == self@.halfmove,
    {
        self.lemma_layout();
    }

    /// Whether the side to move has a king on the board.
    pub fn king_present(&self) -> (r: bool)
        requires
            self.valid(),
        ensures
            r == self.has_king(),
    {
        self.get_piece_positions(self.side, Pieces::KING).not_zero()
    }

    fn get_attacked_squares(&self, side: Color, occupancy: &BitBoard) -> (attacked: BitBoard)
        requires
            self.valid(),
        ensures
            attacked.0 == self.layout().attacked_by(self.tables(), side, occupancy.0, 6),
    {
        let mut attacked = BitBoard::new();
        let mut piece: u8 = 0;
        proof {
            self.lemma_layout();
        }
        while piece < 6
            invariant
                piece <= 6,
                self.valid(),
                self.layout().wf(),
                self.tables().wf(),
                self.tables() == self.move_data@,
                attacked.0 == self.layout().attacked_by(
                    self.tables(),
                    side,
                    occupancy.0,
                    piece as nat,
                ),
            decreases 6 - piece,
        {
            let kind = Pieces::int_to_piece(piece);
            let mut piece_positions = self.get_piece_positions(side, kind);
            let ghost all = squares_of(piece_positions.0);
            let ghost mut done = Seq::<u8>::empty();
            let ghost start = attacked.0;
            let ghost f = attacks_fn(self.tables(), kind, side, occupancy.0);
            assert(done + squares_of(piece_positions.0) =~= all);
            while piece_positions.not_zero()
                invariant
                    self.valid(),
                    self.tables().wf(),
                    self.tables() == self.move_data@,
                    done + squares_of(piece_positions.0) == all,
                    attacked.0 == or_over(start, done, f),
                    f == attacks_fn(self.tables(), kind, side, occupancy.0),
                decreases piece_positions.0,
            {
                let ghost before = piece_positions.0;
                let index = piece_positions.pop_ls1b().unwrap();
                proof {
                    lemma_squares_step(before, done, all);
                    lemma_or_over_push(start, done, index, f);
                    done = done.push(index);
                }
                let attacks = self.move_data.get_attacks(index, &kind, side, occupancy);
                attacked = attacked | attacks;
            }
            proof {
                lemma_squares_end(done, all);
            }
            piece += 1;
        }
        attacked
    }

    /// The kind of the enemy piece on `target`, if there is one.
    fn captured_on(&self, target: u8) -> (r: Option<Pieces>)
        requires
            self.valid(),
            target < 64,
        ensures
            r == self.layout().captured_at(target),
    {
        let them = self.side.not();
        let mut piece: u8 = 0;
        proof {
            self.lemma_layout();
        }
        while piece < 6
            invariant
                piece <= 6,
                self.valid(),
                target < 64,
                them == self.layout().side.other(),
                self.layout().wf(),
                forall|j: int| 0 <= j < piece ==> !bit(self.layout().pieces[them.code()][j], target),
            decreases 6 - piece,
        {
            let kind = Pieces::int_to_piece(piece);
            if self.get_piece_positions(them, kind).get_bit(target) {
                return Some(kind);
            }
            piece += 1;
        }
        None
    }

    fn add_moves(
        &self,
        all_moves: &mut Vec<EncodedMove>,
        source_square: u8,
        target_squares: &BitBoard,
        piece_moved: Pieces,
        castle: bool,
    )
        requires
            self.valid(),
            source_square < 64,
        ensures
            views(final(all_moves)@) == views(old(all_moves)@) + self.layout().moves_from(
                self.tables(),
                source_square,
                target_squares.0,
                piece_moved,
                castle,
            ),
    {
        let mut targets = *target_squares;
        let ghost all = squares_of(targets.0);
        let ghost mut done = Seq::<u8>::empty();
        let ghost start = views(all_moves@);
        let ghost l = self.layout();
        let ghost t = self.tables();
        let ghost f = l.moves_to_fn(t, source_square, piece_moved, castle);
        proof {
            self.lemma_layout();
        }
        assert(done + squares_of(targets.0) =~= all);
        assert(views(all_moves@) =~= start + concat_over(done, f));
        while targets.not_zero()
            invariant
                self.valid(),
                source_square < 64,
                l == self.layout(),
                t == self.tables(),
                t.wf(),
                t == self.move_data@,
                l.side == self.side,
                l.en_passant == self.en_passant,
                f == l.moves_to_fn(t, source_square, piece_moved, castle),
                done + squares_of(targets.0) == all,
                views(all_moves@) == start + concat_over(done, f),
            decreases targets.0,
        {
            let ghost before = targets.0;
            let ghost listed = all_moves@;
            let target_square = targets.pop_ls1b().unwrap();
            proof {
                lemma_squares_step(before, done, all);
                lemma_concat_over_push(done, target_square, f);
                done = done.push(target_square);
            }
            let capture = self.captured_on(target_square);
            let target_position = BitBoard::new_set(target_square);
            if piece_moved == Pieces::PAWN && (target_position
                & self.move_data.get_promotion_ranks(self.side)).not_zero() {
                let queen = Move {
                    source_square,
                    target_square,
                    piece_moved,
                    promoted_piece: Some(Pieces::QUEEN),
                    capture,
                    double_push: false,
                    en_passant: false,
                    castle,
                }.encode();
                let bishop = Move {
                    source_square,
                    target_square,
                    piece_moved,
                    promoted_piece: Some(Pieces::BISHOP),
                    capture,
                    double_push: false,
                    en_passant: false,
                    castle,
                }.encode();
                let rook = Move {
                    source_square,
                    target_square,
                    piece_moved,
                    promoted_piece: Some(Pieces::ROOK),
                    capture,
                    double_push: false,
                    en_passant: false,
                    castle,
                }.encode();
                let knight = Move {
                    source_square,
                    target_square,
                    piece_moved,
                    promoted_piece: Some(Pieces::KNIGHT),
                    capture,
                    double_push: false,
                    en_passant: false,
                    castle,
                }.encode();
                all_moves.push(queen);
                all_moves.push(bishop);
                all_moves.push(rook);
                all_moves.push(knight);
                assert(views(all_moves@) =~= views(listed) + f(target_square));
            } else {
                let mut en_passant = false;
                let mut double_push = false;
                if piece_moved == Pieces::PAWN {
                    if let Some(en_passant_square) = self.en_passant {
                        if target_square == en_passant_square {
                            en_passant = true;
                        }
                    }
                    if (target_position & self.move_data.get_pawn_double_push_ranks(
                        self.side,
                    )).not_zero() && ((8 <= source_square && source_square < 16) || (48
                        <= source_square && source_square < 56)) {
                        double_push = true;
                    }
                }
                let calculated_move = Move {
                    source_square,
                    target_square,
                    piece_moved,
                    capture: if en_passant {
                        Some(Pieces::PAWN)
                    } else {
                        capture
                    },
                    promoted_piece: None,
                    en_passant,
                    double_push,
                    castle,
                }.encode();
                all_moves.push(calculated_move);
                assert(views(all_moves@) =~= views(listed) + f(target_square));
            }
            assert(views(all_moves@) =~= start + concat_over(done, f));
        }
        proof {
            lemma_squares_end(done, all);
        }
    }

    /// Whether one of the enemy pieces of kind `piece` on `rank` has
    /// exactly the squares of `pawns` occupied between itself and the king.
    fn exposed_by(
        &self,
        piece: Pieces,
        rank: BitBoard,
        king_square: u8,
        both_occupancy: &BitBoard,
        pawns: BitBoard,
    ) -> (r: bool)
        requires
            self.valid(),
            king_square < 64,
            both_occupancy.0 == self.layout().both(),
        ensures
            r == self.layout().exposed_to(
                self.tables(),
                squares_of(self.layout().board(self.layout().side.other(), piece) & rank.0),
                king_square,
                pawns.0,
            ),
    {
        proof {
            self.lemma_layout();
        }
        let mut enemy_positions = self.get_piece_positions(self.side.not(), piece) & rank;
        let ghost all = squares_of(enemy_positions.0);
        let ghost mut done = Seq::<u8>::empty();
        let ghost l = self.layout();
        let ghost t = self.tables();
        let mut found = false;
        assert(done + squares_of(enemy_positions.0) =~= all);
        while enemy_positions.not_zero()
            invariant
                self.valid(),
                king_square < 64,
                l == self.layout(),
                t == self.tables(),
                t.wf(),
                t == self.move_data@,
                both_occupancy.0 == l.both(),
                done + squares_of(enemy_positions.0) == all,
                found == l.exposed_to(t, done, king_square, pawns.0),
            decreases enemy_positions.0,
        {
            let ghost before = enemy_positions.0;
            let enemy_square = enemy_positions.pop_ls1b().unwrap();
            proof {
                lemma_squares_step(before, done, all);
                assert(done.push(enemy_square).drop_last() =~= done);
                done = done.push(enemy_square);
            }
            if (self.move_data.squares_between(king_square, enemy_square) & *both_occupancy).0
                == pawns.0 {
                found = true;
            }
        }
        proof {
            lemma_squares_end(done, all);
        }
        found
    }

    fn check_en_passant_special_case(
        &self,
        square: u8,
        king_square: u8,
        both_occupancy: &BitBoard,
        piece_attacks: &BitBoard,
        en_passant_square: u8,
    ) -> (r: bool)
        requires
            self.valid(),
            square < 64,
            king_square < 64,
            8 <= en_passant_square < 56,
            both_occupancy.0 == self.layout().both(),
        ensures
            r == self.layout().en_passant_exposes(
                self.tables(),
                square,
                king_square,
                piece_attacks.0,
                en_passant_square,
            ),
    {
        proof {
            self.lemma_layout();
        }
        if !(*piece_attacks & BitBoard::new_set(en_passant_square)).not_zero() {
            return false;
        }
        let passant_rank = self.move_data.get_pawn_double_push_ranks(self.side.not());
        if !(passant_rank & BitBoard::new_set(king_square)).not_zero() {
            return false;
        }
        let pushed = match self.side.not() {
            Color::WHITE => en_passant_square - 8,
            Color::BLACK => en_passant_square + 8,
        };
        let pawns = BitBoard::new_set(square) | BitBoard::new_set(pushed);
        let by_rook = self.exposed_by(Pieces::ROOK, passant_rank, king_square, both_occupancy, pawns);
        let by_queen = self.exposed_by(
            Pieces::QUEEN,
            passant_rank,
            king_square,
            both_occupancy,
            pawns,
        );
        by_rook || by_queen
    }

    fn get_legal_attacks(
        &self,
        square: u8,
        piece_type: Pieces,
        both_occupancy: &BitBoard,
        block_mask: &BitBoard,
        capture_mask: &BitBoard,
        king_square: u8,
    ) -> (r: BitBoard)
        requires
            self.valid(),
            square < 64,
            king_square < 64,
            both_occupancy.0 == self.layout().both(),
        ensures
            r.0 == self.layout().legal_targets(
                self.tables(),
                square,
                piece_type,
                block_mask.0,
                capture_mask.0,
                king_square,
            ),
    {
        proof {
            self.lemma_layout();
        }
        let them = self.side.not();
        let mut piece_attacks = self.move_data.get_attacks(
            square,
            &piece_type,
            self.side,
            both_occupancy,
        );
        if piece_type == Pieces::PAWN {
            let mut pawn_attack_mask = self.occupancies[them as usize] & *capture_mask;
            if let Some(en_passant_square) = self.en_passant {
                let double_pushed_piece_square = match them {
                    Color::WHITE => en_passant_square - 8,
                    Color::BLACK => en_passant_square + 8,
                };
                if (BitBoard::new_set(double_pushed_piece_square) & *capture_mask).not_zero() {
                    pawn_attack_mask.set_bit(en_passant_square);
                }
                if self.check_en_passant_special_case(
                    square,
                    king_square,
                    both_occupancy,
                    &piece_attacks,
                    en_passant_square,
                ) {
                    pawn_attack_mask.pop_bit(en_passant_square);
                }
            }
            let pawn_attacks = piece_attacks & pawn_attack_mask;
            let mut pawn_movement = self.move_data.get_pawn_moves(square, self.side);
            if pawn_movement.count_bits() == 2 && (*both_occupancy
                & (self.move_data.get_pawn_single_push_ranks(self.side) & pawn_movement)).not_zero() {
                pawn_movement = BitBoard::new();
            }
            pawn_movement = pawn_movement & *block_mask;
            pawn_movement = pawn_movement & self.occupancies[them as usize].not();
            piece_attacks = pawn_attacks | pawn_movement;
        } else {
            piece_attacks = piece_attacks & (*block_mask | *capture_mask);
        }
        piece_attacks = piece_attacks & self.occupancies[self.side as usize].not();
        piece_attacks
    }

    fn calculate_pinned_moves(
        &self,
        moves: &mut Vec<EncodedMove>,
        pieces_to_ignore: &mut BitBoard,
        opponent_square: u8,
        pinned_pieces: &BitBoard,
        king_square: u8,
        both_occupancy: &BitBoard,
        block_mask: &BitBoard,
        capture_mask: &BitBoard,
    )
        requires
            self.valid(),
            opponent_square < 64,
            king_square == self.layout().king_square(),
            king_square < 64,
            both_occupancy.0 == self.layout().both(),
            block_mask.0 == self.layout().block_mask(self.tables()),
            capture_mask.0 == self.layout().capture_mask(self.tables()),
        ensures
            views(final(moves)@) == views(old(moves)@) + self.layout().slider_pin_moves(
                self.tables(),
                opponent_square,
                pinned_pieces.0,
            ),
            final(pieces_to_ignore).0 == self.layout().slider_pin_set(
                self.tables(),
                old(pieces_to_ignore).0,
                opponent_square,
                pinned_pieces.0,
            ),
    {
        proof {
            self.lemma_layout();
        }
        let ghost l = self.layout();
        let ghost t = self.tables();
        let ghost start = views(moves@);
        let ghost ignored = pieces_to_ignore.0;
        let between_king_and_opponent = self.move_data.squares_between(opponent_square, king_square);
        if !between_king_and_opponent.not_zero() {
            assert(views(moves@) =~= start + l.slider_pin_moves(t, opponent_square, pinned_pieces.0));
            return ;
        }
        let mut piece: u8 = 0;
        assert(views(moves@) =~= start + l.pinned_moves_upto(
            t,
            opponent_square,
            pinned_pieces.0,
            0,
        ));
        while piece < 6
            invariant
                piece <= 6,
                self.valid(),
                opponent_square < 64,
                king_square == l.king_square(),
                king_square < 64,
                l == self.layout(),
                t == self.tables(),
                t.wf(),
                t == self.move_data@,
                both_occupancy.0 == l.both(),
                block_mask.0 == l.block_mask(t),
                capture_mask.0 == l.capture_mask(t),
                between_king_and_opponent.0 == t.between(opponent_square as int, king_square as int),
                views(moves@) == start + l.pinned_moves_upto(
                    t,
                    opponent_square,
                    pinned_pieces.0,
                    piece as nat,
                ),
                pieces_to_ignore.0 == l.pinned_set_upto(
                    t,
                    ignored,
                    opponent_square,
                    pinned_pieces.0,
                    piece as nat,
                ),
            decreases 6 - piece,
        {
            let piece_type = Pieces::int_to_piece(piece);
            if piece_type != Pieces::KING {
                let mut pinned_pieces_of_type = self.get_piece_positions(self.side, piece_type)
                    & *pinned_pieces & between_king_and_opponent;
                let ghost all = squares_of(pinned_pieces_of_type.0);
                let ghost mut done = Seq::<u8>::empty();
                let ghost f = l.pinned_moves_fn(t, opponent_square, piece_type);
                let ghost before_kind = l.pinned_moves_upto(
                    t,
                    opponent_square,
                    pinned_pieces.0,
                    piece as nat,
                );
                let ghost ignored_kind = pieces_to_ignore.0;
                assert(done + squares_of(pinned_pieces_of_type.0) =~= all);
                assert(views(moves@) =~= start + before_kind + concat_over(done, f));
                while pinned_pieces_of_type.not_zero()
                    invariant
                        self.valid(),
                        opponent_square < 64,
                        king_square == l.king_square(),
                        king_square < 64,
                        l == self.layout(),
                        t == self.tables(),
                        t.wf(),
                        t == self.move_data@,
                        both_occupancy.0 == l.both(),
                        block_mask.0 == l.block_mask(t),
                        capture_mask.0 == l.capture_mask(t),
                        between_king_and_opponent.0 == t.between(
                            opponent_square as int,
                            king_square as int,
                        ),
                        f == l.pinned_moves_fn(t, opponent_square, piece_type),
                        done + squares_of(pinned_pieces_of_type.0) == all,
                        views(moves@) == start + before_kind + concat_over(done, f),
                        pieces_to_ignore.0 == or_over(ignored_kind, done, single_fn()),
                    decreases pinned_pieces_of_type.0,
                {
                    let ghost before = pinned_pieces_of_type.0;
                    let ghost listed = views(moves@);
                    let pinned_square = pinned_pieces_of_type.pop_ls1b().unwrap();
                    proof {
                        lemma_squares_step(before, done, all);
                        lemma_concat_over_push(done, pinned_square, f);
                        lemma_or_over_push(ignored_kind, done, pinned_square, single_fn());
                        done = done.push(pinned_square);
                    }
                    let opponent_position = BitBoard::new_set(opponent_square);
                    let pinned_movement = self.move_data.squares_between(
                        opponent_square,
                        king_square,
                    ) | opponent_position;
                    let piece_attacks = self.get_legal_attacks(
                        pinned_square,
                        piece_type,
                        both_occupancy,
                        block_mask,
                        capture_mask,
                        king_square,
                    );
                    let pinned_attacks = pinned_movement & piece_attacks;
                    self.add_moves(moves, pinned_square, &pinned_attacks, piece_type, false);
                    *pieces_to_ignore = *pieces_to_ignore | BitBoard::new_set(pinned_square);
                    assert(views(moves@) =~= start + before_kind + concat_over(done, f));
                }
                proof {
                    lemma_squares_end(done, all);
                    assert(views(moves@) =~= start + l.pinned_moves_upto(
                        t,
                        opponent_square,
                        pinned_pieces.0,
                        (piece + 1) as nat,
                    ));
                }
            }
            piece += 1;
        }
    }

    /// The king's targets of the castles that are open.
    fn castle_targets(&self, king_square: u8, king_danger_squares: &BitBoard) -> (r: BitBoard)
        requires
            self.valid(),
            king_square == self.layout().king_square(),
            king_square < 64,
            king_danger_squares.0 == self.layout().danger(self.tables()),
        ensures
            r.0 == self.layout().castle_targets_upto(self.tables(), 4),
    {
        proof {
            self.lemma_layout();
        }
        let mut castle_attacks = BitBoard::new();
        let mut i: u8 = 0;
        while i < 4
            invariant
                i <= 4,
                self.valid(),
                self.tables().wf(),
                self.tables() == self.move_data@,
                self.layout().wf(),
                self.layout().side == self.side,
                self.layout().castle_rights == self.castle_rights,
                self.layout().both() == self.occupancies[2].0,
                self.occupancies.len() == 3,
                king_square == self.layout().king_square(),
                king_square < 64,
                king_danger_squares.0 == self.layout().danger(self.tables()),
                castle_attacks.0 == self.layout().castle_targets_upto(self.tables(), i as nat),
            decreases 4 - i,
        {
            let flag: u8 = if i == 0 {
                0b1
            } else if i == 1 {
                0b10
            } else if i == 2 {
                0b100
            } else {
                0b1000
            };
            assert(flag == right_bit(i as int));
            let castle_rights = CastleRights::int_to_castle_rights(flag);
            if self.castle_rights & flag != 0 {
                if let Some((target_square, move_squares)) = self.move_data.get_castle_info(
                    castle_rights,
                    self.side,
                ) {
                    if !(move_squares & *king_danger_squares).not_zero() {
                        let (source_square, _) = Self::rook_movement(target_square);
                        if !(self.move_data.squares_between(source_square, king_square)
                            & self.occupancies[Constants::BOTH_OCCUPANCIES]).not_zero() {
                            castle_attacks = castle_attacks | BitBoard::new_set(target_square);
                        }
                    }
                }
            }
            i += 1;
        }
        castle_attacks
    }

    /// The enemy pieces that give check to the king on `king_square`.
    fn checking_pieces(&self, king_square: u8, both_occupancy: &BitBoard) -> (r: BitBoard)
        requires
            self.valid(),
            king_square == self.layout().king_square(),
            king_square < 64,
            both_occupancy.0 == self.layout().both(),
        ensures
            r.0 == self.layout().checkers(self.tables()),
    {
        proof {
            self.lemma_layout();
        }
        let mut checking_pieces = BitBoard::new();
        let mut piece: u8 = 0;
        while piece < 6
            invariant
                piece <= 6,
                self.valid(),
                self.tables().wf(),
                self.tables() == self.move_data@,
                self.layout().side == self.side,
                king_square == self.layout().king_square(),
                king_square < 64,
                both_occupancy.0 == self.layout().both(),
                checking_pieces.0 == self.layout().checkers_upto(self.tables(), piece as nat),
            decreases 6 - piece,
        {
            let kind = Pieces::int_to_piece(piece);
            if kind != Pieces::KING {
                let attacks_from_king = self.move_data.get_attacks(
                    king_square,
                    &kind,
                    self.side,
                    both_occupancy,
                );
                checking_pieces = checking_pieces | (self.get_piece_positions(self.side.not(), kind)
                    & attacks_from_king);
            }
            piece += 1;
        }
        checking_pieces
    }

    /// The moves of the pieces that enemy sliders pin, and those pieces.
    fn pinned_pieces(
        &self,
        moves: &mut Vec<EncodedMove>,
        king_square: u8,
        both_occupancy: &BitBoard,
        block_mask: &BitBoard,
        capture_mask: &BitBoard,
    ) -> (pieces_to_ignore: BitBoard)
        requires
            self.valid(),
            king_square == self.layout().king_square(),
            king_square < 64,
            both_occupancy.0 == self.layout().both(),
            block_mask.0 == self.layout().block_mask(self.tables()),
            capture_mask.0 == self.layout().capture_mask(self.tables()),
        ensures
            views(final(moves)@) == views(old(moves)@) + self.layout().all_pin_moves(
                self.tables(),
                3,
            ),
            pieces_to_ignore.0 == self.layout().all_pinned(self.tables(), 3),
    {
        proof {
            self.lemma_layout();
        }
        let ghost l = self.layout();
        let ghost t = self.tables();
        let ghost start = views(moves@);
        let queen_attacks_from_king = self.move_data.get_attacks(
            king_square,
            &Pieces::QUEEN,
            self.side,
            both_occupancy,
        );
        let mut pieces_to_ignore = BitBoard::new();
        let mut i: u8 = 0;
        assert(views(moves@) =~= start + l.all_pin_moves(t, 0));
        while i < 3
            invariant
                i <= 3,
                self.valid(),
                l == self.layout(),
                t == self.tables(),
                t.wf(),
                t == self.move_data@,
                l.side == self.side,
                king_square == l.king_square(),
                king_square < 64,
                both_occupancy.0 == l.both(),
                block_mask.0 == l.block_mask(t),
                capture_mask.0 == l.capture_mask(t),
                queen_attacks_from_king.0 == t.attacks(
                    king_square as int,
                    Pieces::QUEEN,
                    l.side,
                    l.both(),
                ),
                views(moves@) == start + l.all_pin_moves(t, i as nat),
                pieces_to_ignore.0 == l.all_pinned(t, i as nat),
            decreases 3 - i,
        {
            let sliding_piece = if i == 0 {
                Pieces::BISHOP
            } else if i == 1 {
                Pieces::ROOK
            } else {
                Pieces::QUEEN
            };
            assert(sliding_piece == Layout::slider_kind(i as int));
            let mut opponent_positions = self.get_piece_positions(self.side.not(), sliding_piece);
            let ghost all = squares_of(opponent_positions.0);
            let ghost mut done = Seq::<u8>::empty();
            let ghost before_kind = l.all_pin_moves(t, i as nat);
            let ghost ignored_kind = pieces_to_ignore.0;
            assert(done + squares_of(opponent_positions.0) =~= all);
            assert(views(moves@) =~= start + before_kind + l.pin_moves_over(t, done, sliding_piece));
            while opponent_positions.not_zero()
                invariant
                    self.valid(),
                    l == self.layout(),
                    t == self.tables(),
                    t.wf(),
                    t == self.move_data@,
                    l.side == self.side,
                    king_square == l.king_square(),
                    king_square < 64,
                    both_occupancy.0 == l.both(),
                    block_mask.0 == l.block_mask(t),
                    capture_mask.0 == l.capture_mask(t),
                    queen_attacks_from_king.0 == t.attacks(
                        king_square as int,
                        Pieces::QUEEN,
                        l.side,
                        l.both(),
                    ),
                    done + squares_of(opponent_positions.0) == all,
                    views(moves@) == start + before_kind + l.pin_moves_over(t, done, sliding_piece),
                    pieces_to_ignore.0 == l.pin_set_over(t, ignored_kind, done, sliding_piece),
                decreases opponent_positions.0,
            {
                let ghost before = opponent_positions.0;
                let opponent_square = opponent_positions.pop_ls1b().unwrap();
                proof {
                    lemma_squares_step(before, done, all);
                    assert(done.push(opponent_square).drop_last() =~= done);
                    done = done.push(opponent_square);
                }
                let opponent_attacks = self.move_data.get_attacks(
                    opponent_square,
                    &sliding_piece,
                    self.side.not(),
                    both_occupancy,
                );
                let pinned_pieces = opponent_attacks & queen_attacks_from_king;
                self.calculate_pinned_moves(
                    moves,
                    &mut pieces_to_ignore,
                    opponent_square,
                    &pinned_pieces,
                    king_square,
                    both_occupancy,
                    block_mask,
                    capture_mask,
                );
                assert(views(moves@) =~= start + before_kind + l.pin_moves_over(
                    t,
                    done,
                    sliding_piece,
                ));
            }
            proof {
                lemma_squares_end(done, all);
                assert(views(moves@) =~= start + l.all_pin_moves(t, (i + 1) as nat));
            }
            i += 1;
        }
        pieces_to_ignore
    }

    /// The moves of the pieces, but for the king and those of
    /// `pieces_to_ignore`.
    fn free_moves(
        &self,
        moves: &mut Vec<EncodedMove>,
        pieces_to_ignore: &BitBoard,
        king_square: u8,
        both_occupancy: &BitBoard,
        block_mask: &BitBoard,
        capture_mask: &BitBoard,
    )
        requires
            self.valid(),
            king_square == self.layout().king_square(),
            king_square < 64,
            both_occupancy.0 == self.layout().both(),
            block_mask.0 == self.layout().block_mask(self.tables()),
            capture_mask.0 == self.layout().capture_mask(self.tables()),
        ensures
            views(final(moves)@) == views(old(moves)@) + self.layout().free_moves_upto(
                self.tables(),
                pieces_to_ignore.0,
                6,
            ),
    {
        proof {
            self.lemma_layout();
        }
        let ghost l = self.layout();
        let ghost t = self.tables();
        let ghost start = views(moves@);
        let mut piece: u8 = 0;
        assert(views(moves@) =~= start + l.free_moves_upto(t, pieces_to_ignore.0, 0));
        while piece < 6
            invariant
                piece <= 6,
                self.valid(),
                l == self.layout(),
                t == self.tables(),
                l.side == self.side,
                king_square == l.king_square(),
                king_square < 64,
                both_occupancy.0 == l.both(),
                block_mask.0 == l.block_mask(t),
                capture_mask.0 == l.capture_mask(t),
                views(moves@) == start + l.free_moves_upto(t, pieces_to_ignore.0, piece as nat),
            decreases 6 - piece,
        {
            let piece_type = Pieces::int_to_piece(piece);
            if piece_type != Pieces::KING {
                let mut piece_position = self.get_piece_positions(self.side, piece_type)
                    & pieces_to_ignore.not();
                let ghost all = squares_of(piece_position.0);
                let ghost mut done = Seq::<u8>::empty();
                let ghost f = l.free_moves_fn(t, piece_type);
                let ghost before_kind = l.free_moves_upto(t, pieces_to_ignore.0, piece as nat);
                assert(done + squares_of(piece_position.0) =~= all);
                assert(views(moves@) =~= start + before_kind + concat_over(done, f));
                while piece_position.not_zero()
                    invariant
                        self.valid(),
                        l == self.layout(),
                        t == self.tables(),
                        king_square == l.king_square(),
                        king_square < 64,
                        both_occupancy.0 == l.both(),
                        block_mask.0 == l.block_mask(t),
                        capture_mask.0 == l.capture_mask(t),
                        f == l.free_moves_fn(t, piece_type),
                        done + squares_of(piece_position.0) == all,
                        views(moves@) == start + before_kind + concat_over(done, f),
                    decreases piece_position.0,
                {
                    let ghost before = piece_position.0;
                    let piece_square = piece_position.pop_ls1b().unwrap();
                    proof {
                        lemma_squares_step(before, done, all);
                        lemma_concat_over_push(done, piece_square, f);
                        done = done.push(piece_square);
                    }
                    let piece_attacks = self.get_legal_attacks(
                        piece_square,
                        piece_type,
                        both_occupancy,
                        block_mask,
                        capture_mask,
                        king_square,
                    );
                    self.add_moves(moves, piece_square, &piece_attacks, piece_type, false);
                    assert(views(moves@) =~= start + before_kind + concat_over(done, f));
                }
                proof {
                    lemma_squares_end(done, all);
                    assert(views(moves@) =~= start + l.free_moves_upto(
                        t,
                        pieces_to_ignore.0,
                        (piece + 1) as nat,
                    ));
                }
            }
            piece += 1;
        }
    }

    /// Appends to `moves` the moves of the side to move: the king's steps
    /// off the danger squares; and unless two pieces give check, the
    /// castles, the moves of the pinned pieces along their pin lines, and
    /// the moves of all other pieces, which must capture the checker or
    /// block the check when one piece gives check. Then says how the game
    /// stands: a draw once the halfmove clock has passed 100 or when no
    /// move was found outside check, checkmate when none was found in
    /// check.
    pub fn generate_moves(&self, moves: &mut Vec<EncodedMove>) -> (state: GameState)
        requires
            self.valid(),
            self.has_king(),
        ensures
            views(final(moves)@) == views(old(moves)@) + self.layout().generated(self.tables()),
            state == if self.layout().halfmove > 100 {
                GameState::Draw
            } else if self.layout().generated(self.tables()).len() > 0 {
                GameState::Normal
            } else if self.layout().in_check(self.tables()) {
                GameState::Checkmate
            } else {
                GameState::Draw
            },
    {
        proof {
            self.lemma_layout();
        }
        let ghost l = self.layout();
        let ghost t = self.tables();
        let ghost start = views(moves@);
        let start_len = moves.len();
        if self.halfmove_timer > 100 {
            assert(views(moves@) =~= start + l.generated(t));
            return GameState::Draw;
        }
        let side_to_move = self.side as usize;
        let both_occupancy = self.occupancies[Constants::BOTH_OCCUPANCIES];
        let king_position = self.get_piece_positions(self.side, Pieces::KING);
        let king_square = king_position.ls1b_index().unwrap();
        let mut king_attacks = self.move_data.get_attacks(
            king_square,
            &Pieces::KING,
            self.side,
            &both_occupancy,
        );
        king_attacks = king_attacks & self.occupancies[side_to_move].not();
        let without_king_occupancy = both_occupancy & king_position.not();
        let king_danger_squares = self.get_attacked_squares(self.side.not(), &without_king_occupancy);
        king_attacks = king_attacks & king_danger_squares.not();

        let checking_pieces = self.checking_pieces(king_square, &both_occupancy);
        let num_checking = checking_pieces.count_bits();

        self.add_moves(moves, king_square, &king_attacks, Pieces::KING, false);
        if num_checking > 1 {
            assert(views(moves@) =~= start + l.generated(t));
            if moves.len() == start_len {
                return GameState::Checkmate;
            }
            return GameState::Normal;
        }
        let mut capture_mask = BitBoard(0xFFFFFFFFFFFFFFFF);
        let mut block_mask = BitBoard(0xFFFFFFFFFFFFFFFF);
        let mut castle_attacks = BitBoard::new();
        if num_checking == 1 {
            capture_mask = checking_pieces;
            proof {
                lemma_popcount_zero(checking_pieces.0);
            }
            let checker_square = checking_pieces.ls1b_index().unwrap();
            block_mask = self.move_data.squares_between(king_square, checker_square);
        } else {
            castle_attacks = self.castle_targets(king_square, &king_danger_squares);
        }
        self.add_moves(moves, king_square, &castle_attacks, Pieces::KING, true);
        let pieces_to_ignore = self.pinned_pieces(
            moves,
            king_square,
            &both_occupancy,
            &block_mask,
            &capture_mask,
        );
        self.free_moves(
            moves,
            &pieces_to_ignore,
            king_square,
            &both_occupancy,
            &block_mask,
            &capture_mask,
        );
        assert(views(moves@) =~= start + l.generated(t));
        if moves.len() == start_len {
            if num_checking != 0 {
                return GameState::Checkmate;
            } else {
                return GameState::Draw;
            }
        }
        return GameState::Normal;
    }
}

} // verus!
