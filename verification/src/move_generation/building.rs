//! Making a game, and reading it.

use super::{boards_agree, content_of, Game};
use crate::bits::{group_bits, lemma_xor_laws};
use crate::common::{AllMoveData, BitBoard, Color, Pieces, ZobristHashes};
use crate::move_encoding::EncodedMove;
use crate::position::{lemma_hash_of_empty_board, Position};
use std::ops::Not;
use vstd::prelude::*;

verus! {

impl Game {
    /// The game of the empty position, with no move made.
    pub fn new(move_data: &AllMoveData, hashes: &ZobristHashes) -> (r: Self)
        requires
            move_data@.wf(),
            hashes@.wf(),
        ensures
            r.valid(),
            r@ == Position::empty(),
            r.history_view().len() == 0,
            r.tables() == move_data@,
            r.keys() == hashes@,
    {
        broadcast use group_bits;

        let r = Self {
            piece_positions: vec![vec![BitBoard::new(); 6]; 2],
            occupancies: vec![BitBoard::new(); 3],
            side: Color::WHITE,
            en_passant: None,
            castle_rights: 0b1111,
            halfmove_timer: 0,
            fullmove_number: 0,
            history: Vec::new(),
            move_data: move_data.clone(),
            hashes: hashes.clone(),
            hash: hashes.castle_rights[0b1111],
        };
        proof {
            let b = r.piece_positions@;
            assert(b[0].len() == 6 && b[1].len() == 6);
            assert forall|c: int, k: int| 0 <= c < 2 && 0 <= k < 6 implies (#[trigger] b[c][k]).0
                == 0 by {}
            assert forall|sq: u8| sq < 64 implies #[trigger] content_of(b, sq) is None by {}
            assert(boards_agree(b, r.occupancies@));
            assert(r@.squares =~= Position::empty().squares);
            lemma_hash_of_empty_board(r@, r.hashes@);
            lemma_xor_laws(r.hashes@.castle_rights[15], 0, 0);
        }
        r
    }

    /// The tables that this game generates moves with.
    pub fn move_data(&self) -> (r: &AllMoveData)
        ensures
            r@ == self.tables(),
    {
        &self.move_data
    }

    /// The Zobrist hash of the position.
    pub fn hash(&self) -> (r: u64)
        ensures
            r == self.hash_value(),
    {
        self.hash
    }

    /// The en-passant square, if the last move was a double push.
    pub fn en_passant(&self) -> (r: Option<u8>)
        ensures
            r == self@.en_passant,
    {
        self.en_passant
    }

    /// The castle rights, as a 4-bit mask.
    pub fn castle_rights(&self) -> (r: u8)
        ensures
            r == self@.castle_rights,
    {
        self.castle_rights
    }

    /// The halfmove clock.
    pub fn halfmove_timer(&self) -> (r: u8)
        ensures
            r == self@.halfmove,
    {
        self.halfmove_timer
    }

    /// The fullmove number.
    pub fn fullmove_number(&self) -> (r: u16)
        ensures
            r == self@.fullmove,
    {
        self.fullmove_number
    }

    /// The side to move.
    pub fn side_to_move(&self) -> (r: Color)
        ensures
            r == self@.side,
    {
        self.side
    }

    /// How many moves have been made and not unmade.
    pub fn history_len(&self) -> (r: usize)
        ensures
            r == self.history_view().len(),
    {
        self.history.len()
    }

    /// What stands on `square`.
    pub fn piece_at(&self, square: u8) -> (r: Option<(Color, Pieces)>)
        requires
            self.valid(),
            square < 64,
        ensures
            r == self@.squares[square as int],
    {
        if self.piece_positions[0][0].get_bit(square) {
            Some((Color::WHITE, Pieces::KING))
        } else if self.piece_positions[0][1].get_bit(square) {
            Some((Color::WHITE, Pieces::PAWN))
        } else if self.piece_positions[0][2].get_bit(square) {
            Some((Color::WHITE, Pieces::KNIGHT))
        } else if self.piece_positions[0][3].get_bit(square) {
            Some((Color::WHITE, Pieces::BISHOP))
        } else if self.piece_positions[0][4].get_bit(square) {
            Some((Color::WHITE, Pieces::ROOK))
        } else if self.piece_positions[0][5].get_bit(square) {
            Some((Color::WHITE, Pieces::QUEEN))
        } else if self.piece_positions[1][0].get_bit(square) {
            Some((Color::BLACK, Pieces::KING))
        } else if self.piece_positions[1][1].get_bit(square) {
            Some((Color::BLACK, Pieces::PAWN))
        } else if self.piece_positions[1][2].get_bit(square) {
            Some((Color::BLACK, Pieces::KNIGHT))
        } else if self.piece_positions[1][3].get_bit(square) {
            Some((Color::BLACK, Pieces::BISHOP))
        } else if self.piece_positions[1][4].get_bit(square) {
            Some((Color::BLACK, Pieces::ROOK))
        } else if self.piece_positions[1][5].get_bit(square) {
            Some((Color::BLACK, Pieces::QUEEN))
        } else {
            None
        }
    }

    fn holds(&self, square: u8, color: Color, piece: Pieces) -> (r: bool)
        requires
            self.valid(),
            square < 64,
        ensures
            r == (self@.squares[square as int] == Some((color, piece))),
    {
        match self.piece_at(square) {
            Some((c, k)) => c == color && k == piece,
            None => false,
        }
    }

    fn is_empty(&self, square: u8) -> (r: bool)
        requires
            self.valid(),
            square < 64,
        ensures
            r == (self@.squares[square as int] is None),
    {
        self.piece_at(square).is_none()
    }

    /// Whether the position is sound: the side to move has a king, the
    /// fullmove number can still grow, every castle right of the side to
    /// move finds king and rook at home, and the en-passant square is empty
    /// with a pawn of the other side beyond it.
    pub fn is_sound(&self) -> (r: bool)
        requires
            self.valid(),
        ensures
            r == self@.sound(),
    {
        proof {
            self.lemma_layout_of_view();
            self.lemma_boards();
        }
        let us = self.side;
        let them = self.side.not();
        let king_board = self.get_piece_positions(us, Pieces::KING);
        let king = match king_board.ls1b_index() {
            Some(square) => square,
            None => {
                return false;
            },
        };
        if us == Color::BLACK && self.fullmove_number == 65535 {
            return false;
        }
        match us {
            Color::WHITE => {
                if self.castle_rights & 0b1 != 0 && !(king == 60 && self.holds(
                    63,
                    Color::WHITE,
                    Pieces::ROOK,
                )) {
                    return false;
                }
                if self.castle_rights & 0b10 != 0 && !(king == 60 && self.holds(
                    56,
                    Color::WHITE,
                    Pieces::ROOK,
                )) {
                    return false;
                }
            },
            Color::BLACK => {
                if self.castle_rights & 0b100 != 0 && !(king == 4 && self.holds(
                    7,
                    Color::BLACK,
                    Pieces::ROOK,
                )) {
                    return false;
                }
                if self.castle_rights & 0b1000 != 0 && !(king == 4 && self.holds(
                    0,
                    Color::BLACK,
                    Pieces::ROOK,
                )) {
                    return false;
                }
            },
        }
        if let Some(square) = self.en_passant {
            let beyond = match us {
                Color::WHITE => square + 8,
                Color::BLACK => square - 8,
            };
            if !self.is_empty(square) || !self.holds(beyond, them, Pieces::PAWN) {
                return false;
            }
        }
        true
    }

    /// Whether `move_made` can be made in this position.
    pub fn accepts_move(&self, move_made: &EncodedMove) -> (r: bool)
        requires
            self.valid(),
        ensures
            r == self@.accepts(move_made@),
    {
        let source = move_made.source_square();
        let target = move_made.target_square();
        let piece = move_made.piece_moved();
        let capture = move_made.capture();
        let us = self.side;
        let them = self.side.not();
        proof {
            move_made.lemma_view_wf();
        }
        if !self.holds(source, us, piece) {
            return false;
        }
        if move_made.en_passant() {
            if self.en_passant != Some(target) {
                return false;
            }
            if capture != Some(Pieces::PAWN) {
                return false;
            }
            if !self.is_empty(target) {
                return false;
            }
            let capture_square = match us {
                Color::WHITE => target + 8,
                Color::BLACK => target - 8,
            };
            if !self.holds(capture_square, them, Pieces::PAWN) {
                return false;
            }
        } else {
            match capture {
                Some(captured) => {
                    if !self.holds(target, them, captured) {
                        return false;
                    }
                },
                None => {
                    if !self.is_empty(target) {
                        return false;
                    }
                },
            }
        }
        if move_made.castle() {
            if !(target == 62 || target == 58 || target == 6 || target == 2) {
                return false;
            }
            if piece != Pieces::KING || capture.is_some() {
                return false;
            }
            let (rook_source, rook_target) = Self::rook_movement(target);
            if !self.holds(rook_source, us, Pieces::ROOK) || !self.is_empty(rook_target) {
                return false;
            }
        }
        if move_made.double_push() {
            let inside = match us {
                Color::WHITE => target < 48,
                Color::BLACK => target >= 16,
            };
            if !inside {
                return false;
            }
        }
        if piece != Pieces::PAWN && capture.is_none() && self.halfmove_timer == 255 {
            return false;
        }
        if us == Color::BLACK && self.fullmove_number == 65535 {
            return false;
        }
        true
    }
}

} // verus!
