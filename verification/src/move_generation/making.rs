//! Making a move and unmaking it.

use super::{Game, HistoryEntry};
use crate::bits::lemma_xor_laws;
use crate::common::{Color, Pieces};
use crate::move_encoding::EncodedMove;
use crate::position::{en_passant_key, lemma_make_hash, lemma_make_unmake, lemma_make_wf};
use std::ops::Not;
use vstd::prelude::*;

verus! {

impl Game {
    /// Moves the pieces of `move_made`: lifts the moved piece, takes the
    /// captured piece off `capture_square`, lands the moved or promoted
    /// piece, and moves the rook of a castle. Returns the rook's two
    /// squares, or `(0, 0)`.
    fn shift_pieces(&mut self, move_made: &EncodedMove, capture_square: u8) -> (rook_movement: (
        u8,
        u8,
    ))
        requires
            old(self).placed(),
            old(self)@.wf(),
            old(self)@.accepts(move_made@),
            capture_square == old(self)@.capture_square(move_made@),
        ensures
            final(self).placed(),
            final(self)@.squares == old(self)@.make(move_made@).squares,
            final(self).hash == old(self).hash ^ old(self)@.source_key(move_made@, old(self).keys())
                ^ old(self)@.capture_key(move_made@, old(self).keys()) ^ old(self)@.target_key(
                move_made@,
                old(self).keys(),
            ) ^ old(self)@.rook_source_key(move_made@, old(self).keys())
                ^ old(self)@.rook_target_key(move_made@, old(self).keys()),
            rook_movement == old(self)@.undo_of(move_made@, 0).rook_movement,
            final(self).side == old(self).side,
            final(self).en_passant == old(self).en_passant,
            final(self).castle_rights == old(self).castle_rights,
            final(self).halfmove_timer == old(self).halfmove_timer,
            final(self).fullmove_number == old(self).fullmove_number,
            final(self).history == old(self).history,
            final(self).move_data == old(self).move_data,
            final(self).hashes == old(self).hashes,
    {
        let ghost p0 = self@;
        let ghost m = move_made@;
        let ghost keys = self.hashes@;
        let ghost h0 = self.hash;
        let moved_piece = move_made.piece_moved();
        let move_source = move_made.source_square();
        let move_target = move_made.target_square();
        let us = self.side;
        let them = self.side.not();
        let mut rook_movement: (u8, u8) = (0, 0);

        self.remove_piece(us, moved_piece, move_source);
        if let Some(piece_captured) = move_made.capture() {
            self.remove_piece(them, piece_captured, capture_square);
        }
        proof {
            lemma_xor_laws(h0 ^ p0.source_key(m, keys), 0, 0);
        }
        let placed = match move_made.promoted_piece() {
            Some(promoted_piece) => promoted_piece,
            None => moved_piece,
        };
        self.place_piece(us, placed, move_target);
        assert(self.hash == h0 ^ p0.source_key(m, keys) ^ p0.capture_key(m, keys) ^ p0.target_key(
            m,
            keys,
        ));
        if move_made.castle() {
            let (rook_source_square, rook_target_square) = Self::rook_movement(move_target);
            self.remove_piece(us, Pieces::ROOK, rook_source_square);
            self.place_piece(us, Pieces::ROOK, rook_target_square);
            rook_movement = (rook_source_square, rook_target_square);
        }
        proof {
            lemma_xor_laws(
                h0 ^ p0.source_key(m, keys) ^ p0.capture_key(m, keys) ^ p0.target_key(m, keys),
                0,
                0,
            );
            lemma_xor_laws(
                h0 ^ p0.source_key(m, keys) ^ p0.capture_key(m, keys) ^ p0.target_key(m, keys) ^ 0,
                0,
                0,
            );
        }
        rook_movement
    }

    /// Makes `move_made`: the pieces move, a rook captured on a corner, a
    /// king that moves and a rook that leaves a corner lose castle rights,
    /// a double push leaves an en-passant square, the counters advance,
    /// the turn passes, and what unmaking needs is remembered with the
    /// scalars and the hash of the position before the move.
    pub fn make_move(&mut self, move_made: &EncodedMove)
        requires
            old(self).valid(),
            old(self)@.accepts(move_made@),
        ensures
            final(self).valid(),
            final(self)@ == old(self)@.make(move_made@),
            final(self).hash_value() == old(self)@.hash_after(
                move_made@,
                old(self).keys(),
                old(self).hash_value(),
            ),
            final(self).history_view() == old(self).history_view().push(
                old(self)@.undo_of(move_made@, old(self).hash_value()),
            ),
            final(self).tables() == old(self).tables(),
            final(self).keys() == old(self).keys(),
    {
        let ghost p0 = self@;
        let ghost m = move_made@;
        let ghost keys = self.hashes@;
        let ghost h0 = self.hash;
        let moved_piece = move_made.piece_moved();
        let move_source = move_made.source_square();
        let move_target = move_made.target_square();
        let move_capture = move_made.capture();
        let us = self.side;
        proof {
            lemma_make_wf(p0, m);
            lemma_make_unmake(p0, m, h0);
            lemma_make_hash(p0, m, keys);
        }

        let mut capture_square = move_target;
        if move_made.en_passant() {
            capture_square =
            match us {
                Color::WHITE => move_target + 8,
                Color::BLACK => move_target - 8,
            };
        }
        let entry = HistoryEntry {
            move_made: *move_made,
            castle_rights: self.castle_rights,
            en_passant: self.en_passant,
            fullmove_number: self.fullmove_number,
            halfmove_timer: self.halfmove_timer,
            capture_square,
            rook_movement: (0, 0),
            hash: self.hash,
        };

        self.hash ^= self.hashes.castle_rights[self.castle_rights as usize];
        if let Some(en_passant_square) = self.en_passant {
            self.hash ^= self.hashes.en_passant_file[(en_passant_square % 8) as usize];
        }
        proof {
            lemma_xor_laws(h0 ^ keys.castle_rights[p0.castle_rights as int], 0, 0);
        }
        assert(self.hash == h0 ^ keys.castle_rights[p0.castle_rights as int] ^ en_passant_key(
            keys,
            p0.en_passant,
        ));

        let rook_movement = self.shift_pieces(move_made, capture_square);
        let ghost h1 = self.hash;

        if move_capture == Some(Pieces::ROOK) {
            self.castle_rights = self.castle_rights & !Self::corner_right_of(move_target);
        }
        if moved_piece == Pieces::KING {
            let used_rights: u8 = match us {
                Color::WHITE => 0b0011,
                Color::BLACK => 0b1100,
            };
            self.castle_rights = self.castle_rights & !used_rights;
        } else if moved_piece == Pieces::ROOK {
            self.castle_rights = self.castle_rights & !Self::corner_right_of(move_source);
        }
        assert(self.castle_rights == p0.rights_after(m));

        if move_made.double_push() {
            let target_position = match us {
                Color::WHITE => move_target + 8,
                Color::BLACK => move_target - 8,
            };
            self.en_passant = Some(target_position);
            self.hash ^= self.hashes.en_passant_file[(target_position % 8) as usize];
        } else {
            self.en_passant = None;
        }
        proof {
            lemma_xor_laws(h1, 0, 0);
        }
        assert(self.hash == h1 ^ en_passant_key(keys, p0.make(m).en_passant));

        if moved_piece == Pieces::PAWN || move_capture.is_some() {
            self.halfmove_timer = 0;
        } else {
            self.halfmove_timer += 1;
        }
        if self.side == Color::BLACK {
            self.fullmove_number += 1;
        }
        self.side = self.side.not();
        self.hash ^= self.hashes.side;
        self.hash ^= self.hashes.castle_rights[self.castle_rights as usize];

        self.history.push(
            HistoryEntry {
                move_made: entry.move_made,
                castle_rights: entry.castle_rights,
                en_passant: entry.en_passant,
                fullmove_number: entry.fullmove_number,
                halfmove_timer: entry.halfmove_timer,
                capture_square: entry.capture_square,
                rook_movement,
                hash: entry.hash,
            },
        );
        proof {
            assert(self@ == p0.make(m));
            let undo = p0.undo_of(m, h0);
            assert(self.history_view() =~= old(self).history_view().push(undo));
            assert(self.history_view().drop_last() =~= old(self).history_view());
            assert(self.history_view().last() == undo);
        }
    }

    /// Unmakes the last move made: moves the rook of a castle back, lifts
    /// the piece that landed, puts the captured piece back on its square
    /// and the moved piece back on its source, and restores rights,
    /// en-passant square, counters and hash as they were.
    pub fn unmake_move(&mut self)
        requires
            old(self).valid(),
            old(self).history_view().len() > 0,
        ensures
            final(self).valid(),
            final(self)@ == old(self)@.unmake(old(self).history_view().last()),
            final(self).hash_value() == old(self).history_view().last().hash,
            final(self).history_view() == old(self).history_view().drop_last(),
            final(self).tables() == old(self).tables(),
            final(self).keys() == old(self).keys(),
    {
        let ghost made = self@;
        let ghost undo = self.history_view().last();
        let ghost p0 = made.unmake(undo);
        assert(self.history@.len() > 0);
        let history = self.history.pop().unwrap();
        assert(history@ == undo);
        assert(p0.make(undo.move_made) == made);

        let piece_moved = history.move_made.piece_moved();
        let source_square = history.move_made.source_square();
        let target_square = history.move_made.target_square();
        let placed = match history.move_made.promoted_piece() {
            Some(promoted_piece) => promoted_piece,
            None => piece_moved,
        };
        let them = self.side;
        self.side = self.side.not();
        let us = self.side;
        assert(us == p0.side);

        if history.move_made.castle() {
            let (rook_source, rook_target) = history.rook_movement;
            self.remove_piece(us, Pieces::ROOK, rook_target);
            self.place_piece(us, Pieces::ROOK, rook_source);
        }
        self.remove_piece(us, placed, target_square);
        if let Some(captured_piece) = history.move_made.capture() {
            self.place_piece(them, captured_piece, history.capture_square);
        }
        self.place_piece(us, piece_moved, source_square);

        self.castle_rights = history.castle_rights;
        self.en_passant = history.en_passant;
        self.fullmove_number = history.fullmove_number;
        self.halfmove_timer = history.halfmove_timer;
        self.hash = history.hash;
        proof {
            assert(self@.squares == p0.squares);
            assert(self@ == p0);
            assert(self.history_view() =~= old(self).history_view().drop_last());
        }
    }
}

} // verus!
