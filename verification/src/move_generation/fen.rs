//! Reading a game from a position string.

use super::Game;
use crate::bits::lemma_xor_laws;
use crate::common::{AllMoveData, Color, Pieces, ZobristHashes};
use crate::notation::{
    chars_of, empty_board, field_views, fields, lemma_placement_stays_failed, parse_fen,
    parse_placement, place_step, placement_after, read_en_passant, read_number, read_rights,
    back_rank, read_side, split_fields, start_board, start_position, FenError,
};
use crate::position::{
    en_passant_key, lemma_pieces_hash_empty, lemma_pieces_hash_update, pieces_hash, side_key,
    Position,
};
use vstd::prelude::*;

verus! {

impl Game {
    /// Puts a piece on an empty square of a game whose hash is that of its
    /// pieces alone.
    fn put(&mut self, color: Color, piece: Pieces, square: u8)
        requires
            old(self).placed(),
            square < 64,
            old(self)@.squares.len() == 64,
            old(self)@.squares[square as int] is None,
            old(self).hash == pieces_hash(old(self).hashes@, old(self)@.squares, 64),
        ensures
            final(self).placed(),
            final(self)@.squares == old(self)@.squares.update(
                square as int,
                Some((color, piece)),
            ),
            final(self).hash == pieces_hash(final(self).hashes@, final(self)@.squares, 64),
            final(self).side == old(self).side,
            final(self).en_passant == old(self).en_passant,
            final(self).castle_rights == old(self).castle_rights,
            final(self).halfmove_timer == old(self).halfmove_timer,
            final(self).fullmove_number == old(self).fullmove_number,
            final(self).history == old(self).history,
            final(self).move_data == old(self).move_data,
            final(self).hashes == old(self).hashes,
    {
        proof {
            lemma_pieces_hash_update(
                self.hashes@,
                self@.squares,
                square as int,
                Some((color, piece)),
                64,
            );
            lemma_xor_laws(pieces_hash(self.hashes@, self@.squares, 64), 0, 0);
        }
        self.place_piece(color, piece, square);
    }

    fn back_rank_piece(file: u8) -> (r: Pieces)
        ensures
            r == back_rank(file as int),
    {
        if file == 0 || file == 7 {
            Pieces::ROOK
        } else if file == 1 || file == 6 {
            Pieces::KNIGHT
        } else if file == 2 || file == 5 {
            Pieces::BISHOP
        } else if file == 3 {
            Pieces::QUEEN
        } else {
            Pieces::KING
        }
    }

    /// The game of the starting position, with no move made.
    pub fn new_starting(move_data: &AllMoveData, hashes: &ZobristHashes) -> (r: Self)
        requires
            move_data@.wf(),
            hashes@.wf(),
        ensures
            r.valid(),
            r@ == start_position(),
            r.history_view().len() == 0,
            r.tables() == move_data@,
            r.keys() == hashes@,
    {
        let mut game = Game::new(move_data, hashes);
        game.hash = 0;
        proof {
            lemma_pieces_hash_empty(game.hashes@, game@.squares, 64);
            assert(game@.squares =~= start_board(0));
        }
        let mut file: u8 = 0;
        while file < 8
            invariant
                file <= 8,
                game.placed(),
                game@.squares == start_board(file as int),
                game.hash == pieces_hash(game.hashes@, game@.squares, 64),
                game.side == Color::WHITE,
                game.en_passant is None,
                game.castle_rights == 0b1111,
                game.halfmove_timer == 0,
                game.fullmove_number == 0,
                game.history@.len() == 0,
                game.move_data@ == move_data@,
                game.hashes@ == hashes@,
            decreases 8 - file,
        {
            let piece = Self::back_rank_piece(file);
            game.put(Color::BLACK, piece, file);
            game.put(Color::BLACK, Pieces::PAWN, 8 + file);
            game.put(Color::WHITE, Pieces::PAWN, 48 + file);
            game.put(Color::WHITE, piece, 56 + file);
            assert(game@.squares =~= start_board(file + 1));
            file += 1;
        }
        game.fullmove_number = 1;
        game.hash ^= hashes.castle_rights[0b1111];
        proof {
            let keys = hashes@;
            let pieces = pieces_hash(keys, game@.squares, 64);
            lemma_xor_laws(pieces, 0, 0);
            lemma_xor_laws(pieces ^ 0 ^ keys.castle_rights[15], 0, 0);
            assert(game@ == start_position());
        }
        game
    }

    /// Puts the pieces of a placement field on the empty board of this
    /// game. Returns whether the field is well formed.
    fn read_placement(&mut self, field: &Vec<char>) -> (ok: bool)
        requires
            old(self).placed(),
            old(self)@.squares == empty_board(),
            old(self).hash == 0,
        ensures
            ok ==> parse_placement(field@) == Some(final(self)@.squares),
            !ok ==> parse_placement(field@) is None,
            final(self).placed(),
            final(self).hash == pieces_hash(final(self).hashes@, final(self)@.squares, 64),
            final(self).side == old(self).side,
            final(self).en_passant == old(self).en_passant,
            final(self).castle_rights == old(self).castle_rights,
            final(self).halfmove_timer == old(self).halfmove_timer,
            final(self).fullmove_number == old(self).fullmove_number,
            final(self).history == old(self).history,
            final(self).move_data == old(self).move_data,
            final(self).hashes == old(self).hashes,
    {
        let mut index: u8 = 0;
        let mut n: usize = 0;
        proof {
            lemma_pieces_hash_empty(self.hashes@, self@.squares, 64);
        }
        while n < field.len()
            invariant
                n <= field.len(),
                index <= 64,
                self.placed(),
                self@.squares.len() == 64,
                placement_after(field@, n as nat) == Some((index as int, self@.squares)),
                forall|j: int| index <= j < 64 ==> self@.squares[j] is None,
                self.hash == pieces_hash(self.hashes@, self@.squares, 64),
                self.side == old(self).side,
                self.en_passant == old(self).en_passant,
                self.castle_rights == old(self).castle_rights,
                self.halfmove_timer == old(self).halfmove_timer,
                self.fullmove_number == old(self).fullmove_number,
                self.history == old(self).history,
                self.move_data == old(self).move_data,
                self.hashes == old(self).hashes,
            decreases field.len() - n,
        {
            let c = field[n];
            let code = c as u32;
            let ghost before = self@.squares;
            let ghost state = placement_after(field@, n as nat);
            assert(placement_after(field@, (n + 1) as nat) == place_step(state, c));
            if c == '/' {
            } else if code >= 48 && code <= 57 {
                let skip = (code - 48) as u8;
                if index + skip > 64 {
                    proof {
                        lemma_placement_stays_failed(field@, (n + 1) as nat, field@.len());
                    }
                    return false;
                }
                index += skip;
            } else if (code >= 97 && code <= 122) || (code >= 65 && code <= 90) {
                let color = if code >= 97 && code <= 122 {
                    Color::BLACK
                } else {
                    Color::WHITE
                };
                match Pieces::parse_ascii(c) {
                    Some(piece) => {
                        if index >= 64 {
                            proof {
                                lemma_placement_stays_failed(field@, (n + 1) as nat, field@.len());
                            }
                            return false;
                        }
                        proof {
                            lemma_pieces_hash_update(
                                self.hashes@,
                                before,
                                index as int,
                                Some((color, piece)),
                                64,
                            );
                            lemma_xor_laws(pieces_hash(self.hashes@, before, 64), 0, 0);
                        }
                        self.place_piece(color, piece, index);
                        index += 1;
                    },
                    None => {
                        proof {
                            lemma_placement_stays_failed(field@, (n + 1) as nat, field@.len());
                        }
                        return false;
                    },
                }
            } else {
                proof {
                    lemma_placement_stays_failed(field@, (n + 1) as nat, field@.len());
                }
                return false;
            }
            n += 1;
        }
        index == 64
    }

    /// Reads a game from a position string of six fields: the placement of
    /// the pieces rank by rank from the eighth, the side to move, the
    /// castle rights, the en-passant square, the halfmove clock and the
    /// fullmove number. The game has no history, and its hash is the
    /// Zobrist hash of the position.
    pub fn new_fen(fen: String, move_data: &AllMoveData, hashes: &ZobristHashes) -> (r: Result<
        Self,
        FenError,
    >)
        requires
            move_data@.wf(),
            hashes@.wf(),
        ensures
            match r {
                Ok(game) => parse_fen(fen@) == Ok::<Position, FenError>(game@) && game.valid()
                    && game.history_view().len() == 0 && game.tables() == move_data@ && game.keys()
                    == hashes@,
                Err(e) => parse_fen(fen@) == Err::<Position, FenError>(e),
            },
    {
        let text = chars_of(fen.as_str());
        let parts = split_fields(&text);
        let ghost f = fields(fen@);
        assert(f == field_views(parts@));
        if parts.len() != 6 {
            return Err(FenError::FieldCount);
        }
        assert(f[0] == parts[0]@ && f[1] == parts[1]@ && f[2] == parts[2]@ && f[3] == parts[3]@
            && f[4] == parts[4]@ && f[5] == parts[5]@);
        let mut game = Game::new(move_data, hashes);
        game.hash = 0;
        if !game.read_placement(&parts[0]) {
            return Err(FenError::Placement);
        }
        let side = match read_side(&parts[1]) {
            Some(side) => side,
            None => {
                return Err(FenError::Side);
            },
        };
        let rights = match read_rights(&parts[2]) {
            Some(rights) => rights,
            None => {
                return Err(FenError::CastleRights);
            },
        };
        let en_passant = match read_en_passant(&parts[3]) {
            Some(en_passant) => en_passant,
            None => {
                return Err(FenError::EnPassant);
            },
        };
        let halfmove = match read_number(&parts[4], 255) {
            Some(halfmove) => halfmove,
            None => {
                return Err(FenError::HalfmoveClock);
            },
        };
        let fullmove = match read_number(&parts[5], 65535) {
            Some(fullmove) => fullmove,
            None => {
                return Err(FenError::FullmoveNumber);
            },
        };
        let ghost pieces = game.hash;
        if side == Color::BLACK {
            game.hash ^= hashes.side;
        }
        game.side = side;
        game.castle_rights = rights;
        game.hash ^= hashes.castle_rights[rights as usize];
        if let Some(square) = en_passant {
            game.hash ^= hashes.en_passant_file[(square % 8) as usize];
        }
        game.en_passant = en_passant;
        game.halfmove_timer = halfmove as u8;
        game.fullmove_number = fullmove as u16;
        proof {
            let keys = hashes@;
            lemma_xor_laws(pieces, 0, 0);
            lemma_xor_laws(pieces ^ side_key(keys, side) ^ keys.castle_rights[rights as int], 0, 0);
            assert(game.hash == pieces ^ side_key(keys, side) ^ keys.castle_rights[rights as int]
                ^ en_passant_key(keys, en_passant));
        }
        Ok(game)
    }
}

} // verus!
