//! The game: a position held as bitboards with its history, made and unmade
//! move by move.

use crate::bits::{bit, group_bits, lemma_bits_equal};
use crate::common::{AllMoveData, BitBoard, Color, Constants, Pieces, ZobristHashes};
pub use crate::generation::GameState;
pub use crate::move_encoding::{EncodedMove, Move};
use crate::position::{
    chain_ok, corner_right, rook_squares, square_key, Content, Position, Undo,
};
use crate::generation::Layout;
use crate::tables::{word_rows, words, Keys, MoveTables};
use vstd::prelude::*;



mod building;
pub mod describing;
mod fen;
mod generating;
mod making;

verus! {

/// What is kept of a move that was made, to unmake it.
pub struct HistoryEntry {
    move_made: EncodedMove,
    en_passant: Option<u8>,
    castle_rights: u8,
    halfmove_timer: u8,
    fullmove_number: u16,
    capture_square: u8,
    rook_movement: (u8, u8),
    hash: u64,
}

impl View for HistoryEntry {
    type V = Undo;

    closed spec fn view(&self) -> Undo {
        Undo {
            move_made: self.move_made@,
            en_passant: self.en_passant,
            castle_rights: self.castle_rights,
            halfmove: self.halfmove_timer,
            fullmove: self.fullmove_number,
            capture_square: self.capture_square,
            rook_movement: self.rook_movement,
            hash: self.hash,
        }
    }
}

/// A game of chess: the piece bitboards by colour and kind, the occupancy
/// of white, of black and of both, the scalars of the position, its hash,
/// the moves made so far, and the tables and keys that it works with.
pub struct Game {
    pub piece_positions: Vec<Vec<BitBoard>>,
    pub occupancies: Vec<BitBoard>,
    pub side: Color,
    en_passant: Option<u8>,
    castle_rights: u8,
    halfmove_timer: u8,
    fullmove_number: u16,
    history: Vec<HistoryEntry>,
    move_data: AllMoveData,
    hashes: ZobristHashes,
    hash: u64,
}

/// What stands on `square`, given the twelve boards: the first kind, white
/// before black and in the order of the kinds' codes, whose board has the
/// square.
pub open spec fn content_of(boards: Seq<Vec<BitBoard>>, square: u8) -> Content {
    if boards[0][0].has(square) {
        Some((Color::WHITE, Pieces::KING))
    } else if boards[0][1].has(square) {
        Some((Color::WHITE, Pieces::PAWN))
    } else if boards[0][2].has(square) {
        Some((Color::WHITE, Pieces::KNIGHT))
    } else if boards[0][3].has(square) {
        Some((Color::WHITE, Pieces::BISHOP))
    } else if boards[0][4].has(square) {
        Some((Color::WHITE, Pieces::ROOK))
    } else if boards[0][5].has(square) {
        Some((Color::WHITE, Pieces::QUEEN))
    } else if boards[1][0].has(square) {
        Some((Color::BLACK, Pieces::KING))
    } else if boards[1][1].has(square) {
        Some((Color::BLACK, Pieces::PAWN))
    } else if boards[1][2].has(square) {
        Some((Color::BLACK, Pieces::KNIGHT))
    } else if boards[1][3].has(square) {
        Some((Color::BLACK, Pieces::BISHOP))
    } else if boards[1][4].has(square) {
        Some((Color::BLACK, Pieces::ROOK))
    } else if boards[1][5].has(square) {
        Some((Color::BLACK, Pieces::QUEEN))
    } else {
        None
    }
}

/// Whether the piece boards and the three occupancies describe one
/// placement of pieces: two rows of six boards, no square on two boards,
/// and each occupancy the set of squares that hold a piece of its colour,
/// the third of either colour.
pub open spec fn boards_agree(boards: Seq<Vec<BitBoard>>, occupancies: Seq<BitBoard>) -> bool {
    &&& boards.len() == 2
    &&& boards[0].len() == 6
    &&& boards[1].len() == 6
    &&& occupancies.len() == 3
    &&& forall|c: Color, k: Pieces, sq: u8|
        sq < 64 && #[trigger] boards[c.code()][k.code()].has(sq) ==> content_of(boards, sq) == Some(
            (c, k),
        )
    &&& forall|sq: u8|
        sq < 64 ==> #[trigger] occupancies[0].has(sq) == (content_of(boards, sq) matches Some(
            (Color::WHITE, _),
        ))
    &&& forall|sq: u8|
        sq < 64 ==> #[trigger] occupancies[1].has(sq) == (content_of(boards, sq) matches Some(
            (Color::BLACK, _),
        ))
    &&& forall|sq: u8| sq < 64 ==> #[trigger] occupancies[2].has(sq) == (content_of(boards, sq) is Some)
}

/// The views of a history, oldest first.
pub open spec fn undo_views(history: Seq<HistoryEntry>) -> Seq<Undo> {
    Seq::new(history.len(), |i: int| history[i]@)
}

impl View for Game {
    type V = Position;

    closed spec fn view(&self) -> Position {
        Position {
            squares: Seq::new(64, |i: int| content_of(self.piece_positions@, i as u8)),
            side: self.side,
            castle_rights: self.castle_rights,
            en_passant: self.en_passant,
            halfmove: self.halfmove_timer,
            fullmove: self.fullmove_number,
        }
    }
}

impl Game {
    /// The moves made so far, oldest first, each as what unmaking it needs.
    pub closed spec fn history_view(&self) -> Seq<Undo> {
        undo_views(self.history@)
    }

    /// The tables that this game generates moves with.
    pub closed spec fn tables(&self) -> MoveTables {
        self.move_data@
    }

    /// The keys that this game hashes with.
    pub closed spec fn keys(&self) -> Keys {
        self.hashes@
    }

    /// The hash that this game holds.
    pub closed spec fn hash_value(&self) -> u64 {
        self.hash
    }

    /// The piece boards that this game holds, by colour and kind.
    pub closed spec fn piece_boards(&self) -> Seq<Vec<BitBoard>> {
        self.piece_positions@
    }

    /// The occupancies that this game holds: of white, of black, of both.
    pub closed spec fn occupancy_boards(&self) -> Seq<BitBoard> {
        self.occupancies@
    }

    /// What the generator reads of this game.
    pub closed spec fn layout(&self) -> Layout {
        Layout {
            pieces: word_rows(self.piece_positions@),
            occupancies: words(self.occupancies@),
            side: self.side,
            en_passant: self.en_passant,
            castle_rights: self.castle_rights,
            halfmove: self.halfmove_timer,
        }
    }

    /// The boards and occupancies describe one placement of pieces, and the
    /// keys have their shape.
    pub closed spec fn placed(&self) -> bool {
        &&& boards_agree(self.piece_positions@, self.occupancies@)
        &&& self.hashes@.wf()
    }

    /// The invariant of a game: the boards and occupancies describe one
    /// placement of pieces; the scalars, tables and keys are well formed;
    /// the hash is the Zobrist hash of the position; and every move of the
    /// history was accepted by the position before it and led to the
    /// position after it.
    pub closed spec fn valid(&self) -> bool {
        &&& self.placed()
        &&& self@.wf()
        &&& self.move_data@.wf()
        &&& self.hash == self@.hash(self.hashes@)
        &&& chain_ok(self@, self.history_view(), self.hashes@)
    }

    /// In a valid game the public boards say what the position says: a
    /// board has a square exactly when a piece of its colour and kind
    /// stands there, no two boards share a square, and the occupancies are
    /// the unions of the boards.
    pub proof fn lemma_boards(&self)
        requires
            self.valid(),
        ensures
            boards_agree(self.piece_boards(), self.occupancy_boards()),
            self@.squares.len() == 64,
            forall|sq: u8|
                sq < 64 ==> #[trigger] self@.squares[sq as int] == content_of(
                    self.piece_boards(),
                    sq,
                ),
            self.occupancy_boards()[0].0 & self.occupancy_boards()[1].0 == 0,
            self.occupancy_boards()[2].0 == self.occupancy_boards()[0].0
                | self.occupancy_boards()[1].0,
            forall|c: int|
                0 <= c < 2 ==> (#[trigger] self.occupancy_boards()[c]).0 == self.piece_boards()[c][0].0
                    | self.piece_boards()[c][1].0 | self.piece_boards()[c][2].0
                    | self.piece_boards()[c][3].0 | self.piece_boards()[c][4].0
                    | self.piece_boards()[c][5].0,
            self.hash_value() == self@.hash(self.keys()),
            self@.wf(),
            self.tables().wf(),
            self.keys().wf(),
    {
        broadcast use group_bits;

        let b = self.piece_positions@;
        let o = self.occupancies@;
        assert forall|sq: u8| sq < 64 implies bit(o[0].0 & o[1].0, sq) == bit(0u64, sq) by {
            assert(o[0].has(sq) == (content_of(b, sq) matches Some((Color::WHITE, _))));
            assert(o[1].has(sq) == (content_of(b, sq) matches Some((Color::BLACK, _))));
        }
        lemma_bits_equal(o[0].0 & o[1].0, 0);
        assert forall|sq: u8| sq < 64 implies bit(o[2].0, sq) == bit(o[0].0 | o[1].0, sq) by {
            assert(o[0].has(sq) == (content_of(b, sq) matches Some((Color::WHITE, _))));
            assert(o[1].has(sq) == (content_of(b, sq) matches Some((Color::BLACK, _))));
            assert(o[2].has(sq) == (content_of(b, sq) is Some));
        }
        lemma_bits_equal(o[2].0, o[0].0 | o[1].0);
        assert forall|c: int| 0 <= c < 2 implies (#[trigger] self.occupancy_boards()[c]).0 == b[c][0].0
            | b[c][1].0 | b[c][2].0 | b[c][3].0 | b[c][4].0 | b[c][5].0 by {
            let union = b[c][0].0 | b[c][1].0 | b[c][2].0 | b[c][3].0 | b[c][4].0 | b[c][5].0;
            let color = if c == 0 {
                Color::WHITE
            } else {
                Color::BLACK
            };
            assert forall|sq: u8| sq < 64 implies bit(o[c].0, sq) == bit(union, sq) by {
                assert(o[c].has(sq) == (content_of(b, sq) matches Some((x, _)) && x == color));
                assert(b[color.code()][Pieces::KING.code()].has(sq) ==> content_of(b, sq) == Some(
                    (color, Pieces::KING),
                ));
                assert(b[color.code()][Pieces::PAWN.code()].has(sq) ==> content_of(b, sq) == Some(
                    (color, Pieces::PAWN),
                ));
                assert(b[color.code()][Pieces::KNIGHT.code()].has(sq) ==> content_of(b, sq)
                    == Some((color, Pieces::KNIGHT)));
                assert(b[color.code()][Pieces::BISHOP.code()].has(sq) ==> content_of(b, sq)
                    == Some((color, Pieces::BISHOP)));
                assert(b[color.code()][Pieces::ROOK.code()].has(sq) ==> content_of(b, sq) == Some(
                    (color, Pieces::ROOK),
                ));
                assert(b[color.code()][Pieces::QUEEN.code()].has(sq) ==> content_of(b, sq) == Some(
                    (color, Pieces::QUEEN),
                ));
            }
            lemma_bits_equal(o[c].0, union);
        }
    }

    fn toggle_piece_hash(&mut self, color: Color, piece: Pieces, square: u8)
        requires
            old(self).hashes@.wf(),
            square < 64,
        ensures
            final(self).hash == old(self).hash ^ old(self).hashes@.pieces[color.code() * 6
                + piece.code()][square as int],
            final(self).piece_positions == old(self).piece_positions,
            final(self).occupancies == old(self).occupancies,
            final(self).side == old(self).side,
            final(self).en_passant == old(self).en_passant,
            final(self).castle_rights == old(self).castle_rights,
            final(self).halfmove_timer == old(self).halfmove_timer,
            final(self).fullmove_number == old(self).fullmove_number,
            final(self).history == old(self).history,
            final(self).move_data == old(self).move_data,
            final(self).hashes == old(self).hashes,
    {
        let row = color as usize * 6 + piece as usize;
        assert(self.hashes@.pieces[row as int].len() == 64);
        self.hash ^= self.hashes.pieces[row][square as usize];
    }

    /// Takes the piece of `color` and `piece` off `square`: off its board
    /// and off the occupancies, and out of the hash.
    fn remove_piece(&mut self, color: Color, piece: Pieces, square: u8)
        requires
            old(self).placed(),
            square < 64,
            old(self)@.squares[square as int] == Some((color, piece)),
        ensures
            final(self).placed(),
            final(self)@.squares == old(self)@.squares.update(square as int, None),
            final(self).hash == old(self).hash ^ square_key(
                old(self).hashes@,
                Some((color, piece)),
                square as int,
            ),
            final(self).side == old(self).side,
            final(self).en_passant == old(self).en_passant,
            final(self).castle_rights == old(self).castle_rights,
            final(self).halfmove_timer == old(self).halfmove_timer,
            final(self).fullmove_number == old(self).fullmove_number,
            final(self).history == old(self).history,
            final(self).move_data == old(self).move_data,
            final(self).hashes == old(self).hashes,
    {
        broadcast use group_bits;

        let ghost before = self.piece_positions@;
        assert(content_of(before, square) == Some((color, piece)));
        self.piece_positions[color as usize][piece as usize].pop_bit(square);
        self.occupancies[color as usize].pop_bit(square);
        self.occupancies[Constants::BOTH_OCCUPANCIES].pop_bit(square);
        self.toggle_piece_hash(color, piece, square);
        proof {
            let after = self.piece_positions@;
            assert forall|c: Color, k: Pieces, sq: u8| sq < 64 implies #[trigger] after[c.code(
            )][k.code()].has(sq) == (before[c.code()][k.code()].has(sq) && sq != square) by {
                if before[c.code()][k.code()].has(sq) && sq == square {
                    assert(content_of(before, sq) == Some((c, k)));
                }
            }
            assert forall|sq: u8| sq < 64 implies #[trigger] content_of(after, sq) == if sq
                == square {
                None
            } else {
                content_of(before, sq)
            } by {
                Self::lemma_content_by_boards(before, after, sq);
            }
            let occ0 = old(self).occupancies@;
            let occ1 = self.occupancies@;
            assert forall|c: Color, k: Pieces, sq: u8|
                sq < 64 && #[trigger] after[c.code()][k.code()].has(sq) implies content_of(
                after,
                sq,
            ) == Some((c, k)) by {
                assert(before[c.code()][k.code()].has(sq));
            }
            assert forall|sq: u8| sq < 64 implies #[trigger] occ1[0].has(sq) == (content_of(
                after,
                sq,
            ) matches Some((Color::WHITE, _))) by {
                assert(occ0[0].has(sq) == (content_of(before, sq) matches Some(
                    (Color::WHITE, _),
                )));
            }
            assert forall|sq: u8| sq < 64 implies #[trigger] occ1[1].has(sq) == (content_of(
                after,
                sq,
            ) matches Some((Color::BLACK, _))) by {
                assert(occ0[1].has(sq) == (content_of(before, sq) matches Some(
                    (Color::BLACK, _),
                )));
            }
            assert forall|sq: u8| sq < 64 implies #[trigger] occ1[2].has(sq) == (content_of(
                after,
                sq,
            ) is Some) by {
                assert(occ0[2].has(sq) == (content_of(before, sq) is Some));
            }
            assert(boards_agree(after, occ1));
            assert(self@.squares =~= old(self)@.squares.update(square as int, None));
        }
    }

    /// Puts a piece of `color` and `piece` on the empty `square`: on its
    /// board and on the occupancies, and into the hash.
    fn place_piece(&mut self, color: Color, piece: Pieces, square: u8)
        requires
            old(self).placed(),
            square < 64,
            old(self)@.squares[square as int] is None,
        ensures
            final(self).placed(),
            final(self)@.squares == old(self)@.squares.update(
                square as int,
                Some((color, piece)),
            ),
            final(self).hash == old(self).hash ^ square_key(
                old(self).hashes@,
                Some((color, piece)),
                square as int,
            ),
            final(self).side == old(self).side,
            final(self).en_passant == old(self).en_passant,
            final(self).castle_rights == old(self).castle_rights,
            final(self).halfmove_timer == old(self).halfmove_timer,
            final(self).fullmove_number == old(self).fullmove_number,
            final(self).history == old(self).history,
            final(self).move_data == old(self).move_data,
            final(self).hashes == old(self).hashes,
    {
        broadcast use group_bits;

        let ghost before = self.piece_positions@;
        assert(content_of(before, square) is None);
        self.piece_positions[color as usize][piece as usize].set_bit(square);
        self.occupancies[color as usize].set_bit(square);
        self.occupancies[Constants::BOTH_OCCUPANCIES].set_bit(square);
        self.toggle_piece_hash(color, piece, square);
        proof {
            let after = self.piece_positions@;
            assert forall|c: Color, k: Pieces, sq: u8| sq < 64 implies #[trigger] after[c.code(
            )][k.code()].has(sq) == (before[c.code()][k.code()].has(sq) || (sq == square && c
                == color && k == piece)) by {}
            assert forall|sq: u8| sq < 64 implies #[trigger] content_of(after, sq) == if sq
                == square {
                Some((color, piece))
            } else {
                content_of(before, sq)
            } by {
                Self::lemma_content_by_boards(before, after, sq);
                if sq == square {
                    assert(after[color.code()][piece.code()].has(sq));
                }
            }
            let occ0 = old(self).occupancies@;
            let occ1 = self.occupancies@;
            assert forall|c: Color, k: Pieces, sq: u8|
                sq < 64 && #[trigger] after[c.code()][k.code()].has(sq) implies content_of(
                after,
                sq,
            ) == Some((c, k)) by {
                if sq != square {
                    assert(before[c.code()][k.code()].has(sq));
                }
            }
            assert forall|sq: u8| sq < 64 implies #[trigger] occ1[0].has(sq) == (content_of(
                after,
                sq,
            ) matches Some((Color::WHITE, _))) by {
                assert(occ0[0].has(sq) == (content_of(before, sq) matches Some(
                    (Color::WHITE, _),
                )));
            }
            assert forall|sq: u8| sq < 64 implies #[trigger] occ1[1].has(sq) == (content_of(
                after,
                sq,
            ) matches Some((Color::BLACK, _))) by {
                assert(occ0[1].has(sq) == (content_of(before, sq) matches Some(
                    (Color::BLACK, _),
                )));
            }
            assert forall|sq: u8| sq < 64 implies #[trigger] occ1[2].has(sq) == (content_of(
                after,
                sq,
            ) is Some) by {
                assert(occ0[2].has(sq) == (content_of(before, sq) is Some));
            }
            assert(boards_agree(after, occ1));
            assert(self@.squares =~= old(self)@.squares.update(
                square as int,
                Some((color, piece)),
            ));
        }
    }

    /// What stands on a square depends on the twelve boards only through
    /// which of them have the square.
    proof fn lemma_content_by_boards(before: Seq<Vec<BitBoard>>, after: Seq<Vec<BitBoard>>, sq: u8)
        ensures
            (forall|c: Color, k: Pieces|
                #![trigger after[c.code()][k.code()]]
                after[c.code()][k.code()].has(sq) == before[c.code()][k.code()].has(sq))
                ==> content_of(after, sq) == content_of(before, sq),
            (forall|c: Color, k: Pieces|
                #![trigger after[c.code()][k.code()]]
                !after[c.code()][k.code()].has(sq)) ==> content_of(after, sq) is None,
            forall|color: Color, piece: Pieces|
                (forall|c: Color, k: Pieces|
                    #![trigger after[c.code()][k.code()]]
                    after[c.code()][k.code()].has(sq) == (c == color && k == piece))
                    ==> content_of(after, sq) == Some((color, piece)),
    {
        let w = Color::WHITE;
        let b = Color::BLACK;
        assert(after[w.code()][Pieces::KING.code()] == after[0][0]);
        assert(after[w.code()][Pieces::PAWN.code()] == after[0][1]);
        assert(after[w.code()][Pieces::KNIGHT.code()] == after[0][2]);
        assert(after[w.code()][Pieces::BISHOP.code()] == after[0][3]);
        assert(after[w.code()][Pieces::ROOK.code()] == after[0][4]);
        assert(after[w.code()][Pieces::QUEEN.code()] == after[0][5]);
        assert(after[b.code()][Pieces::KING.code()] == after[1][0]);
        assert(after[b.code()][Pieces::PAWN.code()] == after[1][1]);
        assert(after[b.code()][Pieces::KNIGHT.code()] == after[1][2]);
        assert(after[b.code()][Pieces::BISHOP.code()] == after[1][3]);
        assert(after[b.code()][Pieces::ROOK.code()] == after[1][4]);
        assert(after[b.code()][Pieces::QUEEN.code()] == after[1][5]);
    }

    fn rook_movement(king_target_square: u8) -> (r: (u8, u8))
        ensures
            r == rook_squares(king_target_square),
            r.0 < 64,
            r.1 < 64,
    {
        if king_target_square == 62 {
            (63, 61)
        } else if king_target_square == 58 {
            (56, 59)
        } else if king_target_square == 6 {
            (7, 5)
        } else {
            (0, 3)
        }
    }

    fn corner_right_of(square: u8) -> (r: u8)
        ensures
            r == corner_right(square),
    {
        if square == 0 {
            0b1000
        } else if square == 7 {
            0b100
        } else if square == 56 {
            0b10
        } else if square == 63 {
            0b1
        } else {
            0
        }
    }
}

} // verus!
