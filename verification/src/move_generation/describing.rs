//! A game as text, and moves played from their text.

use super::Game;
use crate::common::{Color, Pieces};
use crate::generation::views;
use crate::move_encoding::EncodedMove;
use crate::notation::{
    chars_of, move_error_text, pick, read_move, read_move_text, MoveTextError,
};
use crate::position::{Content, Position};
use crate::tables::MoveTables;
use crate::text::{board_text, digits, push_board, push_number, push_str, string_of};
use vstd::prelude::*;

verus! {

/// The letter of what stands on a square: the initial of the piece, `N`
/// for a knight, capital for white and small for black; a dash for an
/// empty square.
pub open spec fn content_letter(content: Content) -> char {
    match content {
        Some((Color::WHITE, Pieces::KING)) => 'K',
        Some((Color::WHITE, Pieces::PAWN)) => 'P',
        Some((Color::WHITE, Pieces::KNIGHT)) => 'N',
        Some((Color::WHITE, Pieces::BISHOP)) => 'B',
        Some((Color::WHITE, Pieces::ROOK)) => 'R',
        Some((Color::WHITE, Pieces::QUEEN)) => 'Q',
        Some((Color::BLACK, Pieces::KING)) => 'k',
        Some((Color::BLACK, Pieces::PAWN)) => 'p',
        Some((Color::BLACK, Pieces::KNIGHT)) => 'n',
        Some((Color::BLACK, Pieces::BISHOP)) => 'b',
        Some((Color::BLACK, Pieces::ROOK)) => 'r',
        Some((Color::BLACK, Pieces::QUEEN)) => 'q',
        None => '-',
    }
}

/// The grid of the pieces on the first `n` squares: a line break before
/// every rank, and the letter of every square.
pub open spec fn piece_grid(squares: Seq<Content>, n: nat) -> Seq<char>
    decreases n,
{
    if n == 0 {
        Seq::empty()
    } else {
        let line = if (n - 1) % 8 == 0 {
            piece_grid(squares, (n - 1) as nat).push('\n')
        } else {
            piece_grid(squares, (n - 1) as nat)
        };
        line.push(content_letter(squares[n - 1]))
    }
}

/// The letter of a side: `w` or `b`.
pub open spec fn side_letter(side: Color) -> char {
    match side {
        Color::WHITE => 'w',
        Color::BLACK => 'b',
    }
}

/// A position as text: the three occupancies as boards, the grid of the
/// pieces, the side to move and the castle rights in binary.
pub open spec fn position_text(p: Position) -> Seq<char> {
    seq!['\n'] + "white occupancy: "@ + board_text(p.layout().occupancies[0])
        + " \nblack occupancy: "@ + board_text(p.layout().occupancies[1]) + " \nboth_occupancy: "@
        + board_text(p.layout().occupancies[2]) + piece_grid(p.squares, 64) + seq!['\n']
        + "side: "@ + seq![side_letter(p.side)] + ", castle rights: "@ + digits(
        p.castle_rights as int,
        2,
    )
}

/// The position after the move that `text` asks for: the first generated
/// move with the source, target and promotion asked for, if the position
/// accepts it; the position itself if the text asks for nothing, if no
/// generated move is asked for, or if the side to move has no king.
pub open spec fn play_text(p: Position, t: MoveTables, text: Seq<char>) -> Position {
    match read_move_text(text) {
        Ok(Some((source, target, promoted))) => if p.has_king() {
            match pick(p.moves(t), source, target, promoted) {
                Some(m) => if p.accepts(m) {
                    p.make(m)
                } else {
                    p
                },
                None => p,
            }
        } else {
            p
        },
        _ => p,
    }
}

/// The position after the moves that the first `n` of `texts` ask for.
pub open spec fn played(p: Position, t: MoveTables, texts: Seq<Seq<char>>, n: nat) -> Position
    decreases n,
{
    if n == 0 {
        p
    } else {
        play_text(played(p, t, texts, (n - 1) as nat), t, texts[n - 1])
    }
}

/// The views of a list of strings.
pub open spec fn string_views(strings: Seq<String>) -> Seq<Seq<char>> {
    Seq::new(strings.len(), |i: int| strings[i]@)
}

impl Game {
    fn letter_at(&self, square: u8) -> (c: char)
        requires
            self.valid(),
            square < 64,
        ensures
            c == content_letter(self@.squares[square as int]),
    {
        match self.piece_at(square) {
            Some((Color::WHITE, Pieces::KING)) => 'K',
            Some((Color::WHITE, Pieces::PAWN)) => 'P',
            Some((Color::WHITE, Pieces::KNIGHT)) => 'N',
            Some((Color::WHITE, Pieces::BISHOP)) => 'B',
            Some((Color::WHITE, Pieces::ROOK)) => 'R',
            Some((Color::WHITE, Pieces::QUEEN)) => 'Q',
            Some((Color::BLACK, Pieces::KING)) => 'k',
            Some((Color::BLACK, Pieces::PAWN)) => 'p',
            Some((Color::BLACK, Pieces::KNIGHT)) => 'n',
            Some((Color::BLACK, Pieces::BISHOP)) => 'b',
            Some((Color::BLACK, Pieces::ROOK)) => 'r',
            Some((Color::BLACK, Pieces::QUEEN)) => 'q',
            None => '-',
        }
    }

    /// The game as text.
    pub fn to_string(&self) -> (s: String)
        requires
            self.valid(),
        ensures
            s@ == position_text(self@),
    {
        proof {
            self.lemma_layout_of_view();
            self.lemma_boards();
        }
        let ghost p = self@;
        assert(self.occupancies.len() == 3);
        assert(self.layout().occupancies[0] == self.occupancies[0].0);
        assert(self.layout().occupancies[1] == self.occupancies[1].0);
        assert(self.layout().occupancies[2] == self.occupancies[2].0);
        let mut text: Vec<char> = Vec::new();
        text.push('\n');
        push_str(&mut text, "white occupancy: ");
        push_board(&mut text, &self.occupancies[0]);
        push_str(&mut text, " \nblack occupancy: ");
        push_board(&mut text, &self.occupancies[1]);
        push_str(&mut text, " \nboth_occupancy: ");
        push_board(&mut text, &self.occupancies[2]);
        let ghost start = text@;
        assert(start =~= seq!['\n'] + "white occupancy: "@ + board_text(p.layout().occupancies[0])
            + " \nblack occupancy: "@ + board_text(p.layout().occupancies[1])
            + " \nboth_occupancy: "@ + board_text(p.layout().occupancies[2]));
        let mut square: u8 = 0;
        assert(text@ =~= start + piece_grid(p.squares, 0));
        while square < 64
            invariant
                square <= 64,
                self.valid(),
                p == self@,
                text@ == start + piece_grid(p.squares, square as nat),
            decreases 64 - square,
        {
            if square % 8 == 0 {
                text.push('\n');
            }
            text.push(self.letter_at(square));
            square += 1;
            assert(text@ =~= start + piece_grid(p.squares, square as nat));
        }
        text.push('\n');
        push_str(&mut text, "side: ");
        text.push(
            match self.side {
                Color::WHITE => 'w',
                Color::BLACK => 'b',
            },
        );
        push_str(&mut text, ", castle rights: ");
        push_number(&mut text, self.castle_rights as u64, 2);
        assert(text@ =~= position_text(p));
        string_of(&text)
    }

    /// Plays the move that `text` asks for, if a generated move is asked
    /// for and the position accepts it.
    fn play(&mut self, source: u8, target: u8, promoted: Option<Pieces>)
        requires
            old(self).valid(),
            source < 64,
            target < 64,
        ensures
            final(self).valid(),
            final(self).tables() == old(self).tables(),
            final(self).keys() == old(self).keys(),
            final(self)@ == if old(self)@.has_king() {
                match pick(old(self)@.moves(old(self).tables()), source, target, promoted) {
                    Some(m) => if old(self)@.accepts(m) {
                        old(self)@.make(m)
                    } else {
                        old(self)@
                    },
                    None => old(self)@,
                }
            } else {
                old(self)@
            },
    {
        proof {
            self.lemma_layout_of_view();
        }
        if !self.king_present() {
            return ;
        }
        let ghost p = self@;
        let ghost t = self.tables();
        let mut move_options: Vec<EncodedMove> = Vec::new();
        self.generate_moves(&mut move_options);
        let ghost all = views(move_options@);
        assert(all =~= p.moves(t));
        let mut i: usize = 0;
        assert(all.subrange(0, all.len() as int) =~= all);
        while i < move_options.len()
            invariant
                i <= move_options.len(),
                self.valid(),
                self@ == p,
                p == old(self)@,
                p.has_king(),
                all == p.moves(t),
                self.tables() == t,
                t == old(self).tables(),
                self.keys() == old(self).keys(),
                all == views(move_options@),
                pick(all, source, target, promoted) == pick(
                    all.subrange(i as int, all.len() as int),
                    source,
                    target,
                    promoted,
                ),
            decreases move_options.len() - i,
        {
            let move_option = move_options[i];
            let ghost rest = all.subrange(i as int, all.len() as int);
            assert(rest[0] == move_option@);
            assert(rest.drop_first() =~= all.subrange(i + 1, all.len() as int));
            if move_option.source_square() == source && move_option.target_square() == target
                && same_piece(move_option.promoted_piece(), promoted) {
                proof {
                    self.lemma_boards();
                    assert(pick(rest, source, target, promoted) == Some(move_option@));
                }
                if self.accepts_move(&move_option) {
                    self.make_move(&move_option);
                }
                return ;
            }
            i += 1;
        }
    }

    /// Plays the moves that the texts of `moves` ask for, in their order,
    /// up to the first text that is malformed; the message says what is
    /// wrong with that text.
    pub fn parse_moves(&mut self, moves: Vec<String>) -> (r: Result<(), String>)
        requires
            old(self).valid(),
        ensures
            final(self).valid(),
            final(self).tables() == old(self).tables(),
            final(self).keys() == old(self).keys(),
            match r {
                Ok(()) => {
                    &&& forall|k: int|
                        0 <= k < moves.len() ==> read_move_text(#[trigger] moves[k]@) is Ok
                    &&& final(self)@ == played(
                        old(self)@,
                        old(self).tables(),
                        string_views(moves@),
                        moves.len() as nat,
                    )
                },
                Err(message) => exists|k: int|
                    #![trigger moves[k]]
                    {
                        &&& 0 <= k < moves.len()
                        &&& forall|j: int| 0 <= j < k ==> read_move_text(#[trigger] moves[j]@) is Ok
                        &&& read_move_text(moves[k]@) matches Err(error) && message@
                            == move_error_text(error, moves[k]@)
                        &&& final(self)@ == played(
                            old(self)@,
                            old(self).tables(),
                            string_views(moves@),
                            k as nat,
                        )
                    },
            },
    {
        let ghost p0 = self@;
        let ghost t = self.tables();
        let ghost texts = string_views(moves@);
        let mut i: usize = 0;
        while i < moves.len()
            invariant
                i <= moves.len(),
                self.valid(),
                self.tables() == t,
                t == old(self).tables(),
                p0 == old(self)@,
                self.keys() == old(self).keys(),
                texts == string_views(moves@),
                forall|j: int| 0 <= j < i ==> read_move_text(#[trigger] moves[j]@) is Ok,
                self@ == played(p0, t, texts, i as nat),
            decreases moves.len() - i,
        {
            let text = chars_of(moves[i].as_str());
            assert(texts[i as int] == text@);
            match read_move(&text) {
                Err(error) => {
                    let message = error_message(error, &text);
                    return Err(message);
                },
                Ok(None) => {},
                Ok(Some((source, target, promoted))) => {
                    self.play(source, target, promoted);
                },
            }
            i += 1;
        }
        Ok(())
    }
}

/// The message for a move that was rejected.
fn error_message(error: MoveTextError, text: &Vec<char>) -> (r: String)
    ensures
        r@ == move_error_text(error, text@),
{
    let mut message: Vec<char> = Vec::new();
    match error {
        MoveTextError::WrongSize => {
            push_str(&mut message, "move is wrong size: ");
        },
        MoveTextError::Malformed => {
            push_str(&mut message, "move is malformed: ");
        },
    }
    let mut n: usize = 0;
    let ghost head = message@;
    assert(message@ =~= head + text@.subrange(0, 0));
    while n < text.len()
        invariant
            n <= text.len(),
            message@ == head + text@.subrange(0, n as int),
        decreases text.len() - n,
    {
        message.push(text[n]);
        n += 1;
        assert(message@ =~= head + text@.subrange(0, n as int));
    }
    assert(text@.subrange(0, text.len() as int) =~= text@);
    assert(message@ =~= move_error_text(error, text@));
    string_of(&message)
}

/// Whether two optional kinds of piece are the same.
fn same_piece(a: Option<Pieces>, b: Option<Pieces>) -> (r: bool)
    ensures
        r == (a == b),
{
    match (a, b) {
        (Some(x), Some(y)) => x == y,
        (None, None) => true,
        _ => false,
    }
}

} // verus!
