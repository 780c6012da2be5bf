//! Boards, numbers and moves as text.

use crate::common::{BitBoard, Pieces};
use crate::move_encoding::{EncodedMove, Move};
use vstd::prelude::*;

verus! {

/// The string of the characters of `chars`, in their order
/// (`String::from_iter` of std, by way of `collect`).
#[verifier::external_body]
pub(crate) fn string_of(chars: &Vec<char>) -> (s: String)
    ensures
        s@ == chars@,
{
    chars.iter().collect()
}

/// The digit of `d` in a base of at most 16: `0` to `9`, then `a` to `f`.
pub open spec fn digit_char(d: int) -> char {
    if d == 0 {
        '0'
    } else if d == 1 {
        '1'
    } else if d == 2 {
        '2'
    } else if d == 3 {
        '3'
    } else if d == 4 {
        '4'
    } else if d == 5 {
        '5'
    } else if d == 6 {
        '6'
    } else if d == 7 {
        '7'
    } else if d == 8 {
        '8'
    } else if d == 9 {
        '9'
    } else if d == 10 {
        'a'
    } else if d == 11 {
        'b'
    } else if d == 12 {
        'c'
    } else if d == 13 {
        'd'
    } else if d == 14 {
        'e'
    } else {
        'f'
    }
}

/// The digits of `x` in base `base`, the most significant first, without
/// leading zeros; one zero for 0.
pub open spec fn digits(x: int, base: int) -> Seq<char>
    decreases x,
{
    if base < 2 || x < base {
        seq![digit_char(x)]
    } else {
        proof {
            assert(0 <= x / base < x) by (nonlinear_arith)
                requires
                    base >= 2,
                    x >= base,
            ;
        }
        digits(x / base, base).push(digit_char(x % base))
    }
}

fn digit_of(d: u64) -> (c: char)
    requires
        d < 16,
    ensures
        c == digit_char(d as int),
{
    if d == 0 {
        '0'
    } else if d == 1 {
        '1'
    } else if d == 2 {
        '2'
    } else if d == 3 {
        '3'
    } else if d == 4 {
        '4'
    } else if d == 5 {
        '5'
    } else if d == 6 {
        '6'
    } else if d == 7 {
        '7'
    } else if d == 8 {
        '8'
    } else if d == 9 {
        '9'
    } else if d == 10 {
        'a'
    } else if d == 11 {
        'b'
    } else if d == 12 {
        'c'
    } else if d == 13 {
        'd'
    } else if d == 14 {
        'e'
    } else {
        'f'
    }
}

/// Appends the digits of `x` in base `base` to `text`.
pub fn push_number(text: &mut Vec<char>, x: u64, base: u64)
    requires
        2 <= base <= 16,
    ensures
        final(text)@ == old(text)@ + digits(x as int, base as int),
    decreases x,
{
    if x < base {
        text.push(digit_of(x));
        assert(text@ =~= old(text)@ + digits(x as int, base as int));
    } else {
        proof {
            assert(0 <= x / base < x) by (nonlinear_arith)
                requires
                    base >= 2,
                    x >= base,
            ;
        }
        push_number(text, x / base, base);
        text.push(digit_of(x % base));
        assert(text@ =~= old(text)@ + digits(x as int, base as int));
    }
}

/// Appends the characters of a string to `text`.
pub fn push_str(text: &mut Vec<char>, s: &str)
    ensures
        final(text)@ == old(text)@ + s@,
{
    let n = s.unicode_len();
    let mut i: usize = 0;
    assert(text@ =~= old(text)@ + s@.subrange(0, 0));
    while i < n
        invariant
            i <= n,
            n == s@.len(),
            text@ == old(text)@ + s@.subrange(0, i as int),
        decreases n - i,
    {
        text.push(s.get_char(i));
        i += 1;
        assert(text@ =~= old(text)@ + s@.subrange(0, i as int));
    }
    assert(s@.subrange(0, n as int) =~= s@);
}

/// The grid of a board: a line break before every rank, and for every
/// square of the first `n` an `X` if it is a member and a `-` if not.
pub open spec fn grid(x: u64, n: nat) -> Seq<char>
    decreases n,
{
    if n == 0 {
        Seq::empty()
    } else {
        let line = if (n - 1) % 8 == 0 {
            grid(x, (n - 1) as nat).push('\n')
        } else {
            grid(x, (n - 1) as nat)
        };
        line.push(
            if crate::bits::bit(x, (n - 1) as u8) {
                'X'
            } else {
                '-'
            },
        )
    }
}

/// A board as text: a blank line, the grid of its squares rank by rank
/// from the eighth, and its word in binary, in hexadecimal and in decimal.
pub open spec fn board_text(x: u64) -> Seq<char> {
    seq!['\n'] + grid(x, 64) + seq!['\n', '\n', '0', 'b'] + digits(x as int, 2) + seq![
        '\n',
        '0',
        'x',
    ] + digits(x as int, 16) + seq!['\n'] + digits(x as int, 10)
}

/// Appends a board as text to `text`.
pub fn push_board(text: &mut Vec<char>, board: &BitBoard)
    ensures
        final(text)@ == old(text)@ + board_text(board.0),
{
    text.push('\n');
    let ghost start = old(text)@ + seq!['\n'];
    let mut i: u8 = 0;
    assert(text@ =~= start + grid(board.0, 0));
    while i < 64
        invariant
            i <= 64,
            text@ == start + grid(board.0, i as nat),
        decreases 64 - i,
    {
        if i % 8 == 0 {
            text.push('\n');
        }
        if board.get_bit(i) {
            text.push('X');
        } else {
            text.push('-');
        }
        i += 1;
        assert(text@ =~= start + grid(board.0, i as nat));
    }
    let ghost gridded = text@;
    text.push('\n');
    text.push('\n');
    text.push('0');
    text.push('b');
    push_number(text, board.0, 2);
    text.push('\n');
    text.push('0');
    text.push('x');
    push_number(text, board.0, 16);
    text.push('\n');
    push_number(text, board.0, 10);
    assert(text@ =~= old(text)@ + board_text(board.0));
}

impl BitBoard {
    /// The board as text.
    pub fn to_string(&self) -> (s: String)
        ensures
            s@ == board_text(self.0),
    {
        let mut text: Vec<char> = Vec::new();
        push_board(&mut text, self);
        assert(text@ =~= board_text(self.0));
        string_of(&text)
    }
}

/// The letter of a file: `a` for file 0 up to `h` for file 7.
pub open spec fn file_char(file: int) -> char {
    if file == 0 {
        'a'
    } else if file == 1 {
        'b'
    } else if file == 2 {
        'c'
    } else if file == 3 {
        'd'
    } else if file == 4 {
        'e'
    } else if file == 5 {
        'f'
    } else if file == 6 {
        'g'
    } else {
        'h'
    }
}

/// The name of a square: the letter of its file and the digit of its rank,
/// which is 8 for the rank of square 0.
pub open spec fn square_text(square: int) -> Seq<char> {
    seq![file_char(square % 8), digit_char(8 - square / 8)]
}

/// The letter of a promotion: that of the piece promoted to; nothing for a
/// move that does not promote, nor for a promotion to king or pawn.
pub open spec fn promotion_text(promoted: Option<Pieces>) -> Seq<char> {
    match promoted {
        Some(Pieces::QUEEN) => seq!['q'],
        Some(Pieces::KNIGHT) => seq!['n'],
        Some(Pieces::ROOK) => seq!['r'],
        Some(Pieces::BISHOP) => seq!['b'],
        _ => Seq::empty(),
    }
}

/// A move in long algebraic form: the names of its two squares and the
/// letter of its promotion.
pub open spec fn move_text(m: Move) -> Seq<char> {
    square_text(m.source_square as int) + square_text(m.target_square as int) + promotion_text(
        m.promoted_piece,
    )
}

fn file_of(file: u8) -> (c: char)
    requires
        file < 8,
    ensures
        c == file_char(file as int),
{
    if file == 0 {
        'a'
    } else if file == 1 {
        'b'
    } else if file == 2 {
        'c'
    } else if file == 3 {
        'd'
    } else if file == 4 {
        'e'
    } else if file == 5 {
        'f'
    } else if file == 6 {
        'g'
    } else {
        'h'
    }
}

/// Appends a move in long algebraic form to `text`.
pub fn push_move(text: &mut Vec<char>, m: &EncodedMove)
    ensures
        final(text)@ == old(text)@ + move_text(m@),
{
    let source = m.source_square();
    let target = m.target_square();
    text.push(file_of(source % 8));
    text.push(digit_of((8 - source / 8) as u64));
    text.push(file_of(target % 8));
    text.push(digit_of((8 - target / 8) as u64));
    match m.promoted_piece() {
        Some(Pieces::QUEEN) => {
            text.push('q');
        },
        Some(Pieces::KNIGHT) => {
            text.push('n');
        },
        Some(Pieces::ROOK) => {
            text.push('r');
        },
        Some(Pieces::BISHOP) => {
            text.push('b');
        },
        _ => {},
    }
    assert(text@ =~= old(text)@ + move_text(m@));
}

impl EncodedMove {
    /// The move in long algebraic form.
    pub fn to_string(&self) -> (s: String)
        ensures
            s@ == move_text(self@),
    {
        let mut text: Vec<char> = Vec::new();
        push_move(&mut text, self);
        assert(text@ =~= move_text(self@));
        string_of(&text)
    }
}

} // verus!
