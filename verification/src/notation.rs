//! Positions and moves as text: the six fields of a position string and the
//! long algebraic form of a move.

use crate::common::{Color, Pieces};
use crate::move_encoding::Move;
use crate::position::{Content, Position};
use vstd::prelude::*;

verus! {

/// Why a position string was rejected: the first of its fields, from left
/// to right, that is malformed; or that it has not six fields.
#[derive(Copy, Clone, PartialEq, Eq, Structural, Debug)]
pub enum FenError {
    FieldCount,
    Placement,
    Side,
    CastleRights,
    EnPassant,
    HalfmoveClock,
    FullmoveNumber,
}

/// Whether `c` separates fields: a space, a tab, a line feed or a carriage
/// return.
pub open spec fn is_space(c: char) -> bool {
    c == ' ' || c == '\t' || c == '\n' || c == '\r'
}

/// The first index from `i` on that holds no separator.
pub open spec fn skip_spaces(s: Seq<char>, i: int) -> int
    decreases s.len() - i,
{
    if 0 <= i < s.len() && is_space(s[i]) {
        skip_spaces(s, i + 1)
    } else {
        i
    }
}

/// The first index from `i` on that holds a separator, or the length.
pub open spec fn field_end(s: Seq<char>, i: int) -> int
    decreases s.len() - i,
{
    if 0 <= i < s.len() && !is_space(s[i]) {
        field_end(s, i + 1)
    } else {
        i
    }
}

pub proof fn lemma_skip_spaces(s: Seq<char>, i: int)
    requires
        0 <= i <= s.len(),
    ensures
        i <= skip_spaces(s, i) <= s.len(),
        skip_spaces(s, i) < s.len() ==> !is_space(s[skip_spaces(s, i)]),
    decreases s.len() - i,
{
    if i < s.len() && is_space(s[i]) {
        lemma_skip_spaces(s, i + 1);
    }
}

pub proof fn lemma_field_end(s: Seq<char>, i: int)
    requires
        0 <= i <= s.len(),
    ensures
        i <= field_end(s, i) <= s.len(),
        i < s.len() && !is_space(s[i]) ==> i < field_end(s, i),
    decreases s.len() - i,
{
    if i < s.len() && !is_space(s[i]) {
        lemma_field_end(s, i + 1);
    }
}

/// The fields of `s` from index `i` on: the maximal runs of characters
/// that are no separators.
pub open spec fn fields_from(s: Seq<char>, i: int) -> Seq<Seq<char>>
    decreases s.len() - i,
{
    if 0 <= i <= s.len() && skip_spaces(s, i) < s.len() {
        proof {
            lemma_skip_spaces(s, i);
            lemma_field_end(s, skip_spaces(s, i));
        }
        seq![s.subrange(skip_spaces(s, i), field_end(s, skip_spaces(s, i)))] + fields_from(
            s,
            field_end(s, skip_spaces(s, i)),
        )
    } else {
        Seq::empty()
    }
}

/// The fields of `s`.
pub open spec fn fields(s: Seq<char>) -> Seq<Seq<char>> {
    fields_from(s, 0)
}

/// The board with no piece on it.
pub open spec fn empty_board() -> Seq<Content> {
    Seq::new(64, |i: int| None)
}

/// The state of reading a placement after one more character: a slash
/// changes nothing; a digit skips that many squares, within the board; a
/// letter of a piece puts that piece, black for a small letter and white
/// for a capital, on the next square, which must exist; anything else is
/// an error.
pub open spec fn place_step(state: Option<(int, Seq<Content>)>, c: char) -> Option<
    (int, Seq<Content>),
> {
    match state {
        None => None,
        Some((index, squares)) => {
            let code = c as u32;
            if c == '/' {
                Some((index, squares))
            } else if 48 <= code <= 57 {
                if index + (code - 48) <= 64 {
                    Some((index + (code - 48), squares))
                } else {
                    None
                }
            } else if (97 <= code <= 122 || 65 <= code <= 90) && Pieces::spec_parse_ascii(c) is Some
                && index < 64 {
                let color = if 97 <= code <= 122 {
                    Color::BLACK
                } else {
                    Color::WHITE
                };
                Some(
                    (
                        index + 1,
                        squares.update(index, Some((color, Pieces::spec_parse_ascii(c)->0))),
                    ),
                )
            } else {
                None
            }
        },
    }
}

/// The state of reading a placement after its first `n` characters: the
/// index of the next square, from a8 along the ranks, and the board so far.
pub open spec fn placement_after(field: Seq<char>, n: nat) -> Option<(int, Seq<Content>)>
    decreases n,
{
    if n == 0 {
        Some((0int, empty_board()))
    } else {
        place_step(placement_after(field, (n - 1) as nat), field[n - 1])
    }
}

/// The board that a placement field describes, if it describes all 64
/// squares.
pub open spec fn parse_placement(field: Seq<char>) -> Option<Seq<Content>> {
    match placement_after(field, field.len()) {
        Some((index, squares)) => if index == 64 {
            Some(squares)
        } else {
            None
        },
        None => None,
    }
}

/// Once reading a placement has failed, it stays failed.
pub proof fn lemma_placement_stays_failed(field: Seq<char>, k: nat, n: nat)
    requires
        k <= n,
        placement_after(field, k) is None,
    ensures
        placement_after(field, n) is None,
    decreases n,
{
    if k < n {
        lemma_placement_stays_failed(field, k, (n - 1) as nat);
    }
}

/// The side that a side field names: `w` or `b`.
pub open spec fn parse_side(field: Seq<char>) -> Option<Color> {
    if field.len() == 1 && field[0] == 'w' {
        Some(Color::WHITE)
    } else if field.len() == 1 && field[0] == 'b' {
        Some(Color::BLACK)
    } else {
        None
    }
}

/// The castle rights that the characters of `field` from index `i` on add
/// to `acc`: `K`, `Q`, `k` and `q` each add their right, a dash ends the
/// reading, anything else is an error.
pub open spec fn rights_from(field: Seq<char>, i: int, acc: u8) -> Option<u8>
    decreases field.len() - i,
{
    if i < 0 || i >= field.len() {
        Some(acc)
    } else if field[i] == '-' {
        Some(acc)
    } else if field[i] == 'K' {
        rights_from(field, i + 1, acc | 0b1)
    } else if field[i] == 'Q' {
        rights_from(field, i + 1, acc | 0b10)
    } else if field[i] == 'k' {
        rights_from(field, i + 1, acc | 0b100)
    } else if field[i] == 'q' {
        rights_from(field, i + 1, acc | 0b1000)
    } else {
        None
    }
}

/// The castle rights that a rights field names.
pub open spec fn parse_rights(field: Seq<char>) -> Option<u8> {
    rights_from(field, 0, 0)
}

/// The en-passant square that an en-passant field names: none for a dash;
/// else a file letter from `a` to `h` and a rank digit from `1` to `8`,
/// which must name a square with a rank on either side.
pub open spec fn parse_en_passant(field: Seq<char>) -> Option<Option<u8>> {
    if field.len() == 1 && field[0] == '-' {
        Some(None)
    } else if field.len() == 2 && 97 <= field[0] as u32 <= 104 && 49 <= field[1] as u32 <= 56 {
        let file = field[0] as u32 - 97;
        let rank = 7 - (field[1] as u32 - 49);
        let index = rank * 8 + file;
        if 8 <= index < 56 {
            Some(Some(index as u8))
        } else {
            None
        }
    } else {
        None
    }
}

/// The number that the first `n` characters of `field` write in decimal,
/// if all of them are digits.
pub open spec fn digits_value(field: Seq<char>, n: nat) -> Option<int>
    decreases n,
{
    if n == 0 {
        Some(0int)
    } else {
        match digits_value(field, (n - 1) as nat) {
            Some(value) => if 48 <= field[n - 1] as u32 <= 57 {
                Some(value * 10 + (field[n - 1] as u32 - 48))
            } else {
                None
            },
            None => None,
        }
    }
}

/// The number that a field writes in decimal, if it has at least one
/// character, all of them digits, and the number is at most `most`.
pub open spec fn parse_number(field: Seq<char>, most: int) -> Option<int> {
    if field.len() == 0 {
        None
    } else {
        match digits_value(field, field.len()) {
            Some(value) => if value <= most {
                Some(value)
            } else {
                None
            },
            None => None,
        }
    }
}

/// A number that has passed `most` after `k` digits cannot be read as a
/// number of at most `most`.
pub proof fn lemma_digits_grow(field: Seq<char>, k: nat, n: nat, most: int)
    requires
        k <= n,
        most >= 0,
        match digits_value(field, k) {
            Some(value) => value > most,
            None => true,
        },
    ensures
        match digits_value(field, n) {
            Some(value) => value > most,
            None => true,
        },
    decreases n,
{
    if k < n {
        lemma_digits_grow(field, k, (n - 1) as nat, most);
    }
}

/// The position that a position string describes: six fields, which give
/// the placement of the pieces, the side to move, the castle rights, the
/// en-passant square, the halfmove clock and the fullmove number; or the
/// first field that is malformed.
pub open spec fn parse_fen(s: Seq<char>) -> Result<Position, FenError> {
    let f = fields(s);
    if f.len() != 6 {
        Err(FenError::FieldCount)
    } else if parse_placement(f[0]) is None {
        Err(FenError::Placement)
    } else if parse_side(f[1]) is None {
        Err(FenError::Side)
    } else if parse_rights(f[2]) is None {
        Err(FenError::CastleRights)
    } else if parse_en_passant(f[3]) is None {
        Err(FenError::EnPassant)
    } else if parse_number(f[4], 255) is None {
        Err(FenError::HalfmoveClock)
    } else if parse_number(f[5], 65535) is None {
        Err(FenError::FullmoveNumber)
    } else {
        Ok(
            Position {
                squares: parse_placement(f[0])->0,
                side: parse_side(f[1])->0,
                castle_rights: parse_rights(f[2])->0,
                en_passant: parse_en_passant(f[3])->0,
                halfmove: parse_number(f[4], 255)->0 as u8,
                fullmove: parse_number(f[5], 65535)->0 as u16,
            },
        )
    }
}

/// The views of a list of fields.
pub open spec fn field_views(fields: Seq<Vec<char>>) -> Seq<Seq<char>> {
    Seq::new(fields.len(), |i: int| fields[i]@)
}

/// Whether `c` separates fields.
pub fn is_separator(c: char) -> (r: bool)
    ensures
        r == is_space(c),
{
    c == ' ' || c == '\t' || c == '\n' || c == '\r'
}

/// Splits a text into its fields.
pub fn split_fields(s: &Vec<char>) -> (r: Vec<Vec<char>>)
    ensures
        field_views(r@) == fields(s@),
{
    let mut result: Vec<Vec<char>> = Vec::new();
    let mut i: usize = 0;
    assert(field_views(result@) + fields_from(s@, 0) =~= fields(s@));
    while i < s.len()
        invariant
            i <= s.len(),
            field_views(result@) + fields_from(s@, i as int) == fields(s@),
        decreases s.len() - i,
    {
        let ghost i0 = i;
        while i < s.len() && is_separator(s[i])
            invariant
                i0 <= i <= s.len(),
                skip_spaces(s@, i as int) == skip_spaces(s@, i0 as int),
            decreases s.len() - i,
        {
            i += 1;
        }
        if i < s.len() {
            let start = i;
            let mut field: Vec<char> = Vec::new();
            assert(field@ =~= s@.subrange(start as int, i as int));
            while i < s.len() && !is_separator(s[i])
                invariant
                    start <= i <= s.len(),
                    field@ == s@.subrange(start as int, i as int),
                    field_end(s@, i as int) == field_end(s@, start as int),
                decreases s.len() - i,
            {
                field.push(s[i]);
                i += 1;
                assert(field@ =~= s@.subrange(start as int, i as int));
            }
            let ghost listed = result@;
            result.push(field);
            proof {
                assert(skip_spaces(s@, i0 as int) == start);
                assert(field_end(s@, start as int) == i);
                assert(field_views(result@) =~= field_views(listed).push(field@));
                assert(field_views(result@) + fields_from(s@, i as int) =~= field_views(listed)
                    + fields_from(s@, i0 as int));
            }
        } else {
            assert(fields_from(s@, i0 as int) =~= Seq::<Seq<char>>::empty());
            assert(fields_from(s@, i as int) =~= Seq::<Seq<char>>::empty());
        }
    }
    assert(fields_from(s@, i as int) =~= Seq::<Seq<char>>::empty());
    assert(field_views(result@) + Seq::<Seq<char>>::empty() =~= field_views(result@));
    result
}

/// The characters of a string, one by one.
pub fn chars_of(s: &str) -> (r: Vec<char>)
    ensures
        r@ == s@,
{
    let n = s.unicode_len();
    let mut r: Vec<char> = Vec::new();
    let mut i: usize = 0;
    while i < n
        invariant
            i <= n,
            n == s@.len(),
            r@ == s@.subrange(0, i as int),
        decreases n - i,
    {
        r.push(s.get_char(i));
        i += 1;
        assert(r@ =~= s@.subrange(0, i as int));
    }
    assert(r@ =~= s@);
    r
}

/// Reads a number written in decimal, of at most `most`.
pub fn read_number(field: &Vec<char>, most: u32) -> (r: Option<u32>)
    requires
        most <= 65535,
    ensures
        match r {
            Some(value) => parse_number(field@, most as int) == Some(value as int),
            None => parse_number(field@, most as int) is None,
        },
{
    if field.len() == 0 {
        return None;
    }
    let mut value: u32 = 0;
    let mut i: usize = 0;
    while i < field.len()
        invariant
            i <= field.len(),
            most <= 65535,
            value <= most,
            digits_value(field@, i as nat) == Some(value as int),
        decreases field.len() - i,
    {
        let code = field[i] as u32;
        if code < 48 || code > 57 {
            proof {
                assert(digits_value(field@, (i + 1) as nat) is None);
                lemma_digits_grow(field@, (i + 1) as nat, field@.len(), most as int);
            }
            return None;
        }
        value = value * 10 + (code - 48);
        i += 1;
        if value > most {
            proof {
                lemma_digits_grow(field@, i as nat, field@.len(), most as int);
            }
            return None;
        }
    }
    Some(value)
}

proof fn lemma_rights_grow(acc: u8)
    by (bit_vector)
    requires
        acc < 16,
    ensures
        acc | 0b1 < 16,
        acc | 0b10 < 16,
        acc | 0b100 < 16,
        acc | 0b1000 < 16,
{
}

/// Reads the castle rights of a rights field.
pub fn read_rights(field: &Vec<char>) -> (r: Option<u8>)
    ensures
        r == parse_rights(field@),
        r matches Some(rights) ==> rights < 16,
{
    let mut rights: u8 = 0;
    let mut i: usize = 0;
    while i < field.len()
        invariant
            i <= field.len(),
            rights < 16,
            rights_from(field@, i as int, rights) == parse_rights(field@),
        decreases field.len() - i,
    {
        let c = field[i];
        proof {
            lemma_rights_grow(rights);
        }
        if c == '-' {
            return Some(rights);
        } else if c == 'K' {
            rights = rights | 0b1;
        } else if c == 'Q' {
            rights = rights | 0b10;
        } else if c == 'k' {
            rights = rights | 0b100;
        } else if c == 'q' {
            rights = rights | 0b1000;
        } else {
            return None;
        }
        i += 1;
    }
    Some(rights)
}

/// Reads the en-passant square of an en-passant field.
pub fn read_en_passant(field: &Vec<char>) -> (r: Option<Option<u8>>)
    ensures
        r == parse_en_passant(field@),
        r matches Some(Some(square)) ==> 8 <= square < 56,
{
    if field.len() == 1 && field[0] == '-' {
        return Some(None);
    }
    if field.len() != 2 {
        return None;
    }
    let file_code = field[0] as u32;
    let rank_code = field[1] as u32;
    if file_code < 97 || file_code > 104 || rank_code < 49 || rank_code > 56 {
        return None;
    }
    let file = file_code - 97;
    let rank = 7 - (rank_code - 49);
    let index = rank * 8 + file;
    if index < 8 || index >= 56 {
        return None;
    }
    Some(Some(index as u8))
}

/// Reads the side of a side field.
pub fn read_side(field: &Vec<char>) -> (r: Option<Color>)
    ensures
        r == parse_side(field@),
{
    if field.len() == 1 && field[0] == 'w' {
        Some(Color::WHITE)
    } else if field.len() == 1 && field[0] == 'b' {
        Some(Color::BLACK)
    } else {
        None
    }
}

} // verus!

verus! {

/// The kind of the piece that starts a game on `file` of its side's back
/// rank.
pub open spec fn back_rank(file: int) -> Pieces {
    if file == 0 || file == 7 {
        Pieces::ROOK
    } else if file == 1 || file == 6 {
        Pieces::KNIGHT
    } else if file == 2 || file == 5 {
        Pieces::BISHOP
    } else if file == 3 {
        Pieces::QUEEN
    } else {
        Pieces::KING
    }
}

/// What stands on `square` when a game starts.
pub open spec fn start_content(square: int) -> Content {
    if square < 8 {
        Some((Color::BLACK, back_rank(square)))
    } else if square < 16 {
        Some((Color::BLACK, Pieces::PAWN))
    } else if square < 48 {
        None
    } else if square < 56 {
        Some((Color::WHITE, Pieces::PAWN))
    } else {
        Some((Color::WHITE, back_rank(square - 56)))
    }
}

/// The board of the starting position with the pieces of the first
/// `files` files only.
pub open spec fn start_board(files: int) -> Seq<Content> {
    Seq::new(
        64,
        |square: int|
            if square % 8 < files {
                start_content(square)
            } else {
                None
            },
    )
}

/// The position in which a game starts.
pub open spec fn start_position() -> Position {
    Position {
        squares: start_board(8),
        side: Color::WHITE,
        castle_rights: 0b1111,
        en_passant: None,
        halfmove: 0,
        fullmove: 1,
    }
}

} // verus!

verus! {

/// Why a move in long algebraic form was rejected.
#[derive(Copy, Clone, PartialEq, Eq, Structural, Debug)]
pub enum MoveTextError {
    /// The text has not four or five characters.
    WrongSize,
    /// The second square or the promotion letter is malformed.
    Malformed,
}

/// The square that a file letter and a rank digit name, if they name one.
pub open spec fn square_named(file: char, rank: char) -> Option<u8> {
    if 97 <= file as u32 <= 104 && 49 <= rank as u32 <= 56 {
        Some(((7 - (rank as u32 - 49)) * 8 + (file as u32 - 97)) as u8)
    } else {
        None
    }
}

/// The piece that a promotion letter names, in either case.
pub open spec fn promotion_named(c: char) -> Option<Pieces> {
    if c == 'q' || c == 'Q' {
        Some(Pieces::QUEEN)
    } else if c == 'n' || c == 'N' {
        Some(Pieces::KNIGHT)
    } else if c == 'r' || c == 'R' {
        Some(Pieces::ROOK)
    } else if c == 'b' || c == 'B' {
        Some(Pieces::BISHOP)
    } else {
        None
    }
}

/// What a move in long algebraic form asks for: its source, its target and
/// its promotion. A text whose first square is off the board asks for
/// nothing; a text of the wrong size, or with a malformed second square or
/// promotion letter, is an error.
pub open spec fn read_move_text(text: Seq<char>) -> Result<
    Option<(u8, u8, Option<Pieces>)>,
    MoveTextError,
> {
    if text.len() < 4 || text.len() > 5 {
        Err(MoveTextError::WrongSize)
    } else if square_named(text[0], text[1]) is None {
        Ok(None)
    } else if square_named(text[2], text[3]) is None {
        Err(MoveTextError::Malformed)
    } else if text.len() == 5 && promotion_named(text[4]) is None {
        Err(MoveTextError::Malformed)
    } else {
        Ok(
            Some(
                (
                    square_named(text[0], text[1])->0,
                    square_named(text[2], text[3])->0,
                    if text.len() == 5 {
                        promotion_named(text[4])
                    } else {
                        None
                    },
                ),
            ),
        )
    }
}

/// The message for a rejected move.
pub open spec fn move_error_text(error: MoveTextError, text: Seq<char>) -> Seq<char> {
    match error {
        MoveTextError::WrongSize => "move is wrong size: "@ + text,
        MoveTextError::Malformed => "move is malformed: "@ + text,
    }
}

/// The first of `moves` with the given source, target and promotion.
pub open spec fn pick(moves: Seq<Move>, source: u8, target: u8, promoted: Option<Pieces>) -> Option<
    Move,
>
    decreases moves.len(),
{
    if moves.len() == 0 {
        None
    } else if moves[0].source_square == source && moves[0].target_square == target
        && moves[0].promoted_piece == promoted {
        Some(moves[0])
    } else {
        pick(moves.drop_first(), source, target, promoted)
    }
}

/// Reads a square from a file letter and a rank digit.
pub fn read_square(file: char, rank: char) -> (r: Option<u8>)
    ensures
        r == square_named(file, rank),
        r matches Some(square) ==> square < 64,
{
    let f = file as u32;
    let k = rank as u32;
    if f >= 97 && f <= 104 && k >= 49 && k <= 56 {
        Some(((7 - (k - 49)) * 8 + (f - 97)) as u8)
    } else {
        None
    }
}

/// Reads a promotion letter.
pub fn read_promotion(c: char) -> (r: Option<Pieces>)
    ensures
        r == promotion_named(c),
{
    if c == 'q' || c == 'Q' {
        Some(Pieces::QUEEN)
    } else if c == 'n' || c == 'N' {
        Some(Pieces::KNIGHT)
    } else if c == 'r' || c == 'R' {
        Some(Pieces::ROOK)
    } else if c == 'b' || c == 'B' {
        Some(Pieces::BISHOP)
    } else {
        None
    }
}

/// Reads a move in long algebraic form.
pub fn read_move(text: &Vec<char>) -> (r: Result<Option<(u8, u8, Option<Pieces>)>, MoveTextError>)
    ensures
        r == read_move_text(text@),
        r matches Ok(Some(asked)) ==> asked.0 < 64 && asked.1 < 64,
{
    if text.len() < 4 || text.len() > 5 {
        return Err(MoveTextError::WrongSize);
    }
    let source = match read_square(text[0], text[1]) {
        Some(square) => square,
        None => {
            return Ok(None);
        },
    };
    let target = match read_square(text[2], text[3]) {
        Some(square) => square,
        None => {
            return Err(MoveTextError::Malformed);
        },
    };
    let mut promoted: Option<Pieces> = None;
    if text.len() == 5 {
        promoted = read_promotion(text[4]);
        if promoted.is_none() {
            return Err(MoveTextError::Malformed);
        }
    }
    Ok(Some((source, target, promoted)))
}

} // verus!
