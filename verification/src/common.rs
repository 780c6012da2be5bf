//! The vocabulary of the engine: colours, piece kinds, castle rights and the
//! 64-bit board.

use crate::bits::{
    bit, lemma_count_low_mask, lemma_popcount_zero, lemma_without_lowest, lowest, popcount,
    without_lowest,
};
use crate::tables::{
    castle_info, has_shape, key_rows, word_rows, words, Keys, LeapingTable, MoveTables,
    SlidingTable,
};
use std::ops::Neg;
use vstd::prelude::*;
use vstd::std_specs::ops::{
    BitAndSpecImpl, BitOrSpecImpl, MulSpecImpl, NegSpecImpl, NotSpecImpl, ShlSpecImpl,
    ShrSpecImpl, SubSpecImpl,
};
use vstd::wrapping::u64_specs::{wrapping_add, wrapping_mul, wrapping_sub};

verus! {

/// One of the four rights to castle, each a bit of a 4-bit mask.
#[derive(Copy, Clone, PartialEq, Eq, Structural, Debug)]
pub enum CastleRights {
    WhiteKing,
    WhiteQueen,
    BlackKing,
    BlackQueen,
}

impl CastleRights {
    /// The bit of this right in the mask of rights.
    pub open spec fn mask(self) -> u8 {
        match self {
            Self::WhiteKing => 0b1,
            Self::WhiteQueen => 0b10,
            Self::BlackKing => 0b100,
            Self::BlackQueen => 0b1000,
        }
    }

    pub fn as_int(&self) -> (r: u8)
        ensures
            r == self.mask(),
    {
        match self {
            Self::WhiteKing => 0b1,
            Self::WhiteQueen => 0b10,
            Self::BlackKing => 0b100,
            Self::BlackQueen => 0b1000,
        }
    }

    pub fn int_to_castle_rights(i: u8) -> (r: Self)
        requires
            i == 0b1 || i == 0b10 || i == 0b100 || i == 0b1000,
        ensures
            r.mask() == i,
    {
        if i == 0b1 {
            Self::WhiteKing
        } else if i == 0b10 {
            Self::WhiteQueen
        } else if i == 0b100 {
            Self::BlackKing
        } else {
            Self::BlackQueen
        }
    }
}

/// The index of a direction among the eight, clockwise from "right".
pub open spec fn spec_direction_to_index(file: int, rank: int) -> int {
    if file == 1 && rank == 0 {
        0
    } else if file == 1 && rank == 1 {
        1
    } else if file == 0 && rank == 1 {
        2
    } else if file == -1 && rank == 1 {
        3
    } else if file == -1 && rank == 0 {
        4
    } else if file == -1 && rank == -1 {
        5
    } else if file == 0 && rank == -1 {
        6
    } else {
        7
    }
}

/// Whether `(file, rank)` is one of the eight unit steps.
pub open spec fn is_direction(file: int, rank: int) -> bool {
    -1 <= file <= 1 && -1 <= rank <= 1 && !(file == 0 && rank == 0)
}

pub fn direction_to_index(file: i8, rank: i8) -> (r: usize)
    requires
        is_direction(file as int, rank as int),
    ensures
        r == spec_direction_to_index(file as int, rank as int),
        r < 8,
{
    if file == 1 && rank == 0 {
        0
    } else if file == 1 && rank == 1 {
        1
    } else if file == 0 && rank == 1 {
        2
    } else if file == -1 && rank == 1 {
        3
    } else if file == -1 && rank == 0 {
        4
    } else if file == -1 && rank == -1 {
        5
    } else if file == 0 && rank == -1 {
        6
    } else {
        7
    }
}

pub fn _index_to_direction(index: usize) -> (r: (i8, i8))
    requires
        index < 8,
    ensures
        is_direction(r.0 as int, r.1 as int),
        spec_direction_to_index(r.0 as int, r.1 as int) == index,
{
    if index == 0 {
        (1, 0)
    } else if index == 1 {
        (1, 1)
    } else if index == 2 {
        (0, 1)
    } else if index == 3 {
        (-1, 1)
    } else if index == 4 {
        (-1, 0)
    } else if index == 5 {
        (-1, -1)
    } else if index == 6 {
        (0, -1)
    } else {
        (1, -1)
    }
}

/// A set of squares: bit `i` stands for square `i`, square 0 being a8,
/// the file of a square `i % 8` and its rank from the top `i / 8`.
#[derive(Copy, Clone, PartialEq, Eq, Structural, Debug)]
pub struct BitBoard(pub u64);

impl BitBoard {
    /// Whether `square` is a member of this board.
    pub open spec fn has(self, square: u8) -> bool {
        bit(self.0, square)
    }

    pub fn new() -> (r: Self)
        ensures
            r.0 == 0,
    {
        return Self(0);
    }

    pub fn new_set(i: u8) -> (r: Self)
        requires
            i < 64,
        ensures
            r.0 == 1u64 << i,
    {
        Self(1u64 << i)
    }

    pub fn set_bit(&mut self, index: u8)
        requires
            index < 64,
        ensures
            final(self).0 == old(self).0 | (1u64 << index),
    {
        self.0 |= 1u64 << (index as u64)
    }

    pub fn get_bit(&self, index: u8) -> (r: bool)
        requires
            index < 64,
        ensures
            r == self.has(index),
    {
        (self.0 & (1u64 << (index as u64))) != 0
    }

    pub fn pop_bit(&mut self, index: u8) -> (r: bool)
        requires
            index < 64,
        ensures
            r == old(self).has(index),
            final(self).0 == old(self).0 & !(1u64 << index),
    {
        let result = self.get_bit(index);
        self.0 &= !(1u64 << (index as u64));
        result
    }

    pub fn move_bit(&mut self, source_square: u8, target_square: u8)
        requires
            source_square < 64,
            target_square < 64,
        ensures
            final(self).0 == (old(self).0 & !(1u64 << source_square)) | (1u64 << target_square),
    {
        self.pop_bit(source_square);
        self.set_bit(target_square);
    }

    pub fn count_bits(&self) -> (count: u8)
        ensures
            count == popcount(self.0),
    {
        let mut count: u8 = 0;
        let mut value: u64 = self.0;
        proof {
            lemma_popcount_zero(value);
        }
        while value != 0
            invariant
                count + popcount(value) == popcount(self.0),
                popcount(self.0) <= 64,
            decreases value,
        {
            proof {
                lemma_without_lowest(value);
            }
            count += 1;
            value &= value - 1;
        }
        proof {
            lemma_popcount_zero(value);
        }
        count
    }

    pub fn ls1b_index(&self) -> (r: Option<u8>)
        ensures
            self.0 == 0 ==> r.is_none(),
            self.0 != 0 ==> r == Some(lowest(self.0) as u8) && lowest(self.0) < 64,
    {
        if !self.not_zero() {
            return None
        }
        let trailing_bits = (*self & self.neg()) - 1u8;
        proof {
            lemma_without_lowest(self.0);
            lemma_count_low_mask(lowest(self.0));
        }
        Some(trailing_bits.count_bits())
    }

    pub fn pop_ls1b(&mut self) -> (r: Option<u8>)
        ensures
            old(self).0 == 0 ==> r.is_none() && final(self).0 == 0,
            old(self).0 != 0 ==> r == Some(lowest(old(self).0) as u8) && lowest(old(self).0) < 64
                && final(self).0 == without_lowest(old(self).0),
    {
        let index = self.ls1b_index()?;
        proof {
            lemma_without_lowest(self.0);
        }
        self.pop_bit(index);
        Some(index)
    }

    pub fn not_zero(&self) -> (r: bool)
        ensures
            r == (self.0 != 0),
    {
        self.0 != 0
    }
}

impl std::ops::Not for BitBoard {
    type Output = Self;

    fn not(self) -> (r: Self) {
        BitBoard(!self.0)
    }
}

impl NotSpecImpl for BitBoard {
    open spec fn obeys_not_spec() -> bool {
        true
    }

    open spec fn not_req(self) -> bool {
        true
    }

    open spec fn not_spec(self) -> Self {
        BitBoard(!self.0)
    }
}

impl std::ops::BitOr for BitBoard {
    type Output = Self;

    fn bitor(self, rhs: Self) -> (r: Self) {
        BitBoard(self.0 | rhs.0)
    }
}

impl BitOrSpecImpl for BitBoard {
    open spec fn obeys_bitor_spec() -> bool {
        true
    }

    open spec fn bitor_req(self, rhs: Self) -> bool {
        true
    }

    open spec fn bitor_spec(self, rhs: Self) -> Self {
        BitBoard(self.0 | rhs.0)
    }
}

impl std::ops::BitAnd for BitBoard {
    type Output = Self;

    fn bitand(self, rhs: Self) -> (r: Self) {
        BitBoard(self.0 & rhs.0)
    }
}

impl BitAndSpecImpl for BitBoard {
    open spec fn obeys_bitand_spec() -> bool {
        true
    }

    open spec fn bitand_req(self, rhs: Self) -> bool {
        true
    }

    open spec fn bitand_spec(self, rhs: Self) -> Self {
        BitBoard(self.0 & rhs.0)
    }
}

impl std::ops::Shl<u8> for BitBoard {
    type Output = Self;

    fn shl(self, rhs: u8) -> (r: Self) {
        BitBoard(self.0 << rhs)
    }
}

impl ShlSpecImpl<u8> for BitBoard {
    open spec fn obeys_shl_spec() -> bool {
        true
    }

    open spec fn shl_req(self, rhs: u8) -> bool {
        rhs < 64
    }

    open spec fn shl_spec(self, rhs: u8) -> Self {
        BitBoard(self.0 << rhs)
    }
}

impl std::ops::Shr<u8> for BitBoard {
    type Output = Self;

    fn shr(self, rhs: u8) -> (r: Self) {
        BitBoard(self.0 >> rhs)
    }
}

impl ShrSpecImpl<u8> for BitBoard {
    open spec fn obeys_shr_spec() -> bool {
        true
    }

    open spec fn shr_req(self, rhs: u8) -> bool {
        rhs < 64
    }

    open spec fn shr_spec(self, rhs: u8) -> Self {
        BitBoard(self.0 >> rhs)
    }
}

impl std::ops::BitOrAssign for BitBoard {
    fn bitor_assign(&mut self, rhs: Self)
        ensures
            final(self).0 == old(self).0 | rhs.0,
    {
        self.0 |= rhs.0;
    }
}

impl std::ops::Neg for BitBoard {
    type Output = Self;

    fn neg(self) -> (r: Self) {
        BitBoard((!self.0).wrapping_add(1))
    }
}

impl NegSpecImpl for BitBoard {
    open spec fn obeys_neg_spec() -> bool {
        true
    }

    open spec fn neg_req(self) -> bool {
        true
    }

    open spec fn neg_spec(self) -> Self {
        BitBoard(wrapping_add(!self.0, 1))
    }
}

impl std::ops::Sub<u8> for BitBoard {
    type Output = Self;

    fn sub(self, rhs: u8) -> (r: Self) {
        BitBoard(self.0.wrapping_sub(rhs as u64))
    }
}

impl SubSpecImpl<u8> for BitBoard {
    open spec fn obeys_sub_spec() -> bool {
        true
    }

    open spec fn sub_req(self, rhs: u8) -> bool {
        true
    }

    open spec fn sub_spec(self, rhs: u8) -> Self {
        BitBoard(wrapping_sub(self.0, rhs as u64))
    }
}

impl std::ops::Mul<BitBoard> for BitBoard {
    type Output = Self;

    fn mul(self, rhs: Self) -> (r: Self) {
        BitBoard(self.0.wrapping_mul(rhs.0))
    }
}

impl MulSpecImpl<BitBoard> for BitBoard {
    open spec fn obeys_mul_spec() -> bool {
        true
    }

    open spec fn mul_req(self, rhs: Self) -> bool {
        true
    }

    open spec fn mul_spec(self, rhs: Self) -> Self {
        BitBoard(wrapping_mul(self.0, rhs.0))
    }
}

impl std::ops::BitAndAssign for BitBoard {
    fn bitand_assign(&mut self, rhs: Self)
        ensures
            final(self).0 == old(self).0 & rhs.0,
    {
        self.0 &= rhs.0;
    }
}

impl std::ops::MulAssign<BitBoard> for BitBoard {
    fn mul_assign(&mut self, rhs: Self)
        ensures
            final(self).0 == wrapping_mul(old(self).0, rhs.0),
    {
        self.0 = self.0.wrapping_mul(rhs.0);
    }
}

impl std::ops::ShrAssign<u8> for BitBoard {
    fn shr_assign(&mut self, rhs: u8)
        requires
            rhs < 64,
        ensures
            final(self).0 == old(self).0 >> rhs,
    {
        self.0 >>= rhs;
    }
}

/// The names of the two persisted tables, and the index of the occupancy of
/// both colours.
pub struct Constants;

impl Constants {
    pub const _WHITE: u8 = 0;

    pub const _BLACK: u8 = 1;

    pub const _BISHOP: u8 = 0;

    pub const _ROOK: u8 = 1;

    pub const BOTH_OCCUPANCIES: usize = 2;

    pub const MOVE_DATA_FILE_NAME: &'static str = "move_data.json";

    pub const HASHES_FILE_NAME: &'static str = "hashes.json";
}

/// The six kinds of piece. The order is that of their integer codes, which
/// move words and hash tables embed: king 0, pawn 1, knight 2, bishop 3,
/// rook 4, queen 5.
#[derive(Copy, Clone, PartialEq, Eq, Structural, Debug)]
pub enum Pieces {
    KING,
    PAWN,
    KNIGHT,
    BISHOP,
    ROOK,
    QUEEN,
}

impl Pieces {
    /// The integer code of this kind.
    pub open spec fn code(self) -> int {
        match self {
            Pieces::KING => 0,
            Pieces::PAWN => 1,
            Pieces::KNIGHT => 2,
            Pieces::BISHOP => 3,
            Pieces::ROOK => 4,
            Pieces::QUEEN => 5,
        }
    }

    /// The kind with integer code `i`.
    pub open spec fn from_code(i: int) -> Pieces {
        if i == 0 {
            Pieces::KING
        } else if i == 1 {
            Pieces::PAWN
        } else if i == 2 {
            Pieces::KNIGHT
        } else if i == 3 {
            Pieces::BISHOP
        } else if i == 4 {
            Pieces::ROOK
        } else {
            Pieces::QUEEN
        }
    }

    pub fn int_to_piece(i: u8) -> (r: Self)
        requires
            i < 6,
        ensures
            r == Pieces::from_code(i as int),
            r.code() == i,
    {
        if i == 0 {
            Pieces::KING
        } else if i == 1 {
            Pieces::PAWN
        } else if i == 2 {
            Pieces::KNIGHT
        } else if i == 3 {
            Pieces::BISHOP
        } else if i == 4 {
            Pieces::ROOK
        } else {
            Pieces::QUEEN
        }
    }

    pub fn parse_ascii(a: char) -> (r: Option<Self>)
        ensures
            r == Pieces::spec_parse_ascii(a),
    {
        if a == 'p' || a == 'P' {
            Some(Self::PAWN)
        } else if a == 'n' || a == 'N' {
            Some(Self::KNIGHT)
        } else if a == 'b' || a == 'B' {
            Some(Self::BISHOP)
        } else if a == 'r' || a == 'R' {
            Some(Self::ROOK)
        } else if a == 'q' || a == 'Q' {
            Some(Self::QUEEN)
        } else if a == 'k' || a == 'K' {
            Some(Self::KING)
        } else {
            None
        }
    }

    /// The kind that a letter of a position string stands for, in either case.
    pub open spec fn spec_parse_ascii(a: char) -> Option<Pieces> {
        if a == 'p' || a == 'P' {
            Some(Pieces::PAWN)
        } else if a == 'n' || a == 'N' {
            Some(Pieces::KNIGHT)
        } else if a == 'b' || a == 'B' {
            Some(Pieces::BISHOP)
        } else if a == 'r' || a == 'R' {
            Some(Pieces::ROOK)
        } else if a == 'q' || a == 'Q' {
            Some(Pieces::QUEEN)
        } else if a == 'k' || a == 'K' {
            Some(Pieces::KING)
        } else {
            None
        }
    }

    /// The integer code of this kind, as an index.
    pub fn index(self) -> (r: usize)
        ensures
            r == self.code(),
            r < 6,
    {
        self as usize
    }
}

/// The two sides: white is 0, black is 1.
#[derive(Copy, Clone, PartialEq, Eq, Structural, Debug)]
pub enum Color {
    WHITE,
    BLACK,
}

impl Color {
    /// The integer code of this side.
    pub open spec fn code(self) -> int {
        match self {
            Color::WHITE => 0,
            Color::BLACK => 1,
        }
    }

    /// The side with integer code `c`.
    pub open spec fn from_code(c: int) -> Color {
        if c == 0 {
            Color::WHITE
        } else {
            Color::BLACK
        }
    }

    /// The other side.
    pub open spec fn other(self) -> Color {
        match self {
            Color::WHITE => Color::BLACK,
            Color::BLACK => Color::WHITE,
        }
    }

    /// The integer code of this side, as an index.
    pub fn index(self) -> (r: usize)
        ensures
            r == self.code(),
            r < 2,
    {
        self as usize
    }
}

impl std::ops::Not for Color {
    type Output = Self;

    fn not(self) -> (r: Self) {
        match self {
            Color::WHITE => Color::BLACK,
            Color::BLACK => Color::WHITE,
        }
    }
}

impl NotSpecImpl for Color {
    open spec fn obeys_not_spec() -> bool {
        true
    }

    open spec fn not_req(self) -> bool {
        true
    }

    open spec fn not_spec(self) -> Self {
        self.other()
    }
}

/// The sliding-attack table of bishops or of rooks.
pub struct SlidingAttackData {
    attacks: Vec<Vec<BitBoard>>,
    magic_numbers: Vec<BitBoard>,
    masks: Vec<BitBoard>,
    relevant_bits: Vec<u8>,
}

impl View for SlidingAttackData {
    type V = SlidingTable;

    closed spec fn view(&self) -> SlidingTable {
        SlidingTable {
            attacks: word_rows(self.attacks@),
            magics: words(self.magic_numbers@),
            masks: words(self.masks@),
            bits: self.relevant_bits@,
        }
    }
}

proof fn lemma_magic_index_bound(product: u64, bits: u8)
    by (bit_vector)
    requires
        1 <= bits <= 12,
    ensures
        product >> ((64 - bits) as u8) < (1u64 << bits),
        (1u64 << bits) <= 4096,
{
}

impl Clone for SlidingAttackData {
    fn clone(&self) -> (r: Self)
        ensures
            r@ == self@,
    {
        let r = SlidingAttackData {
            attacks: self.attacks.clone(),
            magic_numbers: self.magic_numbers.clone(),
            masks: self.masks.clone(),
            relevant_bits: self.relevant_bits.clone(),
        };
        assert(r@.attacks =~~= self@.attacks);
        assert(r@.magics =~= self@.magics);
        assert(r@.masks =~= self@.masks);
        assert(r@.bits =~= self@.bits);
        r
    }
}

impl SlidingAttackData {
    pub fn _new(
        attacks: Vec<Vec<BitBoard>>,
        magic_numbers: Vec<BitBoard>,
        masks: Vec<BitBoard>,
        relevant_bits: Vec<u8>,
    ) -> (r: Self)
        ensures
            r@ == (SlidingTable {
                attacks: word_rows(attacks@),
                magics: words(magic_numbers@),
                masks: words(masks@),
                bits: relevant_bits@,
            }),
    {
        Self { attacks, magic_numbers, masks, relevant_bits }
    }

    pub fn get_attack(&self, square: u8, occupancy: &BitBoard) -> (r: BitBoard)
        requires
            self@.wf(),
            square < 64,
        ensures
            r.0 == self@.lookup(square as int, occupancy.0),
    {
        let mut o = BitBoard(occupancy.0);
        o = o & self.masks[square as usize];
        o = o * self.magic_numbers[square as usize];
        let bits = self.relevant_bits[square as usize];
        assert(self@.bits[square as int] == bits);
        proof {
            lemma_magic_index_bound(o.0, bits);
        }
        o = o >> ((64 - bits) as u8);
        assert(self@.attacks[square as int].len() == self.attacks[square as int].len());
        self.attacks[square as usize][o.0 as usize]
    }
}

/// The tables of the pieces that leap: pawn attacks and pawn pushes by
/// colour and square, knight and king attacks by square.
pub struct LeapingAttackData {
    pub pawn_attacks: Vec<Vec<BitBoard>>,
    pub knight: Vec<BitBoard>,
    pub king: Vec<BitBoard>,
    pub pawn_moves: Vec<Vec<BitBoard>>,
}

impl View for LeapingAttackData {
    type V = LeapingTable;

    open spec fn view(&self) -> LeapingTable {
        LeapingTable {
            pawn_attacks: word_rows(self.pawn_attacks@),
            knight: words(self.knight@),
            king: words(self.king@),
            pawn_moves: word_rows(self.pawn_moves@),
        }
    }
}

impl Clone for LeapingAttackData {
    fn clone(&self) -> (r: Self)
        ensures
            r@ == self@,
    {
        let r = LeapingAttackData {
            pawn_attacks: self.pawn_attacks.clone(),
            knight: self.knight.clone(),
            king: self.king.clone(),
            pawn_moves: self.pawn_moves.clone(),
        };
        assert(r@.pawn_attacks =~~= self@.pawn_attacks);
        assert(r@.pawn_moves =~~= self@.pawn_moves);
        assert(r@.knight =~= self@.knight);
        assert(r@.king =~= self@.king);
        r
    }
}

/// All the tables that move generation reads.
pub struct AllMoveData {
    bishop_attack_data: SlidingAttackData,
    rook_attack_data: SlidingAttackData,
    leaping_attack_data: LeapingAttackData,
    pawn_single_push_ranks: Vec<BitBoard>,
    pawn_double_push_ranks: Vec<BitBoard>,
    promotion_ranks: Vec<BitBoard>,
    directions: Vec<Vec<BitBoard>>,
}

impl View for AllMoveData {
    type V = MoveTables;

    closed spec fn view(&self) -> MoveTables {
        MoveTables {
            bishop: self.bishop_attack_data@,
            rook: self.rook_attack_data@,
            leaping: self.leaping_attack_data@,
            single_push_ranks: words(self.pawn_single_push_ranks@),
            double_push_ranks: words(self.pawn_double_push_ranks@),
            promotion_ranks: words(self.promotion_ranks@),
            directions: word_rows(self.directions@),
        }
    }
}

impl Clone for AllMoveData {
    fn clone(&self) -> (r: Self)
        ensures
            r@ == self@,
    {
        let r = AllMoveData {
            bishop_attack_data: self.bishop_attack_data.clone(),
            rook_attack_data: self.rook_attack_data.clone(),
            leaping_attack_data: self.leaping_attack_data.clone(),
            pawn_single_push_ranks: self.pawn_single_push_ranks.clone(),
            pawn_double_push_ranks: self.pawn_double_push_ranks.clone(),
            promotion_ranks: self.promotion_ranks.clone(),
            directions: self.directions.clone(),
        };
        assert(r@.single_push_ranks =~= self@.single_push_ranks);
        assert(r@.double_push_ranks =~= self@.double_push_ranks);
        assert(r@.promotion_ranks =~= self@.promotion_ranks);
        assert(r@.directions =~~= self@.directions);
        r
    }
}

impl AllMoveData {
    pub fn get_attacks(&self, square: u8, piece: &Pieces, side: Color, occupancy: &BitBoard) -> (r:
        BitBoard)
        requires
            self@.wf(),
            square < 64,
        ensures
            r.0 == self@.attacks(square as int, *piece, side, occupancy.0),
    {
        assert(self@.leaping.pawn_attacks[side.code()].len() == 64);
        match piece {
            Pieces::PAWN => self.leaping_attack_data.pawn_attacks[side as usize][square as usize],
            Pieces::KNIGHT => self.leaping_attack_data.knight[square as usize],
            Pieces::BISHOP => self.bishop_attack_data.get_attack(square, occupancy),
            Pieces::ROOK => self.rook_attack_data.get_attack(square, occupancy),
            Pieces::KING => self.leaping_attack_data.king[square as usize],
            Pieces::QUEEN => {
                let bishop_attack = self.bishop_attack_data.get_attack(square, occupancy);
                let rook_attack = self.rook_attack_data.get_attack(square, occupancy);
                bishop_attack | rook_attack
            },
        }
    }

    pub fn get_pawn_moves(&self, square: u8, side: Color) -> (r: BitBoard)
        requires
            self@.wf(),
            square < 64,
        ensures
            r.0 == self@.leaping.pawn_moves[side.code()][square as int],
    {
        assert(self@.leaping.pawn_moves[side.code()].len() == 64);
        self.leaping_attack_data.pawn_moves[side as usize][square as usize]
    }

    pub fn get_promotion_ranks(&self, side: Color) -> (r: BitBoard)
        requires
            self@.wf(),
        ensures
            r.0 == self@.promotion_ranks[side.code()],
    {
        self.promotion_ranks[side as usize]
    }

    pub fn get_pawn_single_push_ranks(&self, side: Color) -> (r: BitBoard)
        requires
            self@.wf(),
        ensures
            r.0 == self@.single_push_ranks[side.code()],
    {
        self.pawn_single_push_ranks[side as usize]
    }

    pub fn get_pawn_double_push_ranks(&self, side: Color) -> (r: BitBoard)
        requires
            self@.wf(),
        ensures
            r.0 == self@.double_push_ranks[side.code()],
    {
        self.pawn_double_push_ranks[side as usize]
    }

    pub fn get_direction(&self, square: u8, file_dir: i8, rank_dir: i8) -> (r: BitBoard)
        requires
            self@.wf(),
            square < 64,
            is_direction(file_dir as int, rank_dir as int),
        ensures
            r.0 == self@.direction(square as int, file_dir as int, rank_dir as int),
    {
        let index = direction_to_index(file_dir, rank_dir);
        assert(self@.directions[index as int].len() == 64);
        self.directions[index][square as usize]
    }

    pub fn get_castle_info(&self, rights: CastleRights, side: Color) -> (r: Option<(u8, BitBoard)>)
        ensures
            r.is_some() == castle_info(rights.mask(), side).is_some(),
            r matches Some(info) ==> castle_info(rights.mask(), side) == Some((info.0, info.1.0)),
    {
        match (rights, side) {
            (CastleRights::WhiteKing, Color::WHITE) => Some(
                (62, BitBoard((1u64 << 62) | (1u64 << 61))),
            ),
            (CastleRights::WhiteQueen, Color::WHITE) => Some(
                (58, BitBoard((1u64 << 59) | (1u64 << 58))),
            ),
            (CastleRights::BlackKing, Color::BLACK) => Some(
                (6, BitBoard((1u64 << 5) | (1u64 << 6))),
            ),
            (CastleRights::BlackQueen, Color::BLACK) => Some(
                (2, BitBoard((1u64 << 2) | (1u64 << 3))),
            ),
            _ => None,
        }
    }

    pub fn squares_between(&self, s1: u8, s2: u8) -> (r: BitBoard)
        requires
            self@.wf(),
            s1 < 64,
            s2 < 64,
        ensures
            r.0 == self@.between(s1 as int, s2 as int),
    {
        if s1 == s2 {
            return BitBoard::new();
        }
        let file_dir: i8;
        let rank_dir: i8;
        let file1 = s1 % 8;
        let rank1 = s1 / 8;
        let file2 = s2 % 8;
        let rank2 = s2 / 8;

        if file1 > file2 {
            file_dir = -1;
        } else if file1 < file2 {
            file_dir = 1;
        } else {
            file_dir = 0;
        }

        if rank1 > rank2 {
            rank_dir = -1;
        } else if rank1 < rank2 {
            rank_dir = 1;
        } else {
            rank_dir = 0;
        }

        self.get_direction(s1, file_dir, rank_dir) & self.get_direction(s2, -file_dir, -rank_dir)
    }

    pub fn _new(
        bishop_attack_data: SlidingAttackData,
        rook_attack_data: SlidingAttackData,
        leaping_attack_data: LeapingAttackData,
        promotion_ranks: Vec<BitBoard>,
        pawn_single_push_ranks: Vec<BitBoard>,
        pawn_double_push_ranks: Vec<BitBoard>,
        directions: Vec<Vec<BitBoard>>,
    ) -> (r: Self)
        ensures
            r@ == (MoveTables {
                bishop: bishop_attack_data@,
                rook: rook_attack_data@,
                leaping: leaping_attack_data@,
                single_push_ranks: words(pawn_single_push_ranks@),
                double_push_ranks: words(pawn_double_push_ranks@),
                promotion_ranks: words(promotion_ranks@),
                directions: word_rows(directions@),
            }),
    {
        Self {
            bishop_attack_data,
            rook_attack_data,
            leaping_attack_data,
            promotion_ranks,
            pawn_single_push_ranks,
            pawn_double_push_ranks,
            directions,
        }
    }
}

/// The Zobrist keys: twelve rows of piece-square keys indexed by
/// `colour * 6 + kind`, one key for black to move, sixteen keys indexed by
/// the mask of castle rights, and eight keys indexed by the en-passant file.
pub struct ZobristHashes {
    pub pieces: Vec<Vec<u64>>,
    pub side: u64,
    pub castle_rights: Vec<u64>,
    pub en_passant_file: Vec<u64>,
}

impl View for ZobristHashes {
    type V = Keys;

    open spec fn view(&self) -> Keys {
        Keys {
            pieces: key_rows(self.pieces@),
            side: self.side,
            castle_rights: self.castle_rights@,
            en_passant_file: self.en_passant_file@,
        }
    }
}

impl Clone for ZobristHashes {
    fn clone(&self) -> (r: Self)
        ensures
            r@ == self@,
    {
        let r = ZobristHashes {
            pieces: self.pieces.clone(),
            side: self.side,
            castle_rights: self.castle_rights.clone(),
            en_passant_file: self.en_passant_file.clone(),
        };
        assert(r@.pieces =~~= self@.pieces);
        assert(r@.castle_rights =~= self@.castle_rights);
        assert(r@.en_passant_file =~= self@.en_passant_file);
        r
    }
}

/// Whether a table of boards has `rows` rows of `columns` entries each.
pub fn board_table_has_shape(table: &Vec<Vec<BitBoard>>, rows: usize, columns: usize) -> (r: bool)
    ensures
        r == has_shape(word_rows(table@), rows as nat, columns as nat),
{
    if table.len() != rows {
        return false;
    }
    let mut i: usize = 0;
    while i < table.len()
        invariant
            i <= table.len(),
            table.len() == rows,
            forall|k: int| 0 <= k < i ==> (#[trigger] word_rows(table@)[k]).len() == columns,
        decreases table.len() - i,
    {
        if table[i].len() != columns {
            assert(word_rows(table@)[i as int].len() != columns);
            return false;
        }
        i += 1;
    }
    true
}

/// Whether a table of keys has `rows` rows of `columns` entries each.
pub fn key_table_has_shape(table: &Vec<Vec<u64>>, rows: usize, columns: usize) -> (r: bool)
    ensures
        r == has_shape(key_rows(table@), rows as nat, columns as nat),
{
    if table.len() != rows {
        return false;
    }
    let mut i: usize = 0;
    while i < table.len()
        invariant
            i <= table.len(),
            table.len() == rows,
            forall|k: int| 0 <= k < i ==> (#[trigger] key_rows(table@)[k]).len() == columns,
        decreases table.len() - i,
    {
        if table[i].len() != columns {
            assert(key_rows(table@)[i as int].len() != columns);
            return false;
        }
        i += 1;
    }
    true
}

impl SlidingAttackData {
    /// Whether the table is well formed.
    pub fn well_formed(&self) -> (r: bool)
        ensures
            r == self@.wf(),
    {
        if self.attacks.len() != 64 || self.magic_numbers.len() != 64 || self.masks.len() != 64
            || self.relevant_bits.len() != 64 {
            return false;
        }
        let mut square: usize = 0;
        while square < 64
            invariant
                square <= 64,
                self.attacks.len() == 64,
                self.magic_numbers.len() == 64,
                self.masks.len() == 64,
                self.relevant_bits.len() == 64,
                forall|sq: int|
                    0 <= sq < square ==> 1 <= #[trigger] self@.bits[sq] <= 12
                        && self@.attacks[sq].len() >= (1u64 << self@.bits[sq]),
            decreases 64 - square,
        {
            let bits = self.relevant_bits[square];
            if bits < 1 || bits > 12 {
                assert(!(1 <= self@.bits[square as int] <= 12));
                return false;
            }
            proof {
                lemma_magic_index_bound(0, bits);
            }
            if (self.attacks[square].len() as u64) < (1u64 << bits) {
                assert(!(self@.attacks[square as int].len() >= (1u64 << self@.bits[square as int])));
                return false;
            }
            square += 1;
        }
        true
    }

    /// The attacks by square and slot.
    pub fn attacks(&self) -> (r: &Vec<Vec<BitBoard>>)
        ensures
            word_rows(r@) == self@.attacks,
    {
        &self.attacks
    }

    /// The magic multipliers by square.
    pub fn magic_numbers(&self) -> (r: &Vec<BitBoard>)
        ensures
            words(r@) == self@.magics,
    {
        &self.magic_numbers
    }

    /// The relevance masks by square.
    pub fn masks(&self) -> (r: &Vec<BitBoard>)
        ensures
            words(r@) == self@.masks,
    {
        &self.masks
    }

    /// The numbers of relevant bits by square.
    pub fn relevant_bits(&self) -> (r: &Vec<u8>)
        ensures
            r@ == self@.bits,
    {
        &self.relevant_bits
    }
}

impl LeapingAttackData {
    /// Whether the tables are well formed.
    pub fn well_formed(&self) -> (r: bool)
        ensures
            r == self@.wf(),
    {
        board_table_has_shape(&self.pawn_attacks, 2, 64) && board_table_has_shape(
            &self.pawn_moves,
            2,
            64,
        ) && self.knight.len() == 64 && self.king.len() == 64
    }
}

impl AllMoveData {
    /// Whether the tables are well formed.
    pub fn well_formed(&self) -> (r: bool)
        ensures
            r == self@.wf(),
    {
        self.bishop_attack_data.well_formed() && self.rook_attack_data.well_formed()
            && self.leaping_attack_data.well_formed() && self.pawn_single_push_ranks.len() == 2
            && self.pawn_double_push_ranks.len() == 2 && self.promotion_ranks.len() == 2
            && board_table_has_shape(&self.directions, 8, 64)
    }

    /// The sliding-attack table of bishops.
    pub fn bishop_attack_data(&self) -> (r: &SlidingAttackData)
        ensures
            r@ == self@.bishop,
    {
        &self.bishop_attack_data
    }

    /// The sliding-attack table of rooks.
    pub fn rook_attack_data(&self) -> (r: &SlidingAttackData)
        ensures
            r@ == self@.rook,
    {
        &self.rook_attack_data
    }

    /// The tables of the leapers.
    pub fn leaping_attack_data(&self) -> (r: &LeapingAttackData)
        ensures
            r@ == self@.leaping,
    {
        &self.leaping_attack_data
    }

    /// The single-push rank masks by colour.
    pub fn pawn_single_push_ranks(&self) -> (r: &Vec<BitBoard>)
        ensures
            words(r@) == self@.single_push_ranks,
    {
        &self.pawn_single_push_ranks
    }

    /// The double-push rank masks by colour.
    pub fn pawn_double_push_ranks(&self) -> (r: &Vec<BitBoard>)
        ensures
            words(r@) == self@.double_push_ranks,
    {
        &self.pawn_double_push_ranks
    }

    /// The promotion rank masks by colour.
    pub fn promotion_ranks(&self) -> (r: &Vec<BitBoard>)
        ensures
            words(r@) == self@.promotion_ranks,
    {
        &self.promotion_ranks
    }

    /// The rays by direction and square.
    pub fn directions(&self) -> (r: &Vec<Vec<BitBoard>>)
        ensures
            word_rows(r@) == self@.directions,
    {
        &self.directions
    }
}

impl ZobristHashes {
    /// Whether the keys are well formed.
    pub fn well_formed(&self) -> (r: bool)
        ensures
            r == self@.wf(),
    {
        key_table_has_shape(&self.pieces, 12, 64) && self.castle_rights.len() == 16
            && self.en_passant_file.len() == 8
    }

    pub fn new() -> (r: Self)
        ensures
            r@.wf(),
            r@.side == 0,
            forall|i: int, j: int| 0 <= i < 12 && 0 <= j < 64 ==> r@.pieces[i][j] == 0,
            forall|i: int| 0 <= i < 16 ==> r@.castle_rights[i] == 0,
            forall|i: int| 0 <= i < 8 ==> r@.en_passant_file[i] == 0,
    {
        ZobristHashes {
            pieces: vec![vec![0; 64]; 12],
            side: 0,
            en_passant_file: vec![0; 8],
            castle_rights: vec![0; 16],
        }
    }
}

} // verus!
