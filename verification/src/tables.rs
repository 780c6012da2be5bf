//! The precomputed tables as mathematical values: sequences of 64-bit words.

use crate::common::{spec_direction_to_index, BitBoard, Color, Pieces};
use vstd::prelude::*;
use vstd::wrapping::u64_specs::wrapping_mul;

verus! {

/// The words of a row of boards.
pub open spec fn words(v: Seq<BitBoard>) -> Seq<u64> {
    Seq::new(v.len(), |i: int| v[i].0)
}

/// The words of a table of boards, row by row.
pub open spec fn word_rows(v: Seq<Vec<BitBoard>>) -> Seq<Seq<u64>> {
    Seq::new(v.len(), |i: int| words(v[i]@))
}

/// The rows of a table of keys.
pub open spec fn key_rows(v: Seq<Vec<u64>>) -> Seq<Seq<u64>> {
    Seq::new(v.len(), |i: int| v[i]@)
}

/// Whether a table has `rows` rows of `columns` entries each.
pub open spec fn has_shape(t: Seq<Seq<u64>>, rows: nat, columns: nat) -> bool {
    t.len() == rows && forall|i: int| 0 <= i < rows ==> (#[trigger] t[i]).len() == columns
}

/// The slot of a sliding-attack table that an occupancy is hashed to.
pub open spec fn magic_index(occupancy: u64, mask: u64, magic: u64, bits: u8) -> u64 {
    wrapping_mul(occupancy & mask, magic) >> ((64 - bits) as u8)
}

/// The sliding-attack table of one kind of slider: per square a relevance
/// mask, a magic multiplier, the number of relevant bits, and the attacks
/// by slot.
pub struct SlidingTable {
    pub attacks: Seq<Seq<u64>>,
    pub magics: Seq<u64>,
    pub masks: Seq<u64>,
    pub bits: Seq<u8>,
}

impl SlidingTable {
    /// Every square has its entries, and every slot that an occupancy can be
    /// hashed to exists.
    pub open spec fn wf(self) -> bool {
        &&& self.attacks.len() == 64
        &&& self.magics.len() == 64
        &&& self.masks.len() == 64
        &&& self.bits.len() == 64
        &&& forall|sq: int|
            0 <= sq < 64 ==> 1 <= #[trigger] self.bits[sq] <= 12 && self.attacks[sq].len() >= (1u64
                << self.bits[sq])
    }

    /// The attack set that the table gives for a slider on `square` with the
    /// board occupied as in `occupancy`.
    pub open spec fn lookup(self, square: int, occupancy: u64) -> u64 {
        self.attacks[square][magic_index(
            occupancy,
            self.masks[square],
            self.magics[square],
            self.bits[square],
        ) as int]
    }
}

/// The tables of the pieces that leap, and the push geometry of pawns.
pub struct LeapingTable {
    pub pawn_attacks: Seq<Seq<u64>>,
    pub knight: Seq<u64>,
    pub king: Seq<u64>,
    pub pawn_moves: Seq<Seq<u64>>,
}

impl LeapingTable {
    pub open spec fn wf(self) -> bool {
        &&& has_shape(self.pawn_attacks, 2, 64)
        &&& has_shape(self.pawn_moves, 2, 64)
        &&& self.knight.len() == 64
        &&& self.king.len() == 64
    }
}

/// All the tables that move generation reads.
pub struct MoveTables {
    pub bishop: SlidingTable,
    pub rook: SlidingTable,
    pub leaping: LeapingTable,
    pub single_push_ranks: Seq<u64>,
    pub double_push_ranks: Seq<u64>,
    pub promotion_ranks: Seq<u64>,
    pub directions: Seq<Seq<u64>>,
}

impl MoveTables {
    pub open spec fn wf(self) -> bool {
        &&& self.bishop.wf()
        &&& self.rook.wf()
        &&& self.leaping.wf()
        &&& self.single_push_ranks.len() == 2
        &&& self.double_push_ranks.len() == 2
        &&& self.promotion_ranks.len() == 2
        &&& has_shape(self.directions, 8, 64)
    }

    /// The squares that a piece of kind `piece` and colour `side` on
    /// `square` attacks, with the board occupied as in `occupancy`.
    pub open spec fn attacks(self, square: int, piece: Pieces, side: Color, occupancy: u64) -> u64 {
        match piece {
            Pieces::PAWN => self.leaping.pawn_attacks[side.code()][square],
            Pieces::KNIGHT => self.leaping.knight[square],
            Pieces::BISHOP => self.bishop.lookup(square, occupancy),
            Pieces::ROOK => self.rook.lookup(square, occupancy),
            Pieces::KING => self.leaping.king[square],
            Pieces::QUEEN => self.bishop.lookup(square, occupancy) | self.rook.lookup(
                square,
                occupancy,
            ),
        }
    }

    /// The ray from `square` in the direction `(file_dir, rank_dir)`.
    pub open spec fn direction(self, square: int, file_dir: int, rank_dir: int) -> u64 {
        self.directions[spec_direction_to_index(file_dir, rank_dir)][square]
    }

    /// The squares strictly between two squares of one line; empty when the
    /// squares are equal.
    pub open spec fn between(self, s1: int, s2: int) -> u64 {
        if s1 == s2 {
            0
        } else {
            let file_dir = signum(s2 % 8 - s1 % 8);
            let rank_dir = signum(s2 / 8 - s1 / 8);
            self.direction(s1, file_dir, rank_dir) & self.direction(s2, -file_dir, -rank_dir)
        }
    }
}

/// The sign of an integer: -1, 0 or 1.
pub open spec fn signum(x: int) -> int {
    if x < 0 {
        -1
    } else if x > 0 {
        1
    } else {
        0
    }
}

/// The king's target square and the squares that the king crosses when it
/// castles by `right`, for the side that owns that right.
pub open spec fn castle_info(right: u8, side: Color) -> Option<(u8, u64)> {
    if right == 0b1 && side == Color::WHITE {
        Some((62u8, ((1u64 << 62) | (1u64 << 61))))
    } else if right == 0b10 && side == Color::WHITE {
        Some((58u8, ((1u64 << 59) | (1u64 << 58))))
    } else if right == 0b100 && side == Color::BLACK {
        Some((6u8, ((1u64 << 5) | (1u64 << 6))))
    } else if right == 0b1000 && side == Color::BLACK {
        Some((2u8, ((1u64 << 2) | (1u64 << 3))))
    } else {
        None
    }
}

/// The Zobrist keys as mathematical values.
pub struct Keys {
    pub pieces: Seq<Seq<u64>>,
    pub side: u64,
    pub castle_rights: Seq<u64>,
    pub en_passant_file: Seq<u64>,
}

impl Keys {
    /// Twelve rows of 64 piece-square keys, 16 castle-rights keys and 8
    /// en-passant-file keys.
    pub open spec fn wf(self) -> bool {
        &&& has_shape(self.pieces, 12, 64)
        &&& self.castle_rights.len() == 16
        &&& self.en_passant_file.len() == 8
    }
}

} // verus!
