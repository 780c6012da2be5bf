//! A move as a record, and the same move packed into one 32-bit word.

use crate::common::Pieces;
use vstd::prelude::*;

verus! {

/// A move with everything that making and unmaking it needs.
#[derive(Copy, Clone, Debug)]
pub struct Move {
    pub source_square: u8,
    pub target_square: u8,
    pub piece_moved: Pieces,
    pub promoted_piece: Option<Pieces>,
    pub capture: Option<Pieces>,
    pub double_push: bool,
    pub en_passant: bool,
    pub castle: bool,
}

/// The optional piece kind that a 4-bit code stands for.
pub open spec fn option_from_code(c: int) -> Option<Pieces> {
    if c == 15 {
        None
    } else {
        Some(Pieces::from_code(c))
    }
}

/// The word that packs the eight fields: source in bits 0..6, target in
/// 6..12, the piece moved in 12..16, the promoted piece in 16..20, the
/// captured piece in 20..24, and the three flags in bits 24, 25 and 26.
pub open spec fn pack(
    source: u32,
    target: u32,
    piece: u32,
    promoted: u32,
    capture: u32,
    double_push: u32,
    en_passant: u32,
    castle: u32,
) -> u32 {
    source | (target << 6) | (piece << 12) | (promoted << 16) | (capture << 20) | (double_push
        << 24) | (en_passant << 25) | (castle << 26)
}

proof fn lemma_unpack(
    source: u32,
    target: u32,
    piece: u32,
    promoted: u32,
    capture: u32,
    double_push: u32,
    en_passant: u32,
    castle: u32,
)
    by (bit_vector)
    requires
        source < 64,
        target < 64,
        piece < 16,
        promoted < 16,
        capture < 16,
        double_push < 2,
        en_passant < 2,
        castle < 2,
    ensures
        ({
            let w = pack(
                source,
                target,
                piece,
                promoted,
                capture,
                double_push,
                en_passant,
                castle,
            );
            &&& w & 0x3F == source
            &&& (w & 0xFC0) >> 6 == target
            &&& (w & 0xF000) >> 12 == piece
            &&& (w & 0xF0000) >> 16 == promoted
            &&& (w & 0xF00000) >> 20 == capture
            &&& (w & 0x1000000) >> 24 == double_push
            &&& (w & 0x2000000) >> 25 == en_passant
            &&& (w & 0x4000000) >> 26 == castle
        }),
{
}

proof fn lemma_field_bounds(w: u32)
    by (bit_vector)
    ensures
        w & 0x3F < 64,
        (w & 0xFC0) >> 6 < 64,
        (w & 0xF000) >> 12 < 16,
        (w & 0xF0000) >> 16 < 16,
        (w & 0xF00000) >> 20 < 16,
        (w & 0x1000000) >> 24 < 2,
        (w & 0x2000000) >> 25 < 2,
        (w & 0x4000000) >> 26 < 2,
{
}

impl Move {
    pub const NONE: u32 = 0b1111;

    /// Both squares are on the board.
    pub open spec fn wf(self) -> bool {
        self.source_square < 64 && self.target_square < 64
    }

    pub fn encode(self) -> (r: EncodedMove)
        requires
            self.wf(),
        ensures
            r@ == self,
    {
        let promoted: u32 = match self.promoted_piece {
            Some(p) => p as u32,
            None => Move::NONE,
        };
        let capture: u32 = match self.capture {
            Some(c) => c as u32,
            None => Move::NONE,
        };
        let source: u32 = self.source_square as u32;
        let target: u32 = self.target_square as u32;
        let piece: u32 = self.piece_moved as u32;
        let double_push: u32 = self.double_push as u32;
        let en_passant: u32 = self.en_passant as u32;
        let castle: u32 = self.castle as u32;
        proof {
            lemma_unpack(
                source,
                target,
                piece,
                promoted,
                capture,
                double_push,
                en_passant,
                castle,
            );
        }
        let move_code: u32 = source | (target << 6) | (piece << 12) | (promoted << 16) | (capture
            << 20) | (double_push << 24) | (en_passant << 25) | (castle << 26);
        let r = EncodedMove(move_code);
        assert(r@.promoted_piece == self.promoted_piece);
        assert(r@.capture == self.capture);
        assert(r@.piece_moved == self.piece_moved);
        r
    }
}

/// A move packed into one word. Every value of this type decodes to a move
/// whose squares are on the board.
#[derive(Copy, Clone, Debug)]
pub struct EncodedMove(u32);

impl View for EncodedMove {
    type V = Move;

    closed spec fn view(&self) -> Move {
        Move {
            source_square: (self.0 & 0x3F) as u8,
            target_square: ((self.0 & 0xFC0) >> 6) as u8,
            piece_moved: Pieces::from_code(((self.0 & 0xF000) >> 12) as int),
            promoted_piece: option_from_code(((self.0 & 0xF0000) >> 16) as int),
            capture: option_from_code(((self.0 & 0xF00000) >> 20) as int),
            double_push: (self.0 & 0x1000000) >> 24 != 0,
            en_passant: (self.0 & 0x2000000) >> 25 != 0,
            castle: (self.0 & 0x4000000) >> 26 != 0,
        }
    }
}

impl EncodedMove {
    #[verifier::type_invariant]
    closed spec fn inv(self) -> bool {
        let promoted = (self.0 & 0xF0000) >> 16;
        let capture = (self.0 & 0xF00000) >> 20;
        &&& (self.0 & 0xF000) >> 12 < 6
        &&& promoted < 6 || promoted == 15
        &&& capture < 6 || capture == 15
    }

    /// The squares of a decoded move are on the board.
    pub proof fn lemma_view_wf(self)
        ensures
            self@.wf(),
    {
        lemma_field_bounds(self.0);
    }

    pub fn source_square(&self) -> (r: u8)
        ensures
            r == self@.source_square,
            r < 64,
    {
        proof {
            lemma_field_bounds(self.0);
        }
        (self.0 & 0x3F) as u8
    }

    pub fn target_square(&self) -> (r: u8)
        ensures
            r == self@.target_square,
            r < 64,
    {
        proof {
            lemma_field_bounds(self.0);
        }
        ((self.0 & 0xFC0) >> 6) as u8
    }

    pub fn piece_moved(&self) -> (r: Pieces)
        ensures
            r == self@.piece_moved,
    {
        proof {
            use_type_invariant(self);
        }
        Pieces::int_to_piece(((self.0 & 0xF000) >> 12) as u8)
    }

    pub fn promoted_piece(&self) -> (r: Option<Pieces>)
        ensures
            r == self@.promoted_piece,
    {
        proof {
            use_type_invariant(self);
        }
        let promoted = (self.0 & 0xF0000) >> 16;
        if promoted == Move::NONE {
            None
        } else {
            Some(Pieces::int_to_piece(promoted as u8))
        }
    }

    pub fn capture(&self) -> (r: Option<Pieces>)
        ensures
            r == self@.capture,
    {
        proof {
            use_type_invariant(self);
        }
        let capture = (self.0 & 0xF00000) >> 20;
        if capture == Move::NONE {
            None
        } else {
            Some(Pieces::int_to_piece(capture as u8))
        }
    }

    pub fn double_push(&self) -> (r: bool)
        ensures
            r == self@.double_push,
    {
        (self.0 & 0x1000000) >> 24 != 0
    }

    pub fn en_passant(&self) -> (r: bool)
        ensures
            r == self@.en_passant,
    {
        (self.0 & 0x2000000) >> 25 != 0
    }

    pub fn castle(&self) -> (r: bool)
        ensures
            r == self@.castle,
    {
        (self.0 & 0x4000000) >> 26 != 0
    }
}

} // verus!
