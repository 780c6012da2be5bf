//! The weights of the evaluation.

use crate::common::Pieces;
use vstd::prelude::*;

verus! {

/// The weights of the evaluation: what a piece is worth by its kind, and
/// what each square that it attacks adds.
pub struct EvalData;

/// The material weight of a kind of piece.
pub open spec fn material_weight(piece: Pieces) -> int {
    match piece {
        Pieces::KING => 0,
        Pieces::PAWN => 100,
        Pieces::KNIGHT => 320,
        Pieces::BISHOP => 330,
        Pieces::ROOK => 500,
        Pieces::QUEEN => 900,
    }
}

/// The mobility weight of a kind of piece.
pub open spec fn mobility_weight(piece: Pieces) -> int {
    match piece {
        Pieces::KING => 0,
        Pieces::PAWN => 1,
        Pieces::KNIGHT => 4,
        Pieces::BISHOP => 4,
        Pieces::ROOK => 2,
        Pieces::QUEEN => 1,
    }
}

impl EvalData {
    pub fn material_value(piece: Pieces) -> (r: i32)
        ensures
            r == material_weight(piece),
    {
        match piece {
            Pieces::KING => 0,
            Pieces::PAWN => 100,
            Pieces::KNIGHT => 320,
            Pieces::BISHOP => 330,
            Pieces::ROOK => 500,
            Pieces::QUEEN => 900,
        }
    }

    pub fn mobility_value(piece: Pieces) -> (r: i32)
        ensures
            r == mobility_weight(piece),
    {
        match piece {
            Pieces::KING => 0,
            Pieces::PAWN => 1,
            Pieces::KNIGHT => 4,
            Pieces::BISHOP => 4,
            Pieces::ROOK => 2,
            Pieces::QUEEN => 1,
        }
    }
}

} // verus!
