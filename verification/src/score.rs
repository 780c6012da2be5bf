//! The value of a position for the side to move: a forced mate, a draw, or
//! a number of centipawns.

use std::cmp::Ordering;
use vstd::prelude::*;
use vstd::std_specs::cmp::{PartialEqSpecImpl, PartialOrdSpecImpl};
use vstd::std_specs::ops::NegSpecImpl;

verus! {

/// A score. `Checkmate((true, n))` is a mate that the side to move forces
/// at ply `n`, `Checkmate((false, n))` one that it suffers at ply `n`.
#[derive(Eq, Copy, Clone, Debug)]
pub enum Score {
    Checkmate((bool, u32)),
    Draw,
    Playing(i32),
}

impl Score {
    /// The place of a score in the order of scores, as an integer: a mate
    /// won is above every number and the higher the sooner it comes, a
    /// mate lost is below every number and the higher the later it comes,
    /// and a draw is the number 0.
    pub open spec fn key(self) -> int {
        match self {
            Score::Checkmate((true, n)) => 0x2_0000_0000 - n,
            Score::Checkmate((false, n)) => n - 0x2_0000_0000,
            Score::Draw => 0,
            Score::Playing(x) => x + 0,
        }
    }

    /// Whether the score can be negated: it is not the least number.
    pub open spec fn negatable(self) -> bool {
        self matches Score::Playing(x) ==> x > -0x8000_0000
    }

    /// The score from the other side's point of view.
    pub open spec fn negated(self) -> Score {
        match self {
            Score::Checkmate((b, n)) => Score::Checkmate((!b, n)),
            Score::Playing(n) => Score::Playing((0 - n) as i32),
            Score::Draw => Score::Draw,
        }
    }

    /// The least score: a mate suffered at once.
    pub fn least() -> (r: Score)
        ensures
            r == Score::Checkmate((false, 0)),
    {
        Score::Checkmate((false, 0))
    }

    /// The greatest score: a mate forced at once.
    pub fn greatest() -> (r: Score)
        ensures
            r == Score::Checkmate((true, 0)),
    {
        Score::Checkmate((true, 0))
    }
}

/// Negating a score mirrors its place in the order.
pub proof fn lemma_negated_key(s: Score)
    requires
        s.negatable(),
    ensures
        s.negated().key() == -s.key(),
        s.negated().negatable(),
        s.negated().negated() == s,
{
}

/// No score is below the least or above the greatest.
pub proof fn lemma_score_bounds(s: Score)
    ensures
        Score::Checkmate((false, 0)).key() <= s.key() <= Score::Checkmate((true, 0)).key(),
{
}

impl PartialEq for Score {
    fn eq(&self, other: &Self) -> (r: bool) {
        match (self, other) {
            (Score::Playing(a), Score::Draw) => *a == 0,
            (Score::Draw, Score::Playing(b)) => *b == 0,
            (Score::Playing(a), Score::Playing(b)) => *a == *b,
            (Score::Checkmate((b1, n1)), Score::Checkmate((b2, n2))) => *b1 == *b2 && *n1 == *n2,
            (Score::Draw, Score::Draw) => true,
            _ => false,
        }
    }
}

impl PartialEqSpecImpl for Score {
    open spec fn obeys_eq_spec() -> bool {
        true
    }

    open spec fn eq_spec(&self, other: &Self) -> bool {
        self.key() == other.key()
    }
}

/// How two integers compare.
pub open spec fn int_order(a: int, b: int) -> Ordering {
    if a < b {
        Ordering::Less
    } else if a > b {
        Ordering::Greater
    } else {
        Ordering::Equal
    }
}

fn order_u32(a: u32, b: u32) -> (r: Ordering)
    ensures
        r == int_order(a + 0, b + 0),
{
    if a < b {
        Ordering::Less
    } else if a > b {
        Ordering::Greater
    } else {
        Ordering::Equal
    }
}

fn order_i32(a: i32, b: i32) -> (r: Ordering)
    ensures
        r == int_order(a + 0, b + 0),
{
    if a < b {
        Ordering::Less
    } else if a > b {
        Ordering::Greater
    } else {
        Ordering::Equal
    }
}

impl PartialOrd for Score {
    fn partial_cmp(&self, other: &Self) -> (r: Option<Ordering>) {
        match (self, other) {
            (Score::Checkmate((b1, n1)), Score::Checkmate((b2, n2))) => {
                if *b1 == *b2 {
                    if *b1 {
                        Some(order_u32(*n2, *n1))
                    } else {
                        Some(order_u32(*n1, *n2))
                    }
                } else if *b1 {
                    Some(Ordering::Greater)
                } else {
                    Some(Ordering::Less)
                }
            },
            (Score::Checkmate((true, _)), _) => Some(Ordering::Greater),
            (_, Score::Checkmate((true, _))) => Some(Ordering::Less),
            (Score::Checkmate((false, _)), _) => Some(Ordering::Less),
            (_, Score::Checkmate((false, _))) => Some(Ordering::Greater),
            (Score::Playing(a), Score::Playing(b)) => Some(order_i32(*a, *b)),
            (Score::Draw, Score::Playing(x)) => Some(order_i32(0, *x)),
            (Score::Playing(x), Score::Draw) => Some(order_i32(*x, 0)),
            (Score::Draw, Score::Draw) => Some(Ordering::Equal),
        }
    }
}

impl PartialOrdSpecImpl for Score {
    open spec fn obeys_partial_cmp_spec() -> bool {
        true
    }

    open spec fn partial_cmp_spec(&self, other: &Self) -> Option<Ordering> {
        Some(int_order(self.key(), other.key()))
    }
}

impl std::ops::Neg for Score {
    type Output = Self;

    fn neg(self) -> (r: Self) {
        match self {
            Score::Checkmate((b, n)) => Score::Checkmate((!b, n)),
            Score::Playing(n) => Score::Playing(-n),
            Score::Draw => Score::Draw,
        }
    }
}

impl NegSpecImpl for Score {
    open spec fn obeys_neg_spec() -> bool {
        true
    }

    open spec fn neg_req(self) -> bool {
        self.negatable()
    }

    open spec fn neg_spec(self) -> Self {
        self.negated()
    }
}

/// The scores of three kinds in their order: a mate won sooner is above a
/// mate won later, which is above every number; every number is above a
/// mate lost, and a mate lost later is above a mate lost sooner; and a draw
/// is the number 0.
pub proof fn lemma_score_order(sooner: u32, later: u32, high: i32, low: i32)
    requires
        sooner < later,
        low < high,
    ensures
        Score::Checkmate((true, sooner)).key() > Score::Checkmate((true, later)).key(),
        Score::Checkmate((true, later)).key() > Score::Playing(high).key(),
        Score::Playing(high).key() > Score::Playing(low).key(),
        Score::Playing(low).key() > Score::Checkmate((false, later)).key(),
        Score::Checkmate((false, later)).key() > Score::Checkmate((false, sooner)).key(),
        Score::Playing(0).key() == Score::Draw.key(),
{
}

} // verus!
