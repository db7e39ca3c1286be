//! Scores as exact fixed-point numbers.
//!
//! A score counts units of one ten-billionth. It is held in 192 bits, which
//! is wide enough for the heuristic on any pool.

use vstd::prelude::*;

verus! {

/// How many units make a score of one.
pub const SCORE_UNITS_PER_ONE: u64 = 10_000_000_000;

/// Two to the power 128: the weight of the upper word of a score.
pub open spec fn upper_weight() -> int {
    0x1_0000_0000_0000_0000_0000_0000_0000_0000int
}

/// Whether a number of units is within what a score can hold.
pub open spec fn fits_score(units: int) -> bool {
    -0x8000_0000_0000_0000 * upper_weight() <= units < 0x8000_0000_0000_0000 * upper_weight()
}

/// A signed fixed-point number, in units of `1 / SCORE_UNITS_PER_ONE`.
///
/// Every integer from `-2^191` up to `2^191 - 1` has exactly one `Score`, so
/// two scores are equal when and only when their units are.
#[derive(Debug, Clone, Copy, PartialEq, Eq)]
pub struct Score {
    upper: i64,
    lower: u128,
}

impl Score {
    /// The score as an integer number of units.
    pub closed spec fn units(&self) -> int {
        self.upper * upper_weight() + self.lower
    }

    /// The score with the given number of units, for any number of units
    /// that a score can hold.
    pub closed spec fn of(units: int) -> Score {
        Score { upper: (units / upper_weight()) as i64, lower: (units % upper_weight()) as u128 }
    }

    /// The score of nothing.
    pub fn zero() -> (s: Score)
        ensures
            s.units() == 0,
    {
        Score { upper: 0, lower: 0 }
    }

    /// The score of `units` units.
    pub fn from_units(units: i128) -> (s: Score)
        ensures
            s.units() == units,
    {
        if units >= 0 {
            Score { upper: 0, lower: units as u128 }
        } else {
            let below: u128 = (-(units + 1)) as u128;
            Score { upper: -1, lower: u128::MAX - below }
        }
    }

    /// The units as an `i128`, where they fit in one.
    pub fn to_units(&self) -> (units: Option<i128>)
        ensures
            units is Some <==> i128::MIN <= self.units() <= i128::MAX,
            units is Some ==> units->0 == self.units(),
    {
        if self.upper == 0 && self.lower <= i128::MAX as u128 {
            Some(self.lower as i128)
        } else if self.upper == -1 && self.lower > i128::MAX as u128 {
            let below: u128 = u128::MAX - self.lower;
            Some(-(below as i128) - 1)
        } else {
            None
        }
    }

    /// The two words of the score: `units == upper * 2^128 + lower`.
    pub fn parts(&self) -> (words: (i64, u128))
        ensures
            self.units() == words.0 * upper_weight() + words.1,
    {
        (self.upper, self.lower)
    }

    /// Whether the score is below zero.
    pub fn is_negative(&self) -> (negative: bool)
        ensures
            negative == (self.units() < 0),
    {
        self.upper < 0
    }

    /// Whether this score is strictly smaller than `other`.
    pub fn is_below(&self, other: &Score) -> (below: bool)
        ensures
            below == (self.units() < other.units()),
    {
        self.upper < other.upper || (self.upper == other.upper && self.lower < other.lower)
    }

    /// The product `factor0 * factor1`, where it is known to fit in one word.
    pub(crate) fn from_product(factor0: u128, factor1: u128) -> (s: Score)
        requires
            factor0 * factor1 <= u128::MAX,
        ensures
            s.units() == factor0 * factor1,
    {
        Score { upper: 0, lower: factor0 * factor1 }
    }

    /// Minus the sum of two words, which may itself need more than one word.
    pub(crate) fn negated_sum(term0: u128, term1: u128) -> (s: Score)
        ensures
            s.units() == -(term0 + term1),
    {
        match term0.checked_add(term1) {
            Some(sum) => {
                if sum == 0 {
                    Score { upper: 0, lower: 0 }
                } else {
                    Score { upper: -1, lower: (u128::MAX - sum) + 1 }
                }
            },
            None => {
                let beyond: u128 = term0 - (u128::MAX - term1) - 1;
                if beyond == 0 {
                    Score { upper: -1, lower: 0 }
                } else {
                    Score { upper: -2, lower: (u128::MAX - beyond) + 1 }
                }
            },
        }
    }
}

/// The score of a number of units has those units, where a score can hold
/// them.
pub proof fn lemma_units_of_score(units: int)
    requires
        fits_score(units),
    ensures
        Score::of(units).units() == units,
{
    let weight: int = upper_weight();
    assert(units == (units / weight) * weight + units % weight && 0 <= units % weight < weight
        && -0x8000_0000_0000_0000 <= units / weight < 0x8000_0000_0000_0000) by (nonlinear_arith)
        requires
            weight == 0x1_0000_0000_0000_0000_0000_0000_0000_0000int,
            -0x8000_0000_0000_0000 * weight <= units < 0x8000_0000_0000_0000 * weight,
    ;
}

/// A score is the score of its units.
pub proof fn lemma_score_of_units(s: Score)
    ensures
        Score::of(s.units()) == s,
{
    let weight: int = upper_weight();
    let units: int = s.units();
    assert(units / weight == s.upper && units % weight == s.lower) by (nonlinear_arith)
        requires
            units == s.upper * weight + s.lower,
            0 <= s.lower < weight,
            weight > 0,
    ;
}

/// Scores with the same units are the same score.
pub proof fn lemma_units_determine_score(a: Score, b: Score)
    requires
        a.units() == b.units(),
    ensures
        a == b,
{
}

} // verus!
