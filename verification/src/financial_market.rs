//! Credit ratings of the municipality.

use vstd::prelude::*;

verus! {

/// Credit rating of the municipality, worst first: `D` (default) up to
/// `AAA` (highest quality).
#[derive(Debug, Clone, Copy, PartialEq, Eq, PartialOrd, Ord, Structural)]
pub enum CreditRating {
    /// Default: the city is bankrupt.
    D,
    /// Junk bonds.
    CCC,
    B,
    BB,
    /// Investment grade.
    BBB,
    A,
    AA,
    /// Highest quality.
    AAA,
}

impl CreditRating {
    /// Rank of the rating, 0 (`D`) to 7 (`AAA`).
    pub fn rank(&self) -> (r: u8)
        ensures
            r == match *self {
                CreditRating::D => 0u8,
                CreditRating::CCC => 1,
                CreditRating::B => 2,
                CreditRating::BB => 3,
                CreditRating::BBB => 4,
                CreditRating::A => 5,
                CreditRating::AA => 6,
                CreditRating::AAA => 7,
            },
    {
        match self {
            CreditRating::D => 0,
            CreditRating::CCC => 1,
            CreditRating::B => 2,
            CreditRating::BB => 3,
            CreditRating::BBB => 4,
            CreditRating::A => 5,
            CreditRating::AA => 6,
            CreditRating::AAA => 7,
        }
    }
}

} // verus!
