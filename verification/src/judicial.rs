//! Kinds of legal cases and levels of courts.

use vstd::prelude::*;

verus! {

/// Kind of a legal case.
#[derive(Debug, Clone, Copy, PartialEq, Eq, Hash, Structural)]
pub enum CaseType {
    /// Civil damages (traffic accident, malpractice).
    CivilDamages,
    /// Environmental (pollution, illegal logging).
    Environmental,
    /// Corporate (patents, monopoly, contracts).
    Corporate,
    /// Labour (unfair dismissal, unsafe conditions).
    Labor,
    /// Property (expropriation, zoning).
    Property,
    /// Constitutional (civil rights, privacy).
    Constitutional,
    /// Tax (evasion, assessments).
    Tax,
    /// Minor criminal case (fines, vandalism).
    MinorCriminal,
    /// Major criminal case (fraud, violence).
    MajorCriminal,
    /// Appeal.
    Appeal,
}

impl CaseType {
    /// Position of the kind in the fee and settlement tables, 0 to 9 in
    /// declaration order.
    pub fn index(&self) -> (r: usize)
        ensures
            r == match *self {
                CaseType::CivilDamages => 0usize,
                CaseType::Environmental => 1,
                CaseType::Corporate => 2,
                CaseType::Labor => 3,
                CaseType::Property => 4,
                CaseType::Constitutional => 5,
                CaseType::Tax => 6,
                CaseType::MinorCriminal => 7,
                CaseType::MajorCriminal => 8,
                CaseType::Appeal => 9,
            },
    {
        match self {
            CaseType::CivilDamages => 0,
            CaseType::Environmental => 1,
            CaseType::Corporate => 2,
            CaseType::Labor => 3,
            CaseType::Property => 4,
            CaseType::Constitutional => 5,
            CaseType::Tax => 6,
            CaseType::MinorCriminal => 7,
            CaseType::MajorCriminal => 8,
            CaseType::Appeal => 9,
        }
    }
}

/// Level of a court, lowest first.
#[derive(Debug, Clone, Copy, PartialEq, Eq, Structural)]
pub enum CourtLevel {
    /// Municipal court (fines, minor cases).
    Municipal,
    /// District court of first instance (civil, labour).
    District,
    /// Court of appeals.
    Appellate,
    /// Supreme or constitutional court.
    Supreme,
    /// International tribunal or arbitration.
    International,
}

impl CourtLevel {
    /// Rank of the level, 0 (municipal) to 4 (international).
    pub fn index(&self) -> (r: usize)
        ensures
            r == match *self {
                CourtLevel::Municipal => 0usize,
                CourtLevel::District => 1,
                CourtLevel::Appellate => 2,
                CourtLevel::Supreme => 3,
                CourtLevel::International => 4,
            },
    {
        match self {
            CourtLevel::Municipal => 0,
            CourtLevel::District => 1,
            CourtLevel::Appellate => 2,
            CourtLevel::Supreme => 3,
            CourtLevel::International => 4,
        }
    }
}

} // verus!
