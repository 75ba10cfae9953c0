//! Kinds of municipal taxes, purposes of municipal bonds, and the peak hours
//! in which road tolls are raised.

use vstd::prelude::*;

verus! {

/// Kind of a municipal tax.
#[derive(Copy, Clone, Debug, PartialEq, Eq, Structural)]
pub enum TaxType {
    /// Annual tax on land value.
    LandValue,
    /// Tax on corporate profits.
    CorporateIncome,
    /// Tax on sales.
    SalesTax,
    /// Road toll that varies with the time of day.
    DynamicToll,
}

/// What a municipal bond pays for.
#[derive(Copy, Clone, Debug, PartialEq, Eq, Structural)]
pub enum BondPurpose {
    Infrastructure,
    Emergency,
    Expansion,
    DebtRefinancing,
}

/// Peak hours of the dynamic toll: a time of day (minutes since midnight)
/// whose hour is 7, 8 or 9 in the morning or 17, 18 or 19 in the evening.
pub fn is_peak_hour(time_of_day: u16) -> (r: bool)
    ensures
        r == ((7 <= time_of_day / 60 <= 9) || (17 <= time_of_day / 60 <= 19)),
{
    let hours = time_of_day / 60;
    (hours >= 7 && hours <= 9) || (hours >= 17 && hours <= 19)
}

} // verus!
