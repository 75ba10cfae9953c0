//! Shop bankruptcy and the decay of abandoned buildings.
//!
//! A shop with goods on its shelves sells and is supplied; a shop without
//! goods counts the ticks it has gone unsupplied and goes bankrupt once that
//! count passes `BANKRUPTCY_TICKS`, leaving an abandoned building that is
//! cleared away after `ABANDONED_LIFETIME` ticks.

use vstd::prelude::*;

verus! {

/// Ticks a shop may go without supply before it goes bankrupt.
pub const BANKRUPTCY_TICKS: u32 = 300;

/// Ticks an abandoned building stands before it is cleared away.
pub const ABANDONED_LIFETIME: u32 = 5000;

/// Marks a building as abandoned (bankrupt).
#[derive(Copy, Clone, Debug, PartialEq, Eq, Structural)]
pub struct AbandonedBuilding {
    /// Ticks since the building was abandoned.
    pub abandoned_ticks: u32,
}

impl AbandonedBuilding {
    /// Counts one more tick; the result says whether the building is now due
    /// to be cleared away (more than `ABANDONED_LIFETIME` ticks).
    pub fn tick(&mut self) -> (expired: bool)
        requires
            old(self).abandoned_ticks < u32::MAX,
        ensures
            final(self).abandoned_ticks == old(self).abandoned_ticks + 1,
            expired == (final(self).abandoned_ticks > ABANDONED_LIFETIME),
    {
        self.abandoned_ticks = self.abandoned_ticks + 1;
        self.abandoned_ticks > ABANDONED_LIFETIME
    }
}

/// How long a shop has gone without goods.
#[derive(Copy, Clone, Debug, PartialEq, Eq, Structural)]
pub struct SupplyTimer {
    pub ticks_without_supply: u32,
}

impl SupplyTimer {
    /// One tick of a shop: with goods in stock the timer resets; without, it
    /// counts the tick, and the result says whether the shop is now bankrupt
    /// (more than `BANKRUPTCY_TICKS` ticks unsupplied).
    pub fn tick(&mut self, has_goods: bool) -> (bankrupt: bool)
        requires
            !has_goods ==> old(self).ticks_without_supply < u32::MAX,
        ensures
            has_goods ==> final(self).ticks_without_supply == 0 && !bankrupt,
            !has_goods ==> final(self).ticks_without_supply == old(self).ticks_without_supply + 1,
            !has_goods ==> bankrupt == (final(self).ticks_without_supply > BANKRUPTCY_TICKS),
    {
        if has_goods {
            self.ticks_without_supply = 0;
            false
        } else {
            self.ticks_without_supply = self.ticks_without_supply + 1;
            self.ticks_without_supply > BANKRUPTCY_TICKS
        }
    }
}

} // verus!
