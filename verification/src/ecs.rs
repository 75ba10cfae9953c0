//! Kinds of buildings and zones shared by the simulation, the renderer and
//! the save format.

use vstd::prelude::*;

verus! {

/// Kind of a building.
#[derive(Copy, Clone, Debug, PartialEq, Eq, Structural)]
pub enum BuildingType {
    House,
    Shop,
    Factory,
    Apartment,
    Office,
    Farm,
    Hospital,
    School,
    Police,
}

/// Kind of a zone painted on the map.
#[derive(Copy, Clone, Debug, PartialEq, Eq, Structural)]
pub enum ZoneType {
    Residential,
    Commercial,
    Industrial,
    Agricultural,
    Road,
    Park,
}

} // verus!
