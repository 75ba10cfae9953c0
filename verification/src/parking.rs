//! Physical parking: the garage spaces of each building and the spaces of
//! street segments. Positions, distances, fees and fines are floating point
//! and are handled by the program around the library.

use vstd::prelude::*;
use crate::ecs::BuildingType;

verus! {

/// Kind of parking a place offers.
#[derive(Copy, Clone, Debug, PartialEq, Eq, Structural)]
pub enum ParkingType {
    /// No parking.
    NoParking,
    /// Private garage (a house).
    GaragePrivate,
    /// Underground car park (a building).
    Underground,
    /// Surface lot.
    SurfaceLot,
    /// Parking on the street.
    StreetParking,
    /// Public car park.
    PublicGarage,
}

/// Parking spaces of a building.
#[derive(Copy, Clone, Debug)]
pub struct ParkingCapacity {
    pub parking_type: ParkingType,
    /// All spaces.
    pub total_spaces: u16,
    /// Spaces taken.
    pub occupied_spaces: u16,
    /// Spaces kept back (disabled drivers, loading).
    pub reserved_spaces: u16,
    /// Visitors may park.
    pub visitor_parking: bool,
    /// Spaces for visitors.
    pub visitor_spaces: u16,
}

/// Free spaces of a capacity: all spaces less those taken and kept back,
/// never below zero.
pub open spec fn free_spaces(c: ParkingCapacity) -> int {
    if c.occupied_spaces + c.reserved_spaces < c.total_spaces {
        c.total_spaces - (c.occupied_spaces + c.reserved_spaces)
    } else {
        0
    }
}

impl ParkingCapacity {
    /// `total` spaces of `parking_type`, none taken: 5% (rounded down) are
    /// kept back, and with more than 10 spaces visitors may park on 10%
    /// (rounded down) of them.
    pub fn new(parking_type: ParkingType, total: u16) -> (r: ParkingCapacity)
        ensures
            r.parking_type == parking_type,
            r.total_spaces == total,
            r.occupied_spaces == 0,
            r.reserved_spaces == total / 20,
            r.visitor_parking == (total > 10),
            r.visitor_spaces == (if total > 10 { total / 10 } else { 0 }),
    {
        ParkingCapacity {
            parking_type,
            total_spaces: total,
            occupied_spaces: 0,
            reserved_spaces: total / 20,
            visitor_parking: total > 10,
            visitor_spaces: if total > 10 { total / 10 } else { 0 },
        }
    }

    /// Free spaces.
    pub fn available(&self) -> (r: u16)
        requires
            self.occupied_spaces + self.reserved_spaces <= u16::MAX,
        ensures
            r == free_spaces(*self),
    {
        self.total_spaces.saturating_sub(self.occupied_spaces + self.reserved_spaces)
    }

    /// No space is free.
    pub fn is_full(&self) -> (r: bool)
        requires
            self.occupied_spaces + self.reserved_spaces <= u16::MAX,
        ensures
            r == (free_spaces(*self) == 0),
    {
        self.available() == 0
    }

    /// Parks a car if a space is free; says whether it did.
    pub fn park(&mut self) -> (ok: bool)
        requires
            old(self).occupied_spaces + old(self).reserved_spaces <= u16::MAX,
        ensures
            ok == (free_spaces(*old(self)) > 0),
            ok ==> *final(self) == (ParkingCapacity { occupied_spaces: (old(self).occupied_spaces + 1) as u16, ..*old(self) }),
            !ok ==> *final(self) == *old(self),
            final(self).occupied_spaces + final(self).reserved_spaces <= u16::MAX,
    {
        if self.is_full() {
            false
        } else {
            self.occupied_spaces = self.occupied_spaces + 1;
            true
        }
    }

    /// A car leaves: one space fewer is taken, if any was.
    pub fn unpark(&mut self)
        ensures
            *final(self) == (ParkingCapacity {
                occupied_spaces: if old(self).occupied_spaces > 0 { (old(self).occupied_spaces - 1) as u16 } else { 0 },
                ..*old(self)
            }),
    {
        self.occupied_spaces = self.occupied_spaces.saturating_sub(1);
    }
}

/// Spaces of one street segment.
#[derive(Copy, Clone, Debug)]
pub struct StreetParkingSegment {
    /// All spaces.
    pub total_spaces: u8,
    /// Spaces taken.
    pub occupied: u8,
    /// The segment lies in a homeowners' association zone.
    pub hoa_zone: bool,
    /// Parking is metered.
    pub metered: bool,
}

impl StreetParkingSegment {
    /// Free spaces, never below zero.
    pub fn available(&self) -> (r: u8)
        ensures
            r == (if self.occupied < self.total_spaces { self.total_spaces - self.occupied } else { 0 }),
    {
        self.total_spaces.saturating_sub(self.occupied)
    }

    /// Every space is taken.
    pub fn is_full(&self) -> (r: bool)
        ensures
            r == (self.occupied >= self.total_spaces),
    {
        self.occupied >= self.total_spaces
    }
}

/// Kind and number of parking spaces a building of each kind gets.
pub open spec fn building_parking(b: BuildingType) -> (ParkingType, u16) {
    match b {
        BuildingType::House => (ParkingType::GaragePrivate, 2u16),
        BuildingType::Apartment => (ParkingType::Underground, 20u16),
        BuildingType::Shop => (ParkingType::SurfaceLot, 15u16),
        BuildingType::Office => (ParkingType::Underground, 40u16),
        BuildingType::Factory => (ParkingType::SurfaceLot, 10u16),
        BuildingType::Farm => (ParkingType::NoParking, 0u16),
        BuildingType::Hospital => (ParkingType::Underground, 50u16),
        BuildingType::School => (ParkingType::SurfaceLot, 30u16),
        BuildingType::Police => (ParkingType::GaragePrivate, 12u16),
    }
}

/// The parking a building of kind `b` is given when it is registered.
pub fn parking_for_building(b: BuildingType) -> (r: ParkingCapacity)
    ensures
        r == ({
            let (t, n) = building_parking(b);
            ParkingCapacity {
                parking_type: t,
                total_spaces: n,
                occupied_spaces: 0,
                reserved_spaces: n / 20,
                visitor_parking: n > 10,
                visitor_spaces: if n > 10 { n / 10 } else { 0 },
            }
        }),
{
    match b {
        BuildingType::House => ParkingCapacity::new(ParkingType::GaragePrivate, 2),
        BuildingType::Apartment => ParkingCapacity::new(ParkingType::Underground, 20),
        BuildingType::Shop => ParkingCapacity::new(ParkingType::SurfaceLot, 15),
        BuildingType::Office => ParkingCapacity::new(ParkingType::Underground, 40),
        BuildingType::Factory => ParkingCapacity::new(ParkingType::SurfaceLot, 10),
        BuildingType::Farm => ParkingCapacity::new(ParkingType::NoParking, 0),
        BuildingType::Hospital => ParkingCapacity::new(ParkingType::Underground, 50),
        BuildingType::School => ParkingCapacity::new(ParkingType::SurfaceLot, 30),
        BuildingType::Police => ParkingCapacity::new(ParkingType::GaragePrivate, 12),
    }
}

/// Parking spaces recommended for a building of each kind.
pub open spec fn recommended_parking_spec(b: BuildingType) -> u16 {
    match b {
        BuildingType::House => 2,
        BuildingType::Apartment => 30,
        BuildingType::Shop => 20,
        BuildingType::Office => 50,
        BuildingType::Factory => 15,
        BuildingType::Farm => 0,
        BuildingType::Hospital => 60,
        BuildingType::School => 40,
        BuildingType::Police => 15,
    }
}

/// Parking spaces recommended for a building of kind `b`.
pub fn recommended_parking(b: BuildingType) -> (r: u16)
    ensures
        r == recommended_parking_spec(b),
{
    match b {
        BuildingType::House => 2,
        BuildingType::Apartment => 30,
        BuildingType::Shop => 20,
        BuildingType::Office => 50,
        BuildingType::Factory => 15,
        BuildingType::Farm => 0,
        BuildingType::Hospital => 60,
        BuildingType::School => 40,
        BuildingType::Police => 15,
    }
}

/// The parking each kind of building gets: a house a private garage for 2
/// cars, an apartment block an underground car park for 20, a shop a
/// surface lot for 15, an office an underground car park for 40, a factory
/// a surface lot for 10, a hospital an underground car park for 50, a school
/// a surface lot for 30, a police station a private garage for 12, a farm
/// none. 5% of the spaces (rounded down) are kept back, visitors get 10%
/// (rounded down) when there are more than 10, and no building gets more
/// spaces than are recommended for its kind.
pub proof fn lemma_parking_by_building_kind(b: BuildingType)
    ensures
        building_parking(b) == (match b {
            BuildingType::House => (ParkingType::GaragePrivate, 2u16),
            BuildingType::Apartment => (ParkingType::Underground, 20u16),
            BuildingType::Shop => (ParkingType::SurfaceLot, 15u16),
            BuildingType::Office => (ParkingType::Underground, 40u16),
            BuildingType::Factory => (ParkingType::SurfaceLot, 10u16),
            BuildingType::Farm => (ParkingType::NoParking, 0u16),
            BuildingType::Hospital => (ParkingType::Underground, 50u16),
            BuildingType::School => (ParkingType::SurfaceLot, 30u16),
            BuildingType::Police => (ParkingType::GaragePrivate, 12u16),
        }),
        recommended_parking_spec(b) == (match b {
            BuildingType::House => 2u16,
            BuildingType::Apartment => 30u16,
            BuildingType::Shop => 20u16,
            BuildingType::Office => 50u16,
            BuildingType::Factory => 15u16,
            BuildingType::Farm => 0u16,
            BuildingType::Hospital => 60u16,
            BuildingType::School => 40u16,
            BuildingType::Police => 15u16,
        }),
        building_parking(b).1 <= recommended_parking_spec(b),
        (building_parking(b).1 == 0) <==> (b == BuildingType::Farm),
        (building_parking(b).0 == ParkingType::NoParking) <==> (b == BuildingType::Farm),
{
}

/// Parking a car and letting it leave gives back the spaces as they were,
/// when a space was free.
pub proof fn lemma_park_then_unpark(c: ParkingCapacity)
    requires
        c.occupied_spaces + c.reserved_spaces <= u16::MAX,
        free_spaces(c) > 0,
    ensures
        ({
            let parked = ParkingCapacity { occupied_spaces: (c.occupied_spaces + 1) as u16, ..c };
            ParkingCapacity { occupied_spaces: (parked.occupied_spaces - 1) as u16, ..parked } == c
        }),
{
}

/// Parking never takes more spaces than there are: with the kept-back spaces
/// within the total, parking keeps them within the total.
pub proof fn lemma_park_stays_within_total(c: ParkingCapacity)
    requires
        c.occupied_spaces + c.reserved_spaces <= c.total_spaces,
    ensures
        free_spaces(c) > 0 ==> c.occupied_spaces + 1 + c.reserved_spaces <= c.total_spaces,
        free_spaces(c) == c.total_spaces - c.occupied_spaces - c.reserved_spaces,
{
}

} // verus!
