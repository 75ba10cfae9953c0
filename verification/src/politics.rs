//! Kinds of unwanted facilities and of public-sector unions, with their
//! display names.

use vstd::prelude::*;

verus! {

/// Infrastructure that neighbours object to.
#[derive(Copy, Clone, Debug, PartialEq, Eq, Hash, Structural)]
pub enum UnwantedFacility {
    Landfill,
    WastewaterPlant,
    Prison,
    PowerPlant,
    Highway,
    Factory,
    Airport,
    Stadium,
    HalfwayHouse,
}

impl UnwantedFacility {
    /// Display name of the facility.
    pub fn name(&self) -> (r: &'static str)
        ensures
            r@ == match *self {
                UnwantedFacility::Landfill => "vertedero"@,
                UnwantedFacility::WastewaterPlant => "planta de tratamiento"@,
                UnwantedFacility::Prison => "cárcel"@,
                UnwantedFacility::PowerPlant => "central eléctrica"@,
                UnwantedFacility::Highway => "autopista"@,
                UnwantedFacility::Factory => "fábrica"@,
                UnwantedFacility::Airport => "aeropuerto"@,
                UnwantedFacility::Stadium => "estadio"@,
                UnwantedFacility::HalfwayHouse => "casa de reinserción"@,
            },
    {
        match self {
            UnwantedFacility::Landfill => "vertedero",
            UnwantedFacility::WastewaterPlant => "planta de tratamiento",
            UnwantedFacility::Prison => "cárcel",
            UnwantedFacility::PowerPlant => "central eléctrica",
            UnwantedFacility::Highway => "autopista",
            UnwantedFacility::Factory => "fábrica",
            UnwantedFacility::Airport => "aeropuerto",
            UnwantedFacility::Stadium => "estadio",
            UnwantedFacility::HalfwayHouse => "casa de reinserción",
        }
    }
}

/// Public-sector union.
#[derive(Copy, Clone, Debug, PartialEq, Eq, Structural)]
pub enum UnionType {
    GarbageCollectors,
    Teachers,
    Police,
    Firefighters,
    TransitWorkers,
    Nurses,
}

impl UnionType {
    /// Display name of the union.
    pub fn name(&self) -> (r: &'static str)
        ensures
            r@ == match *self {
                UnionType::GarbageCollectors => "Recolectores de Basura"@,
                UnionType::Teachers => "Maestros"@,
                UnionType::Police => "Policías"@,
                UnionType::Firefighters => "Bomberos"@,
                UnionType::TransitWorkers => "Transporte"@,
                UnionType::Nurses => "Enfermeros"@,
            },
    {
        match self {
            UnionType::GarbageCollectors => "Recolectores de Basura",
            UnionType::Teachers => "Maestros",
            UnionType::Police => "Policías",
            UnionType::Firefighters => "Bomberos",
            UnionType::TransitWorkers => "Transporte",
            UnionType::Nurses => "Enfermeros",
        }
    }
}

} // verus!
