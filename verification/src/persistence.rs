//! Encoding of building and zone kinds in saved games: one byte each.

use vstd::prelude::*;
use crate::ecs::{BuildingType, ZoneType};

verus! {

/// Version tag of the save format.
pub const SAVE_VERSION: u32 = 1;

/// Byte code of a building kind: House 0, Apartment 1, Shop 2, Office 3,
/// Factory 4, Farm 5, Hospital 6, School 7, Police 8.
pub open spec fn building_code(bt: BuildingType) -> u8 {
    match bt {
        BuildingType::House => 0,
        BuildingType::Apartment => 1,
        BuildingType::Shop => 2,
        BuildingType::Office => 3,
        BuildingType::Factory => 4,
        BuildingType::Farm => 5,
        BuildingType::Hospital => 6,
        BuildingType::School => 7,
        BuildingType::Police => 8,
    }
}

/// Byte code of a zone kind: Residential 0, Commercial 1, Industrial 2,
/// Agricultural 3, Road 4, Park 5.
pub open spec fn zone_code(zt: ZoneType) -> u8 {
    match zt {
        ZoneType::Residential => 0,
        ZoneType::Commercial => 1,
        ZoneType::Industrial => 2,
        ZoneType::Agricultural => 3,
        ZoneType::Road => 4,
        ZoneType::Park => 5,
    }
}

/// Building kind read from a byte code; codes past 7 read as Police.
pub open spec fn building_of(v: u8) -> BuildingType {
    if v == 0 { BuildingType::House }
    else if v == 1 { BuildingType::Apartment }
    else if v == 2 { BuildingType::Shop }
    else if v == 3 { BuildingType::Office }
    else if v == 4 { BuildingType::Factory }
    else if v == 5 { BuildingType::Farm }
    else if v == 6 { BuildingType::Hospital }
    else if v == 7 { BuildingType::School }
    else { BuildingType::Police }
}

/// Zone kind read from a byte code; codes past 4 read as Park.
pub open spec fn zone_of(v: u8) -> ZoneType {
    if v == 0 { ZoneType::Residential }
    else if v == 1 { ZoneType::Commercial }
    else if v == 2 { ZoneType::Industrial }
    else if v == 3 { ZoneType::Agricultural }
    else if v == 4 { ZoneType::Road }
    else { ZoneType::Park }
}

/// Byte code of a building kind.
pub fn building_type_to_u8(bt: BuildingType) -> (r: u8)
    ensures
        r == building_code(bt),
{
    match bt {
        BuildingType::House => 0,
        BuildingType::Apartment => 1,
        BuildingType::Shop => 2,
        BuildingType::Office => 3,
        BuildingType::Factory => 4,
        BuildingType::Farm => 5,
        BuildingType::Hospital => 6,
        BuildingType::School => 7,
        BuildingType::Police => 8,
    }
}

/// Building kind of a byte code; codes past 7 read as Police.
pub fn u8_to_building_type(v: u8) -> (r: BuildingType)
    ensures
        r == building_of(v),
{
    match v {
        0 => BuildingType::House,
        1 => BuildingType::Apartment,
        2 => BuildingType::Shop,
        3 => BuildingType::Office,
        4 => BuildingType::Factory,
        5 => BuildingType::Farm,
        6 => BuildingType::Hospital,
        7 => BuildingType::School,
        _ => BuildingType::Police,
    }
}

/// Byte code of a zone kind.
pub fn zone_type_to_u8(zt: ZoneType) -> (r: u8)
    ensures
        r == zone_code(zt),
{
    match zt {
        ZoneType::Residential => 0,
        ZoneType::Commercial => 1,
        ZoneType::Industrial => 2,
        ZoneType::Agricultural => 3,
        ZoneType::Road => 4,
        ZoneType::Park => 5,
    }
}

/// Zone kind of a byte code; codes past 4 read as Park.
pub fn u8_to_zone_type(v: u8) -> (r: ZoneType)
    ensures
        r == zone_of(v),
{
    match v {
        0 => ZoneType::Residential,
        1 => ZoneType::Commercial,
        2 => ZoneType::Industrial,
        3 => ZoneType::Agricultural,
        4 => ZoneType::Road,
        _ => ZoneType::Park,
    }
}

/// Decoding the code of a building kind gives the kind back, and every
/// code up to 8 is the code of the kind it decodes to.
pub proof fn lemma_building_code_roundtrip(bt: BuildingType, v: u8)
    ensures
        building_of(building_code(bt)) == bt,
        v <= 8 ==> building_code(building_of(v)) == v,
{
}

/// Decoding the code of a zone kind gives the kind back, and every code up
/// to 5 is the code of the kind it decodes to.
pub proof fn lemma_zone_code_roundtrip(zt: ZoneType, v: u8)
    ensures
        zone_of(zone_code(zt)) == zt,
        v <= 5 ==> zone_code(zone_of(v)) == v,
{
}

/// A save written with format `version` can be loaded: only the current
/// `SAVE_VERSION` is.
pub fn is_compatible_save(version: u32) -> (r: bool)
    ensures
        r == (version == SAVE_VERSION),
{
    version == SAVE_VERSION
}

} // verus!
