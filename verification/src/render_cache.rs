//! Render styles and palette: which sprite style each building kind uses,
//! recognising a style from a building colour, and the building and zone
//! colours.

use vstd::prelude::*;
use crate::ecs::{BuildingType, ZoneType};
use crate::gpu_backend::chan;

verus! {

/// Render layer of terrain.
pub const LAYER_TERRAIN: u8 = 0;
/// Render layer of zones.
pub const LAYER_ZONES: u8 = 1;
/// Render layer of finished buildings.
pub const LAYER_BUILDINGS: u8 = 2;
/// Render layer of buildings under construction.
pub const LAYER_CONSTRUCTION: u8 = 3;
/// Render layer of traffic.
pub const LAYER_TRAFFIC: u8 = 4;
/// Render layer of the interface.
pub const LAYER_UI: u8 = 5;
/// Number of render layers.
pub const NUM_RENDER_LAYERS: usize = 6;

/// Sprite style of a building tile.
#[derive(Copy, Clone, Debug, PartialEq, Eq, Structural)]
pub enum BuildingTileStyle {
    House,
    Apartment,
    Shop,
    Office,
    Factory,
    Farm,
    Hospital,
    School,
    Police,
    Generic,
}

/// Sprite style of each building kind.
pub fn building_type_to_style(btype: BuildingType) -> (r: BuildingTileStyle)
    ensures
        r == match btype {
            BuildingType::House => BuildingTileStyle::House,
            BuildingType::Apartment => BuildingTileStyle::Apartment,
            BuildingType::Shop => BuildingTileStyle::Shop,
            BuildingType::Office => BuildingTileStyle::Office,
            BuildingType::Factory => BuildingTileStyle::Factory,
            BuildingType::Farm => BuildingTileStyle::Farm,
            BuildingType::Hospital => BuildingTileStyle::Hospital,
            BuildingType::School => BuildingTileStyle::School,
            BuildingType::Police => BuildingTileStyle::Police,
        },
{
    match btype {
        BuildingType::House => BuildingTileStyle::House,
        BuildingType::Apartment => BuildingTileStyle::Apartment,
        BuildingType::Shop => BuildingTileStyle::Shop,
        BuildingType::Office => BuildingTileStyle::Office,
        BuildingType::Factory => BuildingTileStyle::Factory,
        BuildingType::Farm => BuildingTileStyle::Farm,
        BuildingType::Hospital => BuildingTileStyle::Hospital,
        BuildingType::School => BuildingTileStyle::School,
        BuildingType::Police => BuildingTileStyle::Police,
    }
}

/// Each of the three channels is less than `tol` away from its target.
pub open spec fn near(r: u32, g: u32, b: u32, tr: u32, tg: u32, tb: u32, tol: u32) -> bool {
    let dr = r as int - tr as int;
    let dg = g as int - tg as int;
    let db = b as int - tb as int;
    (if dr < 0 { -dr } else { dr }) < tol as int && (if dg < 0 { -dg } else { dg }) < tol as int
        && (if db < 0 { -db } else { db }) < tol as int
}

/// Each of the three channels is less than `tol` away from its target.
pub fn is_near(r: u32, g: u32, b: u32, tr: u32, tg: u32, tb: u32, tol: u32) -> (res: bool)
    requires
        r <= 255 && g <= 255 && b <= 255,
        tr <= 255 && tg <= 255 && tb <= 255,
        tol <= 255,
    ensures
        res == near(r, g, b, tr, tg, tb, tol),
{
    let dr = r as i32 - tr as i32;
    let dg = g as i32 - tg as i32;
    let db = b as i32 - tb as i32;
    let adr = if dr < 0 { -dr } else { dr };
    let adg = if dg < 0 { -dg } else { dg };
    let adb = if db < 0 { -db } else { db };
    adr < tol as i32 && adg < tol as i32 && adb < tol as i32
}

/// Style recognised from a building colour: first the current palette
/// (each colour within a tolerance), then the older bright colours by
/// channel thresholds, else `Generic`.
pub open spec fn category_of(r: u32, g: u32, b: u32) -> BuildingTileStyle {
    if near(r, g, b, 0xC4, 0x8E, 0x6A, 30) { BuildingTileStyle::House }
    else if near(r, g, b, 0xA8, 0xA8, 0xB0, 25) { BuildingTileStyle::Apartment }
    else if near(r, g, b, 0x5C, 0xA0, 0xB8, 30) { BuildingTileStyle::Shop }
    else if near(r, g, b, 0x8A, 0x9B, 0xA8, 25) { BuildingTileStyle::Office }
    else if near(r, g, b, 0x8A, 0x7A, 0x6E, 25) { BuildingTileStyle::Factory }
    else if near(r, g, b, 0x8C, 0xA8, 0x6A, 30) { BuildingTileStyle::Farm }
    else if near(r, g, b, 0xE8, 0xE8, 0xF0, 30) { BuildingTileStyle::Hospital }
    else if near(r, g, b, 0xE8, 0xD8, 0x8C, 30) { BuildingTileStyle::School }
    else if near(r, g, b, 0x5C, 0x70, 0xC4, 30) { BuildingTileStyle::Police }
    else if r > 200 && g < 150 && b < 100 { BuildingTileStyle::House }
    else if r > 160 && g > 160 && b > 160 { BuildingTileStyle::Apartment }
    else if b > 200 && r < 150 { BuildingTileStyle::Shop }
    else if g > 180 && r > 180 && b < 120 { BuildingTileStyle::School }
    else if r > 200 && g < 120 && b < 120 { BuildingTileStyle::Hospital }
    else if b > 200 && r < 100 && g < 150 { BuildingTileStyle::Police }
    else if r < 120 && g < 120 && b < 120 { BuildingTileStyle::Factory }
    else if g > 150 && r > 100 && b < 100 { BuildingTileStyle::Farm }
    else { BuildingTileStyle::Generic }
}

proof fn lemma_chan8(c: u32, shift: u32)
    by (bit_vector)
    ensures
        (c >> shift) & 0xFFu32 <= 255,
{
}

/// Sprite style recognised from an ARGB building colour, see [`category_of`].
pub fn guess_building_category(color: u32) -> (s: BuildingTileStyle)
    ensures
        s == category_of(chan(color, 16), chan(color, 8), chan(color, 0)),
{
    let r = (color >> 16) & 0xFF;
    let g = (color >> 8) & 0xFF;
    let b = color & 0xFF;
    proof {
        lemma_chan8(color, 16);
        lemma_chan8(color, 8);
        lemma_chan8(color, 0);
        assert(color & 0xFFu32 == (color >> 0u32) & 0xFFu32) by (bit_vector);
    }
    if is_near(r, g, b, 0xC4, 0x8E, 0x6A, 30) { return BuildingTileStyle::House; }
    if is_near(r, g, b, 0xA8, 0xA8, 0xB0, 25) { return BuildingTileStyle::Apartment; }
    if is_near(r, g, b, 0x5C, 0xA0, 0xB8, 30) { return BuildingTileStyle::Shop; }
    if is_near(r, g, b, 0x8A, 0x9B, 0xA8, 25) { return BuildingTileStyle::Office; }
    if is_near(r, g, b, 0x8A, 0x7A, 0x6E, 25) { return BuildingTileStyle::Factory; }
    if is_near(r, g, b, 0x8C, 0xA8, 0x6A, 30) { return BuildingTileStyle::Farm; }
    if is_near(r, g, b, 0xE8, 0xE8, 0xF0, 30) { return BuildingTileStyle::Hospital; }
    if is_near(r, g, b, 0xE8, 0xD8, 0x8C, 30) { return BuildingTileStyle::School; }
    if is_near(r, g, b, 0x5C, 0x70, 0xC4, 30) { return BuildingTileStyle::Police; }
    if r > 200 && g < 150 && b < 100 { return BuildingTileStyle::House; }
    if r > 160 && g > 160 && b > 160 { return BuildingTileStyle::Apartment; }
    if b > 200 && r < 150 { return BuildingTileStyle::Shop; }
    if g > 180 && r > 180 && b < 120 { return BuildingTileStyle::School; }
    if r > 200 && g < 120 && b < 120 { return BuildingTileStyle::Hospital; }
    if b > 200 && r < 100 && g < 150 { return BuildingTileStyle::Police; }
    if r < 120 && g < 120 && b < 120 { return BuildingTileStyle::Factory; }
    if g > 150 && r > 100 && b < 100 { return BuildingTileStyle::Farm; }
    BuildingTileStyle::Generic
}

/// Palette colour of a building kind.
pub open spec fn building_color_spec(btype: BuildingType) -> u32 {
    match btype {
        BuildingType::House => 0xFFC4_8E6Au32,
        BuildingType::Apartment => 0xFFA8_A8B0u32,
        BuildingType::Shop => 0xFF5C_A0B8u32,
        BuildingType::Office => 0xFF8A_9BA8u32,
        BuildingType::Factory => 0xFF8A_7A6Eu32,
        BuildingType::Farm => 0xFF8C_A86Au32,
        BuildingType::Hospital => 0xFFE8_E8F0u32,
        BuildingType::School => 0xFFE8_D88Cu32,
        BuildingType::Police => 0xFF5C_70C4u32,
    }
}

/// Palette colour of a building kind.
pub fn building_color(btype: BuildingType) -> (r: u32)
    ensures
        r == building_color_spec(btype),
{
    match btype {
        BuildingType::House => 0xFFC4_8E6A,
        BuildingType::Apartment => 0xFFA8_A8B0,
        BuildingType::Shop => 0xFF5C_A0B8,
        BuildingType::Office => 0xFF8A_9BA8,
        BuildingType::Factory => 0xFF8A_7A6E,
        BuildingType::Farm => 0xFF8C_A86A,
        BuildingType::Hospital => 0xFFE8_E8F0,
        BuildingType::School => 0xFFE8_D88C,
        BuildingType::Police => 0xFF5C_70C4,
    }
}

/// Sprite index of a building kind: always the first sprite.
pub fn building_sprite(btype: BuildingType) -> (r: u16)
    ensures
        r == 0,
{
    0
}

/// Palette colour of a zone kind, drawn semi-transparent.
pub fn zone_color(ztype: ZoneType) -> (r: u32)
    ensures
        r == match ztype {
            ZoneType::Residential => 0x887B_A05Cu32,
            ZoneType::Commercial => 0x885C_8FA0u32,
            ZoneType::Industrial => 0x88A0_6C5Cu32,
            ZoneType::Agricultural => 0x888F_A05Cu32,
            ZoneType::Road => 0x8888_8888u32,
            ZoneType::Park => 0x885C_A06Cu32,
        },
{
    match ztype {
        ZoneType::Residential => 0x887B_A05C,
        ZoneType::Commercial => 0x885C_8FA0,
        ZoneType::Industrial => 0x88A0_6C5C,
        ZoneType::Agricultural => 0x888F_A05C,
        ZoneType::Road => 0x8888_8888,
        ZoneType::Park => 0x885C_A06C,
    }
}

/// Sprite index of a zone kind: always the first sprite.
pub fn zone_sprite(ztype: ZoneType) -> (r: u16)
    ensures
        r == 0,
{
    0
}

/// The palette colour of every building kind is recognised as that kind's
/// own sprite style.
pub proof fn lemma_palette_recognised(btype: BuildingType)
    ensures
        category_of(chan(building_color_spec(btype), 16), chan(building_color_spec(btype), 8),
            chan(building_color_spec(btype), 0)) == match btype {
            BuildingType::House => BuildingTileStyle::House,
            BuildingType::Apartment => BuildingTileStyle::Apartment,
            BuildingType::Shop => BuildingTileStyle::Shop,
            BuildingType::Office => BuildingTileStyle::Office,
            BuildingType::Factory => BuildingTileStyle::Factory,
            BuildingType::Farm => BuildingTileStyle::Farm,
            BuildingType::Hospital => BuildingTileStyle::Hospital,
            BuildingType::School => BuildingTileStyle::School,
            BuildingType::Police => BuildingTileStyle::Police,
        },
{
    let c = building_color_spec(btype);
    assert(chan(0xFFC4_8E6Au32, 16) == 0xC4 && chan(0xFFC4_8E6Au32, 8) == 0x8E && chan(0xFFC4_8E6Au32, 0) == 0x6A) by (bit_vector);
    assert(chan(0xFFA8_A8B0u32, 16) == 0xA8 && chan(0xFFA8_A8B0u32, 8) == 0xA8 && chan(0xFFA8_A8B0u32, 0) == 0xB0) by (bit_vector);
    assert(chan(0xFF5C_A0B8u32, 16) == 0x5C && chan(0xFF5C_A0B8u32, 8) == 0xA0 && chan(0xFF5C_A0B8u32, 0) == 0xB8) by (bit_vector);
    assert(chan(0xFF8A_9BA8u32, 16) == 0x8A && chan(0xFF8A_9BA8u32, 8) == 0x9B && chan(0xFF8A_9BA8u32, 0) == 0xA8) by (bit_vector);
    assert(chan(0xFF8A_7A6Eu32, 16) == 0x8A && chan(0xFF8A_7A6Eu32, 8) == 0x7A && chan(0xFF8A_7A6Eu32, 0) == 0x6E) by (bit_vector);
    assert(chan(0xFF8C_A86Au32, 16) == 0x8C && chan(0xFF8C_A86Au32, 8) == 0xA8 && chan(0xFF8C_A86Au32, 0) == 0x6A) by (bit_vector);
    assert(chan(0xFFE8_E8F0u32, 16) == 0xE8 && chan(0xFFE8_E8F0u32, 8) == 0xE8 && chan(0xFFE8_E8F0u32, 0) == 0xF0) by (bit_vector);
    assert(chan(0xFFE8_D88Cu32, 16) == 0xE8 && chan(0xFFE8_D88Cu32, 8) == 0xD8 && chan(0xFFE8_D88Cu32, 0) == 0x8C) by (bit_vector);
    assert(chan(0xFF5C_70C4u32, 16) == 0x5C && chan(0xFF5C_70C4u32, 8) == 0x70 && chan(0xFF5C_70C4u32, 0) == 0xC4) by (bit_vector);
}

} // verus!
