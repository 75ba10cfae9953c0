use citybound::ecs::{BuildingType, ZoneType};
use citybound::render_cache::{building_type_to_style, building_color, building_sprite, zone_color, zone_sprite,
    guess_building_category, is_near, BuildingTileStyle};

#[test]
fn test_building_type_to_style() {
    assert_eq!(building_type_to_style(BuildingType::House), BuildingTileStyle::House);
    assert_eq!(building_type_to_style(BuildingType::Police), BuildingTileStyle::Police);
}

#[test]
fn palette_colours_are_recognised() {
    let all = [
        (BuildingType::House, BuildingTileStyle::House),
        (BuildingType::Apartment, BuildingTileStyle::Apartment),
        (BuildingType::Shop, BuildingTileStyle::Shop),
        (BuildingType::Office, BuildingTileStyle::Office),
        (BuildingType::Factory, BuildingTileStyle::Factory),
        (BuildingType::Farm, BuildingTileStyle::Farm),
        (BuildingType::Hospital, BuildingTileStyle::Hospital),
        (BuildingType::School, BuildingTileStyle::School),
        (BuildingType::Police, BuildingTileStyle::Police),
    ];
    for (bt, style) in all {
        assert_eq!(guess_building_category(building_color(bt)), style);
        assert_eq!(building_sprite(bt), 0);
    }
}

#[test]
fn unknown_colours_fall_back() {
    assert_eq!(guess_building_category(0xFF_10_10_10), BuildingTileStyle::Factory);
    assert_eq!(guess_building_category(0xFF_96_28_96), BuildingTileStyle::Generic);
}

#[test]
fn zone_palette() {
    assert_eq!(zone_color(ZoneType::Road), 0x8888_8888);
    assert_eq!(zone_color(ZoneType::Residential), 0x887B_A05C);
    assert_eq!(zone_sprite(ZoneType::Park), 0);
}

#[test]
fn near_colours() {
    assert!(is_near(100, 100, 100, 109, 91, 100, 10));
    assert!(!is_near(100, 100, 100, 110, 100, 100, 10));
}
