use citybound::ecs::{BuildingType, ZoneType};
use citybound::persistence::{building_type_to_u8, u8_to_building_type, zone_type_to_u8, u8_to_zone_type, SAVE_VERSION};

#[test]
fn test_building_type_conversion() {
    let types = [
        BuildingType::House,
        BuildingType::Apartment,
        BuildingType::Shop,
        BuildingType::Office,
        BuildingType::Factory,
        BuildingType::Farm,
        BuildingType::Hospital,
        BuildingType::School,
        BuildingType::Police,
    ];
    for &bt in &types {
        let v = building_type_to_u8(bt);
        let restored = u8_to_building_type(v);
        assert_eq!(bt, restored);
    }
}

#[test]
fn test_zone_type_conversion() {
    let types = [
        ZoneType::Residential,
        ZoneType::Commercial,
        ZoneType::Industrial,
        ZoneType::Agricultural,
        ZoneType::Road,
        ZoneType::Park,
    ];
    for &zt in &types {
        let v = zone_type_to_u8(zt);
        let restored = u8_to_zone_type(v);
        assert_eq!(zt, restored);
    }
}

#[test]
fn building_codes_are_fixed() {
    assert_eq!(building_type_to_u8(BuildingType::House), 0);
    assert_eq!(building_type_to_u8(BuildingType::Farm), 5);
    assert_eq!(building_type_to_u8(BuildingType::Police), 8);
    assert_eq!(u8_to_building_type(200), BuildingType::Police);
    assert_eq!(SAVE_VERSION, 1);
}

#[test]
fn zone_codes_are_fixed() {
    assert_eq!(zone_type_to_u8(ZoneType::Road), 4);
    assert_eq!(u8_to_zone_type(3), ZoneType::Agricultural);
    assert_eq!(u8_to_zone_type(99), ZoneType::Park);
}

#[test]
fn only_the_current_save_version_loads() {
    assert!(citybound::persistence::is_compatible_save(SAVE_VERSION));
    assert!(!citybound::persistence::is_compatible_save(SAVE_VERSION + 1));
    assert!(!citybound::persistence::is_compatible_save(0));
}
