use citybound::ecs::BuildingType;
use citybound::parking::{parking_for_building, recommended_parking, ParkingCapacity, ParkingType, StreetParkingSegment};

#[test]
fn test_parking_capacity_new() {
    let cap = ParkingCapacity::new(ParkingType::GaragePrivate, 2);
    assert_eq!(cap.total_spaces, 2);
    assert_eq!(cap.available(), 2);
    assert!(!cap.is_full());
}

#[test]
fn test_parking_full() {
    let mut cap = ParkingCapacity::new(ParkingType::SurfaceLot, 3);
    assert!(cap.park());
    assert!(cap.park());
    assert!(cap.park());
    assert!(!cap.park());
    assert!(cap.is_full());
}

#[test]
fn test_parking_unpark() {
    let mut cap = ParkingCapacity::new(ParkingType::Underground, 5);
    for _ in 0..5 {
        cap.park();
    }
    assert!(cap.is_full());
    cap.unpark();
    assert_eq!(cap.available(), 1);
}

#[test]
fn test_street_parking_segment() {
    let seg = StreetParkingSegment { total_spaces: 8, occupied: 5, hoa_zone: false, metered: true };
    assert_eq!(seg.available(), 3);
    assert!(!seg.is_full());
}

#[test]
fn kept_back_and_visitor_spaces_match_the_percentages() {
    for total in 0..=u16::MAX {
        let cap = ParkingCapacity::new(ParkingType::PublicGarage, total);
        assert_eq!(cap.reserved_spaces, (total as f32 * 0.05) as u16);
        let visitors = if total > 10 { (total as f32 * 0.1) as u16 } else { 0 };
        assert_eq!(cap.visitor_spaces, visitors);
        assert_eq!(cap.visitor_parking, total > 10);
    }
}

#[test]
fn large_lots_keep_spaces_back() {
    let mut cap = ParkingCapacity::new(ParkingType::Underground, 40);
    assert_eq!(cap.reserved_spaces, 2);
    assert_eq!(cap.available(), 38);
    for _ in 0..38 {
        assert!(cap.park());
    }
    assert!(cap.is_full());
    assert!(!cap.park());
    assert_eq!(cap.occupied_spaces, 38);
    let mut empty = ParkingCapacity::new(ParkingType::NoParking, 0);
    empty.unpark();
    assert_eq!(empty.occupied_spaces, 0);
}

#[test]
fn parking_by_building_kind() {
    assert_eq!(recommended_parking(BuildingType::House), 2);
    assert_eq!(recommended_parking(BuildingType::Apartment), 30);
    assert_eq!(recommended_parking(BuildingType::Hospital), 60);
    assert_eq!(recommended_parking(BuildingType::Farm), 0);
    let office = parking_for_building(BuildingType::Office);
    assert_eq!((office.parking_type, office.total_spaces), (ParkingType::Underground, 40));
    let police = parking_for_building(BuildingType::Police);
    assert_eq!((police.parking_type, police.total_spaces, police.reserved_spaces), (ParkingType::GaragePrivate, 12, 0));
}
