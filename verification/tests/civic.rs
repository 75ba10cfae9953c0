use citybound::politics::{UnwantedFacility, UnionType};
use citybound::judicial::{CaseType, CourtLevel};
use citybound::tax_system::{TaxType, BondPurpose, is_peak_hour};
use citybound::financial_market::CreditRating;
use citybound::audio::AudioEvent;
use citybound::supply_chain::{AbandonedBuilding, SupplyTimer, BANKRUPTCY_TICKS, ABANDONED_LIFETIME};

#[test]
fn facility_and_union_names() {
    assert_eq!(UnwantedFacility::Prison.name(), "cárcel");
    assert_eq!(UnwantedFacility::HalfwayHouse.name(), "casa de reinserción");
    assert_eq!(UnionType::Police.name(), "Policías");
    assert_eq!(UnionType::Nurses.name(), "Enfermeros");
}

#[test]
fn case_and_court_indices() {
    assert_eq!(CaseType::CivilDamages.index(), 0);
    assert_eq!(CaseType::Appeal.index(), 9);
    assert_eq!(CourtLevel::Supreme.index(), 3);
}

#[test]
fn credit_ratings_rank_worst_first() {
    assert_eq!(CreditRating::D.rank(), 0);
    assert_eq!(CreditRating::AAA.rank(), 7);
    assert!(CreditRating::D < CreditRating::CCC);
    assert!(CreditRating::AA < CreditRating::AAA);
}

#[test]
fn plain_kinds() {
    assert_ne!(TaxType::LandValue, TaxType::DynamicToll);
    assert_ne!(BondPurpose::Emergency, BondPurpose::Expansion);
    assert_ne!(AudioEvent::Click, AudioEvent::CarHorn);
}

#[test]
fn test_shop_bankruptcy() {
    let mut timer = SupplyTimer { ticks_without_supply: BANKRUPTCY_TICKS };
    assert!(timer.tick(false));
    assert_eq!(timer.ticks_without_supply, BANKRUPTCY_TICKS + 1);
}

#[test]
fn test_supply_timer_reset() {
    let mut timer = SupplyTimer { ticks_without_supply: 100 };
    assert!(!timer.tick(true));
    assert_eq!(timer.ticks_without_supply, 0);
    assert!(!timer.tick(false));
    assert_eq!(timer.ticks_without_supply, 1);
}

#[test]
fn abandoned_buildings_expire() {
    let mut b = AbandonedBuilding { abandoned_ticks: ABANDONED_LIFETIME - 1 };
    assert!(!b.tick());
    assert!(b.tick());
}

#[test]
fn toll_peak_hours() {
    assert!(!is_peak_hour(6 * 60 + 59));
    assert!(is_peak_hour(7 * 60));
    assert!(is_peak_hour(9 * 60 + 59));
    assert!(!is_peak_hour(10 * 60));
    assert!(!is_peak_hour(16 * 60 + 59));
    assert!(is_peak_hour(17 * 60 + 30));
    assert!(is_peak_hour(19 * 60 + 59));
    assert!(!is_peak_hour(20 * 60));
    assert!(!is_peak_hour(0));
}
