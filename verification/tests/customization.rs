use citybound::customization::{ArchitecturalStyle, FacadeColor, BuildingAppearance, BuildingVisualState};
use citybound::ecs::BuildingType;

#[test]
fn test_facade_color_presets() {
    let presets = FacadeColor::all_presets();
    assert_eq!(presets.len(), 7);
    for (name, _) in &presets {
        assert!(!name.is_empty());
    }
}

#[test]
fn test_architectural_style_names() {
    for style in ArchitecturalStyle::all() {
        let name = style.name();
        assert!(!name.is_empty());
    }
}

#[test]
fn test_default_appearance_per_type() {
    let house = BuildingAppearance::default_for(BuildingType::House);
    assert_eq!(house.height_floors, 1);
    assert!(house.has_front_garden);

    let office = BuildingAppearance::default_for(BuildingType::Office);
    assert!(office.height_floors > 4);
    assert!(!office.has_front_garden);
}

#[test]
fn test_with_style_changes_colors() {
    let appearance = BuildingAppearance::default_for(BuildingType::House);
    let modern = appearance.with_style(ArchitecturalStyle::Modern);
    assert_eq!(modern.style, ArchitecturalStyle::Modern);
    assert_eq!(modern.colors, FacadeColor::glass_steel());
}

#[test]
fn test_render_color_by_state() {
    let normal = BuildingAppearance::default_for(BuildingType::House);
    assert_eq!(normal.render_color(), FacadeColor::beige().primary);

    let mut ruined = normal;
    ruined.visual_state = BuildingVisualState::Ruined;
    assert_eq!(ruined.render_color(), 0xFF_69_6969);

    let mut abandoned = normal;
    abandoned.visual_state = BuildingVisualState::Abandoned;
    assert!(abandoned.render_color() != normal.render_color());
}

#[test]
fn luxury_and_neglect_colours() {
    let mut a = BuildingAppearance::default_for(BuildingType::House);
    a.colors = FacadeColor::white();
    a.visual_state = BuildingVisualState::Luxury;
    assert_eq!(a.render_color(), 0xFF_FF_FF_FF);
    a.colors = FacadeColor::beige();
    a.visual_state = BuildingVisualState::Neglected;
    assert_eq!(a.render_color(), 0xFF_A1_99_96);
    a.visual_state = BuildingVisualState::UnderConstruction;
    assert_eq!(a.render_color(), 0xFF_FF_A0_00);
}

#[test]
fn style_names_and_order() {
    let all = ArchitecturalStyle::all();
    assert_eq!(all[0], ArchitecturalStyle::Modern);
    assert_eq!(all[7], ArchitecturalStyle::Mediterranean);
    assert_eq!(ArchitecturalStyle::ArtDeco.name(), "Art Decó");
    let presets = FacadeColor::all_presets();
    assert_eq!(presets[2].1, FacadeColor::red_brick());
    assert_eq!(presets[6].1, FacadeColor::terracotta());
}

#[test]
fn appearance_builders() {
    let a = BuildingAppearance::default_for(BuildingType::Factory)
        .with_colors(FacadeColor::blue_slate())
        .with_height(3);
    assert_eq!(a.colors, FacadeColor::blue_slate());
    assert_eq!(a.height_floors, 3);
    assert_eq!(a.width_percent, 300);
    assert_eq!(a.style, ArchitecturalStyle::Industrial);
}

#[test]
fn public_buildings_get_the_farm_look() {
    let farm = BuildingAppearance::default_for(BuildingType::Farm);
    for b in [BuildingType::Hospital, BuildingType::School, BuildingType::Police] {
        let a = BuildingAppearance::default_for(b);
        assert_eq!(a.style, farm.style);
        assert_eq!(a.height_floors, 1);
        assert!(a.has_front_garden);
    }
}
