use citybound::ecs::BuildingType;
use citybound::render::{darken, rect_outline, draw_text, glyph, draw_car, draw_building, render_stats_panel, render_ui,
    COLOR_BUILDING_HOUSE, COLOR_CAR, COLOR_CAR_ALT, COLOR_UI_TEXT};

#[test]
fn darken_lowers_each_channel() {
    assert_eq!(darken(0x80_40_20_10, 0x18), 0x80_28_08_00);
    assert_eq!(darken(0xFF_FF_FF_FF, 0), 0xFF_FF_FF_FF);
    assert_eq!(darken(0x12_00_00_00, 255), 0x12_00_00_00);
}

#[test]
fn outline_draws_the_border_only() {
    let mut fb = vec![0u32; 36];
    rect_outline(&mut fb, 6, 6, 1, 1, 4, 3, 5);
    let painted: Vec<usize> = (0..36).filter(|&i| fb[i] == 5).collect();
    assert_eq!(painted, vec![7, 8, 9, 10, 13, 16, 19, 20, 21, 22]);
}

#[test]
fn outline_clipped_at_the_far_edges() {
    let mut fb = vec![0u32; 16];
    rect_outline(&mut fb, 4, 4, 2, 2, 10, 10, 1);
    let painted: Vec<usize> = (0..16).filter(|&i| fb[i] == 1).collect();
    assert_eq!(painted, vec![10, 11, 14, 15]);
}

#[test]
fn font_glyphs() {
    let one = glyph('1');
    let rows: Vec<u64> = (0..7).map(|r| (one >> (5 * r)) & 0x1F).collect();
    assert_eq!(rows, vec![0b00100, 0b01100, 0b00100, 0b00100, 0b00100, 0b00100, 0b01110]);
    assert_eq!(glyph('a'), glyph('A'));
    assert_eq!(glyph(' '), 0);
    assert_eq!(glyph('#'), 0);
}

#[test]
fn text_in_the_bitmap_font() {
    let mut fb = vec![0u32; 100];
    draw_text(&mut fb, 10, 10, 0, 0, &['1'], 9);
    assert_eq!(fb[2], 9);
    assert_eq!(fb[0], 0);
    assert_eq!(fb[10 + 1], 9);
    assert_eq!(fb[60 + 1], 9);
    assert_eq!(fb[60 + 3], 9);
    assert_eq!(fb[60 + 4], 0);
    assert_eq!(fb.iter().filter(|&&p| p == 9).count(), 10);
}

#[test]
fn text_stops_past_the_right_edge() {
    let mut fb = vec![0u32; 100];
    draw_text(&mut fb, 10, 10, 6, 0, &['I', 'I', 'I'], 9);
    assert_eq!(fb[6 + 1], 9);
    assert_eq!(fb[9], 9);
    let beyond = fb.iter().filter(|&&p| p == 9).count();
    assert_eq!(beyond, 11);
}

#[test]
fn car_sprite() {
    let mut fb = vec![0u32; 400];
    draw_car(&mut fb, 20, 20, 10, 10, 6);
    assert_eq!(fb[10 * 20 + 4], 0xFF_88_88_88);
    assert_eq!(fb[10 * 20 + 5], COLOR_CAR);
    assert_eq!(fb[10 * 20 + 10], COLOR_CAR_ALT);
    assert_eq!(fb[0], 0);
}

#[test]
fn house_sprite() {
    let mut fb = vec![0u32; 40 * 40];
    draw_building(&mut fb, 40, 40, 20, 20, 12, BuildingType::House);
    assert_eq!(fb[24 * 40 + 15], COLOR_BUILDING_HOUSE);
    assert_eq!(fb[20 * 40 + 16], 0xFF_E8_D8_8C);
    assert_eq!(fb[22 * 40 + 20], darken(COLOR_BUILDING_HOUSE, 60));
    assert_eq!(fb[18 * 40 + 14], darken(COLOR_BUILDING_HOUSE, 30));
    assert_eq!(fb[16 * 40 + 20], 0xFF_8B_45_3A);
    assert_eq!(fb[0], 0);
}

#[test]
fn tiny_buildings_are_not_drawn() {
    let mut fb = vec![7u32; 100];
    draw_building(&mut fb, 10, 10, 5, 5, 1, BuildingType::Office);
    assert!(fb.iter().all(|&p| p == 7));
}

#[test]
fn every_building_kind_draws_inside_its_box() {
    for b in [BuildingType::House, BuildingType::Apartment, BuildingType::Shop, BuildingType::Office, BuildingType::Factory,
        BuildingType::Farm, BuildingType::Hospital, BuildingType::School, BuildingType::Police] {
        let mut fb = vec![0u32; 64 * 64];
        draw_building(&mut fb, 64, 64, 32, 32, 16, b);
        assert!(fb.iter().any(|&p| p != 0));
        assert_eq!(fb[0], 0);
        assert_eq!(fb[63 * 64 + 63], 0);
    }
}

#[test]
fn stats_panel_writes_its_line() {
    let mut a = vec![0u32; 300 * 60];
    render_stats_panel(&mut a, 300, 60, 30, 5, 7);
    let mut b = vec![0u32; 300 * 60];
    let text: Vec<char> = "FPS: 30 | Pop: 5 | Tick: 7".chars().collect();
    draw_text(&mut b, 300, 60, 8, 32, &text, COLOR_UI_TEXT);
    assert_eq!(a, b);
    assert!(a.iter().any(|&p| p == COLOR_UI_TEXT));
}

#[test]
fn interface_bars_and_minimap() {
    let (w, h) = (200usize, 120usize);
    let mut fb = vec![0u32; w * h];
    render_ui(&mut fb, w, h, false, 7 * 60 + 5, 42);
    assert_eq!(fb[0], 0xAA00_0000);
    assert_eq!(fb[4 * w + 9], COLOR_UI_TEXT);
    assert_eq!(fb[(h - 1) * w + 100], 0xAA00_0000);
    assert_eq!(fb[(h - 89) * w + (w - 69)], 0xFF88_8888);
    assert_eq!(fb[60 * w + 100], 0);
}
