use citybound::ecs::{BuildingType, ZoneType};
use citybound::design_world::{apply_design_command, DesignAction, DesignWorld};
use citybound::input::{GameKey, InputState};
use citybound::interactive::{DesignTool, DesignMode, DesignCommand, process_design_input, zone_cells,
    draw_rect_dashed, draw_text_simple, render_design_overlay, OverlayGeometry, HIGHLIGHT_COLOR, DEFAULT_BRUSH_SIZE, MAX_BRUSH_SIZE, MIN_BRUSH_SIZE, MAX_UNDO_HISTORY};

fn key(k: GameKey) -> u128 {
    1u128 << k.bit()
}

fn pressed(keys: u128) -> InputState {
    let mut s = InputState::new();
    s.update(keys, false, false, false, true);
    s
}

#[test]
fn test_design_tool_creation() {
    let tool: DesignTool<u32> = DesignTool::new();
    assert!(!tool.active);
    assert_eq!(tool.mode, DesignMode::Idle);
    assert_eq!(tool.brush_size, DEFAULT_BRUSH_SIZE);
    assert_eq!(tool.current_zone, ZoneType::Residential);
    assert_eq!(tool.current_building, BuildingType::House);
    assert_eq!(tool.undo_len(), 0);
    assert_eq!(tool.redo_len(), 0);
}

#[test]
fn test_toggle_tool() {
    let mut tool: DesignTool<u32> = DesignTool::new();
    tool.toggle();
    assert!(tool.active);
    assert_eq!(tool.mode, DesignMode::PaintZone);

    tool.toggle();
    assert!(!tool.active);
    assert_eq!(tool.mode, DesignMode::Idle);
}

#[test]
fn test_cycle_zone() {
    let mut tool: DesignTool<u32> = DesignTool::new();
    assert_eq!(tool.current_zone, ZoneType::Residential);
    tool.cycle_zone();
    assert_eq!(tool.current_zone, ZoneType::Commercial);
    tool.cycle_zone();
    assert_eq!(tool.current_zone, ZoneType::Industrial);
    tool.cycle_zone();
    assert_eq!(tool.current_zone, ZoneType::Agricultural);
    tool.cycle_zone();
    assert_eq!(tool.current_zone, ZoneType::Road);
    tool.cycle_zone();
    assert_eq!(tool.current_zone, ZoneType::Park);
    tool.cycle_zone();
    assert_eq!(tool.current_zone, ZoneType::Residential);
}

#[test]
fn test_cycle_building() {
    let mut tool: DesignTool<u32> = DesignTool::new();
    assert_eq!(tool.current_building, BuildingType::House);
    tool.cycle_building();
    assert_eq!(tool.current_building, BuildingType::Apartment);
    tool.cycle_building();
    assert_eq!(tool.current_building, BuildingType::Shop);
}

#[test]
fn test_brush_size() {
    let mut tool: DesignTool<u32> = DesignTool::new();
    assert_eq!(tool.brush_size, DEFAULT_BRUSH_SIZE);

    tool.increase_brush();
    assert_eq!(tool.brush_size, DEFAULT_BRUSH_SIZE + 1);

    tool.decrease_brush();
    assert_eq!(tool.brush_size, DEFAULT_BRUSH_SIZE);

    for _ in 0..100 {
        tool.decrease_brush();
    }
    assert_eq!(tool.brush_size, MIN_BRUSH_SIZE);

    for _ in 0..100 {
        tool.increase_brush();
    }
    assert_eq!(tool.brush_size, MAX_BRUSH_SIZE);
}

#[test]
fn zone_cells_of_a_square() {
    let cells = zone_cells(82, 80, 80, 82, 128);
    assert_eq!(cells.len(), 9);
    assert_eq!(cells[0], (80, 80));
    assert_eq!(cells[1], (80, 81));
    assert_eq!(cells[3], (81, 80));
    assert_eq!(cells[8], (82, 82));
}

#[test]
fn history_moves_between_undo_and_redo() {
    let mut tool: DesignTool<&str> = DesignTool::new();
    tool.push_action("place 50,50");
    tool.push_action("place 55,55");
    assert_eq!(tool.undo_len(), 2);

    assert!(tool.undo_history());
    assert_eq!(tool.redo_top(), Some(&"place 55,55"));
    assert_eq!(tool.undo_len(), 1);

    assert!(tool.redo_history());
    assert_eq!(tool.undo_top(), Some(&"place 55,55"));
    assert_eq!(tool.undo_len(), 2);
    assert_eq!(tool.redo_len(), 0);
}

fn setup_tool_and_world() -> (DesignTool<DesignAction<u32>>, DesignWorld<u32>) {
    (DesignTool::new(), DesignWorld::new(128))
}

#[test]
fn test_place_building() {
    let (mut tool, mut gw) = setup_tool_and_world();
    let buildings_before = gw.building_count();
    tool.active = true;
    tool.mode = DesignMode::PlaceBuilding;
    tool.current_building = BuildingType::Shop;
    tool.execute_place_building(&mut gw, 50, 50, 7);
    assert_eq!(gw.building_count(), buildings_before + 1);
    assert_eq!(tool.undo_len(), 1);
    assert_eq!(tool.redo_len(), 0);
}

#[test]
fn test_paint_zone() {
    let (mut tool, mut gw) = setup_tool_and_world();
    let zones_before = gw.zones.iter().filter(|z| z.density > 0).count();
    tool.active = true;
    tool.mode = DesignMode::PaintZone;
    tool.current_zone = ZoneType::Commercial;
    tool.brush_density = 3;
    tool.execute_paint_zone(&mut gw, 80, 80, 82, 82);
    let zones_after = gw.zones.iter().filter(|z| z.density > 0).count();
    assert!(zones_after >= zones_before + 9, "Esperaba al menos {} zonas, hay {}", zones_before + 9, zones_after);
    assert_eq!(tool.undo_len(), 1);
}

#[test]
fn test_undo_redo() {
    let (mut tool, mut gw) = setup_tool_and_world();
    let before = gw.building_count();
    tool.active = true;
    tool.mode = DesignMode::PlaceBuilding;
    tool.execute_place_building(&mut gw, 50, 50, 7);
    tool.execute_place_building(&mut gw, 55, 55, 7);
    assert_eq!(gw.building_count(), before + 2);

    tool.undo(&mut gw);
    assert_eq!(gw.building_count(), before + 1);
    assert_eq!(tool.undo_len(), 1);
    assert_eq!(tool.redo_len(), 1);
    assert!(!gw.grid.is_obstacle(55, 55));

    tool.redo(&mut gw, 7);
    assert_eq!(gw.building_count(), before + 2);
    assert!(gw.grid.is_obstacle(55, 55));
}

#[test]
fn test_remove_building() {
    let (mut tool, mut gw) = setup_tool_and_world();
    let before = gw.building_count();
    tool.active = true;
    tool.mode = DesignMode::PlaceBuilding;
    tool.execute_place_building(&mut gw, 90, 90, 7);
    assert_eq!(gw.building_count(), before + 1);

    tool.execute_remove_building(&mut gw, 90, 90);
    assert_eq!(gw.building_count(), before);

    tool.undo(&mut gw);
    assert_eq!(gw.building_count(), before + 1);
}

#[test]
fn placing_on_an_occupied_cell_does_nothing() {
    let (mut tool, mut gw) = setup_tool_and_world();
    tool.execute_place_building(&mut gw, 10, 10, 1);
    tool.execute_place_building(&mut gw, 10, 10, 2);
    assert_eq!(gw.building_count(), 1);
    assert_eq!(tool.undo_len(), 1);
    assert_eq!(gw.buildings[0].stock, 1);
}

#[test]
fn redo_removes_again_and_undo_keeps_the_stock() {
    let (mut tool, mut gw) = setup_tool_and_world();
    tool.execute_place_building(&mut gw, 3, 4, 9);
    gw.buildings[0].stock = 42;
    tool.execute_remove_building(&mut gw, 3, 4);
    assert_eq!(gw.building_count(), 0);
    assert!(!gw.grid.is_obstacle(3, 4));
    tool.undo(&mut gw);
    assert_eq!(gw.building_count(), 1);
    assert_eq!(gw.buildings[0].stock, 42);
    assert!(gw.grid.is_obstacle(3, 4));
    tool.redo(&mut gw, 9);
    assert_eq!(gw.building_count(), 0);
    assert!(!gw.grid.is_obstacle(3, 4));
}

#[test]
fn clearing_zones_is_undone_and_redone() {
    let (mut tool, mut gw) = setup_tool_and_world();
    tool.execute_paint_zone(&mut gw, 0, 0, 1, 1);
    tool.execute_paint_zone(&mut gw, 10, 10, 10, 10);
    assert_eq!(gw.zone_count(), 5);
    tool.execute_clear_zone(&mut gw, 0, 0, 1, 1);
    assert_eq!(gw.zone_count(), 1);
    tool.undo(&mut gw);
    assert_eq!(gw.zone_count(), 5);
    tool.redo(&mut gw, 0);
    assert_eq!(gw.zone_count(), 1);
    assert_eq!((gw.zones[0].x, gw.zones[0].y), (10, 10));
}

#[test]
fn painting_off_the_map_keeps_only_map_cells_and_numbers_them() {
    let (mut tool, mut gw) = setup_tool_and_world();
    tool.execute_paint_zone(&mut gw, -2, 126, 1, 130);
    assert_eq!(gw.zone_count(), 4);
    assert_eq!(tool.entity_id_counter, 5);
    tool.undo(&mut gw);
    assert_eq!(gw.zone_count(), 0);
    tool.redo(&mut gw, 0);
    assert_eq!(gw.zone_count(), 4);
}

#[test]
fn commands_go_through_the_library() {
    let (mut tool, mut gw) = setup_tool_and_world();
    apply_design_command(&mut gw, &mut tool, DesignCommand::PlaceBuilding { x: 5, y: 6 }, 3);
    apply_design_command(&mut gw, &mut tool, DesignCommand::Undo, 0);
    assert_eq!(gw.building_count(), 0);
    apply_design_command(&mut gw, &mut tool, DesignCommand::Redo, 3);
    assert_eq!(gw.building_count(), 1);
    assert_eq!((gw.buildings[0].x, gw.buildings[0].y, gw.buildings[0].stock), (5, 6, 3));
}

#[test]
fn undo_and_redo_of_nothing() {
    let mut tool: DesignTool<u8> = DesignTool::new();
    assert!(!tool.undo_history());
    assert!(!tool.redo_history());
    assert_eq!(tool.undo_top(), None);
    assert_eq!(tool.redo_top(), None);
}

#[test]
fn new_action_clears_redo_and_counts() {
    let mut tool: DesignTool<u8> = DesignTool::new();
    tool.push_action(1);
    tool.push_action(2);
    tool.undo_history();
    assert_eq!(tool.redo_len(), 1);
    tool.push_action(3);
    assert_eq!(tool.redo_len(), 0);
    assert_eq!(tool.undo_top(), Some(&3));
    assert_eq!(tool.entity_id_counter, 3);
}

#[test]
fn history_keeps_the_latest_actions() {
    let mut tool: DesignTool<usize> = DesignTool::new();
    for i in 0..(MAX_UNDO_HISTORY + 5) {
        tool.push_action(i);
    }
    assert_eq!(tool.undo_len(), MAX_UNDO_HISTORY);
    assert_eq!(tool.undo_stack[0], 5);
    assert_eq!(tool.undo_top(), Some(&(MAX_UNDO_HISTORY + 4)));
}

#[test]
fn tab_switches_the_tool_on_and_off() {
    let mut tool: DesignTool<u8> = DesignTool::new();
    let cmds = process_design_input(&mut tool, &pressed(key(GameKey::Tab)), 0, 0, true);
    assert!(cmds.is_empty());
    assert!(tool.active);
    assert_eq!(tool.mode, DesignMode::PaintZone);
    assert!(tool.mouse_in_window);
}

#[test]
fn inactive_tool_ignores_input() {
    let mut tool: DesignTool<u8> = DesignTool::new();
    let cmds = process_design_input(&mut tool, &pressed(key(GameKey::B) | key(GameKey::Key3)), 1, 1, true);
    assert!(cmds.is_empty());
    assert_eq!(tool.mode, DesignMode::Idle);
    assert_eq!(tool.current_zone, ZoneType::Residential);
}

#[test]
fn number_keys_pick_zones_and_letters_pick_modes() {
    let mut tool: DesignTool<u8> = DesignTool::new();
    tool.toggle();
    process_design_input(&mut tool, &pressed(key(GameKey::Key4)), 0, 0, true);
    assert_eq!(tool.current_zone, ZoneType::Agricultural);
    assert_eq!(tool.mode, DesignMode::PaintZone);
    process_design_input(&mut tool, &pressed(key(GameKey::B)), 0, 0, true);
    assert_eq!(tool.mode, DesignMode::PlaceBuilding);
    process_design_input(&mut tool, &pressed(0), 0, 0, true);
    assert_eq!(tool.mode, DesignMode::PlaceBuilding);
    process_design_input(&mut tool, &pressed(key(GameKey::Key1) | key(GameKey::Shift)), 0, 0, true);
    assert_eq!(tool.current_building, BuildingType::Apartment);
    process_design_input(&mut tool, &pressed(key(GameKey::BracketRight)), 0, 0, true);
    assert_eq!(tool.brush_size, DEFAULT_BRUSH_SIZE + 1);
}

#[test]
fn key_two_selects_building_placement() {
    let mut tool: DesignTool<u8> = DesignTool::new();
    tool.toggle();
    process_design_input(&mut tool, &pressed(key(GameKey::Key4)), 0, 0, true);
    assert_eq!(tool.mode, DesignMode::PaintZone);
    process_design_input(&mut tool, &pressed(key(GameKey::Key2)), 0, 0, true);
    assert_eq!(tool.mode, DesignMode::PlaceBuilding);
    assert_eq!(tool.current_zone, ZoneType::Agricultural);
}

#[test]
fn control_z_undoes_and_control_shift_z_redoes() {
    let mut tool: DesignTool<u8> = DesignTool::new();
    tool.toggle();
    let cmds = process_design_input(&mut tool, &pressed(key(GameKey::Z) | key(GameKey::Control)), 0, 0, true);
    assert_eq!(cmds, vec![DesignCommand::Undo]);
    let cmds = process_design_input(&mut tool, &pressed(key(GameKey::Z) | key(GameKey::Control) | key(GameKey::Shift)), 0, 0, true);
    assert_eq!(cmds, vec![DesignCommand::Redo]);
}

#[test]
fn dragging_paints_a_zone() {
    let mut tool: DesignTool<u8> = DesignTool::new();
    tool.toggle();
    let mut inp = InputState::new();
    inp.update(0, true, false, false, true);
    let cmds = process_design_input(&mut tool, &inp, 10, 12, true);
    assert!(cmds.is_empty());
    assert!(tool.is_dragging);
    assert_eq!(tool.drag_start, Some((10, 12)));
    inp.update(0, false, false, false, true);
    let cmds = process_design_input(&mut tool, &inp, 14, 11, true);
    assert_eq!(cmds, vec![DesignCommand::PaintZone { x1: 10, y1: 12, x2: 14, y2: 11 }]);
    assert!(!tool.is_dragging);
    assert_eq!(tool.drag_start, None);
}

#[test]
fn right_click_paints_and_shift_clears_the_brush_square() {
    let mut tool: DesignTool<u8> = DesignTool::new();
    tool.toggle();
    let mut inp = InputState::new();
    inp.update(key(GameKey::Shift), false, true, false, true);
    let cmds = process_design_input(&mut tool, &inp, 20, 20, true);
    assert_eq!(cmds, vec![
        DesignCommand::PaintZone { x1: 19, y1: 19, x2: 21, y2: 21 },
        DesignCommand::ClearZone { x1: 19, y1: 19, x2: 21, y2: 21 },
    ]);
}

#[test]
fn clicks_outside_the_window_do_nothing() {
    let mut tool: DesignTool<u8> = DesignTool::new();
    tool.set_building_mode();
    let mut inp = InputState::new();
    inp.update(0, true, true, false, false);
    let cmds = process_design_input(&mut tool, &inp, 3, 4, false);
    assert!(cmds.is_empty());
    let mut inp2 = InputState::new();
    inp2.update(0, true, true, false, true);
    let cmds = process_design_input(&mut tool, &inp2, 3, 4, true);
    assert_eq!(cmds, vec![DesignCommand::PlaceBuilding { x: 3, y: 4 }, DesignCommand::RemoveBuilding { x: 3, y: 4 }]);
    tool.set_inspect_mode();
    let cmds = process_design_input(&mut tool, &inp2, 3, 4, true);
    assert_eq!(cmds, vec![DesignCommand::Inspect { x: 3, y: 4 }]);
}

#[test]
fn zone_cells_stay_on_the_map() {
    assert_eq!(zone_cells(-2, -2, 0, 1, 128), vec![(0, 0), (0, 1)]);
    assert_eq!(zone_cells(126, 0, 200, 0, 128), vec![(126, 0), (127, 0)]);
    assert!(zone_cells(-5, 0, -1, 3, 128).is_empty());
}

#[test]
fn dashed_outline() {
    let mut fb = vec![0u32; 100];
    draw_rect_dashed(&mut fb, 10, 10, 0, 0, 10, 10, 1);
    let top: Vec<u32> = fb[0..10].to_vec();
    assert_eq!(top, vec![1, 1, 1, 1, 0, 0, 0, 0, 1, 1]);
    let left: Vec<u32> = (0..10).map(|y| fb[y * 10]).collect();
    assert_eq!(left, vec![1, 1, 1, 1, 0, 0, 0, 0, 1, 1]);
    assert_eq!(fb[9 * 10 + 5], 0);
    assert_eq!(fb[9 * 10 + 9], 1);
    assert_eq!(fb[5 * 10 + 5], 0);
}

#[test]
fn text_boxes_per_visible_character() {
    let mut fb = vec![0u32; 20 * 600];
    let text: Vec<char> = "a b".chars().collect();
    draw_text_simple(&mut fb, 20, 0, 0, &text, 2);
    assert_eq!(fb[0], 2);
    assert_eq!(fb[4], 2);
    assert_eq!(fb[5], 0);
    assert_eq!(fb[6], 0);
    assert_eq!(fb[12], 2);
    assert_eq!(fb[6 * 20 + 16], 2);
    assert_eq!(fb[7 * 20], 0);
}

fn geometry(x: i32, y: i32) -> OverlayGeometry {
    OverlayGeometry {
        cursor_x: x,
        cursor_y: y,
        brush_x: x - 2,
        brush_y: y - 2,
        brush_px: 4,
        drag_x: x,
        drag_y: y,
        building_px: 4,
    }
}

#[test]
fn overlay_draws_nothing_for_an_idle_tool() {
    let tool: DesignTool<u8> = DesignTool::new();
    let mut fb = vec![3u32; 20 * 30];
    render_design_overlay(&tool, &mut fb, 20, 30, &geometry(5, 5), &['A']);
    assert!(fb.iter().all(|&p| p == 3));
}

#[test]
fn overlay_inspect_cross_and_status_bar() {
    let mut tool: DesignTool<u8> = DesignTool::new();
    tool.set_inspect_mode();
    tool.mouse_in_window = true;
    let mut fb = vec![0u32; 20 * 30];
    render_design_overlay(&tool, &mut fb, 20, 30, &geometry(5, 5), &['A']);
    assert_eq!(fb[5 * 20], HIGHLIGHT_COLOR);
    assert_eq!(fb[5 * 20 + 9], HIGHLIGHT_COLOR);
    assert_eq!(fb[5 * 20 + 10], 0);
    assert_eq!(fb[5], HIGHLIGHT_COLOR);
    assert_eq!(fb[0], 0);
    assert_eq!(fb[12 * 20], 0xCC00_0000);
    assert_eq!(fb[13 * 20 + 8], 0xFFFF_FFFF);
    assert_eq!(fb[13 * 20 + 13], 0xCC00_0000);
}

#[test]
fn overlay_building_ghost_is_translucent() {
    let mut tool: DesignTool<u8> = DesignTool::new();
    tool.set_building_mode();
    tool.mouse_in_window = true;
    let mut fb = vec![0xFF00_0000u32; 20 * 30];
    render_design_overlay(&tool, &mut fb, 20, 30, &geometry(5, 5), &[]);
    let p = fb[5 * 20 + 5];
    assert_eq!(p >> 24, 0xFF);
    assert_eq!(fb[5 * 20 + 5], fb[3 * 20 + 3]);
    assert_eq!(fb[5 * 20 + 7], 0xFF00_0000);
}
