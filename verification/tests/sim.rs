use citybound::bitboard::BitGrid;
use citybound::ecs::{BuildingType, ZoneType};
use citybound::sim::{init_simulation, tick_time, fixed_step_ticks, formatted_time, count_vehicles_per_lane, land_use_building, tick_lifetime,
    BEGINNING_TIME_OF_DAY, MINUTES_PER_DAY};

#[test]
fn test_tick_time_advances() {
    let mut grid = BitGrid::new();
    let mut clock = init_simulation(&mut grid, &[]);

    assert_eq!(clock.time_of_day, 7 * 60);
    assert_eq!(clock.sim_tick, 0);

    for _ in 0..180 {
        tick_time(&mut clock);
    }
    assert_eq!(clock.time_of_day, 7 * 60 + 1);
}

#[test]
fn test_formatted_time_output() {
    assert_eq!(formatted_time(7 * 60), "07:00");
    assert_eq!(formatted_time(12 * 60 + 30), "12:30");
    assert_eq!(formatted_time(0), "00:00");
    assert_eq!(formatted_time(23 * 60 + 59), "23:59");
}

/// Lane congestion as the library decides it: the cars counted on each lane.
/// Moving the cars along the lanes is floating point and is not tested here.
#[test]
fn test_tick_lane_congestion() {
    let lanes = [0u32, 1, 1, 5, 2, 1];
    let counts = count_vehicles_per_lane(&lanes, 3);
    assert_eq!(counts, vec![1, 3, 1]);
}

/// Land use as the library decides it: which building a developed zone of
/// each kind grows. Choosing when it grows is random and is not tested here.
#[test]
fn test_tick_land_use_no_panic() {
    assert_eq!(land_use_building(ZoneType::Residential), Some((0xFF66_BB6A, BuildingType::House)));
    assert_eq!(land_use_building(ZoneType::Industrial), Some((0xFFEF_5350, BuildingType::Factory)));
    assert_eq!(land_use_building(ZoneType::Road), None);
    assert_eq!(land_use_building(ZoneType::Park), None);
}

#[test]
fn test_bitboard_obstacles_initialized() {
    let mut grid = BitGrid::new();
    init_simulation(&mut grid, &[(10, 10), (50, 60)]);
    assert_eq!(grid.count_layer(0), 18);
    assert!(grid.is_obstacle(9, 11));
    assert!(grid.is_obstacle(51, 59));
    assert!(!grid.is_obstacle(12, 10));
}

#[test]
fn obstacles_at_the_map_edge_saturate() {
    let mut grid = BitGrid::new();
    init_simulation(&mut grid, &[(0, 0)]);
    assert!(grid.is_obstacle(0, 0));
    assert!(grid.is_obstacle(1, 1));
    assert_eq!(grid.count_layer(0), 4);
}

#[test]
fn clock_wraps_at_midnight() {
    let mut grid = BitGrid::new();
    let mut clock = init_simulation(&mut grid, &[]);
    let ticks_to_midnight = (MINUTES_PER_DAY - BEGINNING_TIME_OF_DAY) as u64 * 180;
    clock.sim_tick = ticks_to_midnight - 1;
    tick_time(&mut clock);
    assert_eq!(clock.time_of_day, 0);
    assert_eq!(formatted_time(clock.time_of_day), "00:00");
}

#[test]
fn time_only_moves_on_whole_seconds() {
    let mut grid = BitGrid::new();
    let mut clock = init_simulation(&mut grid, &[]);
    clock.sim_tick = 179;
    clock.time_of_day = 420;
    tick_time(&mut clock);
    assert_eq!(clock.time_of_day, 421);
    tick_time(&mut clock);
    assert_eq!(clock.sim_tick, 181);
    assert_eq!(clock.time_of_day, 421);
}

#[test]
fn lifetimes_run_out() {
    let mut t = 2u64;
    assert!(!tick_lifetime(&mut t));
    assert!(!tick_lifetime(&mut t));
    assert_eq!(t, 0);
    assert!(tick_lifetime(&mut t));
    assert_eq!(t, 0);
}

#[test]
fn fixed_step_runs_whole_ticks_and_keeps_the_rest() {
    assert_eq!(fixed_step_ticks(250_000, 100_000), (2, 50_000));
    assert_eq!(fixed_step_ticks(99_999, 100_000), (0, 99_999));
    assert_eq!(fixed_step_ticks(300_000, 100_000), (3, 0));
}
