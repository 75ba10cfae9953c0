//! Simulation rules that do not depend on positions in the world: the
//! clock, the clock display, counting cars per lane, which building a zone
//! grows, and marking buildings as obstacles.

use vstd::prelude::*;
use vstd::string::StringExecFns;
use crate::ecs::{BuildingType, ZoneType};
use crate::bitboard::BitGrid;

verus! {

/// Simulation ticks per simulated second.
pub const TICKS_PER_SIM_SECOND: u32 = 3;
/// Minutes in a day.
pub const MINUTES_PER_DAY: u16 = 1440;
/// Time of day at the start of a game: 7:00.
pub const BEGINNING_TIME_OF_DAY: u16 = 420;

/// Tick counter and time of day in minutes since midnight.
#[derive(Copy, Clone, Debug)]
pub struct SimClock {
    pub sim_tick: u64,
    pub time_of_day: u16,
}

/// Time of day after `tick` ticks: the start time plus one minute per
/// sixty simulated seconds, wrapped to a day.
pub open spec fn clock_time(tick: u64) -> u16 {
    ((420 + (tick / 3) / 60) % 1440) as u16
}

/// The clock of the day: at tick 0 it shows 07:00; every 180 ticks (sixty
/// simulated seconds) it moves on by exactly one minute, wrapping from 23:59
/// to 00:00 and never elsewhere; between those steps it stands still; and
/// every minute of the whole day, 00:00 to 23:59, is shown at some tick.
pub proof fn lemma_clock_runs_through_the_whole_day(tick: u64, minute: int)
    requires
        tick as int + 180 <= u64::MAX,
    ensures
        clock_time(0) == 420,
        clock_time(tick) < 1440,
        clock_time((tick + 180) as u64) == (if clock_time(tick) == 1439 { 0 } else { clock_time(tick) + 1 }),
        forall|j: u64| tick <= j < tick + 180 && j / 180 == tick / 180 ==> #[trigger] clock_time(j) == clock_time(tick),
        0 <= minute < 1440 ==> exists|t: u64| #[trigger] clock_time(t) == minute,
{
    assert((tick + 180) as u64 / 3 == tick / 3 + 60);
    assert(((tick / 3) + 60) / 60 == (tick / 3) / 60 + 1);
    assert forall|j: u64| tick <= j < tick + 180 && j / 180 == tick / 180 implies #[trigger] clock_time(j) == clock_time(tick) by {
        assert((j / 3) / 60 == j / 180);
        assert((tick / 3) / 60 == tick / 180);
    }
    if 0 <= minute < 1440 {
        let k: int = (minute + 1440 - 420) % 1440;
        let t: u64 = (180 * k) as u64;
        assert((t / 3) / 60 == k);
        assert((420 + k) % 1440 == minute);
        assert(clock_time(t) == minute);
    }
}

/// Cells marked for a building on every side of its cell: the 3x3 block
/// `j` = 0..9 in column-major order, coordinates saturating at the ends of
/// the index range and then wrapped onto the map.
pub open spec fn obstacle_target(b: (usize, usize), j: int) -> (int, int) {
    (obstacle_cell(b.0, j / 3 - 1) % 128, obstacle_cell(b.1, j % 3 - 1) % 128)
}

/// Neighbour `d` (-1, 0 or 1) of cell coordinate `c`, saturating at 0 and
/// at the largest index.
pub open spec fn obstacle_cell(c: usize, d: int) -> int {
    if c + d < 0 { 0 } else if c + d > usize::MAX { usize::MAX as int } else { c + d }
}

/// Cell `(gx, gy)` is one of the cells marked for the first `n` buildings.
pub open spec fn marked(buildings: Seq<(usize, usize)>, n: int, gx: int, gy: int) -> bool {
    exists|k: int, j: int| 0 <= k < n && 0 <= j < 9 && #[trigger] obstacle_target(buildings[k], j) == (gx, gy)
}

/// A clock at tick 0 and 7:00, with the cells around each building marked
/// as obstacles.
pub fn init_simulation(grid: &mut BitGrid, buildings: &[(usize, usize)]) -> (clock: SimClock)
    requires
        old(grid).wf(),
    ensures
        clock.sim_tick == 0,
        clock.time_of_day == 420,
        final(grid).wf(),
        forall|l: int, gx: int, gy: int|
            0 <= l < 6 && 0 <= gx < 128 && 0 <= gy < 128 ==> (final(grid).cell(l, gx, gy) <==> (
            old(grid).cell(l, gx, gy) || (l == 0 && marked(buildings@, buildings@.len() as int, gx, gy)))),
{
    init_bitboard_obstacles(grid, buildings);
    SimClock { sim_tick: 0, time_of_day: BEGINNING_TIME_OF_DAY }
}

fn neighbour(c: usize, j: usize) -> (r: usize)
    requires
        j < 3,
    ensures
        r == obstacle_cell(c, j - 1),
{
    if j == 0 {
        if c >= 1 { c - 1 } else { 0 }
    } else if j == 1 {
        c
    } else {
        if c < usize::MAX { c + 1 } else { c }
    }
}

/// Marks the 3x3 block of cells around each building as obstacles (layer 0).
pub fn init_bitboard_obstacles(grid: &mut BitGrid, buildings: &[(usize, usize)])
    requires
        old(grid).wf(),
    ensures
        final(grid).wf(),
        forall|l: int, gx: int, gy: int|
            0 <= l < 6 && 0 <= gx < 128 && 0 <= gy < 128 ==> (final(grid).cell(l, gx, gy) <==> (
            old(grid).cell(l, gx, gy) || (l == 0 && marked(buildings@, buildings@.len() as int, gx, gy)))),
{
    let ghost g0 = *grid;
    let ghost bs = buildings@;
    let mut k: usize = 0;
    while k < buildings.len()
        invariant
            grid.wf(),
            bs == buildings@,
            k <= bs.len(),
            forall|l: int, gx: int, gy: int|
                0 <= l < 6 && 0 <= gx < 128 && 0 <= gy < 128 ==> (#[trigger] grid.cell(l, gx, gy) <==> (
                g0.cell(l, gx, gy) || (l == 0 && marked(bs, k as int, gx, gy)))),
        decreases bs.len() - k,
    {
        let b = buildings[k];
        let mut j: usize = 0;
        while j < 9
            invariant
                grid.wf(),
                bs == buildings@,
                k < bs.len(),
                b == bs[k as int],
                j <= 9,
                forall|l: int, gx: int, gy: int|
                    0 <= l < 6 && 0 <= gx < 128 && 0 <= gy < 128 ==> (#[trigger] grid.cell(l, gx, gy) <==> (
                    g0.cell(l, gx, gy) || (l == 0 && (marked(bs, k as int, gx, gy)
                        || exists|j2: int| 0 <= j2 < j && #[trigger] obstacle_target(b, j2) == (gx, gy))))),
            decreases 9 - j,
        {
            let cx = neighbour(b.0, j / 3);
            let cy = neighbour(b.1, j % 3);
            let ghost before = *grid;
            grid.set(0, cx, cy);
            proof {
                assert(obstacle_target(b, j as int) == (cx as int % 128, cy as int % 128));
                assert forall|l: int, gx: int, gy: int|
                    0 <= l < 6 && 0 <= gx < 128 && 0 <= gy < 128 implies (#[trigger] grid.cell(l, gx, gy) <==> (
                    g0.cell(l, gx, gy) || (l == 0 && (marked(bs, k as int, gx, gy)
                        || exists|j2: int| 0 <= j2 < j + 1 && #[trigger] obstacle_target(b, j2) == (gx, gy))))) by {
                    if l == 0 && gx == cx as int % 128 && gy == cy as int % 128 {
                        assert(obstacle_target(b, j as int) == (gx, gy));
                    }
                    if exists|j2: int| 0 <= j2 < j + 1 && #[trigger] obstacle_target(b, j2) == (gx, gy) {
                        let j2 = choose|j2: int| 0 <= j2 < j + 1 && #[trigger] obstacle_target(b, j2) == (gx, gy);
                        if j2 < j {
                            assert(before.cell(l, gx, gy) || l != 0);
                        }
                    }
                }
            }
            j = j + 1;
        }
        proof {
            assert forall|l: int, gx: int, gy: int|
                0 <= l < 6 && 0 <= gx < 128 && 0 <= gy < 128 implies (#[trigger] grid.cell(l, gx, gy) <==> (
                g0.cell(l, gx, gy) || (l == 0 && marked(bs, k + 1, gx, gy)))) by {
                if marked(bs, k + 1, gx, gy) && !marked(bs, k as int, gx, gy) {
                    let (k2, j2) = choose|k2: int, j2: int| 0 <= k2 < k + 1 && 0 <= j2 < 9
                        && #[trigger] obstacle_target(bs[k2], j2) == (gx, gy);
                    assert(k2 == k);
                    assert(obstacle_target(b, j2) == (gx, gy));
                }
                if exists|j2: int| 0 <= j2 < 9 && #[trigger] obstacle_target(b, j2) == (gx, gy) {
                    let j2 = choose|j2: int| 0 <= j2 < 9 && #[trigger] obstacle_target(b, j2) == (gx, gy);
                    assert(obstacle_target(bs[k as int], j2) == (gx, gy));
                }
                if marked(bs, k as int, gx, gy) {
                    let (k2, j2) = choose|k2: int, j2: int| 0 <= k2 < k && 0 <= j2 < 9
                        && #[trigger] obstacle_target(bs[k2], j2) == (gx, gy);
                    assert(obstacle_target(bs[k2], j2) == (gx, gy));
                }
            }
        }
        k = k + 1;
    }
}

/// Advances the clock one tick; every three ticks (one simulated second)
/// the time of day is recomputed from the tick count.
pub fn tick_time(clock: &mut SimClock)
    ensures
        final(clock).sim_tick == (if old(clock).sim_tick == u64::MAX { 0 } else { old(clock).sim_tick + 1 }),
        final(clock).time_of_day == (if final(clock).sim_tick % 3 == 0 {
            clock_time(final(clock).sim_tick)
        } else {
            old(clock).time_of_day
        }),
        old(clock).time_of_day == clock_time(old(clock).sim_tick) ==>
            final(clock).time_of_day == clock_time(final(clock).sim_tick),
        old(clock).time_of_day < 1440 ==> final(clock).time_of_day < 1440,
{
    clock.sim_tick = clock.sim_tick.wrapping_add(1);
    if clock.sim_tick % (TICKS_PER_SIM_SECOND as u64) == 0 {
        let sim_seconds = clock.sim_tick / (TICKS_PER_SIM_SECOND as u64);
        clock.time_of_day = ((BEGINNING_TIME_OF_DAY as u64 + (sim_seconds / 60)) % (MINUTES_PER_DAY as u64)) as u16;
    }
}

/// The digit character of `d` (0 to 9).
pub open spec fn digit_char(d: int) -> char {
    if d == 0 { '0' } else if d == 1 { '1' } else if d == 2 { '2' } else if d == 3 { '3' }
    else if d == 4 { '4' } else if d == 5 { '5' } else if d == 6 { '6' } else if d == 7 { '7' }
    else if d == 8 { '8' } else { '9' }
}

/// Decimal digits of `n`, without leading zeros.
pub open spec fn decimal(n: nat) -> Seq<char>
    decreases n,
{
    if n < 10 {
        seq![digit_char(n as int)]
    } else {
        decimal(n / 10).push(digit_char((n % 10) as int))
    }
}

/// Decimal digits of `n`, padded with a leading zero to at least two.
pub open spec fn two_digits(n: nat) -> Seq<char> {
    if n < 10 { seq!['0'] + decimal(n) } else { decimal(n) }
}

proof fn lemma_digit_char(d: int)
    requires
        0 <= d <= 9,
    ensures
        digit_char(d) as int == 48 + d,
{
}

proof fn lemma_two_digits(n: nat)
    requires
        n < 100,
    ensures
        two_digits(n).len() == 2,
        two_digits(n)[0] as int == 48 + n / 10,
        two_digits(n)[1] as int == 48 + n % 10,
{
    lemma_digit_char((n / 10) as int);
    lemma_digit_char((n % 10) as int);
    if n >= 10 {
        assert(decimal(n / 10) == seq![digit_char((n / 10) as int)]);
    }
}

/// The clock display of a time of day before midnight: five characters,
/// the hour in two decimal digits, a colon, and the minute in two decimal
/// digits (so 780 minutes shows as 13:00 and 59 as 00:59).
pub proof fn lemma_clock_display(time_of_day: u16)
    requires
        time_of_day < 1440,
    ensures
        ({
            let r = two_digits((time_of_day / 60) as nat) + seq![':'] + two_digits((time_of_day % 60) as nat);
            &&& r.len() == 5
            &&& r[0] as int == 48 + (time_of_day / 60) / 10
            &&& r[1] as int == 48 + (time_of_day / 60) % 10
            &&& r[2] == ':'
            &&& r[3] as int == 48 + (time_of_day % 60) / 10
            &&& r[4] as int == 48 + (time_of_day % 60) % 10
        }),
{
    lemma_two_digits((time_of_day / 60) as nat);
    lemma_two_digits((time_of_day % 60) as nat);
}

fn digit_str(d: u16) -> (r: &'static str)
    requires
        d < 10,
    ensures
        r@ == seq![digit_char(d as int)],
{
    proof {
        reveal_strlit("0");
        reveal_strlit("1");
        reveal_strlit("2");
        reveal_strlit("3");
        reveal_strlit("4");
        reveal_strlit("5");
        reveal_strlit("6");
        reveal_strlit("7");
        reveal_strlit("8");
        reveal_strlit("9");
    }
    if d == 0 { "0" } else if d == 1 { "1" } else if d == 2 { "2" } else if d == 3 { "3" }
    else if d == 4 { "4" } else if d == 5 { "5" } else if d == 6 { "6" } else if d == 7 { "7" }
    else if d == 8 { "8" } else { "9" }
}

fn append_decimal(s: &mut String, n: u16)
    ensures
        final(s)@ == old(s)@ + decimal(n as nat),
    decreases n,
{
    if n >= 10 {
        append_decimal(s, n / 10);
    }
    let d = digit_str(n % 10);
    s.append(d);
    proof {
        if n >= 10 {
            assert(decimal(n as nat) == decimal((n / 10) as nat).push(digit_char((n % 10) as int)));
            assert(old(s)@ + decimal(n as nat) =~= old(s)@ + decimal((n / 10) as nat) + seq![digit_char((n % 10) as int)]);
        } else {
            assert(decimal(n as nat) == seq![digit_char(n as int)]);
        }
    }
}

/// The time of day as `HH:MM`, each part at least two digits.
pub fn formatted_time(time_of_day: u16) -> (r: String)
    ensures
        r@ == two_digits((time_of_day / 60) as nat) + seq![':'] + two_digits((time_of_day % 60) as nat),
{
    let hours = time_of_day / 60;
    let minutes = time_of_day % 60;
    let mut s = String::new();
    proof {
        reveal_strlit("0");
        reveal_strlit(":");
    }
    if hours < 10 {
        s.append("0");
    }
    append_decimal(&mut s, hours);
    s.append(":");
    if minutes < 10 {
        s.append("0");
    }
    append_decimal(&mut s, minutes);
    assert(s@ =~= two_digits(hours as nat) + seq![':'] + two_digits(minutes as nat));
    s
}

/// Number of cars on lane `lane` among `lane_ids`.
pub open spec fn cars_on(lane_ids: Seq<u32>, lane: int) -> nat
    decreases lane_ids.len(),
{
    if lane_ids.len() == 0 {
        0
    } else {
        cars_on(lane_ids.drop_last(), lane) + (if lane_ids.last() == lane { 1nat } else { 0nat })
    }
}

proof fn lemma_cars_on_bound(lane_ids: Seq<u32>, lane: int)
    ensures
        cars_on(lane_ids, lane) <= lane_ids.len(),
    decreases lane_ids.len(),
{
    if lane_ids.len() > 0 {
        lemma_cars_on_bound(lane_ids.drop_last(), lane);
    }
}

/// Cars per lane for `n_lanes` lanes, given the lane of each car; cars on
/// unknown lanes are not counted.
pub fn count_vehicles_per_lane(lane_ids: &[u32], n_lanes: usize) -> (counts: Vec<u32>)
    requires
        lane_ids@.len() <= u32::MAX,
    ensures
        counts@.len() == n_lanes,
        forall|l: int| 0 <= l < n_lanes ==> counts@[l] == cars_on(lane_ids@, l),
{
    let mut counts: Vec<u32> = Vec::with_capacity(n_lanes);
    let mut l: usize = 0;
    while l < n_lanes
        invariant
            l <= n_lanes,
            counts@.len() == l,
            forall|m: int| 0 <= m < l ==> counts@[m] == 0,
        decreases n_lanes - l,
    {
        counts.push(0);
        l = l + 1;
    }
    let ghost ids = lane_ids@;
    let mut i: usize = 0;
    while i < lane_ids.len()
        invariant
            ids == lane_ids@,
            ids.len() <= u32::MAX,
            i <= ids.len(),
            counts@.len() == n_lanes,
            forall|m: int| 0 <= m < n_lanes ==> counts@[m] == cars_on(ids.take(i as int), m),
        decreases ids.len() - i,
    {
        let lane = lane_ids[i] as usize;
        proof {
            assert(ids.take(i + 1).drop_last() =~= ids.take(i as int));
            lemma_cars_on_bound(ids.take(i as int), lane as int);
        }
        if lane < n_lanes {
            let c = counts[lane];
            counts.set(lane, c + 1);
        }
        i = i + 1;
    }
    assert(ids.take(ids.len() as int) =~= ids);
    counts
}

/// Building that grows on a developed zone, with its colour: houses on
/// residential, shops on commercial, factories on industrial and farms on
/// agricultural zones; nothing on roads and parks.
pub fn land_use_building(zone: ZoneType) -> (r: Option<(u32, BuildingType)>)
    ensures
        r == match zone {
            ZoneType::Residential => Some((0xFF66_BB6Au32, BuildingType::House)),
            ZoneType::Commercial => Some((0xFF42_A5F5u32, BuildingType::Shop)),
            ZoneType::Industrial => Some((0xFFEF_5350u32, BuildingType::Factory)),
            ZoneType::Agricultural => Some((0xFF9C_CC65u32, BuildingType::Farm)),
            ZoneType::Road => None,
            ZoneType::Park => None,
        },
{
    match zone {
        ZoneType::Residential => Some((0xFF66_BB6A, BuildingType::House)),
        ZoneType::Commercial => Some((0xFF42_A5F5, BuildingType::Shop)),
        ZoneType::Industrial => Some((0xFFEF_5350, BuildingType::Factory)),
        ZoneType::Agricultural => Some((0xFF9C_CC65, BuildingType::Farm)),
        ZoneType::Road => None,
        ZoneType::Park => None,
    }
}

/// One tick of an entity with a limited lifetime: while ticks remain, one
/// is used up; the result says whether none remained, and the entity is
/// then removed.
pub fn tick_lifetime(remaining_ticks: &mut u64) -> (expired: bool)
    ensures
        expired == (*old(remaining_ticks) == 0),
        *final(remaining_ticks) == (if *old(remaining_ticks) > 0 { (*old(remaining_ticks) - 1) as u64 } else { 0u64 }),
{
    if *remaining_ticks > 0 {
        *remaining_ticks = *remaining_ticks - 1;
        false
    } else {
        true
    }
}

/// The fixed-step clock of the game loop: of the real time accumulated since
/// the last frame, every whole `micros_per_tick` runs one simulation tick,
/// and what is left waits for the next frame.
pub fn fixed_step_ticks(accumulated_micros: u64, micros_per_tick: u64) -> (r: (u64, u64))
    requires
        micros_per_tick > 0,
    ensures
        r.0 == accumulated_micros / micros_per_tick,
        r.1 == accumulated_micros % micros_per_tick,
        r.0 * micros_per_tick + r.1 == accumulated_micros,
        r.1 < micros_per_tick,
{
    proof {
        let q = accumulated_micros / micros_per_tick;
        vstd::arithmetic::div_mod::lemma_fundamental_div_mod(accumulated_micros as int, micros_per_tick as int);
        assert(q * micros_per_tick == micros_per_tick * q) by (nonlinear_arith);
    }
    (accumulated_micros / micros_per_tick, accumulated_micros % micros_per_tick)
}

} // verus!
