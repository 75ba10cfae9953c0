//! The map the design tool edits: buildings and zones on cells, the obstacle
//! grid, and the actions that undo reverts and redo applies again.

use vstd::prelude::*;
use crate::bitboard::BitGrid;
use crate::ecs::{BuildingType, ZoneType};
use crate::interactive::{
    lemma_undo_then_redo, recorded, redone, span_in_grid, undone, zone_cell_seq, zone_cells, DesignCommand, DesignTool,
    DesignUi,
};

verus! {

/// A building on cell `(x, y)`, with the stock it holds (carried along,
/// never computed on here).
#[derive(Copy, Clone, Debug)]
pub struct PlacedBuilding<S> {
    pub x: i32,
    pub y: i32,
    pub building_type: BuildingType,
    pub stock: S,
}

/// A zone painted on cell `(x, y)`.
#[derive(Copy, Clone, Debug)]
pub struct ZoneCell {
    pub x: i32,
    pub y: i32,
    pub zone_type: ZoneType,
    pub density: u8,
}

/// A recorded change of the map.
pub enum DesignAction<S> {
    /// A building of `building_type` was placed on cell `(x, y)`.
    PlaceBuilding { x: i32, y: i32, building_type: BuildingType, entity_id: Option<u64> },
    /// The cells of the rectangle `[x1, x2] x [y1, y2]` on the map were
    /// painted, one entity each.
    PaintZone { x1: i64, y1: i64, x2: i64, y2: i64, zone_type: ZoneType, density: u8, entity_ids: Vec<u64> },
    /// The building on cell `(x, y)` was removed; what it was and held.
    RemoveBuilding { x: i32, y: i32, building_type: BuildingType, stock: S },
    /// The zones in the rectangle `[x1, x2] x [y1, y2]` were cleared.
    ClearZone { x1: i64, y1: i64, x2: i64, y2: i64, previous_zones: Vec<ZoneCell> },
}

/// Buildings, zones and the obstacle grid of a `grid_size` x `grid_size` map.
pub struct DesignWorld<S> {
    pub buildings: Vec<PlacedBuilding<S>>,
    pub zones: Vec<ZoneCell>,
    pub grid: BitGrid,
    pub grid_size: i32,
}

/// Grid coordinate of a cell coordinate: negative ones fall on 0.
pub open spec fn grid_coord(v: i32) -> usize {
    if v < 0 { 0usize } else { v as usize }
}

fn grid_coord_exec(v: i32) -> (r: usize)
    ensures
        r == grid_coord(v),
{
    if v < 0 { 0 } else { v as usize }
}

/// `b` stands on cell `(x, y)`.
pub open spec fn at_cell<S>(b: PlacedBuilding<S>, x: i32, y: i32) -> bool {
    b.x == x && b.y == y
}

/// Some building of `bs` stands on cell `(x, y)`.
pub open spec fn has_building_at<S>(bs: Seq<PlacedBuilding<S>>, x: i32, y: i32) -> bool {
    exists|i: int| 0 <= i < bs.len() && at_cell(#[trigger] bs[i], x, y)
}

/// Index of the first building of `bs` from `i` on standing on `(x, y)`.
pub open spec fn first_at<S>(bs: Seq<PlacedBuilding<S>>, x: i32, y: i32, i: int) -> Option<int>
    decreases bs.len() - i,
{
    if i < 0 || i >= bs.len() {
        None
    } else if at_cell(bs[i], x, y) {
        Some(i)
    } else {
        first_at(bs, x, y, i + 1)
    }
}

/// `bs` without the buildings standing on `(x, y)`, in order.
pub open spec fn buildings_off<S>(bs: Seq<PlacedBuilding<S>>, x: i32, y: i32) -> Seq<PlacedBuilding<S>>
    decreases bs.len(),
{
    if bs.len() == 0 {
        bs
    } else {
        let rest = buildings_off(bs.drop_last(), x, y);
        if at_cell(bs.last(), x, y) { rest } else { rest.push(bs.last()) }
    }
}

/// Zone `z` lies in the rectangle `[x1, x2] x [y1, y2]`.
pub open spec fn in_rect(z: ZoneCell, x1: i64, y1: i64, x2: i64, y2: i64) -> bool {
    x1 <= z.x <= x2 && y1 <= z.y <= y2
}

/// The zones of `zs` outside the rectangle, in order.
pub open spec fn zones_outside(zs: Seq<ZoneCell>, x1: i64, y1: i64, x2: i64, y2: i64) -> Seq<ZoneCell>
    decreases zs.len(),
{
    if zs.len() == 0 {
        zs
    } else {
        let rest = zones_outside(zs.drop_last(), x1, y1, x2, y2);
        if in_rect(zs.last(), x1, y1, x2, y2) { rest } else { rest.push(zs.last()) }
    }
}

/// The zones of `zs` inside the rectangle, in order.
pub open spec fn zones_inside(zs: Seq<ZoneCell>, x1: i64, y1: i64, x2: i64, y2: i64) -> Seq<ZoneCell>
    decreases zs.len(),
{
    if zs.len() == 0 {
        zs
    } else {
        let rest = zones_inside(zs.drop_last(), x1, y1, x2, y2);
        if in_rect(zs.last(), x1, y1, x2, y2) { rest.push(zs.last()) } else { rest }
    }
}

/// Zones of `zone_type` and `density` on `cells`, in order.
pub open spec fn painted(cells: Seq<(i32, i32)>, zone_type: ZoneType, density: u8) -> Seq<ZoneCell> {
    Seq::new(cells.len(), |k: int| ZoneCell { x: cells[k].0, y: cells[k].1, zone_type, density })
}

/// A change of one cell of the obstacle layer, or none.
pub enum GridEdit {
    Keep,
    Occupy(usize, usize),
    Free(usize, usize),
}

/// Cell `(gx, gy)` of `layer` after `e`, given whether it was occupied.
pub open spec fn edited(was: bool, e: GridEdit, layer: int, gx: int, gy: int) -> bool {
    match e {
        GridEdit::Keep => was,
        GridEdit::Occupy(x, y) => (layer == 0 && gx == x as int % 128 && gy == y as int % 128) || was,
        GridEdit::Free(x, y) => !(layer == 0 && gx == x as int % 128 && gy == y as int % 128) && was,
    }
}

/// `g1` is `g0` after `e`.
pub open spec fn grid_edited(g0: BitGrid, g1: BitGrid, e: GridEdit) -> bool {
    &&& g1.wf()
    &&& forall|l: int, gx: int, gy: int| 0 <= l < 6 && 0 <= gx < 128 && 0 <= gy < 128 ==>
        #[trigger] g1.cell(l, gx, gy) == edited(g0.cell(l, gx, gy), e, l, gx, gy)
}

/// Buildings after reverting `a`: a placement removes every building on its
/// cell, a removal puts the building back.
pub open spec fn reverted_buildings<S>(bs: Seq<PlacedBuilding<S>>, a: DesignAction<S>) -> Seq<PlacedBuilding<S>> {
    match a {
        DesignAction::PlaceBuilding { x, y, entity_id, .. } => if entity_id is Some { buildings_off(bs, x, y) } else { bs },
        DesignAction::RemoveBuilding { x, y, building_type, stock } => bs.push(PlacedBuilding { x, y, building_type, stock }),
        _ => bs,
    }
}

/// Zones after reverting `a`: painting removes every zone in its rectangle,
/// clearing puts the cleared zones back.
pub open spec fn reverted_zones<S>(zs: Seq<ZoneCell>, a: DesignAction<S>) -> Seq<ZoneCell> {
    match a {
        DesignAction::PaintZone { x1, y1, x2, y2, .. } => zones_outside(zs, x1, y1, x2, y2),
        DesignAction::ClearZone { previous_zones, .. } => zs + previous_zones@,
        _ => zs,
    }
}

/// Obstacle change of reverting `a` on buildings `bs`.
pub open spec fn revert_edit<S>(bs: Seq<PlacedBuilding<S>>, a: DesignAction<S>) -> GridEdit {
    match a {
        DesignAction::PlaceBuilding { x, y, entity_id, .. } =>
            if entity_id is Some && has_building_at(bs, x, y) { GridEdit::Free(grid_coord(x), grid_coord(y)) } else { GridEdit::Keep },
        DesignAction::RemoveBuilding { x, y, .. } => GridEdit::Occupy(grid_coord(x), grid_coord(y)),
        _ => GridEdit::Keep,
    }
}

/// Buildings after applying `a`: a placement adds a building holding `fresh`,
/// a removal takes away the first building on its cell.
pub open spec fn replayed_buildings<S>(bs: Seq<PlacedBuilding<S>>, a: DesignAction<S>, fresh: S) -> Seq<PlacedBuilding<S>> {
    match a {
        DesignAction::PlaceBuilding { x, y, building_type, .. } => bs.push(PlacedBuilding { x, y, building_type, stock: fresh }),
        DesignAction::RemoveBuilding { x, y, .. } => match first_at(bs, x, y, 0) {
            Some(i) => bs.remove(i),
            None => bs,
        },
        _ => bs,
    }
}

/// Zones after applying `a` on a `grid_size` map: painting adds its cells on
/// the map, clearing removes the zones in its rectangle.
pub open spec fn replayed_zones<S>(zs: Seq<ZoneCell>, a: DesignAction<S>, grid_size: i32) -> Seq<ZoneCell> {
    match a {
        DesignAction::PaintZone { x1, y1, x2, y2, zone_type, density, .. } =>
            zs + painted(zone_cell_seq(x1, y1, x2, y2, grid_size), zone_type, density),
        DesignAction::ClearZone { x1, y1, x2, y2, .. } => zones_outside(zs, x1, y1, x2, y2),
        _ => zs,
    }
}

/// Obstacle change of applying `a` on buildings `bs`.
pub open spec fn replay_edit<S>(bs: Seq<PlacedBuilding<S>>, a: DesignAction<S>) -> GridEdit {
    match a {
        DesignAction::PlaceBuilding { x, y, .. } => GridEdit::Occupy(grid_coord(x), grid_coord(y)),
        DesignAction::RemoveBuilding { x, y, .. } =>
            if has_building_at(bs, x, y) { GridEdit::Free(grid_coord(x), grid_coord(y)) } else { GridEdit::Keep },
        _ => GridEdit::Keep,
    }
}

/// `w1` is `w0` with its buildings, zones and obstacle grid as given.
pub open spec fn world_is<S>(w0: DesignWorld<S>, w1: DesignWorld<S>, bs: Seq<PlacedBuilding<S>>, zs: Seq<ZoneCell>, e: GridEdit) -> bool {
    &&& w1.buildings@ == bs
    &&& w1.zones@ == zs
    &&& grid_edited(w0.grid, w1.grid, e)
    &&& w1.grid_size == w0.grid_size
}

/// `w1` is `w0` after reverting `a`.
pub open spec fn world_reverted<S>(w0: DesignWorld<S>, w1: DesignWorld<S>, a: DesignAction<S>) -> bool {
    world_is(w0, w1, reverted_buildings(w0.buildings@, a), reverted_zones(w0.zones@, a), revert_edit(w0.buildings@, a))
}

/// `w1` is `w0` after applying `a`.
pub open spec fn world_replayed<S>(w0: DesignWorld<S>, w1: DesignWorld<S>, a: DesignAction<S>, fresh: S) -> bool {
    world_is(w0, w1, replayed_buildings(w0.buildings@, a, fresh), replayed_zones(w0.zones@, a, w0.grid_size), replay_edit(w0.buildings@, a))
}

/// `w1` is `w0` unchanged.
pub open spec fn world_unchanged<S>(w0: DesignWorld<S>, w1: DesignWorld<S>) -> bool {
    world_is(w0, w1, w0.buildings@, w0.zones@, GridEdit::Keep)
}

/// `a` records painting the rectangle with corners `(x1, y1)`, `(x2, y2)`
/// in `zone_type` and `density`, the entities numbered from `first_id`.
pub open spec fn paint_recorded<S>(a: DesignAction<S>, x1: i64, y1: i64, x2: i64, y2: i64, zone_type: ZoneType, density: u8, first_id: u64, grid_size: i32) -> bool {
    a matches DesignAction::PaintZone { x1: ax1, y1: ay1, x2: ax2, y2: ay2, zone_type: zt, density: d, entity_ids } && {
        &&& ax1 == (if x1 <= x2 { x1 } else { x2 })
        &&& ax2 == (if x1 <= x2 { x2 } else { x1 })
        &&& ay1 == (if y1 <= y2 { y1 } else { y2 })
        &&& ay2 == (if y1 <= y2 { y2 } else { y1 })
        &&& zt == zone_type
        &&& d == density
        &&& entity_ids@ == Seq::new(zone_cell_seq(x1, y1, x2, y2, grid_size).len(), |k: int| (first_id + k) as u64)
    }
}

/// `a` records clearing the rectangle `[x1, x2] x [y1, y2]` of zones `zs`.
pub open spec fn clear_recorded<S>(a: DesignAction<S>, zs: Seq<ZoneCell>, x1: i64, y1: i64, x2: i64, y2: i64) -> bool {
    a matches DesignAction::ClearZone { x1: ax1, y1: ay1, x2: ax2, y2: ay2, previous_zones } && {
        &&& ax1 == x1 && ay1 == y1 && ax2 == x2 && ay2 == y2
        &&& previous_zones@ == zones_inside(zs, x1, y1, x2, y2)
    }
}

/// The tool recorded `a` and nothing else changed but the entity counter,
/// now `counter`.
pub open spec fn tool_recorded<S>(t0: DesignTool<DesignAction<S>>, t1: DesignTool<DesignAction<S>>, a: DesignAction<S>, counter: int) -> bool {
    &&& t1.undo_actions() == recorded(t0.undo_actions(), a)
    &&& t1.redo_actions().len() == 0
    &&& t1.ui() == (DesignUi { entity_id_counter: counter as u64, ..t0.ui() })
}

/// The tool is unchanged.
pub open spec fn tool_unchanged<S>(t0: DesignTool<DesignAction<S>>, t1: DesignTool<DesignAction<S>>) -> bool {
    &&& t1.undo_actions() == t0.undo_actions()
    &&& t1.redo_actions() == t0.redo_actions()
    &&& t1.ui() == t0.ui()
}

/// Entities a command creates besides its recorded action.
pub open spec fn command_entities(cmd: DesignCommand, grid_size: i32) -> int {
    match cmd {
        DesignCommand::PaintZone { x1, y1, x2, y2 } => zone_cell_seq(x1, y1, x2, y2, grid_size).len() as int,
        _ => 0,
    }
}

/// The command records an action.
pub open spec fn records(cmd: DesignCommand) -> bool {
    match cmd {
        DesignCommand::PaintZone { .. } | DesignCommand::ClearZone { .. } | DesignCommand::PlaceBuilding { .. }
        | DesignCommand::RemoveBuilding { .. } => true,
        _ => false,
    }
}

/// Map and tool `(w1, t1)` are `(w0, t0)` after `cmd`, placed buildings
/// holding `fresh`.
pub open spec fn design_step<S>(
    w0: DesignWorld<S>,
    w1: DesignWorld<S>,
    t0: DesignTool<DesignAction<S>>,
    t1: DesignTool<DesignAction<S>>,
    cmd: DesignCommand,
    fresh: S,
) -> bool {
    match cmd {
        DesignCommand::Undo => if t0.undo_actions().len() == 0 {
            world_unchanged(w0, w1) && tool_unchanged(t0, t1)
        } else {
            &&& world_reverted(w0, w1, t0.undo_actions().last())
            &&& (t1.undo_actions(), t1.redo_actions()) == undone(t0.undo_actions(), t0.redo_actions())
            &&& t1.ui() == t0.ui()
        },
        DesignCommand::Redo => if t0.redo_actions().len() == 0 {
            world_unchanged(w0, w1) && tool_unchanged(t0, t1)
        } else {
            &&& world_replayed(w0, w1, t0.redo_actions().last(), fresh)
            &&& (t1.undo_actions(), t1.redo_actions()) == redone(t0.undo_actions(), t0.redo_actions())
            &&& t1.ui() == t0.ui()
        },
        DesignCommand::PlaceBuilding { x, y } => if w0.grid.cell(0, grid_coord(x) as int % 128, grid_coord(y) as int % 128) {
            world_unchanged(w0, w1) && tool_unchanged(t0, t1)
        } else {
            let a = DesignAction::PlaceBuilding {
                x,
                y,
                building_type: t0.current_building,
                entity_id: Some(t0.entity_id_counter),
            };
            world_replayed(w0, w1, a, fresh) && tool_recorded(t0, t1, a, t0.entity_id_counter + 1)
        },
        DesignCommand::RemoveBuilding { x, y } => match first_at(w0.buildings@, x, y, 0) {
            None => world_unchanged(w0, w1) && tool_unchanged(t0, t1),
            Some(i) => {
                let b = w0.buildings@[i];
                let a = DesignAction::RemoveBuilding { x, y, building_type: b.building_type, stock: b.stock };
                world_replayed(w0, w1, a, fresh) && tool_recorded(t0, t1, a, t0.entity_id_counter + 1)
            },
        },
        DesignCommand::PaintZone { x1, y1, x2, y2 } => {
            let a = t1.undo_actions().last();
            let n = zone_cell_seq(x1, y1, x2, y2, w0.grid_size).len();
            &&& paint_recorded(a, x1, y1, x2, y2, t0.current_zone, t0.brush_density, t0.entity_id_counter, w0.grid_size)
            &&& world_replayed(w0, w1, a, fresh)
            &&& tool_recorded(t0, t1, a, t0.entity_id_counter + n + 1)
        },
        DesignCommand::ClearZone { x1, y1, x2, y2 } => {
            let a = t1.undo_actions().last();
            &&& clear_recorded(a, w0.zones@, x1, y1, x2, y2)
            &&& world_replayed(w0, w1, a, fresh)
            &&& tool_recorded(t0, t1, a, t0.entity_id_counter + 1)
        },
        DesignCommand::Inspect { .. } => world_unchanged(w0, w1) && tool_unchanged(t0, t1),
    }
}

// ---------------------------------------------------------------------------
// Facts about the sequences
// ---------------------------------------------------------------------------

proof fn lemma_first_at<S>(bs: Seq<PlacedBuilding<S>>, x: i32, y: i32, i: int)
    requires
        0 <= i,
    ensures
        first_at(bs, x, y, i) matches Some(j) ==> i <= j < bs.len() && at_cell(bs[j], x, y)
            && forall|k: int| i <= k < j ==> !at_cell(#[trigger] bs[k], x, y),
        first_at(bs, x, y, i) is None ==> forall|k: int| i <= k < bs.len() ==> !at_cell(#[trigger] bs[k], x, y),
    decreases bs.len() - i,
{
    if i < bs.len() && !at_cell(bs[i], x, y) {
        lemma_first_at(bs, x, y, i + 1);
    }
}

proof fn lemma_first_at_some<S>(bs: Seq<PlacedBuilding<S>>, x: i32, y: i32)
    ensures
        first_at(bs, x, y, 0) is Some <==> has_building_at(bs, x, y),
{
    lemma_first_at(bs, x, y, 0);
    if has_building_at(bs, x, y) {
        let k = choose|k: int| 0 <= k < bs.len() && at_cell(#[trigger] bs[k], x, y);
        assert(at_cell(bs[k], x, y));
    }
}

proof fn lemma_buildings_off_none<S>(bs: Seq<PlacedBuilding<S>>, x: i32, y: i32)
    requires
        !has_building_at(bs, x, y),
    ensures
        buildings_off(bs, x, y) == bs,
    decreases bs.len(),
{
    if bs.len() > 0 {
        assert(!has_building_at(bs.drop_last(), x, y)) by {
            if has_building_at(bs.drop_last(), x, y) {
                let k = choose|k: int| 0 <= k < bs.drop_last().len() && at_cell(#[trigger] bs.drop_last()[k], x, y);
                assert(at_cell(bs[k], x, y));
            }
        }
        lemma_buildings_off_none(bs.drop_last(), x, y);
        assert(!at_cell(bs[bs.len() - 1], x, y));
        assert(bs.drop_last().push(bs.last()) =~= bs);
    }
}

proof fn lemma_zones_outside_concat(a: Seq<ZoneCell>, b: Seq<ZoneCell>, x1: i64, y1: i64, x2: i64, y2: i64)
    ensures
        zones_outside(a + b, x1, y1, x2, y2) == zones_outside(a, x1, y1, x2, y2) + zones_outside(b, x1, y1, x2, y2),
    decreases b.len(),
{
    if b.len() == 0 {
        assert(a + b =~= a);
        assert(zones_outside(a, x1, y1, x2, y2) + zones_outside(b, x1, y1, x2, y2) =~= zones_outside(a, x1, y1, x2, y2));
    } else {
        lemma_zones_outside_concat(a, b.drop_last(), x1, y1, x2, y2);
        assert((a + b).drop_last() =~= a + b.drop_last());
        assert((a + b).last() == b.last());
        let oa = zones_outside(a, x1, y1, x2, y2);
        let ob = zones_outside(b.drop_last(), x1, y1, x2, y2);
        assert((oa + ob).push(b.last()) =~= oa + ob.push(b.last()));
    }
}

/// No zone of `zs` lies in the rectangle.
pub open spec fn none_in_rect(zs: Seq<ZoneCell>, x1: i64, y1: i64, x2: i64, y2: i64) -> bool {
    forall|k: int| 0 <= k < zs.len() ==> !in_rect(#[trigger] zs[k], x1, y1, x2, y2)
}

/// Every zone of `zs` lies in the rectangle.
pub open spec fn all_in_rect(zs: Seq<ZoneCell>, x1: i64, y1: i64, x2: i64, y2: i64) -> bool {
    forall|k: int| 0 <= k < zs.len() ==> in_rect(#[trigger] zs[k], x1, y1, x2, y2)
}

proof fn lemma_zones_outside_none(zs: Seq<ZoneCell>, x1: i64, y1: i64, x2: i64, y2: i64)
    requires
        none_in_rect(zs, x1, y1, x2, y2),
    ensures
        zones_outside(zs, x1, y1, x2, y2) == zs,
    decreases zs.len(),
{
    if zs.len() > 0 {
        assert(none_in_rect(zs.drop_last(), x1, y1, x2, y2)) by {
            assert forall|k: int| 0 <= k < zs.drop_last().len() implies !in_rect(#[trigger] zs.drop_last()[k], x1, y1, x2, y2) by {
                assert(zs.drop_last()[k] == zs[k]);
            }
        }
        lemma_zones_outside_none(zs.drop_last(), x1, y1, x2, y2);
        assert(!in_rect(zs[zs.len() - 1], x1, y1, x2, y2));
        assert(zs.drop_last().push(zs.last()) =~= zs);
    }
}

proof fn lemma_zones_outside_all(zs: Seq<ZoneCell>, x1: i64, y1: i64, x2: i64, y2: i64)
    requires
        all_in_rect(zs, x1, y1, x2, y2),
    ensures
        zones_outside(zs, x1, y1, x2, y2) == Seq::<ZoneCell>::empty(),
    decreases zs.len(),
{
    if zs.len() > 0 {
        assert(all_in_rect(zs.drop_last(), x1, y1, x2, y2)) by {
            assert forall|k: int| 0 <= k < zs.drop_last().len() implies in_rect(#[trigger] zs.drop_last()[k], x1, y1, x2, y2) by {
                assert(zs.drop_last()[k] == zs[k]);
            }
        }
        lemma_zones_outside_all(zs.drop_last(), x1, y1, x2, y2);
        assert(in_rect(zs[zs.len() - 1], x1, y1, x2, y2));
    }
}

proof fn lemma_painted_in_rect(x1: i64, y1: i64, x2: i64, y2: i64, grid_size: i32, zone_type: ZoneType, density: u8)
    requires
        x1 <= x2,
        y1 <= y2,
    ensures
        all_in_rect(painted(zone_cell_seq(x1, y1, x2, y2, grid_size), zone_type, density), x1, y1, x2, y2),
{
    let (xs, xe) = span_in_grid(x1, x2, grid_size);
    let (ys, ye) = span_in_grid(y1, y2, grid_size);
    let p = painted(zone_cell_seq(x1, y1, x2, y2, grid_size), zone_type, density);
    if xs < xe && ys < ye {
        let n = ye - ys;
        let m = xe - xs;
        assert forall|k: int| 0 <= k < p.len() implies in_rect(#[trigger] p[k], x1, y1, x2, y2) by {
            assert(0 <= k / n < m && 0 <= k % n < n) by (nonlinear_arith)
                requires
                    n > 0,
                    m > 0,
                    0 <= k < m * n,
            ;
        }
    }
}

// ---------------------------------------------------------------------------
// The law of undo and redo
// ---------------------------------------------------------------------------

/// The map `(bs, zs, g)` is as `a` left it, with `fresh` the stock of a
/// placed building: a placed building is the last one and alone on its
/// (occupied) cell; painted zones are the last ones and no earlier zone lies
/// in the painted rectangle; a removed building's cell is free and empty;
/// no zone is left in a cleared rectangle, and the cleared zones lay in it.
pub open spec fn reflects<S>(bs: Seq<PlacedBuilding<S>>, zs: Seq<ZoneCell>, g: BitGrid, a: DesignAction<S>, fresh: S, grid_size: i32) -> bool {
    match a {
        DesignAction::PlaceBuilding { x, y, building_type, entity_id } => {
            &&& entity_id is Some
            &&& bs.len() > 0
            &&& bs.last() == (PlacedBuilding { x, y, building_type, stock: fresh })
            &&& !has_building_at(bs.drop_last(), x, y)
            &&& g.cell(0, grid_coord(x) as int % 128, grid_coord(y) as int % 128)
        },
        DesignAction::PaintZone { x1, y1, x2, y2, zone_type, density, .. } => {
            let p = painted(zone_cell_seq(x1, y1, x2, y2, grid_size), zone_type, density);
            &&& x1 <= x2 && y1 <= y2
            &&& p.len() <= zs.len()
            &&& zs.subrange(zs.len() - p.len(), zs.len() as int) == p
            &&& none_in_rect(zs.subrange(0, zs.len() - p.len()), x1, y1, x2, y2)
        },
        DesignAction::RemoveBuilding { x, y, .. } => {
            &&& !has_building_at(bs, x, y)
            &&& !g.cell(0, grid_coord(x) as int % 128, grid_coord(y) as int % 128)
        },
        DesignAction::ClearZone { x1, y1, x2, y2, previous_zones } => {
            &&& none_in_rect(zs, x1, y1, x2, y2)
            &&& all_in_rect(previous_zones@, x1, y1, x2, y2)
        },
    }
}

/// Redo right after undo gives back the map as it was: applying again the
/// action that undo reverted restores the buildings, the zones and every
/// cell of the obstacle grid, provided the map is as that action left it.
pub proof fn lemma_redo_after_undo<S>(bs: Seq<PlacedBuilding<S>>, zs: Seq<ZoneCell>, g: BitGrid, a: DesignAction<S>, fresh: S, grid_size: i32)
    requires
        reflects(bs, zs, g, a, fresh, grid_size),
    ensures
        replayed_buildings(reverted_buildings(bs, a), a, fresh) == bs,
        replayed_zones(reverted_zones(zs, a), a, grid_size) == zs,
        forall|l: int, gx: int, gy: int|
            edited(edited(g.cell(l, gx, gy), revert_edit(bs, a), l, gx, gy), replay_edit(reverted_buildings(bs, a), a), l, gx, gy)
                == #[trigger] g.cell(l, gx, gy),
{
    match a {
        DesignAction::PlaceBuilding { x, y, building_type, entity_id } => {
            let init = bs.drop_last();
            lemma_buildings_off_none(init, x, y);
            assert(at_cell(bs.last(), x, y));
            assert(has_building_at(bs, x, y)) by {
                assert(at_cell(bs[bs.len() - 1], x, y));
            }
            assert(reverted_buildings(bs, a) == init);
            assert(init.push(bs.last()) =~= bs);
        },
        DesignAction::PaintZone { x1, y1, x2, y2, zone_type, density, .. } => {
            let p = painted(zone_cell_seq(x1, y1, x2, y2, grid_size), zone_type, density);
            let k = zs.len() - p.len();
            let pre = zs.subrange(0, k);
            assert(zs =~= pre + p);
            lemma_zones_outside_concat(pre, p, x1, y1, x2, y2);
            lemma_zones_outside_none(pre, x1, y1, x2, y2);
            lemma_painted_in_rect(x1, y1, x2, y2, grid_size, zone_type, density);
            lemma_zones_outside_all(p, x1, y1, x2, y2);
            assert(pre + Seq::<ZoneCell>::empty() =~= pre);
        },
        DesignAction::RemoveBuilding { x, y, building_type, stock } => {
            let b = PlacedBuilding { x, y, building_type, stock };
            let pushed = bs.push(b);
            lemma_first_at(pushed, x, y, 0);
            assert(at_cell(pushed[bs.len() as int], x, y));
            assert forall|k: int| 0 <= k < bs.len() implies !at_cell(#[trigger] pushed[k], x, y) by {
                assert(pushed[k] == bs[k]);
                if at_cell(bs[k], x, y) {
                    assert(has_building_at(bs, x, y));
                }
            }
            assert(first_at(pushed, x, y, 0) == Some(bs.len() as int));
            assert(pushed.remove(bs.len() as int) =~= bs);
            assert(has_building_at(pushed, x, y));
        },
        DesignAction::ClearZone { x1, y1, x2, y2, previous_zones } => {
            lemma_zones_outside_concat(zs, previous_zones@, x1, y1, x2, y2);
            lemma_zones_outside_none(zs, x1, y1, x2, y2);
            lemma_zones_outside_all(previous_zones@, x1, y1, x2, y2);
            assert(zs + Seq::<ZoneCell>::empty() =~= zs);
        },
    }
}

proof fn lemma_zones_outside_rect(zs: Seq<ZoneCell>, x1: i64, y1: i64, x2: i64, y2: i64)
    ensures
        none_in_rect(zones_outside(zs, x1, y1, x2, y2), x1, y1, x2, y2),
        all_in_rect(zones_inside(zs, x1, y1, x2, y2), x1, y1, x2, y2),
    decreases zs.len(),
{
    if zs.len() > 0 {
        lemma_zones_outside_rect(zs.drop_last(), x1, y1, x2, y2);
        let o = zones_outside(zs.drop_last(), x1, y1, x2, y2);
        let n = zones_inside(zs.drop_last(), x1, y1, x2, y2);
        if !in_rect(zs.last(), x1, y1, x2, y2) {
            assert forall|k: int| 0 <= k < o.push(zs.last()).len() implies !in_rect(#[trigger] o.push(zs.last())[k], x1, y1, x2, y2) by {
                if k < o.len() {
                    assert(o.push(zs.last())[k] == o[k]);
                }
            }
        } else {
            assert forall|k: int| 0 <= k < n.push(zs.last()).len() implies in_rect(#[trigger] n.push(zs.last())[k], x1, y1, x2, y2) by {
                if k < n.len() {
                    assert(n.push(zs.last())[k] == n[k]);
                }
            }
        }
    }
}

/// Every building of `w` stands on an occupied cell of the obstacle layer.
pub open spec fn buildings_on_obstacles<S>(w: DesignWorld<S>) -> bool {
    forall|i: int| 0 <= i < w.buildings@.len() ==>
        w.grid.cell(0, grid_coord((#[trigger] w.buildings@[i]).x) as int % 128, grid_coord(w.buildings@[i].y) as int % 128)
}

/// At most one building of `bs` stands on cell `(x, y)`.
pub open spec fn alone_on_cell<S>(bs: Seq<PlacedBuilding<S>>, x: i32, y: i32) -> bool {
    forall|i: int, j: int| 0 <= i < bs.len() && 0 <= j < bs.len() && at_cell(#[trigger] bs[i], x, y)
        && at_cell(#[trigger] bs[j], x, y) ==> i == j
}

/// What undoing `cmd` needs of the map it starts from: a removal takes the
/// only building of its cell, and painting covers no zone already there.
pub open spec fn undoable_from<S>(w: DesignWorld<S>, cmd: DesignCommand) -> bool {
    match cmd {
        DesignCommand::RemoveBuilding { x, y } => alone_on_cell(w.buildings@, x, y),
        DesignCommand::PaintZone { x1, y1, x2, y2 } => none_in_rect(
            w.zones@,
            if x1 <= x2 { x1 } else { x2 },
            if y1 <= y2 { y1 } else { y2 },
            if x1 <= x2 { x2 } else { x1 },
            if y1 <= y2 { y2 } else { y1 },
        ),
        _ => true,
    }
}

/// A command that records an action leaves the map as that action left it,
/// when every building stands on an obstacle and the command is undoable
/// from the map.
pub proof fn lemma_command_reflected<S>(
    w0: DesignWorld<S>,
    w1: DesignWorld<S>,
    t0: DesignTool<DesignAction<S>>,
    t1: DesignTool<DesignAction<S>>,
    cmd: DesignCommand,
    fresh: S,
)
    requires
        w0.wf(),
        design_step(w0, w1, t0, t1, cmd, fresh),
        records(cmd),
        t1.ui().entity_id_counter != t0.ui().entity_id_counter,
        buildings_on_obstacles(w0),
        undoable_from(w0, cmd),
    ensures
        t1.undo_actions().len() > 0,
        reflects(w1.buildings@, w1.zones@, w1.grid, t1.undo_actions().last(), fresh, w1.grid_size),
{
    let bs = w0.buildings@;
    match cmd {
        DesignCommand::PlaceBuilding { x, y } => {
            let c = (grid_coord(x) as int % 128, grid_coord(y) as int % 128);
            assert(!w0.grid.cell(0, c.0, c.1));
            let a = t1.undo_actions().last();
            assert(w1.buildings@ == bs.push(PlacedBuilding { x, y, building_type: t0.current_building, stock: fresh }));
            assert(w1.buildings@.drop_last() =~= bs);
            assert(!has_building_at(bs, x, y)) by {
                if has_building_at(bs, x, y) {
                    let k = choose|k: int| 0 <= k < bs.len() && at_cell(#[trigger] bs[k], x, y);
                    assert(w0.grid.cell(0, grid_coord(bs[k].x) as int % 128, grid_coord(bs[k].y) as int % 128));
                }
            }
            assert(w1.grid.cell(0, c.0, c.1));
        },
        DesignCommand::RemoveBuilding { x, y } => {
            lemma_first_at(bs, x, y, 0);
            let i = first_at(bs, x, y, 0)->0;
            let rest = bs.remove(i);
            assert(w1.buildings@ == rest);
            assert(!has_building_at(rest, x, y)) by {
                if has_building_at(rest, x, y) {
                    let k = choose|k: int| 0 <= k < rest.len() && at_cell(#[trigger] rest[k], x, y);
                    if k < i {
                        assert(rest[k] == bs[k]);
                        assert(at_cell(bs[k], x, y) && at_cell(bs[i], x, y));
                    } else {
                        assert(rest[k] == bs[k + 1]);
                        assert(at_cell(bs[k + 1], x, y) && at_cell(bs[i], x, y));
                    }
                }
            }
            assert(has_building_at(bs, x, y)) by {
                assert(at_cell(bs[i], x, y));
            }
        },
        DesignCommand::PaintZone { x1, y1, x2, y2 } => {
            let a = t1.undo_actions().last();
            let zs = w0.zones@;
            match a {
                DesignAction::PaintZone { x1: ax1, y1: ay1, x2: ax2, y2: ay2, zone_type, density, .. } => {
                    let p = painted(zone_cell_seq(ax1, ay1, ax2, ay2, w0.grid_size), zone_type, density);
                    assert(w1.zones@ == zs + p);
                    assert((zs + p).subrange(zs.len() as int, (zs + p).len() as int) =~= p);
                    assert((zs + p).subrange(0, zs.len() as int) =~= zs);
                },
                _ => {},
            }
        },
        DesignCommand::ClearZone { x1, y1, x2, y2 } => {
            lemma_zones_outside_rect(w0.zones@, x1, y1, x2, y2);
        },
        _ => {},
    }
}

/// A command, then undo, then redo: the map and the history are as right
/// after the command (placed buildings holding the same `fresh` stock),
/// when every building stands on an obstacle and the command is undoable
/// from the map it started from.
pub proof fn lemma_command_undo_redo<S>(
    w0: DesignWorld<S>,
    w1: DesignWorld<S>,
    w2: DesignWorld<S>,
    w3: DesignWorld<S>,
    t0: DesignTool<DesignAction<S>>,
    t1: DesignTool<DesignAction<S>>,
    t2: DesignTool<DesignAction<S>>,
    t3: DesignTool<DesignAction<S>>,
    cmd: DesignCommand,
    fresh: S,
    undo_fresh: S,
)
    requires
        w0.wf(),
        buildings_on_obstacles(w0),
        undoable_from(w0, cmd),
        records(cmd),
        design_step(w0, w1, t0, t1, cmd, fresh),
        t1.ui().entity_id_counter != t0.ui().entity_id_counter,
        design_step(w1, w2, t1, t2, DesignCommand::Undo, undo_fresh),
        design_step(w2, w3, t2, t3, DesignCommand::Redo, fresh),
    ensures
        w3.buildings@ == w1.buildings@,
        w3.zones@ == w1.zones@,
        forall|l: int, gx: int, gy: int| 0 <= l < 6 && 0 <= gx < 128 && 0 <= gy < 128 ==>
            #[trigger] w3.grid.cell(l, gx, gy) == w1.grid.cell(l, gx, gy),
        t3.undo_actions() == t1.undo_actions(),
        t3.redo_actions() == t1.redo_actions(),
        t3.ui() == t1.ui(),
{
    lemma_command_reflected(w0, w1, t0, t1, cmd, fresh);
    let a = t1.undo_actions().last();
    lemma_redo_after_undo(w1.buildings@, w1.zones@, w1.grid, a, fresh, w1.grid_size);
    lemma_undo_then_redo(t1.undo_actions(), t1.redo_actions());
    assert(t2.redo_actions().last() == a);
    assert forall|l: int, gx: int, gy: int| 0 <= l < 6 && 0 <= gx < 128 && 0 <= gy < 128 implies
        #[trigger] w3.grid.cell(l, gx, gy) == w1.grid.cell(l, gx, gy) by {
        assert(w2.grid.cell(l, gx, gy) == edited(w1.grid.cell(l, gx, gy), revert_edit(w1.buildings@, a), l, gx, gy));
        assert(w3.grid.cell(l, gx, gy) == edited(w2.grid.cell(l, gx, gy), replay_edit(w2.buildings@, a), l, gx, gy));
    }
}

// ---------------------------------------------------------------------------
// Executable parts
// ---------------------------------------------------------------------------

impl<S> DesignWorld<S> {
    /// The obstacle grid holds its six layers.
    pub open spec fn wf(&self) -> bool {
        self.grid.wf()
    }
}

impl<S: Copy> DesignWorld<S> {
    /// An empty `grid_size` x `grid_size` map.
    pub fn new(grid_size: i32) -> (r: DesignWorld<S>)
        ensures
            r.wf(),
            r.buildings@.len() == 0,
            r.zones@.len() == 0,
            r.grid_size == grid_size,
            forall|l: int, gx: int, gy: int| 0 <= l < 6 && 0 <= gx < 128 && 0 <= gy < 128 ==> !#[trigger] r.grid.cell(l, gx, gy),
    {
        let grid = BitGrid::new();
        DesignWorld { buildings: Vec::new(), zones: Vec::new(), grid, grid_size }
    }

    /// Number of buildings.
    pub fn building_count(&self) -> (r: usize)
        ensures
            r == self.buildings@.len(),
    {
        self.buildings.len()
    }

    /// Number of zones.
    pub fn zone_count(&self) -> (r: usize)
        ensures
            r == self.zones@.len(),
    {
        self.zones.len()
    }
}

/// Index of the first building on cell `(x, y)`.
fn first_building_at<S: Copy>(bs: &Vec<PlacedBuilding<S>>, x: i32, y: i32) -> (r: Option<usize>)
    ensures
        match r {
            Some(i) => first_at(bs@, x, y, 0) == Some(i as int),
            None => first_at(bs@, x, y, 0) is None,
        },
        r matches Some(i) ==> i < bs@.len(),
{
    let mut i: usize = 0;
    while i < bs.len()
        invariant
            i <= bs@.len(),
            first_at(bs@, x, y, 0) == first_at(bs@, x, y, i as int),
        decreases bs@.len() - i,
    {
        if bs[i].x == x && bs[i].y == y {
            return Some(i);
        }
        i = i + 1;
    }
    None
}

/// Removes every building on cell `(x, y)`; says whether there was one.
fn remove_buildings_at<S: Copy>(bs: &mut Vec<PlacedBuilding<S>>, x: i32, y: i32) -> (removed: bool)
    ensures
        final(bs)@ == buildings_off(old(bs)@, x, y),
        removed == has_building_at(old(bs)@, x, y),
{
    let mut kept: Vec<PlacedBuilding<S>> = Vec::new();
    let mut any = false;
    let mut i: usize = 0;
    let ghost b0 = bs@;
    while i < bs.len()
        invariant
            i <= bs@.len(),
            bs@ == b0,
            kept@ == buildings_off(b0.take(i as int), x, y),
            any == has_building_at(b0.take(i as int), x, y),
        decreases bs@.len() - i,
    {
        let b = bs[i];
        let ghost t = b0.take(i + 1);
        assert(t.drop_last() =~= b0.take(i as int));
        assert(t.last() == b);
        if b.x == x && b.y == y {
            any = true;
            assert(at_cell(t[i as int], x, y));
        } else {
            kept.push(b);
        }
        proof {
            if has_building_at(t, x, y) && !at_cell(b, x, y) {
                let k = choose|k: int| 0 <= k < t.len() && at_cell(#[trigger] t[k], x, y);
                assert(k < i);
                assert(b0.take(i as int)[k] == t[k]);
            }
            if has_building_at(b0.take(i as int), x, y) {
                let k = choose|k: int| 0 <= k < b0.take(i as int).len() && at_cell(#[trigger] b0.take(i as int)[k], x, y);
                assert(t[k] == b0.take(i as int)[k]);
            }
        }
        i = i + 1;
    }
    assert(b0.take(b0.len() as int) =~= b0);
    *bs = kept;
    any
}

/// Removes the zones in the rectangle; returns them, in order.
fn take_zones_in(zs: &mut Vec<ZoneCell>, x1: i64, y1: i64, x2: i64, y2: i64) -> (inside: Vec<ZoneCell>)
    ensures
        final(zs)@ == zones_outside(old(zs)@, x1, y1, x2, y2),
        inside@ == zones_inside(old(zs)@, x1, y1, x2, y2),
{
    let mut kept: Vec<ZoneCell> = Vec::new();
    let mut inside: Vec<ZoneCell> = Vec::new();
    let mut i: usize = 0;
    let ghost z0 = zs@;
    while i < zs.len()
        invariant
            i <= zs@.len(),
            zs@ == z0,
            kept@ == zones_outside(z0.take(i as int), x1, y1, x2, y2),
            inside@ == zones_inside(z0.take(i as int), x1, y1, x2, y2),
        decreases zs@.len() - i,
    {
        let z = zs[i];
        let ghost t = z0.take(i + 1);
        assert(t.drop_last() =~= z0.take(i as int));
        assert(t.last() == z);
        if x1 <= z.x as i64 && z.x as i64 <= x2 && y1 <= z.y as i64 && z.y as i64 <= y2 {
            inside.push(z);
        } else {
            kept.push(z);
        }
        i = i + 1;
    }
    assert(z0.take(z0.len() as int) =~= z0);
    *zs = kept;
    inside
}

/// Sets or clears the obstacle cell of `(x, y)`.
fn edit_grid(grid: &mut BitGrid, x: i32, y: i32, set: bool)
    requires
        old(grid).wf(),
    ensures
        grid_edited(*old(grid), *final(grid),
            if set { GridEdit::Occupy(grid_coord(x), grid_coord(y)) } else { GridEdit::Free(grid_coord(x), grid_coord(y)) }),
{
    let gx = grid_coord_exec(x);
    let gy = grid_coord_exec(y);
    if set {
        grid.set(0, gx, gy);
    } else {
        grid.clear(0, gx, gy);
    }
}

/// Reverts `a` on the map.
fn revert_action<S: Copy>(world: &mut DesignWorld<S>, a: &DesignAction<S>)
    requires
        old(world).wf(),
    ensures
        final(world).wf(),
        world_reverted(*old(world), *final(world), *a),
{
    match a {
        DesignAction::PlaceBuilding { x, y, entity_id, .. } => {
            if entity_id.is_some() {
                let removed = remove_buildings_at(&mut world.buildings, *x, *y);
                if removed {
                    edit_grid(&mut world.grid, *x, *y, false);
                }
            }
        },
        DesignAction::PaintZone { x1, y1, x2, y2, .. } => {
            let _ = take_zones_in(&mut world.zones, *x1, *y1, *x2, *y2);
        },
        DesignAction::RemoveBuilding { x, y, building_type, stock } => {
            world.buildings.push(PlacedBuilding { x: *x, y: *y, building_type: *building_type, stock: *stock });
            edit_grid(&mut world.grid, *x, *y, true);
        },
        DesignAction::ClearZone { previous_zones, .. } => {
            let mut k: usize = 0;
            let ghost z0 = world.zones@;
            while k < previous_zones.len()
                invariant
                    k <= previous_zones@.len(),
                    world.zones@ == z0 + previous_zones@.take(k as int),
                    world.buildings@ == old(world).buildings@,
                    world.grid == old(world).grid,
                    world.grid_size == old(world).grid_size,
                    world.grid.wf(),
                decreases previous_zones@.len() - k,
            {
                world.zones.push(previous_zones[k]);
                k = k + 1;
                assert(world.zones@ =~= z0 + previous_zones@.take(k as int));
            }
            assert(previous_zones@.take(k as int) =~= previous_zones@);
        },
    }
}

/// Applies a zone action `a` (again) on the map.
fn replay_zone_action<S: Copy>(world: &mut DesignWorld<S>, a: &DesignAction<S>)
    requires
        old(world).wf(),
        a is PaintZone || a is ClearZone,
    ensures
        final(world).wf(),
        forall|fresh: S| world_replayed(*old(world), *final(world), *a, fresh),
{
    match a {
        DesignAction::PaintZone { x1, y1, x2, y2, zone_type, density, .. } => {
            let cells = zone_cells(*x1, *y1, *x2, *y2, world.grid_size);
            let ghost z0 = world.zones@;
            let ghost p = painted(cells@, *zone_type, *density);
            let mut k: usize = 0;
            while k < cells.len()
                invariant
                    k <= cells@.len(),
                    p == painted(cells@, *zone_type, *density),
                    world.zones@ == z0 + p.take(k as int),
                    world.buildings@ == old(world).buildings@,
                    world.grid == old(world).grid,
                    world.grid_size == old(world).grid_size,
                    world.grid.wf(),
                decreases cells@.len() - k,
            {
                let (cx, cy) = cells[k];
                world.zones.push(ZoneCell { x: cx, y: cy, zone_type: *zone_type, density: *density });
                k = k + 1;
                assert(world.zones@ =~= z0 + p.take(k as int));
            }
            assert(p.take(k as int) =~= p);
        },
        DesignAction::ClearZone { x1, y1, x2, y2, .. } => {
            let _ = take_zones_in(&mut world.zones, *x1, *y1, *x2, *y2);
        },
        _ => {},
    }
}

/// Applies `a` (again) on the map, placed buildings holding `fresh`.
fn replay_action<S: Copy>(world: &mut DesignWorld<S>, a: &DesignAction<S>, fresh: S)
    requires
        old(world).wf(),
    ensures
        final(world).wf(),
        world_replayed(*old(world), *final(world), *a, fresh),
{
    match a {
        DesignAction::PlaceBuilding { x, y, building_type, .. } => {
            world.buildings.push(PlacedBuilding { x: *x, y: *y, building_type: *building_type, stock: fresh });
            edit_grid(&mut world.grid, *x, *y, true);
        },
        DesignAction::PaintZone { .. } => {
            replay_zone_action(world, a);
        },
        DesignAction::RemoveBuilding { x, y, .. } => {
            proof {
                lemma_first_at_some(world.buildings@, *x, *y);
            }
            match first_building_at(&world.buildings, *x, *y) {
                Some(i) => {
                    world.buildings.remove(i);
                    edit_grid(&mut world.grid, *x, *y, false);
                },
                None => {},
            }
        },
        DesignAction::ClearZone { .. } => {
            replay_zone_action(world, a);
        },
    }
}

proof fn lemma_span_symmetric(a: i64, b: i64, g: i32)
    ensures
        span_in_grid(a, b, g) == span_in_grid(if a <= b { a } else { b }, if a <= b { b } else { a }, g),
{
}

impl<S: Copy> DesignTool<DesignAction<S>> {
    /// Reverts the last recorded action on the map and moves it to the redo
    /// list; the result says whether there was one.
    pub fn undo(&mut self, world: &mut DesignWorld<S>) -> (r: bool)
        requires
            old(self).wf(),
            old(world).wf(),
        ensures
            final(self).wf(),
            final(world).wf(),
            r == (old(self).undo_actions().len() > 0),
            forall|fresh: S| design_step(*old(world), *final(world), *old(self), *final(self), DesignCommand::Undo, fresh),
    {
        if self.undo_history() {
            let n = self.redo_stack.len();
            revert_action(world, &self.redo_stack[n - 1]);
            true
        } else {
            false
        }
    }

    /// Applies the last undone action again on the map, placed buildings
    /// holding `fresh`, and moves it back to the undo list; the result says
    /// whether there was one.
    pub fn redo(&mut self, world: &mut DesignWorld<S>, fresh: S) -> (r: bool)
        requires
            old(self).wf(),
            old(world).wf(),
        ensures
            final(self).wf(),
            final(world).wf(),
            r == (old(self).redo_actions().len() > 0),
            design_step(*old(world), *final(world), *old(self), *final(self), DesignCommand::Redo, fresh),
    {
        if self.redo_history() {
            let n = self.undo_stack.len();
            replay_action(world, &self.undo_stack[n - 1], fresh);
            true
        } else {
            false
        }
    }

    /// Places the current building, holding `fresh`, on cell `(x, y)` unless
    /// its obstacle cell is occupied, and records it.
    pub fn execute_place_building(&mut self, world: &mut DesignWorld<S>, x: i32, y: i32, fresh: S)
        requires
            old(self).wf(),
            old(world).wf(),
            old(self).entity_id_counter < u64::MAX,
        ensures
            final(self).wf(),
            final(world).wf(),
            design_step(*old(world), *final(world), *old(self), *final(self), DesignCommand::PlaceBuilding { x, y }, fresh),
    {
        if world.grid.is_obstacle(grid_coord_exec(x), grid_coord_exec(y)) {
            return;
        }
        let a = DesignAction::PlaceBuilding {
            x,
            y,
            building_type: self.current_building,
            entity_id: Some(self.entity_id_counter),
        };
        replay_action(world, &a, fresh);
        self.push_action(a);
    }

    /// Removes the first building on cell `(x, y)`, if any, and records
    /// what it was and held.
    pub fn execute_remove_building(&mut self, world: &mut DesignWorld<S>, x: i32, y: i32)
        requires
            old(self).wf(),
            old(world).wf(),
            old(self).entity_id_counter < u64::MAX,
        ensures
            final(self).wf(),
            final(world).wf(),
            forall|fresh: S| design_step(*old(world), *final(world), *old(self), *final(self), DesignCommand::RemoveBuilding { x, y }, fresh),
    {
        match first_building_at(&world.buildings, x, y) {
            Some(i) => {
                let b = world.buildings[i];
                let a = DesignAction::RemoveBuilding { x, y, building_type: b.building_type, stock: b.stock };
                replay_action(world, &a, b.stock);
                self.push_action(a);
            },
            None => {},
        }
    }

    /// Paints the current zone and density on the cells of the rectangle
    /// with corners `(x1, y1)`, `(x2, y2)` that lie on the map, one entity
    /// each, and records it.
    pub fn execute_paint_zone(&mut self, world: &mut DesignWorld<S>, x1: i64, y1: i64, x2: i64, y2: i64)
        requires
            old(self).wf(),
            old(world).wf(),
            old(self).entity_id_counter + zone_cell_seq(x1, y1, x2, y2, old(world).grid_size).len() < u64::MAX,
        ensures
            final(self).wf(),
            final(world).wf(),
            forall|fresh: S| design_step(*old(world), *final(world), *old(self), *final(self), DesignCommand::PaintZone { x1, y1, x2, y2 }, fresh),
    {
        let cells = zone_cells(x1, y1, x2, y2, world.grid_size);
        let first = self.entity_id_counter;
        let mut ids: Vec<u64> = Vec::new();
        let mut k: usize = 0;
        while k < cells.len()
            invariant
                k <= cells@.len(),
                cells@ == zone_cell_seq(x1, y1, x2, y2, world.grid_size),
                first + cells@.len() < u64::MAX,
                self.entity_id_counter == first + k,
                ids@ == Seq::new(k as nat, |j: int| (first + j) as u64),
                self.undo_actions() == old(self).undo_actions(),
                self.redo_actions() == old(self).redo_actions(),
                self.ui() == (DesignUi { entity_id_counter: self.entity_id_counter, ..old(self).ui() }),
            decreases cells@.len() - k,
        {
            ids.push(self.entity_id_counter);
            self.entity_id_counter = self.entity_id_counter + 1;
            k = k + 1;
            assert(ids@ =~= Seq::new(k as nat, |j: int| (first + j) as u64));
        }
        let a = DesignAction::PaintZone {
            x1: if x1 <= x2 { x1 } else { x2 },
            y1: if y1 <= y2 { y1 } else { y2 },
            x2: if x1 <= x2 { x2 } else { x1 },
            y2: if y1 <= y2 { y2 } else { y1 },
            zone_type: self.current_zone,
            density: self.brush_density,
            entity_ids: ids,
        };
        proof {
            lemma_span_symmetric(x1, x2, world.grid_size);
            lemma_span_symmetric(y1, y2, world.grid_size);
        }
        replay_zone_action(world, &a);
        self.push_action(a);
    }

    /// Clears the zones in the rectangle `[x1, x2] x [y1, y2]` and records
    /// them.
    pub fn execute_clear_zone(&mut self, world: &mut DesignWorld<S>, x1: i64, y1: i64, x2: i64, y2: i64)
        requires
            old(self).wf(),
            old(world).wf(),
            old(self).entity_id_counter < u64::MAX,
        ensures
            final(self).wf(),
            final(world).wf(),
            forall|fresh: S| design_step(*old(world), *final(world), *old(self), *final(self), DesignCommand::ClearZone { x1, y1, x2, y2 }, fresh),
    {
        let previous = take_zones_in(&mut world.zones, x1, y1, x2, y2);
        let a = DesignAction::ClearZone { x1, y1, x2, y2, previous_zones: previous };
        self.push_action(a);
    }
}

/// Carries out one command of the design tool on the map; buildings placed
/// (or placed again by redo) hold `fresh`.
pub fn apply_design_command<S: Copy>(world: &mut DesignWorld<S>, tool: &mut DesignTool<DesignAction<S>>, cmd: DesignCommand, fresh: S)
    requires
        old(world).wf(),
        old(tool).wf(),
        records(cmd) ==> old(tool).entity_id_counter + command_entities(cmd, old(world).grid_size) < u64::MAX,
    ensures
        final(world).wf(),
        final(tool).wf(),
        design_step(*old(world), *final(world), *old(tool), *final(tool), cmd, fresh),
{
    match cmd {
        DesignCommand::Undo => {
            tool.undo(world);
        },
        DesignCommand::Redo => {
            tool.redo(world, fresh);
        },
        DesignCommand::PaintZone { x1, y1, x2, y2 } => {
            tool.execute_paint_zone(world, x1, y1, x2, y2);
        },
        DesignCommand::ClearZone { x1, y1, x2, y2 } => {
            tool.execute_clear_zone(world, x1, y1, x2, y2);
        },
        DesignCommand::PlaceBuilding { x, y } => {
            tool.execute_place_building(world, x, y, fresh);
        },
        DesignCommand::RemoveBuilding { x, y } => {
            tool.execute_remove_building(world, x, y);
        },
        DesignCommand::Inspect { .. } => {},
    }
}

} // verus!
