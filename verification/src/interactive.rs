//! The interactive urban design tool: painting zones, placing and removing
//! buildings, inspecting cells, a bounded undo/redo history, and the
//! per-frame decisions taken from keyboard and mouse input.
//!
//! Positions are map cells. The tool decides; what it decides to do to the
//! world comes out as a list of `DesignCommand`s, in the order the world is
//! to apply them.

use vstd::prelude::*;
use crate::ecs::{BuildingType, ZoneType};
use crate::input::{InputState, GameKey, has_bit, key_bit};
use crate::platform::MouseButton;
use crate::gpu_backend::in_rect;
use crate::simd_render::{fill_rect_simd, fill_rect_alpha_simd, fb_fits, edges_fit, in_clipped, clip_lo, clip_hi, filled,
    alpha_filled, lemma_filled, lemma_alpha_filled};

verus! {

/// Most actions the undo history keeps; the oldest is dropped beyond it.
pub const MAX_UNDO_HISTORY: usize = 64;
/// Brush size (cells) of a new tool.
pub const DEFAULT_BRUSH_SIZE: i32 = 3;
/// Largest brush size.
pub const MAX_BRUSH_SIZE: i32 = 20;
/// Smallest brush size.
pub const MIN_BRUSH_SIZE: i32 = 1;
/// Preview colours (ARGB).
pub const PREVIEW_COLOR_ZONE: u32 = 0x66_FF_FF_00;
pub const PREVIEW_COLOR_BUILDING: u32 = 0x88_00_FF_00;
pub const PREVIEW_COLOR_GHOST: u32 = 0x44_FF_FF_FF;
pub const HIGHLIGHT_COLOR: u32 = 0x88_FF_FF_00;

/// What a click does.
#[derive(Copy, Clone, Debug, PartialEq, Eq, Structural)]
pub enum DesignMode {
    /// No tool in use.
    Idle,
    /// Painting zones.
    PaintZone,
    /// Placing buildings.
    PlaceBuilding,
    /// Inspecting cells.
    Inspect,
}

/// Zone that follows `z` when cycling: residential, commercial, industrial,
/// agricultural, road, park, and back to residential.
pub open spec fn next_zone(z: ZoneType) -> ZoneType {
    match z {
        ZoneType::Residential => ZoneType::Commercial,
        ZoneType::Commercial => ZoneType::Industrial,
        ZoneType::Industrial => ZoneType::Agricultural,
        ZoneType::Agricultural => ZoneType::Road,
        ZoneType::Road => ZoneType::Park,
        ZoneType::Park => ZoneType::Residential,
    }
}

/// Building that follows `b` when cycling: house, apartment, shop, office,
/// factory, farm, hospital, school, police, and back to house.
pub open spec fn next_building(b: BuildingType) -> BuildingType {
    match b {
        BuildingType::House => BuildingType::Apartment,
        BuildingType::Apartment => BuildingType::Shop,
        BuildingType::Shop => BuildingType::Office,
        BuildingType::Office => BuildingType::Factory,
        BuildingType::Factory => BuildingType::Farm,
        BuildingType::Farm => BuildingType::Hospital,
        BuildingType::Hospital => BuildingType::School,
        BuildingType::School => BuildingType::Police,
        BuildingType::Police => BuildingType::House,
    }
}

/// Six steps of the zone cycle lead back to the start.
pub proof fn lemma_zone_cycle(z: ZoneType)
    ensures
        next_zone(next_zone(next_zone(next_zone(next_zone(next_zone(z)))))) == z,
{
}

/// Nine steps of the building cycle lead back to the start.
pub proof fn lemma_building_cycle(b: BuildingType)
    ensures
        next_building(
            next_building(next_building(next_building(next_building(next_building(next_building(next_building(next_building(b)))))))),
        ) == b,
{
}

/// The state of the tool apart from its history: what its contracts speak of.
#[derive(Copy, Clone, Debug)]
pub struct DesignUi {
    pub mode: DesignMode,
    pub active: bool,
    pub current_zone: ZoneType,
    pub current_building: BuildingType,
    pub brush_density: u8,
    pub brush_size: i32,
    pub mouse_in_window: bool,
    pub drag_start: Option<(i32, i32)>,
    pub is_dragging: bool,
    pub mouse_down: bool,
    pub show_ghost: bool,
    pub entity_id_counter: u64,
}

/// The design tool with a history of actions of type `A`.
pub struct DesignTool<A> {
    /// Current mode.
    pub mode: DesignMode,
    /// The tool is switched on.
    pub active: bool,
    /// Zone painted.
    pub current_zone: ZoneType,
    /// Building placed.
    pub current_building: BuildingType,
    /// Density of painted zones.
    pub brush_density: u8,
    /// Brush size in cells.
    pub brush_size: i32,
    /// The pointer is over the window.
    pub mouse_in_window: bool,
    /// Cell where a zone drag started.
    pub drag_start: Option<(i32, i32)>,
    /// A zone drag is under way.
    pub is_dragging: bool,
    /// The mouse button of the drag is held.
    pub mouse_down: bool,
    /// The ghost preview is shown.
    pub show_ghost: bool,
    /// Actions that can be undone, oldest first.
    pub undo_stack: Vec<A>,
    /// Actions that can be redone, the next one last.
    pub redo_stack: Vec<A>,
    /// Counter for identifiers of created entities.
    pub entity_id_counter: u64,
}

/// History after an undo: the last undoable action moves to the redo list.
pub open spec fn undone<A>(undo: Seq<A>, redo: Seq<A>) -> (Seq<A>, Seq<A>) {
    if undo.len() == 0 {
        (undo, redo)
    } else {
        (undo.drop_last(), redo.push(undo.last()))
    }
}

/// History after a redo: the last redoable action moves back to the undo list.
pub open spec fn redone<A>(undo: Seq<A>, redo: Seq<A>) -> (Seq<A>, Seq<A>) {
    if redo.len() == 0 {
        (undo, redo)
    } else {
        (undo.push(redo.last()), redo.drop_last())
    }
}

/// Undo list after recording `a`: the oldest action is dropped when the list
/// is full, then `a` is appended.
pub open spec fn recorded<A>(undo: Seq<A>, a: A) -> Seq<A> {
    if undo.len() >= MAX_UNDO_HISTORY {
        undo.drop_first().push(a)
    } else {
        undo.push(a)
    }
}

/// Redoing right after an undo gives back the history as it was.
pub proof fn lemma_undo_then_redo<A>(undo: Seq<A>, redo: Seq<A>)
    requires
        undo.len() > 0,
    ensures
        redone(undone(undo, redo).0, undone(undo, redo).1) == (undo, redo),
{
    assert(undo.drop_last().push(undo.last()) =~= undo);
    assert(redo.push(undo.last()).drop_last() =~= redo);
}

/// Undoing right after a redo gives back the history as it was.
pub proof fn lemma_redo_then_undo<A>(undo: Seq<A>, redo: Seq<A>)
    requires
        redo.len() > 0,
    ensures
        undone(redone(undo, redo).0, redone(undo, redo).1) == (undo, redo),
{
    assert(redo.drop_last().push(redo.last()) =~= redo);
    assert(undo.push(redo.last()).drop_last() =~= undo);
}

impl<A> DesignTool<A> {
    /// The tool's state apart from its history.
    pub open spec fn ui(&self) -> DesignUi {
        DesignUi {
            mode: self.mode,
            active: self.active,
            current_zone: self.current_zone,
            current_building: self.current_building,
            brush_density: self.brush_density,
            brush_size: self.brush_size,
            mouse_in_window: self.mouse_in_window,
            drag_start: self.drag_start,
            is_dragging: self.is_dragging,
            mouse_down: self.mouse_down,
            show_ghost: self.show_ghost,
            entity_id_counter: self.entity_id_counter,
        }
    }

    /// Actions that can be undone, oldest first.
    pub open spec fn undo_actions(&self) -> Seq<A> {
        self.undo_stack@
    }

    /// Actions that can be redone, the next one last.
    pub open spec fn redo_actions(&self) -> Seq<A> {
        self.redo_stack@
    }

    /// The brush is within its bounds and the history holds at most
    /// `MAX_UNDO_HISTORY` actions in all.
    pub open spec fn wf(&self) -> bool {
        &&& MIN_BRUSH_SIZE <= self.brush_size <= MAX_BRUSH_SIZE
        &&& self.undo_actions().len() + self.redo_actions().len() <= MAX_UNDO_HISTORY
    }

    /// A switched-off tool painting residential zones of density 2 or
    /// placing houses, brush `DEFAULT_BRUSH_SIZE`, ghost preview on, empty
    /// history.
    pub fn new() -> (r: DesignTool<A>)
        ensures
            r.wf(),
            r.ui() == (DesignUi {
                mode: DesignMode::Idle,
                active: false,
                current_zone: ZoneType::Residential,
                current_building: BuildingType::House,
                brush_density: 2,
                brush_size: DEFAULT_BRUSH_SIZE,
                mouse_in_window: false,
                drag_start: None,
                is_dragging: false,
                mouse_down: false,
                show_ghost: true,
                entity_id_counter: 0,
            }),
            r.undo_actions().len() == 0,
            r.redo_actions().len() == 0,
    {
        DesignTool {
            mode: DesignMode::Idle,
            active: false,
            current_zone: ZoneType::Residential,
            current_building: BuildingType::House,
            brush_density: 2,
            brush_size: DEFAULT_BRUSH_SIZE,
            mouse_in_window: false,
            drag_start: None,
            is_dragging: false,
            mouse_down: false,
            show_ghost: true,
            undo_stack: Vec::with_capacity(MAX_UNDO_HISTORY),
            redo_stack: Vec::with_capacity(MAX_UNDO_HISTORY),
            entity_id_counter: 0,
        }
    }

    /// Number of actions that can be undone.
    pub fn undo_len(&self) -> (r: usize)
        ensures
            r == self.undo_actions().len(),
    {
        self.undo_stack.len()
    }

    /// Number of actions that can be redone.
    pub fn redo_len(&self) -> (r: usize)
        ensures
            r == self.redo_actions().len(),
    {
        self.redo_stack.len()
    }

    /// The action an undo would revert (the last recorded one).
    pub fn undo_top(&self) -> (r: Option<&A>)
        ensures
            self.undo_actions().len() == 0 ==> r is None,
            self.undo_actions().len() > 0 ==> r == Some(&self.undo_actions().last()),
    {
        let n = self.undo_stack.len();
        if n == 0 {
            None
        } else {
            Some(&self.undo_stack[n - 1])
        }
    }

    /// The action a redo would apply again (the last undone one).
    pub fn redo_top(&self) -> (r: Option<&A>)
        ensures
            self.redo_actions().len() == 0 ==> r is None,
            self.redo_actions().len() > 0 ==> r == Some(&self.redo_actions().last()),
    {
        let n = self.redo_stack.len();
        if n == 0 {
            None
        } else {
            Some(&self.redo_stack[n - 1])
        }
    }

    /// Records a new action: it joins the undo list (the oldest dropped when
    /// `MAX_UNDO_HISTORY` are kept), the redo list is emptied and the entity
    /// counter advances by one.
    pub fn push_action(&mut self, action: A)
        requires
            old(self).wf(),
            old(self).entity_id_counter < u64::MAX,
        ensures
            final(self).wf(),
            final(self).undo_actions() == recorded(old(self).undo_actions(), action),
            final(self).redo_actions().len() == 0,
            final(self).ui() == (DesignUi { entity_id_counter: (old(self).entity_id_counter + 1) as u64, ..old(self).ui() }),
    {
        if self.undo_stack.len() >= MAX_UNDO_HISTORY {
            self.undo_stack.remove(0);
        }
        self.undo_stack.push(action);
        self.redo_stack.clear();
        self.entity_id_counter = self.entity_id_counter + 1;
        proof {
            let o = old(self).undo_stack@;
            if o.len() >= MAX_UNDO_HISTORY {
                assert(self.undo_stack@ =~= o.drop_first().push(action));
            } else {
                assert(self.undo_stack@ =~= o.push(action));
            }
        }
    }

    /// Moves the last recorded action to the redo list; the result says
    /// whether there was one. `DesignTool::undo` also reverts it on the map.
    pub fn undo_history(&mut self) -> (r: bool)
        requires
            old(self).wf(),
        ensures
            final(self).wf(),
            r == (old(self).undo_actions().len() > 0),
            (final(self).undo_actions(), final(self).redo_actions()) == undone(
                old(self).undo_actions(),
                old(self).redo_actions(),
            ),
            final(self).ui() == old(self).ui(),
    {
        match self.undo_stack.pop() {
            Some(action) => {
                self.redo_stack.push(action);
                true
            },
            None => false,
        }
    }

    /// Moves the last undone action back to the undo list; the result says
    /// whether there was one. `DesignTool::redo` also applies it again on
    /// the map.
    pub fn redo_history(&mut self) -> (r: bool)
        requires
            old(self).wf(),
        ensures
            final(self).wf(),
            r == (old(self).redo_actions().len() > 0),
            (final(self).undo_actions(), final(self).redo_actions()) == redone(
                old(self).undo_actions(),
                old(self).redo_actions(),
            ),
            final(self).ui() == old(self).ui(),
    {
        match self.redo_stack.pop() {
            Some(action) => {
                self.undo_stack.push(action);
                true
            },
            None => false,
        }
    }
}

// ---------------------------------------------------------------------------
// Modes, cycles and the brush
// ---------------------------------------------------------------------------

/// State after switching the tool on or off: switching on from no mode
/// selects zone painting; switching off clears the mode and any drag.
pub open spec fn toggled(u: DesignUi) -> DesignUi {
    let active = !u.active;
    DesignUi {
        active,
        mode: if !active { DesignMode::Idle } else if u.mode == DesignMode::Idle { DesignMode::PaintZone } else { u.mode },
        drag_start: if !active { None } else { u.drag_start },
        is_dragging: if !active { false } else { u.is_dragging },
        ..u
    }
}

/// State after selecting a mode, which switches the tool on.
pub open spec fn with_mode(u: DesignUi, m: DesignMode) -> DesignUi {
    DesignUi { mode: m, active: true, ..u }
}

/// Brush one cell larger, at most `MAX_BRUSH_SIZE`.
pub open spec fn brush_up(b: i32) -> i32 {
    if b + 1 < MAX_BRUSH_SIZE { (b + 1) as i32 } else { MAX_BRUSH_SIZE }
}

/// Brush one cell smaller, at least `MIN_BRUSH_SIZE`.
pub open spec fn brush_down(b: i32) -> i32 {
    if b - 1 > MIN_BRUSH_SIZE { (b - 1) as i32 } else { MIN_BRUSH_SIZE }
}

impl<A> DesignTool<A> {
    /// Switches the tool on or off (see `toggled`).
    pub fn toggle(&mut self)
        ensures
            final(self).ui() == toggled(old(self).ui()),
            final(self).undo_actions() == old(self).undo_actions(),
            final(self).redo_actions() == old(self).redo_actions(),
    {
        self.active = !self.active;
        if self.active && self.mode == DesignMode::Idle {
            self.mode = DesignMode::PaintZone;
        }
        if !self.active {
            self.mode = DesignMode::Idle;
            self.drag_start = None;
            self.is_dragging = false;
        }
    }

    /// Selects zone painting.
    pub fn set_paint_mode(&mut self)
        ensures
            final(self).ui() == with_mode(old(self).ui(), DesignMode::PaintZone),
            final(self).undo_actions() == old(self).undo_actions(),
            final(self).redo_actions() == old(self).redo_actions(),
    {
        self.mode = DesignMode::PaintZone;
        self.active = true;
    }

    /// Selects building placement.
    pub fn set_building_mode(&mut self)
        ensures
            final(self).ui() == with_mode(old(self).ui(), DesignMode::PlaceBuilding),
            final(self).undo_actions() == old(self).undo_actions(),
            final(self).redo_actions() == old(self).redo_actions(),
    {
        self.mode = DesignMode::PlaceBuilding;
        self.active = true;
    }

    /// Selects inspection.
    pub fn set_inspect_mode(&mut self)
        ensures
            final(self).ui() == with_mode(old(self).ui(), DesignMode::Inspect),
            final(self).undo_actions() == old(self).undo_actions(),
            final(self).redo_actions() == old(self).redo_actions(),
    {
        self.mode = DesignMode::Inspect;
        self.active = true;
    }

    /// Moves to the next zone type (see `next_zone`).
    pub fn cycle_zone(&mut self)
        ensures
            final(self).ui() == (DesignUi { current_zone: next_zone(old(self).current_zone), ..old(self).ui() }),
            final(self).undo_actions() == old(self).undo_actions(),
            final(self).redo_actions() == old(self).redo_actions(),
    {
        self.current_zone = match self.current_zone {
            ZoneType::Residential => ZoneType::Commercial,
            ZoneType::Commercial => ZoneType::Industrial,
            ZoneType::Industrial => ZoneType::Agricultural,
            ZoneType::Agricultural => ZoneType::Road,
            ZoneType::Road => ZoneType::Park,
            ZoneType::Park => ZoneType::Residential,
        };
    }

    /// Moves to the next building type (see `next_building`).
    pub fn cycle_building(&mut self)
        ensures
            final(self).ui() == (DesignUi { current_building: next_building(old(self).current_building), ..old(self).ui() }),
            final(self).undo_actions() == old(self).undo_actions(),
            final(self).redo_actions() == old(self).redo_actions(),
    {
        self.current_building = match self.current_building {
            BuildingType::House => BuildingType::Apartment,
            BuildingType::Apartment => BuildingType::Shop,
            BuildingType::Shop => BuildingType::Office,
            BuildingType::Office => BuildingType::Factory,
            BuildingType::Factory => BuildingType::Farm,
            BuildingType::Farm => BuildingType::Hospital,
            BuildingType::Hospital => BuildingType::School,
            BuildingType::School => BuildingType::Police,
            BuildingType::Police => BuildingType::House,
        };
    }

    /// Makes the brush one cell larger, up to `MAX_BRUSH_SIZE`.
    pub fn increase_brush(&mut self)
        requires
            old(self).brush_size < i32::MAX,
        ensures
            final(self).ui() == (DesignUi { brush_size: brush_up(old(self).brush_size), ..old(self).ui() }),
            final(self).undo_actions() == old(self).undo_actions(),
            final(self).redo_actions() == old(self).redo_actions(),
    {
        let b = self.brush_size + 1;
        self.brush_size = if b < MAX_BRUSH_SIZE { b } else { MAX_BRUSH_SIZE };
    }

    /// Makes the brush one cell smaller, down to `MIN_BRUSH_SIZE`.
    pub fn decrease_brush(&mut self)
        requires
            old(self).brush_size > i32::MIN,
        ensures
            final(self).ui() == (DesignUi { brush_size: brush_down(old(self).brush_size), ..old(self).ui() }),
            final(self).undo_actions() == old(self).undo_actions(),
            final(self).redo_actions() == old(self).redo_actions(),
    {
        let b = self.brush_size - 1;
        self.brush_size = if b > MIN_BRUSH_SIZE { b } else { MIN_BRUSH_SIZE };
    }
}

/// Changing the brush keeps it within its bounds.
pub proof fn lemma_brush_bounds(b: i32)
    requires
        MIN_BRUSH_SIZE <= b <= MAX_BRUSH_SIZE,
    ensures
        MIN_BRUSH_SIZE <= brush_up(b) <= MAX_BRUSH_SIZE,
        MIN_BRUSH_SIZE <= brush_down(b) <= MAX_BRUSH_SIZE,
{
}

// ---------------------------------------------------------------------------
// Per-frame decisions
// ---------------------------------------------------------------------------

/// What the tool asks the world to do, in order.
#[derive(Copy, Clone, Debug, PartialEq, Eq, Structural)]
pub enum DesignCommand {
    /// Revert the last recorded action (then `DesignTool::undo`).
    Undo,
    /// Apply the last undone action again (then `DesignTool::redo`).
    Redo,
    /// Paint the current zone over the cells between two corners.
    PaintZone { x1: i64, y1: i64, x2: i64, y2: i64 },
    /// Clear the zones of the cells between two corners.
    ClearZone { x1: i64, y1: i64, x2: i64, y2: i64 },
    /// Place the current building on a cell, unless it is occupied.
    PlaceBuilding { x: i32, y: i32 },
    /// Remove the building on a cell.
    RemoveBuilding { x: i32, y: i32 },
    /// Report what is on a cell.
    Inspect { x: i32, y: i32 },
}

/// The key went down in this frame.
pub open spec fn key_pressed(inp: InputState, k: GameKey) -> bool {
    has_bit(inp.keys_pressed, key_bit(k))
}

/// The key is held.
pub open spec fn key_down(inp: InputState, k: GameKey) -> bool {
    has_bit(inp.keys_down, key_bit(k))
}

/// The button went down in this frame.
pub open spec fn button_pressed(inp: InputState, b: MouseButton) -> bool {
    inp.button_down(b) && !inp.button_was_down(b)
}

/// Selects zone painting with zone `z` when `k` was pressed.
pub open spec fn zone_key(u: DesignUi, inp: InputState, k: GameKey, z: ZoneType) -> DesignUi {
    if key_pressed(inp, k) {
        DesignUi { current_zone: z, ..with_mode(u, DesignMode::PaintZone) }
    } else {
        u
    }
}

/// State after key `1`: cycles the zone (selecting zone painting), or the
/// building when shift is held.
pub open spec fn key1_step(u: DesignUi, inp: InputState) -> DesignUi {
    if key_pressed(inp, GameKey::Key1) {
        if key_down(inp, GameKey::Shift) {
            DesignUi { current_building: next_building(u.current_building), ..u }
        } else {
            DesignUi { current_zone: next_zone(u.current_zone), ..with_mode(u, DesignMode::PaintZone) }
        }
    } else {
        u
    }
}

/// State after key `2`: building placement.
pub open spec fn key2_step(u: DesignUi, inp: InputState) -> DesignUi {
    if key_pressed(inp, GameKey::Key2) {
        with_mode(u, DesignMode::PlaceBuilding)
    } else {
        u
    }
}

/// State after keys `2` to `6`: building placement, then painting
/// industrial, agricultural, road and park zones.
pub open spec fn zone_keys_step(u: DesignUi, inp: InputState) -> DesignUi {
    let u2 = key2_step(u, inp);
    let u3 = zone_key(u2, inp, GameKey::Key3, ZoneType::Industrial);
    let u4 = zone_key(u3, inp, GameKey::Key4, ZoneType::Agricultural);
    let u5 = zone_key(u4, inp, GameKey::Key5, ZoneType::Road);
    zone_key(u5, inp, GameKey::Key6, ZoneType::Park)
}

/// State after `B` (building placement), `I` (inspection), `[` (smaller
/// brush) and `]` (larger brush).
pub open spec fn tool_keys_step(u: DesignUi, inp: InputState) -> DesignUi {
    let u7 = if key_pressed(inp, GameKey::B) { with_mode(u, DesignMode::PlaceBuilding) } else { u };
    let u8 = if key_pressed(inp, GameKey::I) { with_mode(u7, DesignMode::Inspect) } else { u7 };
    let u9 = if key_pressed(inp, GameKey::BracketLeft) {
        DesignUi { brush_size: brush_down(u8.brush_size), ..u8 }
    } else {
        u8
    };
    if key_pressed(inp, GameKey::BracketRight) {
        DesignUi { brush_size: brush_up(u9.brush_size), ..u9 }
    } else {
        u9
    }
}

/// State after the mode, zone, building and brush keys of a frame.
pub open spec fn after_keys(u: DesignUi, inp: InputState) -> DesignUi {
    tool_keys_step(zone_keys_step(key1_step(u, inp), inp), inp)
}

/// Undo on control-Z, redo on control-shift-Z.
pub open spec fn history_commands(inp: InputState) -> Seq<DesignCommand> {
    if key_pressed(inp, GameKey::Z) && key_down(inp, GameKey::Control) {
        if key_down(inp, GameKey::Shift) {
            seq![DesignCommand::Redo]
        } else {
            seq![DesignCommand::Undo]
        }
    } else {
        seq![]
    }
}

/// The square of the brush around a cell, as a command built by `make`.
pub open spec fn brush_square(brush: i32, cx: i32, cy: i32) -> (i64, i64, i64, i64) {
    let half = brush / 2;
    ((cx - half) as i64, (cy - half) as i64, (cx + half) as i64, (cy + half) as i64)
}

/// State and commands of the mouse in the frame, at cursor cell `(cx, cy)`.
/// Painting: a left press inside the window starts a drag, releasing the
/// left button ends it by painting from its start to the cursor; a right
/// press inside paints the brush square, and with shift held also clears it.
/// Placing: left places, right removes. Inspecting: left inspects.
pub open spec fn click_outcome(u: DesignUi, inp: InputState, cx: i32, cy: i32, inside: bool) -> (DesignUi, Seq<DesignCommand>) {
    let u0 = DesignUi { mouse_in_window: inside, ..u };
    let left = button_pressed(inp, MouseButton::Left) && inside;
    let right = button_pressed(inp, MouseButton::Right) && inside;
    match u0.mode {
        DesignMode::PaintZone => {
            let ua = if left {
                DesignUi { drag_start: Some((cx, cy)), is_dragging: true, mouse_down: true, ..u0 }
            } else {
                u0
            };
            let ends = !inp.mouse_left && ua.is_dragging;
            let ub = if ends {
                DesignUi { is_dragging: false, mouse_down: false, drag_start: None, ..ua }
            } else {
                ua
            };
            let c1 = if ends {
                match ua.drag_start {
                    Some((sx, sy)) => seq![DesignCommand::PaintZone { x1: sx as i64, y1: sy as i64, x2: cx as i64, y2: cy as i64 }],
                    None => seq![],
                }
            } else {
                seq![]
            };
            let sq = brush_square(ub.brush_size, cx, cy);
            let c2 = if right {
                seq![DesignCommand::PaintZone { x1: sq.0, y1: sq.1, x2: sq.2, y2: sq.3 }]
            } else {
                seq![]
            };
            let c3 = if right && key_down(inp, GameKey::Shift) {
                seq![DesignCommand::ClearZone { x1: sq.0, y1: sq.1, x2: sq.2, y2: sq.3 }]
            } else {
                seq![]
            };
            (ub, c1 + c2 + c3)
        },
        DesignMode::PlaceBuilding => {
            let c1 = if left { seq![DesignCommand::PlaceBuilding { x: cx, y: cy }] } else { seq![] };
            let c2 = if right { seq![DesignCommand::RemoveBuilding { x: cx, y: cy }] } else { seq![] };
            (u0, c1 + c2)
        },
        DesignMode::Inspect => {
            (u0, if left { seq![DesignCommand::Inspect { x: cx, y: cy }] } else { seq![] })
        },
        DesignMode::Idle => (u0, seq![]),
    }
}

/// State and commands of a whole frame: Tab switches the tool on or off; a
/// switched-off tool does nothing more; otherwise the keys, then undo/redo,
/// then the mouse.
pub open spec fn design_outcome(u: DesignUi, inp: InputState, cx: i32, cy: i32, inside: bool) -> (DesignUi, Seq<DesignCommand>) {
    let u1 = if key_pressed(inp, GameKey::Tab) { toggled(u) } else { u };
    if !u1.active {
        (u1, seq![])
    } else {
        let u2 = after_keys(u1, inp);
        let (u3, c) = click_outcome(u2, inp, cx, cy, inside);
        (u3, history_commands(inp) + c)
    }
}

/// Applies one frame of input to the tool, the cursor over cell
/// `(cell_x, cell_y)` and `mouse_in_window` telling whether it is inside the
/// window, and returns what the world must do, in order (see
/// `design_outcome`).
pub fn process_design_input<A>(tool: &mut DesignTool<A>, input: &InputState, cell_x: i32, cell_y: i32, mouse_in_window: bool) -> (r: Vec<DesignCommand>)
    requires
        old(tool).wf(),
    ensures
        final(tool).wf(),
        final(tool).ui() == design_outcome(old(tool).ui(), *input, cell_x, cell_y, mouse_in_window).0,
        r@ == design_outcome(old(tool).ui(), *input, cell_x, cell_y, mouse_in_window).1,
        final(tool).undo_actions() == old(tool).undo_actions(),
        final(tool).redo_actions() == old(tool).redo_actions(),
{
    let mut cmds: Vec<DesignCommand> = Vec::new();
    if input.is_key_pressed(GameKey::Tab) {
        tool.toggle();
    }
    if !tool.active {
        return cmds;
    }
    apply_key1(tool, input);
    apply_zone_keys(tool, input);
    apply_tool_keys(tool, input);
    if input.is_key_pressed(GameKey::Z) && input.is_key_down(GameKey::Control) {
        if input.is_key_down(GameKey::Shift) {
            cmds.push(DesignCommand::Redo);
        } else {
            cmds.push(DesignCommand::Undo);
        }
    }
    assert(cmds@ =~= history_commands(*input));
    let mut clicks = apply_clicks(tool, input, cell_x, cell_y, mouse_in_window);
    let ghost c = clicks@;
    let ghost h = cmds@;
    cmds.append(&mut clicks);
    assert(cmds@ =~= h + c);
    cmds
}

fn apply_key1<A>(tool: &mut DesignTool<A>, input: &InputState)
    requires
        old(tool).wf(),
    ensures
        final(tool).wf(),
        final(tool).ui() == key1_step(old(tool).ui(), *input),
        final(tool).undo_actions() == old(tool).undo_actions(),
        final(tool).redo_actions() == old(tool).redo_actions(),
{
    if input.is_key_pressed(GameKey::Key1) {
        if input.is_key_down(GameKey::Shift) {
            tool.cycle_building();
        } else {
            tool.set_paint_mode();
            tool.cycle_zone();
        }
    }
}

fn apply_zone_key<A>(tool: &mut DesignTool<A>, input: &InputState, key: GameKey, zone: ZoneType)
    requires
        old(tool).wf(),
    ensures
        final(tool).wf(),
        final(tool).ui() == zone_key(old(tool).ui(), *input, key, zone),
        final(tool).undo_actions() == old(tool).undo_actions(),
        final(tool).redo_actions() == old(tool).redo_actions(),
{
    if input.is_key_pressed(key) {
        tool.set_paint_mode();
        tool.current_zone = zone;
    }
}

fn apply_zone_keys<A>(tool: &mut DesignTool<A>, input: &InputState)
    requires
        old(tool).wf(),
    ensures
        final(tool).wf(),
        final(tool).ui() == zone_keys_step(old(tool).ui(), *input),
        final(tool).undo_actions() == old(tool).undo_actions(),
        final(tool).redo_actions() == old(tool).redo_actions(),
{
    if input.is_key_pressed(GameKey::Key2) {
        tool.set_building_mode();
    }
    apply_zone_key(tool, input, GameKey::Key3, ZoneType::Industrial);
    apply_zone_key(tool, input, GameKey::Key4, ZoneType::Agricultural);
    apply_zone_key(tool, input, GameKey::Key5, ZoneType::Road);
    apply_zone_key(tool, input, GameKey::Key6, ZoneType::Park);
}

fn apply_tool_keys<A>(tool: &mut DesignTool<A>, input: &InputState)
    requires
        old(tool).wf(),
    ensures
        final(tool).wf(),
        final(tool).ui() == tool_keys_step(old(tool).ui(), *input),
        final(tool).undo_actions() == old(tool).undo_actions(),
        final(tool).redo_actions() == old(tool).redo_actions(),
{
    if input.is_key_pressed(GameKey::B) {
        tool.set_building_mode();
    }
    if input.is_key_pressed(GameKey::I) {
        tool.set_inspect_mode();
    }
    if input.is_key_pressed(GameKey::BracketLeft) {
        tool.decrease_brush();
    }
    if input.is_key_pressed(GameKey::BracketRight) {
        tool.increase_brush();
    }
}

fn apply_clicks<A>(tool: &mut DesignTool<A>, input: &InputState, cell_x: i32, cell_y: i32, mouse_in_window: bool) -> (r: Vec<DesignCommand>)
    requires
        old(tool).wf(),
    ensures
        final(tool).wf(),
        final(tool).ui() == click_outcome(old(tool).ui(), *input, cell_x, cell_y, mouse_in_window).0,
        r@ == click_outcome(old(tool).ui(), *input, cell_x, cell_y, mouse_in_window).1,
        final(tool).undo_actions() == old(tool).undo_actions(),
        final(tool).redo_actions() == old(tool).redo_actions(),
{
    let mut cmds: Vec<DesignCommand> = Vec::new();
    tool.mouse_in_window = mouse_in_window;
    let left = input.is_mouse_pressed(MouseButton::Left) && mouse_in_window;
    let right = input.is_mouse_pressed(MouseButton::Right) && mouse_in_window;
    match tool.mode {
        DesignMode::PaintZone => {
            if left {
                tool.drag_start = Some((cell_x, cell_y));
                tool.is_dragging = true;
                tool.mouse_down = true;
            }
            if !input.mouse_left && tool.is_dragging {
                match tool.drag_start {
                    Some((sx, sy)) => {
                        cmds.push(DesignCommand::PaintZone { x1: sx as i64, y1: sy as i64, x2: cell_x as i64, y2: cell_y as i64 });
                    },
                    None => {},
                }
                tool.is_dragging = false;
                tool.mouse_down = false;
                tool.drag_start = None;
            }
            let half = tool.brush_size / 2;
            let x1 = cell_x as i64 - half as i64;
            let y1 = cell_y as i64 - half as i64;
            let x2 = cell_x as i64 + half as i64;
            let y2 = cell_y as i64 + half as i64;
            if right {
                cmds.push(DesignCommand::PaintZone { x1, y1, x2, y2 });
            }
            if right && input.is_key_down(GameKey::Shift) {
                cmds.push(DesignCommand::ClearZone { x1, y1, x2, y2 });
            }
        },
        DesignMode::PlaceBuilding => {
            if left {
                cmds.push(DesignCommand::PlaceBuilding { x: cell_x, y: cell_y });
            }
            if right {
                cmds.push(DesignCommand::RemoveBuilding { x: cell_x, y: cell_y });
            }
        },
        DesignMode::Inspect => {
            if left {
                cmds.push(DesignCommand::Inspect { x: cell_x, y: cell_y });
            }
        },
        DesignMode::Idle => {},
    }
    assert(cmds@ =~= click_outcome(old(tool).ui(), *input, cell_x, cell_y, mouse_in_window).1);
    cmds
}

// ---------------------------------------------------------------------------
// Zone painting
// ---------------------------------------------------------------------------

/// Columns (or rows) `[lo, hi]` of a rectangle kept inside `[0, grid)`:
/// `(start, end)` with `end` exclusive.
pub open spec fn span_in_grid(a: i64, b: i64, grid: i32) -> (int, int) {
    let lo = if a <= b { a as int } else { b as int };
    let hi = if a <= b { b as int } else { a as int };
    (if lo < 0 { 0 } else { lo }, if hi + 1 < grid { hi + 1 } else { grid as int })
}

proof fn lemma_div_mod_of(q: int, n: int, r: int)
    requires
        n > 0,
        0 <= r < n,
    ensures
        (q * n + r) / n == q,
        (q * n + r) % n == r,
{
    vstd::arithmetic::div_mod::lemma_fundamental_div_mod_converse(q * n + r, n, q, r);
}

/// The cells of the rectangle with corners `(x1, y1)` and `(x2, y2)` (both
/// included, in either order) that lie on a `grid_size` x `grid_size` map,
/// column by column, each column from top to bottom.
pub open spec fn zone_cell_seq(x1: i64, y1: i64, x2: i64, y2: i64, grid_size: i32) -> Seq<(i32, i32)> {
    let (xs, xe) = span_in_grid(x1, x2, grid_size);
    let (ys, ye) = span_in_grid(y1, y2, grid_size);
    if xs >= xe || ys >= ye {
        Seq::empty()
    } else {
        Seq::new(((xe - xs) * (ye - ys)) as nat, |k: int| ((xs + k / (ye - ys)) as i32, (ys + k % (ye - ys)) as i32))
    }
}

/// The cells of the rectangle with corners `(x1, y1)` and `(x2, y2)` (both
/// included, in either order) that lie on a `grid_size` x `grid_size` map,
/// column by column, each column from top to bottom.
pub fn zone_cells(x1: i64, y1: i64, x2: i64, y2: i64, grid_size: i32) -> (r: Vec<(i32, i32)>)
    ensures
        ({
            let (xs, xe) = span_in_grid(x1, x2, grid_size);
            let (ys, ye) = span_in_grid(y1, y2, grid_size);
            &&& (xs >= xe || ys >= ye) ==> r@.len() == 0
            &&& (xs < xe && ys < ye) ==> {
                &&& r@.len() == (xe - xs) * (ye - ys)
                &&& forall|k: int| 0 <= k < r@.len() ==> #[trigger] r@[k] == ((xs + k / (ye - ys)) as i32, (ys + k % (ye - ys)) as i32)
            }
        }),
        r@ == zone_cell_seq(x1, y1, x2, y2, grid_size),
{
    let min_x = if x1 <= x2 { x1 } else { x2 };
    let max_x = if x1 <= x2 { x2 } else { x1 };
    let min_y = if y1 <= y2 { y1 } else { y2 };
    let max_y = if y1 <= y2 { y2 } else { y1 };
    let xs: i64 = if min_x < 0 { 0 } else { min_x };
    let ys: i64 = if min_y < 0 { 0 } else { min_y };
    let xe: i64 = if max_x < grid_size as i64 - 1 { max_x + 1 } else { grid_size as i64 };
    let ye: i64 = if max_y < grid_size as i64 - 1 { max_y + 1 } else { grid_size as i64 };
    let mut cells: Vec<(i32, i32)> = Vec::new();
    if xs >= xe || ys >= ye {
        assert(cells@ =~= zone_cell_seq(x1, y1, x2, y2, grid_size));
        return cells;
    }
    let ghost n = (ye - ys) as int;
    let mut x = xs;
    assert((x - xs) * n == 0) by (nonlinear_arith)
        requires
            x == xs,
    ;
    while x < xe
        invariant
            xs <= x <= xe,
            0 <= xs < xe <= grid_size,
            0 <= ys < ye <= grid_size,
            n == ye - ys,
            cells@.len() == (x - xs) * n,
            forall|k: int| 0 <= k < cells@.len() ==> #[trigger] cells@[k] == ((xs + k / n) as i32, (ys + k % n) as i32),
        decreases xe - x,
    {
        let mut y = ys;
        while y < ye
            invariant
                xs <= x < xe,
                ys <= y <= ye,
                0 <= xs < xe <= grid_size,
                0 <= ys < ye <= grid_size,
                n == ye - ys,
                cells@.len() == (x - xs) * n + (y - ys),
                forall|k: int| 0 <= k < cells@.len() ==> #[trigger] cells@[k] == ((xs + k / n) as i32, (ys + k % n) as i32),
            decreases ye - y,
        {
            proof {
                lemma_div_mod_of(x - xs, n, y - ys);
            }
            cells.push((x as i32, y as i32));
            y = y + 1;
        }
        proof {
            assert((x - xs) * n + n == (x + 1 - xs) * n) by (nonlinear_arith);
        }
        x = x + 1;
    }
    assert((x - xs) * n == (xe - xs) * (ye - ys));
    assert(cells@ =~= zone_cell_seq(x1, y1, x2, y2, grid_size));
    cells
}

// ---------------------------------------------------------------------------
// Preview drawing
// ---------------------------------------------------------------------------

/// Offset `d` from the start of a dashed edge falls on a dash: dashes and
/// gaps alternate every 4 pixels, starting with a dash.
pub open spec fn on_dash(d: int) -> bool {
    (d / 4) % 2 == 0
}

/// Pixel `i` lies on the `w` x `h` framebuffer.
pub open spec fn in_fb(i: int, w: usize, h: usize) -> bool {
    in_rect(i, w as int, 0, w as int, 0, h as int)
}

/// `(px, py)` lies on a dash of the top or bottom edge of the rectangle,
/// counting the edge's columns below `lim` only.
pub open spec fn on_h_dash(px: int, py: int, x: int, y: int, rh: int, lim: int) -> bool {
    (py == y || py == y + rh - 1) && x <= px < lim && on_dash(px - x)
}

/// `(px, py)` lies on a dash of the left or right edge of the rectangle,
/// counting the edge's rows below `lim` only.
pub open spec fn on_v_dash(px: int, py: int, x: int, y: int, rw: int, lim: int) -> bool {
    (px == x || px == x + rw - 1) && y <= py < lim && on_dash(py - y)
}

/// `(px, py)` lies on the dashed outline of the rectangle at `(x, y)` of
/// size `rw` x `rh`.
pub open spec fn on_dashed_rect(px: int, py: int, x: int, y: int, rw: int, rh: int) -> bool {
    on_h_dash(px, py, x, y, rh, x + rw) || on_v_dash(px, py, x, y, rw, y + rh)
}

/// Coordinates of the outline and of its dashes stay inside `i32`.
pub open spec fn dashed_rect_fits(x: i32, y: i32, rw: i32, rh: i32) -> bool {
    &&& x + rw + 4 <= i32::MAX
    &&& y + rh + 4 <= i32::MAX
    &&& x + 1 <= i32::MAX
    &&& y + 1 <= i32::MAX
    &&& i32::MIN + 1 <= x + rw
    &&& i32::MIN + 1 <= y + rh
}

proof fn lemma_same_dash(q: int, d: int)
    requires
        q >= 0,
        0 <= d < 4,
    ensures
        (q * 4 + d) / 4 == q,
{
    vstd::arithmetic::div_mod::lemma_fundamental_div_mod_converse(q * 4 + d, 4, q, d);
}

/// Draws the dashes of the top and bottom edges.
fn draw_h_dashes(fb: &mut Vec<u32>, w: usize, h: usize, x: i32, y: i32, rw: i32, rh: i32, color: u32)
    requires
        fb_fits(old(fb)@.len() as int, w, h),
        dashed_rect_fits(x, y, rw, rh),
    ensures
        final(fb)@.len() == old(fb)@.len(),
        forall|i: int| 0 <= i < old(fb)@.len() ==> #[trigger] final(fb)@[i] == (
            if in_fb(i, w, h) && on_h_dash(i % (w as int), i / (w as int), x as int, y as int, rh as int, x + rw) {
                color
            } else {
                old(fb)@[i]
            }),
{
    let ghost o = fb@;
    let ghost wi = w as int;
    let end = x + rw;
    let mut px = x;
    let mut drawing = true;
    while px < end
        invariant
            fb@.len() == o.len(),
            fb_fits(o.len() as int, w, h),
            dashed_rect_fits(x, y, rw, rh),
            end == x + rw,
            wi == w,
            x <= px,
            px < end ==> (px - x) % 4 == 0,
            px <= end || px == x,
            px < end ==> drawing == on_dash(px - x),
            forall|i: int| 0 <= i < o.len() ==> #[trigger] fb@[i] == (
                if in_fb(i, w, h) && on_h_dash(i % wi, i / wi, x as int, y as int, rh as int, px as int) {
                    color
                } else {
                    o[i]
                }),
        decreases end - px,
    {
        let seg_end = if px + 4 < end { px + 4 } else { end };
        let ghost before = fb@;
        if drawing {
            fill_rect_simd(fb, w, h, px, y, seg_end - px, 1, color);
            fill_rect_simd(fb, w, h, px, y + rh - 1, seg_end - px, 1, color);
        }
        proof {
            let q = (px - x) / 4;
            assert(px - x == q * 4) by {
                vstd::arithmetic::div_mod::lemma_fundamental_div_mod((px - x) as int, 4);
            }
            assert forall|i: int| 0 <= i < o.len() implies #[trigger] fb@[i] == (
                if in_fb(i, w, h) && on_h_dash(i % wi, i / wi, x as int, y as int, rh as int, seg_end as int) {
                    color
                } else {
                    o[i]
                }) by {
                let cx = i % wi;
                if in_fb(i, w, h) && px <= cx < seg_end {
                    lemma_same_dash(q, cx - px);
                    assert((cx - x) / 4 == q);
                }
            }
            if seg_end < end {
                assert(seg_end - x == (q + 1) * 4);
                vstd::arithmetic::div_mod::lemma_fundamental_div_mod_converse(seg_end - x, 4, q + 1, 0);
            }
        }
        px = seg_end;
        drawing = !drawing;
    }
}

/// Draws the dashes of the left and right edges.
fn draw_v_dashes(fb: &mut Vec<u32>, w: usize, h: usize, x: i32, y: i32, rw: i32, rh: i32, color: u32)
    requires
        fb_fits(old(fb)@.len() as int, w, h),
        dashed_rect_fits(x, y, rw, rh),
    ensures
        final(fb)@.len() == old(fb)@.len(),
        forall|i: int| 0 <= i < old(fb)@.len() ==> #[trigger] final(fb)@[i] == (
            if in_fb(i, w, h) && on_v_dash(i % (w as int), i / (w as int), x as int, y as int, rw as int, y + rh) {
                color
            } else {
                old(fb)@[i]
            }),
{
    let ghost o = fb@;
    let ghost wi = w as int;
    let end = y + rh;
    let mut py = y;
    let mut drawing = true;
    while py < end
        invariant
            fb@.len() == o.len(),
            fb_fits(o.len() as int, w, h),
            dashed_rect_fits(x, y, rw, rh),
            end == y + rh,
            wi == w,
            y <= py,
            py < end ==> (py - y) % 4 == 0,
            py <= end || py == y,
            py < end ==> drawing == on_dash(py - y),
            forall|i: int| 0 <= i < o.len() ==> #[trigger] fb@[i] == (
                if in_fb(i, w, h) && on_v_dash(i % wi, i / wi, x as int, y as int, rw as int, py as int) {
                    color
                } else {
                    o[i]
                }),
        decreases end - py,
    {
        let seg_end = if py + 4 < end { py + 4 } else { end };
        if drawing {
            fill_rect_simd(fb, w, h, x, py, 1, seg_end - py, color);
            fill_rect_simd(fb, w, h, x + rw - 1, py, 1, seg_end - py, color);
        }
        proof {
            let q = (py - y) / 4;
            assert(py - y == q * 4) by {
                vstd::arithmetic::div_mod::lemma_fundamental_div_mod((py - y) as int, 4);
            }
            assert forall|i: int| 0 <= i < o.len() implies #[trigger] fb@[i] == (
                if in_fb(i, w, h) && on_v_dash(i % wi, i / wi, x as int, y as int, rw as int, seg_end as int) {
                    color
                } else {
                    o[i]
                }) by {
                let cy = i / wi;
                if in_fb(i, w, h) && py <= cy < seg_end {
                    lemma_same_dash(q, cy - py);
                    assert((cy - y) / 4 == q);
                }
            }
            if seg_end < end {
                assert(seg_end - y == (q + 1) * 4);
                vstd::arithmetic::div_mod::lemma_fundamental_div_mod_converse(seg_end - y, 4, q + 1, 0);
            }
        }
        py = seg_end;
        drawing = !drawing;
    }
}

/// Draws the outline of the rectangle at `(x, y)` of size `rw` x `rh` with
/// dashes 4 pixels long and gaps 4 pixels long, each edge starting with a
/// dash, clipped to the framebuffer.
pub fn draw_rect_dashed(fb: &mut Vec<u32>, w: usize, h: usize, x: i32, y: i32, rw: i32, rh: i32, color: u32)
    requires
        fb_fits(old(fb)@.len() as int, w, h),
        dashed_rect_fits(x, y, rw, rh),
    ensures
        final(fb)@.len() == old(fb)@.len(),
        forall|i: int| 0 <= i < old(fb)@.len() ==> #[trigger] final(fb)@[i] == (
            if in_fb(i, w, h) && on_dashed_rect(i % (w as int), i / (w as int), x as int, y as int, rw as int, rh as int) {
                color
            } else {
                old(fb)@[i]
            }),
{
    let ghost o = fb@;
    draw_h_dashes(fb, w, h, x, y, rw, rh, color);
    let ghost mid = fb@;
    draw_v_dashes(fb, w, h, x, y, rw, rh, color);
    proof {
        assert forall|i: int| 0 <= i < o.len() implies #[trigger] fb@[i] == (
            if in_fb(i, w, h) && on_dashed_rect(i % (w as int), i / (w as int), x as int, y as int, rw as int, rh as int) {
                color
            } else {
                o[i]
            }) by {
            assert(mid[i] == mid[i]);
        }
    }
}

/// Height in pixels of the screen the status text is drawn for.
pub const TEXT_SCREEN_HEIGHT: i32 = 600;

/// Number of ASCII characters among the first `k` of `text`.
pub open spec fn ascii_before(text: Seq<char>, k: int) -> int
    decreases k,
{
    if k <= 0 {
        0
    } else {
        ascii_before(text, k - 1) + (if (text[k - 1] as u32) < 128 { 1int } else { 0int })
    }
}

/// Pixel `i` of a framebuffer `fb_w` wide lies in the 5 x 7 box drawn for
/// character `k` of `text` written from `(x, y)`: an ASCII character other
/// than a space gets a box at 6 pixels per ASCII character before it, when
/// the box's corner lies on the first `TEXT_SCREEN_HEIGHT` rows and within
/// the width.
pub open spec fn in_char_box(text: Seq<char>, k: int, i: int, fb_w: usize, x: int, y: int) -> bool {
    let cx = x + 6 * ascii_before(text, k);
    &&& 0 <= k < text.len()
    &&& (text[k] as u32) < 128
    &&& text[k] != ' '
    &&& 0 <= cx < fb_w
    &&& 0 <= y < TEXT_SCREEN_HEIGHT
    &&& in_rect(i, fb_w as int, cx, clip_hi(cx + 5, fb_w as int), y, clip_hi(y + 7, TEXT_SCREEN_HEIGHT as int))
}

proof fn lemma_ascii_before_bounds(text: Seq<char>, k: int)
    requires
        0 <= k <= text.len(),
    ensures
        0 <= ascii_before(text, k) <= k,
    decreases k,
{
    if k > 0 {
        lemma_ascii_before_bounds(text, k - 1);
    }
}

/// Draws `text` from `(x, y)` as one 5 x 7 box of `color` per ASCII
/// character other than a space, 6 pixels apart; characters beyond ASCII
/// take no room. Boxes are drawn only when their corner lies on the first
/// `TEXT_SCREEN_HEIGHT` rows and within the width.
pub fn draw_text_simple(fb: &mut Vec<u32>, fb_w: usize, x: i32, y: i32, text: &[char], color: u32)
    requires
        fb_w <= i32::MAX,
        x + 6 * text@.len() + 6 <= i32::MAX,
        0 <= y < TEXT_SCREEN_HEIGHT ==> fb_w * clip_hi(y + 7, TEXT_SCREEN_HEIGHT as int) <= old(fb)@.len(),
    ensures
        final(fb)@.len() == old(fb)@.len(),
        forall|i: int| 0 <= i < old(fb)@.len() ==> #[trigger] final(fb)@[i] == (
            if exists|k: int| in_char_box(text@, k, i, fb_w, x as int, y as int) {
                color
            } else {
                old(fb)@[i]
            }),
{
    let ghost o = fb@;
    let ghost t = text@;
    let rows: usize = if y >= 0 && y < TEXT_SCREEN_HEIGHT {
        if y + 7 < TEXT_SCREEN_HEIGHT { (y + 7) as usize } else { TEXT_SCREEN_HEIGHT as usize }
    } else {
        0
    };
    let mut cx = x;
    let mut j: usize = 0;
    while j < text.len()
        invariant
            fb@.len() == o.len(),
            t == text@,
            0 <= j <= t.len(),
            fb_w <= i32::MAX,
            x + 6 * t.len() + 6 <= i32::MAX,
            0 <= y < TEXT_SCREEN_HEIGHT ==> fb_w * clip_hi(y + 7, TEXT_SCREEN_HEIGHT as int) <= o.len(),
            rows == (if 0 <= y < TEXT_SCREEN_HEIGHT { clip_hi(y + 7, TEXT_SCREEN_HEIGHT as int) } else { 0 }),
            cx == x + 6 * ascii_before(t, j as int),
            forall|i: int| 0 <= i < o.len() ==> #[trigger] fb@[i] == (
                if exists|k: int| k < j && #[trigger] in_char_box(t, k, i, fb_w, x as int, y as int) {
                    color
                } else {
                    o[i]
                }),
        decreases t.len() - j,
    {
        proof {
            lemma_ascii_before_bounds(t, j as int);
        }
        let ch = text[j];
        let ghost before = fb@;
        if (ch as u32) < 128 {
            if ch != ' ' && cx >= 0 && cx < fb_w as i32 && y >= 0 && y < TEXT_SCREEN_HEIGHT {
                fill_rect_simd(fb, fb_w, rows, cx, y, 5, 7, color);
            }
            cx = cx + 6;
        }
        proof {
            assert forall|i: int| 0 <= i < o.len() implies #[trigger] fb@[i] == (
                if exists|k: int| k < j + 1 && #[trigger] in_char_box(t, k, i, fb_w, x as int, y as int) {
                    color
                } else {
                    o[i]
                }) by {
                if in_char_box(t, j as int, i, fb_w, x as int, y as int) {
                    assert(fb@[i] == color);
                } else {
                    if exists|k: int| k < j + 1 && #[trigger] in_char_box(t, k, i, fb_w, x as int, y as int) {
                        let k = choose|k: int| k < j + 1 && #[trigger] in_char_box(t, k, i, fb_w, x as int, y as int);
                        assert(k < j);
                    }
                }
            }
        }
        j = j + 1;
    }
}

// ---------------------------------------------------------------------------
// The design overlay
// ---------------------------------------------------------------------------

/// The framebuffer `s` after `draw_rect_dashed`.
pub open spec fn dashed(s: Seq<u32>, w: usize, h: usize, x: int, y: int, rw: int, rh: int, color: u32) -> Seq<u32> {
    Seq::new(s.len(), |i: int|
        if in_fb(i, w, h) && on_dashed_rect(i % (w as int), i / (w as int), x, y, rw, rh) { color } else { s[i] })
}

/// The framebuffer `s` after `draw_text_simple`.
pub open spec fn texted(s: Seq<u32>, fb_w: usize, x: int, y: int, text: Seq<char>, color: u32) -> Seq<u32> {
    Seq::new(s.len(), |i: int| if exists|k: int| in_char_box(text, k, i, fb_w, x, y) { color } else { s[i] })
}

/// Preview colour of a building kind.
pub open spec fn preview_building_color(b: BuildingType) -> u32 {
    match b {
        BuildingType::House => 0xFF_C4_7B_4Au32,
        BuildingType::Apartment => 0xFF_B0_BE_C5u32,
        BuildingType::Shop => 0xFF_26_C6_DAu32,
        BuildingType::Office => 0xFF_78_90_9Cu32,
        BuildingType::Factory => 0xFF_8D_6E_63u32,
        BuildingType::Farm => 0xFF_8B_C3_4Au32,
        BuildingType::Hospital => 0xFF_F4_43_36u32,
        BuildingType::School => 0xFF_FF_C1_07u32,
        BuildingType::Police => 0xFF_21_21_21u32,
    }
}

/// Preview colour of a building kind.
fn building_color(b: BuildingType) -> (r: u32)
    ensures
        r == preview_building_color(b),
{
    match b {
        BuildingType::House => 0xFF_C4_7B_4A,
        BuildingType::Apartment => 0xFF_B0_BE_C5,
        BuildingType::Shop => 0xFF_26_C6_DA,
        BuildingType::Office => 0xFF_78_90_9C,
        BuildingType::Factory => 0xFF_8D_6E_63,
        BuildingType::Farm => 0xFF_8B_C3_4A,
        BuildingType::Hospital => 0xFF_F4_43_36,
        BuildingType::School => 0xFF_FF_C1_07,
        BuildingType::Police => 0xFF_21_21_21,
    }
}

/// Screen positions of the overlay, in pixels, worked out by the caller from
/// the camera: the cursor cell's centre, the brush square's corner and side,
/// the drag start's centre and the side of a building.
#[derive(Copy, Clone, Debug)]
pub struct OverlayGeometry {
    pub cursor_x: i32,
    pub cursor_y: i32,
    pub brush_x: i32,
    pub brush_y: i32,
    pub brush_px: i32,
    pub drag_x: i32,
    pub drag_y: i32,
    pub building_px: i32,
}

/// Absolute value of an `i32` difference.
pub open spec fn span(a: int, b: int) -> int {
    if a >= b { a - b } else { b - a }
}

/// Smaller of two integers.
pub open spec fn lesser(a: int, b: int) -> int {
    if a <= b { a } else { b }
}

/// The overlay's shapes fit the `i32` arithmetic of the drawings.
pub open spec fn overlay_fits(g: OverlayGeometry) -> bool {
    &&& dashed_rect_fits(g.brush_x, g.brush_y, g.brush_px, g.brush_px)
    &&& span(g.cursor_x as int, g.drag_x as int) <= i32::MAX
    &&& span(g.cursor_y as int, g.drag_y as int) <= i32::MAX
    &&& i32::MIN <= lesser(g.drag_x as int, g.cursor_x as int) + span(g.cursor_x as int, g.drag_x as int) + 4 <= i32::MAX
    &&& i32::MIN <= lesser(g.drag_y as int, g.cursor_y as int) + span(g.cursor_y as int, g.drag_y as int) + 4 <= i32::MAX
    &&& i32::MIN + 1 <= lesser(g.drag_x as int, g.cursor_x as int) + span(g.cursor_x as int, g.drag_x as int)
    &&& i32::MIN + 1 <= lesser(g.drag_y as int, g.cursor_y as int) + span(g.cursor_y as int, g.drag_y as int)
    &&& lesser(g.drag_x as int, g.cursor_x as int) + 1 <= i32::MAX
    &&& lesser(g.drag_y as int, g.cursor_y as int) + 1 <= i32::MAX
    &&& 0 <= g.building_px
    &&& edges_fit((g.cursor_x - g.building_px / 2) as i32, (g.cursor_y - g.building_px / 2) as i32, g.building_px, g.building_px)
    &&& i32::MIN <= g.cursor_x - g.building_px / 2
    &&& i32::MIN <= g.cursor_y - g.building_px / 2
    &&& i32::MIN + 5 <= g.cursor_x <= i32::MAX - 10
    &&& i32::MIN + 5 <= g.cursor_y <= i32::MAX - 10
}

/// The framebuffer after the preview of the current mode: the dashed brush
/// square (and the dashed drag rectangle while dragging) when painting, the
/// translucent building when placing, a cross when inspecting.
pub open spec fn mode_preview(s: Seq<u32>, u: DesignUi, w: usize, h: usize, g: OverlayGeometry) -> Seq<u32> {
    match u.mode {
        DesignMode::PaintZone => {
            let s1 = dashed(s, w, h, g.brush_x as int, g.brush_y as int, g.brush_px as int, g.brush_px as int, PREVIEW_COLOR_ZONE);
            if u.is_dragging && u.drag_start is Some {
                dashed(s1, w, h, lesser(g.drag_x as int, g.cursor_x as int), lesser(g.drag_y as int, g.cursor_y as int),
                    span(g.cursor_x as int, g.drag_x as int), span(g.cursor_y as int, g.drag_y as int), PREVIEW_COLOR_ZONE)
            } else {
                s1
            }
        },
        DesignMode::PlaceBuilding => alpha_filled(s, w, h, g.cursor_x - g.building_px / 2, g.cursor_y - g.building_px / 2,
            g.building_px as int, g.building_px as int, (preview_building_color(u.current_building) & 0x00FF_FFFFu32) | 0x8800_0000u32),
        DesignMode::Inspect => {
            let s1 = filled(s, w, h, g.cursor_x - 5, g.cursor_y as int, 10, 1, HIGHLIGHT_COLOR);
            filled(s1, w, h, g.cursor_x as int, g.cursor_y - 5, 1, 10, HIGHLIGHT_COLOR)
        },
        DesignMode::Idle => s,
    }
}

/// The framebuffer after the status bar: a translucent black bar over the
/// bottom 20 rows and the status text 3 rows into it, 8 pixels in.
pub open spec fn status_bar(s: Seq<u32>, w: usize, h: usize, text: Seq<char>) -> Seq<u32> {
    let ui_y = h - 20;
    texted(alpha_filled(s, w, h, 0, ui_y, w as int, 20, 0xCC00_0000u32), w, 8, ui_y + 3, text, 0xFFFF_FFFFu32)
}

/// Draws the preview of the design tool and its status bar (with
/// `ui_text`, which the caller formats) when the tool is on and the pointer
/// is over the window; otherwise draws nothing.
pub fn render_design_overlay<A>(tool: &DesignTool<A>, fb: &mut Vec<u32>, width: usize, height: usize, g: &OverlayGeometry, ui_text: &[char])
    requires
        fb_fits(old(fb)@.len() as int, width, height),
        overlay_fits(*g),
        8 + 6 * ui_text@.len() + 6 <= i32::MAX,
    ensures
        !tool.active || !tool.mouse_in_window ==> final(fb)@ == old(fb)@,
        tool.active && tool.mouse_in_window ==> final(fb)@ == status_bar(
            mode_preview(old(fb)@, tool.ui(), width, height, *g),
            width,
            height,
            ui_text@,
        ),
{
    if !tool.active || !tool.mouse_in_window {
        return;
    }
    let ghost s0 = fb@;
    match tool.mode {
        DesignMode::PaintZone => {
            draw_rect_dashed(fb, width, height, g.brush_x, g.brush_y, g.brush_px, g.brush_px, PREVIEW_COLOR_ZONE);
            let ghost s1 = fb@;
            assert(s1 =~= dashed(s0, width, height, g.brush_x as int, g.brush_y as int, g.brush_px as int, g.brush_px as int, PREVIEW_COLOR_ZONE));
            if tool.is_dragging {
                match tool.drag_start {
                    Some(_) => {
                        let dw = if g.cursor_x >= g.drag_x { g.cursor_x - g.drag_x } else { g.drag_x - g.cursor_x };
                        let dh = if g.cursor_y >= g.drag_y { g.cursor_y - g.drag_y } else { g.drag_y - g.cursor_y };
                        let x0 = if g.drag_x <= g.cursor_x { g.drag_x } else { g.cursor_x };
                        let y0 = if g.drag_y <= g.cursor_y { g.drag_y } else { g.cursor_y };
                        draw_rect_dashed(fb, width, height, x0, y0, dw, dh, PREVIEW_COLOR_ZONE);
                        assert(fb@ =~= dashed(s1, width, height, x0 as int, y0 as int, dw as int, dh as int, PREVIEW_COLOR_ZONE));
                    },
                    None => {},
                }
            }
        },
        DesignMode::PlaceBuilding => {
            let bcolor = building_color(tool.current_building);
            let half = g.building_px / 2;
            fill_rect_alpha_simd(fb, width, height, g.cursor_x - half, g.cursor_y - half, g.building_px, g.building_px,
                (bcolor & 0x00FF_FFFF) | 0x8800_0000);
            proof {
                lemma_alpha_filled(s0, fb@, width, height, g.cursor_x - half, g.cursor_y - half, g.building_px as int,
                    g.building_px as int, (bcolor & 0x00FF_FFFFu32) | 0x8800_0000u32);
            }
        },
        DesignMode::Inspect => {
            fill_rect_simd(fb, width, height, g.cursor_x - 5, g.cursor_y, 10, 1, HIGHLIGHT_COLOR);
            let ghost s1 = fb@;
            proof {
                lemma_filled(s0, s1, width, height, g.cursor_x - 5, g.cursor_y as int, 10, 1, HIGHLIGHT_COLOR);
            }
            fill_rect_simd(fb, width, height, g.cursor_x, g.cursor_y - 5, 1, 10, HIGHLIGHT_COLOR);
            proof {
                lemma_filled(s1, fb@, width, height, g.cursor_x as int, g.cursor_y - 5, 1, 10, HIGHLIGHT_COLOR);
            }
        },
        DesignMode::Idle => {},
    }
    let ghost s2 = fb@;
    assert(s2 == mode_preview(s0, tool.ui(), width, height, *g));
    let ui_y = height as i32 - 20;
    fill_rect_alpha_simd(fb, width, height, 0, ui_y, width as i32, 20, 0xCC00_0000);
    let ghost s3 = fb@;
    proof {
        lemma_alpha_filled(s2, s3, width, height, 0, ui_y as int, width as int, 20, 0xCC00_0000u32);
    }
    proof {
        let ty = ui_y + 3;
        if 0 <= ty < TEXT_SCREEN_HEIGHT {
            let rows = clip_hi(ty + 7, TEXT_SCREEN_HEIGHT as int);
            assert(rows <= height);
            assert(width * rows <= width * height) by (nonlinear_arith)
                requires
                    0 <= rows <= height,
            ;
        }
    }
    draw_text_simple(fb, width, 8, ui_y + 3, ui_text, 0xFFFF_FFFF);
    assert(fb@ =~= texted(s3, width, 8, ui_y + 3, ui_text@, 0xFFFF_FFFFu32));
}

} // verus!
