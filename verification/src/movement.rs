//! Continuous (sub-tile) coordinates, movement segments and the per-unit
//! movement state machine.
use vstd::prelude::*;
use crate::arith::signum_int;
use crate::position::{Position, Side};

verus! {

pub const TILE_UNITS_PER_TILE: u64 = 1_000_000;
pub const HALF_TILE_UNITS: u64 = 500_000;
pub const REPATH_BASE_DELAY_MS: u64 = 100;
pub const YIELD_RETRY_DELAY_MS: u64 = 10;
pub const BLOCKED_RETRY_DELAY_MS: u64 = 30;
pub const HOLD_RETRY_DELAY_MS: u64 = 20;

/// The tile direction in which `owner` advances: the player moves towards
/// larger rows, the opponent towards smaller ones.
pub fn battlefield_forward_vector(owner: Side) -> (r: (i32, i32))
    ensures
        r == (match owner {
            Side::Player => (0i32, 1i32),
            Side::Opponent => (0i32, -1i32),
        }),
{
    match owner {
        Side::Player => (0, 1),
        Side::Opponent => (0, -1),
    }
}

/// The continuous coordinate of the centre of `tile` along one axis.
pub open spec fn tile_center_axis(t: int) -> int {
    t * TILE_UNITS_PER_TILE
}

/// Continuous coordinates of the centre of `tile`.
pub fn tile_center_units(tile: Position) -> (r: (i64, i64))
    ensures
        r.0 == tile_center_axis(tile.x as int),
        r.1 == tile_center_axis(tile.y as int),
{
    let x: i64 = tile.x as i64;
    let y: i64 = tile.y as i64;
    assert(-0x8000_0000 <= x < 0x8000_0000);
    assert(x * 1_000_000 <= i64::MAX && x * 1_000_000 >= i64::MIN) by (nonlinear_arith)
        requires -0x8000_0000 <= x < 0x8000_0000;
    assert(y * 1_000_000 <= i64::MAX && y * 1_000_000 >= i64::MIN) by (nonlinear_arith)
        requires -0x8000_0000 <= y < 0x8000_0000;
    (x * 1_000_000, y * 1_000_000)
}

/// The point on the border of tile `from` that a unit stepping towards `to`
/// crosses: the centre of `from` moved half a tile along the sign of each
/// axis of `to - from`.
pub fn boundary_target_units(from: Position, to: Position) -> (r: (i64, i64))
    requires
        i32::MIN <= to.x - from.x <= i32::MAX,
        i32::MIN <= to.y - from.y <= i32::MAX,
    ensures
        r.0 == tile_center_axis(from.x as int) + signum_int(to.x - from.x) * HALF_TILE_UNITS,
        r.1 == tile_center_axis(from.y as int) + signum_int(to.y - from.y) * HALF_TILE_UNITS,
{
    let (cx, cy) = tile_center_units(from);
    let ddx: i32 = to.x - from.x;
    let ddy: i32 = to.y - from.y;
    let dx: i64 = if ddx > 0 { 1 } else if ddx < 0 { -1 } else { 0 };
    let dy: i64 = if ddy > 0 { 1 } else if ddy < 0 { -1 } else { 0 };
    (cx + dx * 500_000, cy + dy * 500_000)
}

/// A point in continuous battlefield units (a tile is `TILE_UNITS_PER_TILE` wide).
#[derive(Debug, Clone, Copy, PartialEq, Eq, Structural)]
pub struct ContinuousPosition {
    pub x_units: i64,
    pub y_units: i64,
}

impl ContinuousPosition {
    pub fn new(x_units: i64, y_units: i64) -> (p: ContinuousPosition)
        ensures
            p.x_units == x_units,
            p.y_units == y_units,
    {
        ContinuousPosition { x_units, y_units }
    }

    /// The centre of `tile`.
    pub fn tile_center(tile: Position) -> (p: ContinuousPosition)
        ensures
            p.x_units == tile_center_axis(tile.x as int),
            p.y_units == tile_center_axis(tile.y as int),
    {
        let (x_units, y_units) = tile_center_units(tile);
        ContinuousPosition { x_units, y_units }
    }
}

/// How the current movement segment ends: at the tile border, or earlier
/// because an enemy came into attack range.
#[derive(Debug, Clone, Copy, PartialEq, Eq, Structural)]
pub enum MovementSegmentEndKind {
    Boundary,
    RangeEnter,
}

/// One straight piece of a unit's movement between two tiles.
#[derive(Debug, Clone, Copy, PartialEq, Eq, Structural)]
pub struct MovementSegment {
    pub from_tile: Position,
    pub to_tile: Position,
    pub start: ContinuousPosition,
    pub target: ContinuousPosition,
    pub started_at_ms: u64,
    pub ends_at_ms: u64,
    pub end_kind: MovementSegmentEndKind,
}

/// A next step that the orchestrator already claimed for a moving unit.
#[derive(Debug, Clone, Copy, PartialEq, Eq, Structural)]
pub struct PlannedContinuation {
    pub step: Position,
    pub owner_priority: u8,
    pub claim_priority: Option<u8>,
    pub retry_budget: u8,
}

/// The state of a unit that is walking along a path.
#[derive(Debug, Clone, PartialEq, Eq)]
pub struct MovementState {
    pub path: Vec<Position>,
    pub reserved_destination: Option<Position>,
    pub planned_continuation: Option<PlannedContinuation>,
    pub path_cursor: u32,
    pub repath_counter: u32,
    pub orchestrator_priority: u8,
    pub last_update_ms: u64,
    pub step_from: Position,
    pub step_to: Position,
    pub step_start_x_units: i64,
    pub step_start_y_units: i64,
    pub target_x_units: i64,
    pub target_y_units: i64,
    pub step_started_at_ms: u64,
    pub step_ends_at_ms: u64,
    pub step_end_kind: MovementSegmentEndKind,
}

/// The segment described by the step fields of `s`.
pub open spec fn segment_of(s: MovementState) -> MovementSegment {
    MovementSegment {
        from_tile: s.step_from,
        to_tile: s.step_to,
        start: ContinuousPosition { x_units: s.step_start_x_units, y_units: s.step_start_y_units },
        target: ContinuousPosition { x_units: s.target_x_units, y_units: s.target_y_units },
        started_at_ms: s.step_started_at_ms,
        ends_at_ms: s.step_ends_at_ms,
        end_kind: s.step_end_kind,
    }
}

impl MovementState {
    /// A unit standing still at the centre of `pos` at time `now_ms`: the path
    /// holds only `pos`, nothing is reserved or planned, and the current
    /// segment is empty and ends at a boundary.
    pub fn new_at(pos: Position, now_ms: u64) -> (s: MovementState)
        ensures
            s.path@ == seq![pos],
            s.reserved_destination.is_none(),
            s.planned_continuation.is_none(),
            s.path_cursor == 0,
            s.repath_counter == 0,
            s.orchestrator_priority == u8::MAX,
            s.last_update_ms == now_ms,
            s.step_from == pos,
            s.step_to == pos,
            s.step_start_x_units == tile_center_axis(pos.x as int),
            s.step_start_y_units == tile_center_axis(pos.y as int),
            s.target_x_units == tile_center_axis(pos.x as int),
            s.target_y_units == tile_center_axis(pos.y as int),
            s.step_started_at_ms == now_ms,
            s.step_ends_at_ms == now_ms,
            s.step_end_kind == MovementSegmentEndKind::Boundary,
    {
        let (cx, cy) = tile_center_units(pos);
        MovementState {
            path: vec![pos],
            reserved_destination: None,
            planned_continuation: None,
            path_cursor: 0,
            repath_counter: 0,
            orchestrator_priority: u8::MAX,
            last_update_ms: now_ms,
            step_from: pos,
            step_to: pos,
            step_start_x_units: cx,
            step_start_y_units: cy,
            target_x_units: cx,
            target_y_units: cy,
            step_started_at_ms: now_ms,
            step_ends_at_ms: now_ms,
            step_end_kind: MovementSegmentEndKind::Boundary,
        }
    }

    /// The segment that the unit is currently travelling.
    pub fn current_segment(&self) -> (seg: MovementSegment)
        ensures
            seg == segment_of(*self),
    {
        MovementSegment {
            from_tile: self.step_from,
            to_tile: self.step_to,
            start: ContinuousPosition::new(self.step_start_x_units, self.step_start_y_units),
            target: ContinuousPosition::new(self.target_x_units, self.target_y_units),
            started_at_ms: self.step_started_at_ms,
            ends_at_ms: self.step_ends_at_ms,
            end_kind: self.step_end_kind,
        }
    }
}

/// What a unit is doing with respect to movement.
#[derive(Debug, Clone, PartialEq, Eq)]
pub enum ActionState {
    Idle,
    Moving(MovementState),
    Holding { until_ms: u64, repath_counter: u32 },
    Yielding { until_ms: u64, repath_counter: u32 },
    Blocked { until_ms: u64, repath_counter: u32 },
    WaitRepath { until_ms: u64, repath_counter: u32 },
    HardCCLocked {
        until_ms: u64,
        /// Movement state kept while crowd control interrupts a step.
        movement: Option<MovementState>,
    },
    Dead,
}

} // verus!
