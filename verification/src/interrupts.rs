//! Stopping a unit's movement: an interruption from outside, a mover that
//! finds a target in range, and how a mover judges the unit in its way.
use vstd::prelude::*;
use crate::arith::ix;
use crate::autocast::contains_id;
use crate::motion::{advanced_unit, motion_fits};
use crate::movement::ActionState;
use crate::position::{Position, Side};
use crate::targets::{TargetCandidate, alive_enemy_spec, distinct_unit_ids, find_unit, persisted_target_if_alive};
use crate::types::RuntimeUnit;
use crate::waits::{next_epoch, with_wait_state};

verus! {

/// The unit walks, or waits between steps of a walk: the movement that an
/// interruption stops.
pub open spec fn is_interruptible(s: ActionState) -> bool {
    match s {
        ActionState::Moving(_) => true,
        ActionState::Holding { .. } => true,
        ActionState::Yielding { .. } => true,
        ActionState::Blocked { .. } => true,
        ActionState::WaitRepath { .. } => true,
        _ => false,
    }
}

impl RuntimeUnit {
    /// Stops the unit's movement at `now_ms` and puts it in `next_state`:
    /// a walking unit first brings its position up to `now_ms`; a new
    /// movement epoch starts. A unit that neither walks nor waits between
    /// steps is left as it is, and `false` comes back.
    pub fn interrupt_movement(&mut self, now_ms: u64, next_state: ActionState) -> (stopped: bool)
        requires
            old(self).action_state matches ActionState::Moving(state) ==> motion_fits(
                old(self).pos_x_units as int,
                old(self).pos_y_units as int,
                state,
                now_ms as int,
            ),
        ensures
            stopped == is_interruptible(old(self).action_state),
            stopped ==> *final(self) == with_wait_state(advanced_unit(*old(self), now_ms), next_state),
            !stopped ==> *final(self) == *old(self),
    {
        let kind: u8 = match &self.action_state {
            ActionState::Moving(_) => 1,
            ActionState::Holding { .. } => 2,
            ActionState::Yielding { .. } => 2,
            ActionState::Blocked { .. } => 2,
            ActionState::WaitRepath { .. } => 2,
            _ => 0,
        };
        if kind == 0 {
            return false;
        }
        if kind == 1 {
            self.update_move_position_to(now_ms);
        }
        self.move_epoch = next_epoch(self.move_epoch);
        self.action_state = next_state;
        true
    }
}

impl RuntimeUnit {
    /// Marks this unit dead at `time_ms`: a walking unit first brings its
    /// position up to then, and a new movement epoch starts in any case.
    /// Returns whether it was walking or waiting between steps.
    pub fn mark_dead(&mut self, time_ms: u64) -> (interrupted: bool)
        requires
            old(self).action_state matches ActionState::Moving(state) ==> motion_fits(
                old(self).pos_x_units as int,
                old(self).pos_y_units as int,
                state,
                time_ms as int,
            ),
        ensures
            interrupted == is_interruptible(old(self).action_state),
            *final(self) == with_wait_state(advanced_unit(*old(self), time_ms), ActionState::Dead),
    {
        let interrupted = self.interrupt_movement(time_ms, ActionState::Dead);
        if !interrupted {
            self.move_epoch = next_epoch(self.move_epoch);
            self.action_state = ActionState::Dead;
        }
        interrupted
    }
}

/// How a mover treats the unit that stands in its way.
#[derive(Debug, Clone, Copy, PartialEq, Eq, Structural)]
pub enum MovementBlockerKind {
    /// The blocker moves in this round too, with a higher priority.
    DeferToHigherPriorityDueMover,
    /// The blocker moves in this round too.
    YieldToDueMover,
    /// A living unit of the mover's own side that stands still.
    FriendlyStatic,
    /// Anything else: the way is shut.
    HardFailure,
}

/// Units `unit_id` and `blocker_id` are both known, the blocker is alive,
/// and both are of one side.
pub open spec fn friendly_blocker_spec(units: Seq<TargetCandidate>, unit_id: u128, blocker_id: u128) -> bool {
    exists|i: int, j: int|
        0 <= i < units.len() && 0 <= j < units.len() && (#[trigger] units[i]).id == unit_id && (#[trigger] units[j]).id
            == blocker_id && units[j].current_health != 0 && units[i].owner == units[j].owner
}

/// Whether `blocker_id` is a living unit of the same side as `unit_id`.
pub fn is_temporarily_blocked_by_friendly_unit(units: &Vec<TargetCandidate>, unit_id: u128, blocker_id: u128) -> (r: bool)
    requires
        distinct_unit_ids(units@),
    ensures
        r == friendly_blocker_spec(units@, unit_id, blocker_id),
{
    let i = match find_unit(units, unit_id) {
        Some(i) => i,
        None => return false,
    };
    let j = match find_unit(units, blocker_id) {
        Some(j) => j,
        None => return false,
    };
    let r = units[j].current_health != 0 && units[i].owner == units[j].owner;
    proof {
        if friendly_blocker_spec(units@, unit_id, blocker_id) {
            let (k, l) = choose|k: int, l: int|
                0 <= k < units@.len() && 0 <= l < units@.len() && (#[trigger] units@[k]).id == unit_id && (
                #[trigger] units@[l]).id == blocker_id && units@[l].current_health != 0 && units@[k].owner
                    == units@[l].owner;
            if k != ix(i) {
                if k < ix(i) {
                    assert(units@[k].id != units@[ix(i)].id);
                } else {
                    assert(units@[ix(i)].id != units@[k].id);
                }
            }
            if l != ix(j) {
                if l < ix(j) {
                    assert(units@[l].id != units@[ix(j)].id);
                } else {
                    assert(units@[ix(j)].id != units@[l].id);
                }
            }
        }
        if r {
            assert(units@[ix(i)].id == unit_id && units@[ix(j)].id == blocker_id);
        }
    }
    r
}

/// No identifier occurs twice among the keys of `m`.
pub open spec fn distinct_priority_keys(m: Seq<(u128, u8)>) -> bool {
    forall|a: int, b: int| 0 <= a < b < m.len() ==> (#[trigger] m[a]).0 != (#[trigger] m[b]).0
}

/// `m` gives `id` a priority above `priority`.
pub open spec fn has_higher_priority(m: Seq<(u128, u8)>, id: u128, priority: u8) -> bool {
    exists|k: int| 0 <= k < m.len() && (#[trigger] m[k]).0 == id && m[k].1 > priority
}

/// The kind of blocker that `blocker_id` is for a mover of priority
/// `priority`, given the units due to move in this round and their
/// priorities.
pub open spec fn blocker_kind_spec(
    units: Seq<TargetCandidate>,
    unit_id: u128,
    blocker_id: u128,
    priority: u8,
    due: Seq<u128>,
    priorities: Seq<(u128, u8)>,
) -> MovementBlockerKind {
    if due.contains(blocker_id) && has_higher_priority(priorities, blocker_id, priority) {
        MovementBlockerKind::DeferToHigherPriorityDueMover
    } else if due.contains(blocker_id) {
        MovementBlockerKind::YieldToDueMover
    } else if friendly_blocker_spec(units, unit_id, blocker_id) {
        MovementBlockerKind::FriendlyStatic
    } else {
        MovementBlockerKind::HardFailure
    }
}

fn priority_above(priorities: &Vec<(u128, u8)>, id: u128, priority: u8) -> (r: bool)
    requires
        distinct_priority_keys(priorities@),
    ensures
        r == has_higher_priority(priorities@, id, priority),
{
    let mut i: usize = 0;
    while i < priorities.len()
        invariant
            0 <= i <= priorities@.len(),
            distinct_priority_keys(priorities@),
            forall|j: int| 0 <= j < i ==> (#[trigger] priorities@[j]).0 != id,
        decreases priorities@.len() - i,
    {
        let (k, p) = priorities[i];
        if k == id {
            let r = p > priority;
            proof {
                if has_higher_priority(priorities@, id, priority) {
                    let w = choose|w: int| 0 <= w < priorities@.len() && (#[trigger] priorities@[w]).0 == id
                        && priorities@[w].1 > priority;
                    if w != ix(i) {
                        if w < ix(i) {
                            assert(priorities@[w].0 != id);
                        } else {
                            assert(priorities@[ix(i)].0 != priorities@[w].0);
                        }
                    }
                }
                if r {
                    assert(priorities@[ix(i)].0 == id);
                }
            }
            return r;
        }
        i = i + 1;
    }
    false
}

/// The kind of blocker that `blocker_id` is for the mover `unit_id` of
/// priority `priority`: one due to move in this round defers the mover when
/// its priority is higher and is yielded to otherwise; a living unit of the
/// mover's side that stands still blocks for a while; anything else shuts
/// the way.
pub fn classify_movement_blocker(
    units: &Vec<TargetCandidate>,
    unit_id: u128,
    blocker_id: u128,
    priority: u8,
    due_set: &Vec<u128>,
    priority_by_unit: &Vec<(u128, u8)>,
) -> (k: MovementBlockerKind)
    requires
        distinct_unit_ids(units@),
        distinct_priority_keys(priority_by_unit@),
    ensures
        k == blocker_kind_spec(units@, unit_id, blocker_id, priority, due_set@, priority_by_unit@),
{
    let due = contains_id(due_set, blocker_id);
    if due && priority_above(priority_by_unit, blocker_id, priority) {
        return MovementBlockerKind::DeferToHigherPriorityDueMover;
    }
    if due {
        return MovementBlockerKind::YieldToDueMover;
    }
    if is_temporarily_blocked_by_friendly_unit(units, unit_id, blocker_id) {
        return MovementBlockerKind::FriendlyStatic;
    }
    MovementBlockerKind::HardFailure
}

/// Unit `id` is known, alive and of side `owner`.
pub open spec fn living_friend_spec(units: Seq<TargetCandidate>, owner: Side, id: u128) -> bool {
    exists|i: int| 0 <= i < units.len() && (#[trigger] units[i]).id == id && units[i].current_health != 0 && units[i].owner == owner
}

fn is_living_friend(units: &Vec<TargetCandidate>, owner: Side, id: u128) -> (r: bool)
    requires
        distinct_unit_ids(units@),
    ensures
        r == living_friend_spec(units@, owner, id),
{
    match find_unit(units, id) {
        Some(i) => {
            let r = units[i].current_health != 0 && units[i].owner == owner;
            proof {
                if living_friend_spec(units@, owner, id) {
                    let k = choose|k: int| 0 <= k < units@.len() && (#[trigger] units@[k]).id == id && units@[k].current_health != 0 && units@[k].owner == owner;
                    if k != ix(i) {
                        if k < ix(i) {
                            assert(units@[k].id != units@[ix(i)].id);
                        } else {
                            assert(units@[ix(i)].id != units@[k].id);
                        }
                    }
                }
                if r {
                    assert(units@[ix(i)].id == id);
                }
            }
            r
        },
        None => false,
    }
}

/// A tile is held against side `owner` for a while: the unit that reserved
/// it, or the unit standing on it, is a living unit of that side.
pub open spec fn held_by_friend_spec(
    units: Seq<TargetCandidate>,
    owner: Side,
    reserved_by: Option<u128>,
    occupant: Option<u128>,
) -> bool {
    ||| reserved_by matches Some(r) && living_friend_spec(units, owner, r)
    ||| occupant matches Some(o) && living_friend_spec(units, owner, o)
}

/// Whether the second step of a path (the tile reserved by `reserved_by`
/// and occupied by `occupant`) is held by a living unit of side `owner`. A
/// path without a second step is never blocked.
pub fn candidate_second_step_blocked_by_friendly(
    units: &Vec<TargetCandidate>,
    owner: Side,
    path: &Vec<Position>,
    reserved_by: Option<u128>,
    occupant: Option<u128>,
) -> (r: bool)
    requires
        distinct_unit_ids(units@),
    ensures
        r == (path@.len() > 2 && held_by_friend_spec(units@, owner, reserved_by, occupant)),
{
    if path.len() <= 2 {
        return false;
    }
    step_held_by_friend(units, owner, reserved_by, occupant)
}

fn step_held_by_friend(units: &Vec<TargetCandidate>, owner: Side, reserved_by: Option<u128>, occupant: Option<u128>) -> (r: bool)
    requires
        distinct_unit_ids(units@),
    ensures
        r == held_by_friend_spec(units@, owner, reserved_by, occupant),
{
    let reserved = match reserved_by {
        Some(id) => is_living_friend(units, owner, id),
        None => false,
    };
    if reserved {
        return true;
    }
    match occupant {
        Some(id) => is_living_friend(units, owner, id),
        None => false,
    }
}

/// Whether the first step of unit `unit_id` (the tile reserved by
/// `reserved_by` and occupied by `occupant`) is held by a living unit of
/// its side. An unknown unit is never blocked.
pub fn first_step_is_temporarily_blocked_by_friendly(
    units: &Vec<TargetCandidate>,
    unit_id: u128,
    reserved_by: Option<u128>,
    occupant: Option<u128>,
) -> (r: bool)
    requires
        distinct_unit_ids(units@),
    ensures
        r == (exists|i: int| 0 <= i < units@.len() && #[trigger] units@[i].id == unit_id
            && held_by_friend_spec(units@, units@[i].owner, reserved_by, occupant)),
{
    match find_unit(units, unit_id) {
        Some(i) => {
            let r = step_held_by_friend(units, units[i].owner, reserved_by, occupant);
            proof {
                if !r && exists|k: int| 0 <= k < units@.len() && #[trigger] units@[k].id == unit_id
                    && held_by_friend_spec(units@, units@[k].owner, reserved_by, occupant) {
                    let k = choose|k: int| 0 <= k < units@.len() && #[trigger] units@[k].id == unit_id
                        && held_by_friend_spec(units@, units@[k].owner, reserved_by, occupant);
                    if k != ix(i) {
                        if k < ix(i) {
                            assert(units@[k].id != units@[ix(i)].id);
                        } else {
                            assert(units@[ix(i)].id != units@[k].id);
                        }
                    }
                }
                if r {
                    assert(units@[ix(i)].id == unit_id);
                }
            }
            r
        },
        None => false,
    }
}

/// Whether the first step of a path is reserved by a unit other than
/// `unit_id` (`reserved_by` is the holder of that tile's reservation). A
/// path without a first step is never reserved.
pub fn candidate_first_step_reserved_by_other(unit_id: u128, path: &Vec<Position>, reserved_by: Option<u128>) -> (r: bool)
    ensures
        r == (path@.len() > 1 && (reserved_by matches Some(holder) && holder != unit_id)),
{
    if path.len() <= 1 {
        return false;
    }
    match reserved_by {
        Some(holder) => holder != unit_id,
        None => false,
    }
}

/// The unit walks towards a target that is still a living enemy, and at
/// most one tile of its path lies ahead of the next one.
pub open spec fn near_engage_lock_spec(units: Seq<TargetCandidate>, u: RuntimeUnit) -> bool {
    &&& u.current_target matches Some(id) && alive_enemy_spec(units, id, u.owner)
    &&& u.action_state matches ActionState::Moving(s) && s.path@.len() <= s.path_cursor + 2
}

/// Whether a walking unit keeps its target although nothing is in range:
/// its target is still a living enemy and its path ends within a tile.
pub fn moving_unit_has_near_engage_lock(units: &Vec<TargetCandidate>, unit: &RuntimeUnit) -> (r: bool)
    requires
        distinct_unit_ids(units@),
    ensures
        r == near_engage_lock_spec(units@, *unit),
{
    if persisted_target_if_alive(units, unit.owner, unit.current_target).is_none() {
        return false;
    }
    match &unit.action_state {
        ActionState::Moving(state) => {
            let len: u64 = state.path.len() as u64;
            let next: u64 = state.path_cursor as u64 + 1;
            len <= next || len - next <= 1
        },
        _ => false,
    }
}

/// What a walking unit does when `selected` (the target its basic attack
/// picks from where it stands) is given: it stops, stands idle and takes
/// that target. With no target in range it keeps its target under a near
/// engage lock and drops it otherwise, and walks on.
pub open spec fn stopped_on_target_spec(
    units: Seq<TargetCandidate>,
    u: RuntimeUnit,
    now_ms: u64,
    selected: Option<u128>,
) -> RuntimeUnit {
    match selected {
        Some(t) => RuntimeUnit {
            current_target: Some(t),
            ..with_wait_state(advanced_unit(u, now_ms), ActionState::Idle)
        },
        None => if near_engage_lock_spec(units, u) {
            u
        } else {
            RuntimeUnit { current_target: None, ..u }
        },
    }
}

impl RuntimeUnit {
    /// A walking, living unit stops as soon as its basic attack has a
    /// target (`selected`). Returns `true` when it stopped; the caller then
    /// asks for a new movement round at `now_ms`. Dead units and units that
    /// do not walk are left as they are.
    pub fn stop_moving_unit_on_target_in_range(
        &mut self,
        units: &Vec<TargetCandidate>,
        now_ms: u64,
        selected: Option<u128>,
    ) -> (stopped: bool)
        requires
            distinct_unit_ids(units@),
            old(self).action_state matches ActionState::Moving(state) ==> motion_fits(
                old(self).pos_x_units as int,
                old(self).pos_y_units as int,
                state,
                now_ms as int,
            ),
        ensures
            stopped == (old(self).stats.current_health != 0 && old(self).action_state is Moving && selected is Some),
            old(self).stats.current_health == 0 || !(old(self).action_state is Moving) ==> *final(self) == *old(self),
            old(self).stats.current_health != 0 && old(self).action_state is Moving ==> *final(self)
                == stopped_on_target_spec(units@, *old(self), now_ms, selected),
    {
        if self.is_dead() {
            return false;
        }
        if !matches!(self.action_state, ActionState::Moving(_)) {
            return false;
        }
        match selected {
            Some(t) => {
                self.interrupt_movement(now_ms, ActionState::Idle);
                self.current_target = Some(t);
                true
            },
            None => {
                if moving_unit_has_near_engage_lock(units, self) {
                    return false;
                }
                self.current_target = None;
                false
            },
        }
    }
}

} // verus!
