//! Runtime records of units and the small value types around them.
use vstd::prelude::*;
use crate::movement::{ActionState, MovementState};
use crate::position::{Position, Side};

verus! {

/// A unit instance identifier: the 128-bit value of the instance's UUID
/// (its bytes read big-endian, so numeric order is byte order).
pub type UnitInstanceId = u128;

/// Marker record kept for every projectile already applied.
#[derive(Debug, Clone)]
pub struct ProjectileRecord;

/// Times before which a unit may not move, basic-attack or gain resonance.
#[derive(Debug, Clone, Copy, PartialEq, Eq, Structural)]
pub struct ActionLocks {
    pub movement_until_ms: u64,
    pub basic_attack_until_ms: u64,
    pub resonance_gain_until_ms: u64,
}

impl Default for ActionLocks {
    fn default() -> (r: ActionLocks)
        ensures
            r.movement_until_ms == 0,
            r.basic_attack_until_ms == 0,
            r.resonance_gain_until_ms == 0,
    {
        ActionLocks { movement_until_ms: 0, basic_attack_until_ms: 0, resonance_gain_until_ms: 0 }
    }
}

/// A lock held until `current`, extended to `until_ms`: the later of the
/// two, so a lock never shortens.
pub open spec fn extend_lock(current: u64, until_ms: u64) -> u64 {
    if current >= until_ms { current } else { until_ms }
}

/// Locks only grow, and extending a lock twice gives the same time in
/// either order: the later of the three times.
pub proof fn lemma_lock_extension_commutes(current: u64, a: u64, b: u64)
    ensures
        extend_lock(current, a) >= current,
        extend_lock(current, a) >= a,
        extend_lock(extend_lock(current, a), b) == extend_lock(extend_lock(current, b), a),
        extend_lock(extend_lock(current, a), a) == extend_lock(current, a),
{
}

fn max_u64(a: u64, b: u64) -> (r: u64)
    ensures
        r == if a >= b { a } else { b },
{
    if a >= b { a } else { b }
}

impl ActionLocks {
    pub fn can_move(&self, now_ms: u64) -> (r: bool)
        ensures
            r == (now_ms >= self.movement_until_ms),
    {
        now_ms >= self.movement_until_ms
    }

    pub fn can_basic_attack(&self, now_ms: u64) -> (r: bool)
        ensures
            r == (now_ms >= self.basic_attack_until_ms),
    {
        now_ms >= self.basic_attack_until_ms
    }

    pub fn can_gain_resonance(&self, now_ms: u64) -> (r: bool)
        ensures
            r == (now_ms >= self.resonance_gain_until_ms),
    {
        now_ms >= self.resonance_gain_until_ms
    }

    /// Extends the movement lock to `until_ms`; a lock never shortens.
    pub fn lock_movement_until(&mut self, until_ms: u64)
        ensures
            final(self).movement_until_ms == extend_lock(old(self).movement_until_ms, until_ms),
            final(self).basic_attack_until_ms == old(self).basic_attack_until_ms,
            final(self).resonance_gain_until_ms == old(self).resonance_gain_until_ms,
    {
        self.movement_until_ms = max_u64(self.movement_until_ms, until_ms);
    }

    /// Extends the basic-attack lock to `until_ms`; a lock never shortens.
    pub fn lock_basic_attack_until(&mut self, until_ms: u64)
        ensures
            final(self).basic_attack_until_ms == extend_lock(old(self).basic_attack_until_ms, until_ms),
            final(self).movement_until_ms == old(self).movement_until_ms,
            final(self).resonance_gain_until_ms == old(self).resonance_gain_until_ms,
    {
        self.basic_attack_until_ms = max_u64(self.basic_attack_until_ms, until_ms);
    }

    /// Extends the resonance-gain lock to `until_ms`; a lock never shortens.
    pub fn lock_resonance_gain_until(&mut self, until_ms: u64)
        ensures
            final(self).resonance_gain_until_ms == extend_lock(old(self).resonance_gain_until_ms, until_ms),
            final(self).movement_until_ms == old(self).movement_until_ms,
            final(self).basic_attack_until_ms == old(self).basic_attack_until_ms,
    {
        self.resonance_gain_until_ms = max_u64(self.resonance_gain_until_ms, until_ms);
    }
}

/// Counters gathered while one skill step resolves.
#[derive(Debug, Clone, Copy, PartialEq, Eq, Structural)]
pub struct SkillStepResult {
    pub resolved_target_count: usize,
    pub damage_target_count: usize,
    pub applied_effect_count: usize,
    pub scheduled_attack_count: usize,
}

/// `a + b` saturated at `usize::MAX`.
pub open spec fn sat_add_usize(a: usize, b: usize) -> usize {
    if a + b > usize::MAX { usize::MAX } else { (a + b) as usize }
}

impl Default for SkillStepResult {
    fn default() -> (r: SkillStepResult)
        ensures
            r.resolved_target_count == 0,
            r.damage_target_count == 0,
            r.applied_effect_count == 0,
            r.scheduled_attack_count == 0,
    {
        SkillStepResult {
            resolved_target_count: 0,
            damage_target_count: 0,
            applied_effect_count: 0,
            scheduled_attack_count: 0,
        }
    }
}

impl SkillStepResult {
    /// Adds every counter of `other` into `self`, saturating.
    pub fn merge(&mut self, other: &Self)
        ensures
            final(self).resolved_target_count == sat_add_usize(
                old(self).resolved_target_count,
                other.resolved_target_count,
            ),
            final(self).damage_target_count == sat_add_usize(
                old(self).damage_target_count,
                other.damage_target_count,
            ),
            final(self).applied_effect_count == sat_add_usize(
                old(self).applied_effect_count,
                other.applied_effect_count,
            ),
            final(self).scheduled_attack_count == sat_add_usize(
                old(self).scheduled_attack_count,
                other.scheduled_attack_count,
            ),
    {
        self.resolved_target_count = self.resolved_target_count.saturating_add(
            other.resolved_target_count,
        );
        self.damage_target_count = self.damage_target_count.saturating_add(
            other.damage_target_count,
        );
        self.applied_effect_count = self.applied_effect_count.saturating_add(
            other.applied_effect_count,
        );
        self.scheduled_attack_count = self.scheduled_attack_count.saturating_add(
            other.scheduled_attack_count,
        );
    }

    pub fn dealt_damage(&self) -> (r: bool)
        ensures
            r == (self.damage_target_count > 0),
    {
        self.damage_target_count > 0
    }
}

/// The combat statistics of a unit during a battle.
#[derive(Debug, Clone, Copy, PartialEq, Eq, Structural)]
pub struct UnitStats {
    pub max_health: u32,
    pub current_health: u32,
    pub attack: u32,
    pub defense: u32,
    pub attack_interval_ms: u64,
    pub move_speed_units_per_ms: u32,
}

/// What is kept of a unit once it has left the battlefield.
#[derive(Debug, Clone, Copy, PartialEq, Eq, Structural)]
pub struct UnitSnapshot {
    pub id: UnitInstanceId,
    pub owner: Side,
    pub position: Position,
    pub stats: UnitStats,
}

/// A unit taking part in a battle.
#[derive(Debug, Clone, PartialEq, Eq)]
pub struct RuntimeUnit {
    pub instance_id: UnitInstanceId,
    pub owner: Side,
    pub base_uuid: u128,
    pub stats: UnitStats,
    pub pos_x_units: i64,
    pub pos_y_units: i64,
    pub move_epoch: u32,
    pub action_state: ActionState,
    pub action_locks: ActionLocks,
    pub current_target: Option<UnitInstanceId>,
    pub next_basic_attack_ms: u64,
    pub pending_basic_attack: bool,
    pub resonance_current: u32,
    pub resonance_max: u32,
    pub resonance_lock_ms: u64,
    pub next_action_time: u64,
    pub pending_cast: bool,
    pub pending_cast_cause: Option<u64>,
}

impl RuntimeUnit {
    /// The record kept of this unit, placed at `position`.
    pub fn to_snapshot(&self, position: Position) -> (s: UnitSnapshot)
        ensures
            s.id == self.instance_id,
            s.owner == self.owner,
            s.position == position,
            s.stats == self.stats,
    {
        UnitSnapshot { id: self.instance_id, owner: self.owner, position, stats: self.stats }
    }

    /// A fresh movement state standing at `position` at time `now_ms`.
    pub fn new_action_state_at(
        position: Position,
        now_ms: u64,
        _speed_units_per_ms: u32,
    ) -> (s: ActionState)
        ensures
            s matches ActionState::Moving(m) && m.path@ == seq![position] && m.step_from
                == position && m.step_to == position && m.last_update_ms == now_ms
                && m.step_started_at_ms == now_ms && m.step_ends_at_ms == now_ms,
    {
        ActionState::Moving(MovementState::new_at(position, now_ms))
    }

    pub fn is_dead(&self) -> (r: bool)
        ensures
            r == (self.stats.current_health == 0),
    {
        self.stats.current_health == 0
    }
}

} // verus!
