//! Health and resonance of a unit: damage, healing, resonance gain and the
//! autocast it arms. Each change reports what the battle records of it.
use vstd::prelude::*;
use crate::arith::{max_int, min_int};
use crate::damage::apply_damage_to_unit;
use crate::interrupts::is_interruptible;
use crate::motion::{advanced_unit, motion_fits};
use crate::movement::ActionState;
use crate::types::{RuntimeUnit, UnitStats};
use crate::waits::with_wait_state;

verus! {

/// Why a unit's health changed.
#[derive(Debug, Clone, Copy, PartialEq, Eq, Structural)]
pub enum HpChangeReason {
    BasicAttack,
    Command,
}

/// A change of a unit's resonance, as the battle records it.
#[derive(Debug, Clone, Copy, PartialEq, Eq, Structural)]
pub struct ResonanceChange {
    pub before: u32,
    pub after: u32,
    pub max: u32,
}

/// A change of a unit's health, as the battle records it.
#[derive(Debug, Clone, Copy, PartialEq, Eq, Structural)]
pub struct HpChange {
    pub hp_before: u32,
    pub hp_after: u32,
    /// `hp_after - hp_before`.
    pub delta: i64,
    pub reason: HpChangeReason,
}

/// What one health change did: the change itself, the resonance the unit
/// gained from it, whether the unit died of it, and whether dying stopped
/// it walking (or waiting between steps).
#[derive(Debug, Clone, Copy, PartialEq, Eq, Structural)]
pub struct HpOutcome {
    pub change: HpChange,
    pub resonance: Option<ResonanceChange>,
    pub died: bool,
    pub stopped_moving: bool,
}

/// The resonance ceiling: the unit's maximum, at least one.
pub open spec fn resonance_cap(max: u32) -> int {
    max_int(max as int, 1)
}

/// The unit with only its resonance and pending-cast flag replaced.
pub open spec fn with_resonance(u: RuntimeUnit, current: u32, pending_cast: bool) -> RuntimeUnit {
    RuntimeUnit { resonance_current: current, pending_cast, ..u }
}

/// The resonance a living, unlocked unit has after gaining `amount`:
/// the old value capped at the ceiling, plus `amount`, capped again.
pub open spec fn gained_resonance(current: u32, max: u32, amount: u32) -> int {
    min_int(min_int(current as int, resonance_cap(max)) + amount, resonance_cap(max))
}

/// The resonance after losing `amount`: never below zero.
pub open spec fn lost_resonance(current: u32, max: u32, amount: int) -> int {
    max_int(min_int(current as int, resonance_cap(max)) - amount, 0)
}

/// The resonance gained from losing health to a basic attack: a tenth of the
/// health lost, rounded down.
pub open spec fn resonance_from_hp_loss(hp_before: u32, hp_after: u32) -> int {
    (hp_before - hp_after) / 10
}

/// Whether `add_resonance` changes the unit.
pub open spec fn resonance_gain_applies(u: RuntimeUnit, amount: u32, now_ms: u64) -> bool {
    &&& amount != 0
    &&& u.stats.current_health != 0
    &&& now_ms >= u.action_locks.resonance_gain_until_ms
    &&& gained_resonance(u.resonance_current, u.resonance_max, amount) != min_int(
        u.resonance_current as int,
        resonance_cap(u.resonance_max),
    )
}

/// The unit after `add_resonance`, and what it reports.
pub open spec fn add_resonance_spec(u: RuntimeUnit, amount: u32, now_ms: u64, allow_autocast_when_full: bool) -> (RuntimeUnit, Option<ResonanceChange>) {
    if resonance_gain_applies(u, amount, now_ms) {
        let cap = resonance_cap(u.resonance_max);
        let before = min_int(u.resonance_current as int, cap);
        let after = gained_resonance(u.resonance_current, u.resonance_max, amount);
        let arm = allow_autocast_when_full && before < cap && after == cap;
        (
            with_resonance(u, after as u32, u.pending_cast || arm),
            Some(ResonanceChange { before: before as u32, after: after as u32, max: cap as u32 }),
        )
    } else {
        (u, None)
    }
}

/// The unit after losing `amount` resonance, and what it reports. A dead
/// unit, or a loss of nothing, changes nothing.
pub open spec fn lose_resonance_spec(u: RuntimeUnit, amount: int) -> (RuntimeUnit, Option<ResonanceChange>) {
    let cap = resonance_cap(u.resonance_max);
    let before = min_int(u.resonance_current as int, cap);
    let after = lost_resonance(u.resonance_current, u.resonance_max, amount);
    if amount == 0 || u.stats.current_health == 0 || before == after {
        (u, None)
    } else {
        (
            with_resonance(u, after as u32, u.pending_cast),
            Some(ResonanceChange { before: before as u32, after: after as u32, max: cap as u32 }),
        )
    }
}

fn min_u32(a: u32, b: u32) -> (r: u32)
    ensures
        r == min_int(a as int, b as int),
{
    if a <= b { a } else { b }
}

impl RuntimeUnit {
    /// The unit may gain resonance at `now_ms`.
    pub fn can_gain_resonance(&self, now_ms: u64) -> (r: bool)
        ensures
            r == (now_ms >= self.action_locks.resonance_gain_until_ms),
    {
        self.action_locks.can_gain_resonance(now_ms)
    }

    /// The unit may start an autocast at `now_ms`: its next action is due
    /// and it is alive.
    pub fn can_start_autocast(&self, now_ms: u64) -> (r: bool)
        ensures
            r == (now_ms >= self.next_action_time && self.stats.current_health != 0),
    {
        if now_ms < self.next_action_time {
            return false;
        }
        if self.is_dead() {
            return false;
        }
        true
    }

    /// Adds `amount` resonance, capped at the ceiling, unless the unit is
    /// dead or its resonance gain is locked. Reaching the ceiling from below
    /// arms a pending cast when `allow_autocast_when_full`. Returns the
    /// change to record, or `None` when nothing changed.
    pub fn add_resonance(&mut self, amount: u32, now_ms: u64, allow_autocast_when_full: bool) -> (r: Option<ResonanceChange>)
        ensures
            (*final(self), r) == add_resonance_spec(*old(self), amount, now_ms, allow_autocast_when_full),
    {
        if amount == 0 {
            return None;
        }
        if self.is_dead() {
            return None;
        }
        if !self.can_gain_resonance(now_ms) {
            return None;
        }
        let max: u32 = if self.resonance_max >= 1 { self.resonance_max } else { 1 };
        let before = min_u32(self.resonance_current, max);
        let after = min_u32(before.saturating_add(amount), max);
        if before == after {
            return None;
        }
        self.resonance_current = after;
        if allow_autocast_when_full && before < max && after == max {
            self.pending_cast = true;
        }
        Some(ResonanceChange { before, after, max })
    }

    /// Changes resonance by `delta`: a gain as `add_resonance`; a loss
    /// takes at most what the unit has (capped at the ceiling), is not
    /// blocked by the gain lock, and never arms a cast. A dead unit does not
    /// change. Returns the change to record, or `None` when nothing changed.
    pub fn modify_resonance(&mut self, delta: i32, now_ms: u64, allow_autocast_when_full: bool) -> (r: Option<ResonanceChange>)
        ensures
            delta > 0 ==> (*final(self), r) == add_resonance_spec(*old(self), delta as u32, now_ms, allow_autocast_when_full),
            delta <= 0 ==> (*final(self), r) == lose_resonance_spec(*old(self), -delta),
    {
        if delta == 0 {
            return None;
        }
        if delta > 0 {
            return self.add_resonance(delta as u32, now_ms, allow_autocast_when_full);
        }
        if self.is_dead() {
            return None;
        }
        let max: u32 = if self.resonance_max >= 1 { self.resonance_max } else { 1 };
        let before = min_u32(self.resonance_current, max);
        let magnitude: u32 = (-(delta as i64)) as u32;
        let dec = min_u32(magnitude, before);
        let after = before - dec;
        if before == after {
            return None;
        }
        self.resonance_current = after;
        Some(ResonanceChange { before, after, max })
    }

    /// The resonance gain that follows a health change, as the battle
    /// applies it: a tenth of the health lost to a basic attack, arming a
    /// cast only if the unit survived.
    fn gain_from_hp_change(&mut self, change: HpChange, now_ms: u64) -> (r: Option<ResonanceChange>)
        requires
            old(self).stats.current_health == change.hp_after,
        ensures
            (change.hp_after < change.hp_before && change.reason == HpChangeReason::BasicAttack
                && resonance_from_hp_loss(change.hp_before, change.hp_after) > 0) ==> (*final(self), r) == add_resonance_spec(
                *old(self),
                resonance_from_hp_loss(change.hp_before, change.hp_after) as u32,
                now_ms,
                change.hp_after > 0,
            ),
            !(change.hp_after < change.hp_before && change.reason == HpChangeReason::BasicAttack
                && resonance_from_hp_loss(change.hp_before, change.hp_after) > 0) ==> *final(self) == *old(self) && r is None,
    {
        if change.hp_after < change.hp_before && change.reason == HpChangeReason::BasicAttack {
            let gained = (change.hp_before - change.hp_after) / 10;
            if gained > 0 {
                return self.add_resonance(gained, now_ms, change.hp_after > 0);
            }
        }
        None
    }

    /// Deals `damage` to the unit unless it is already dead. Health never
    /// drops below zero. A loss to a basic attack grants resonance; a unit
    /// left without health is marked dead (see `hp_change_spec`). `None`
    /// for a dead unit.
    pub fn apply_damage_and_record(&mut self, damage: u32, reason: HpChangeReason, now_ms: u64) -> (r: Option<HpOutcome>)
        requires
            motion_ok(*old(self), now_ms),
        ensures
            old(self).stats.current_health == 0 ==> *final(self) == *old(self) && r is None,
            old(self).stats.current_health != 0 ==> (*final(self), r) == hp_change_spec(
                *old(self),
                max_int(old(self).stats.current_health - damage, 0),
                reason,
                now_ms,
            ),
    {
        if self.is_dead() {
            return None;
        }
        let hp_before = self.stats.current_health;
        let (hp_after, died) = apply_damage_to_unit(&mut self.stats, damage);
        let change = HpChange { hp_before, hp_after, delta: hp_after as i64 - hp_before as i64, reason };
        let resonance = self.gain_from_hp_change(change, now_ms);
        let stopped_moving = if died { self.mark_dead(now_ms) } else { false };
        Some(HpOutcome { change, resonance, died, stopped_moving })
    }

    /// Changes the unit's health by `delta` unless it is dead or `delta` is
    /// zero: a gain saturates and is capped at the maximum health (at least
    /// one), a loss never goes below zero. A loss to a basic attack grants
    /// resonance; a unit left without health is marked dead (see
    /// `hp_change_spec`).
    pub fn apply_hp_delta_and_record(&mut self, delta: i32, reason: HpChangeReason, now_ms: u64) -> (r: Option<HpOutcome>)
        requires
            motion_ok(*old(self), now_ms),
        ensures
            (delta == 0 || old(self).stats.current_health == 0) ==> *final(self) == *old(self) && r is None,
            (delta != 0 && old(self).stats.current_health != 0) ==> (*final(self), r) == hp_change_spec(
                *old(self),
                hp_after_delta(old(self).stats.current_health, old(self).stats.max_health, delta as int),
                reason,
                now_ms,
            ),
    {
        if delta == 0 {
            return None;
        }
        if self.is_dead() {
            return None;
        }
        let hp_before = self.stats.current_health;
        let max_health = self.stats.max_health;
        let hp_after: u32 = if delta > 0 {
            let cap: u32 = if max_health >= 1 { max_health } else { 1 };
            min_u32(hp_before.saturating_add(delta as u32), cap)
        } else {
            let magnitude: u32 = (-(delta as i64)) as u32;
            hp_before.saturating_sub(magnitude)
        };
        self.stats.current_health = hp_after;
        let change = HpChange { hp_before, hp_after, delta: hp_after as i64 - hp_before as i64, reason };
        let resonance = self.gain_from_hp_change(change, now_ms);
        let died = hp_after == 0;
        let stopped_moving = if died { self.mark_dead(now_ms) } else { false };
        Some(HpOutcome { change, resonance, died, stopped_moving })
    }
}

/// The unit and the outcome after its health went to `hp_after` for
/// `reason`: the change, the resonance gained from a basic-attack loss (a
/// cast armed only if the unit survived), and whether it died. A unit whose
/// health reaches zero is dead: a walking unit first brings its position up
/// to `now_ms`, a new movement epoch starts and its state becomes `Dead`.
pub open spec fn hp_change_spec(u: RuntimeUnit, hp_after: int, reason: HpChangeReason, now_ms: u64) -> (RuntimeUnit, Option<HpOutcome>) {
    let hp_before = u.stats.current_health;
    let changed = RuntimeUnit { stats: UnitStats { current_health: hp_after as u32, ..u.stats }, ..u };
    let change = HpChange { hp_before, hp_after: hp_after as u32, delta: (hp_after - hp_before) as i64, reason };
    let gain = resonance_from_hp_loss(hp_before, hp_after as u32);
    let died = hp_after == 0;
    let stopped = died && is_interruptible(u.action_state);
    let (after_gain, resonance) = if hp_after < hp_before && reason == HpChangeReason::BasicAttack && gain > 0 {
        add_resonance_spec(changed, gain as u32, now_ms, hp_after > 0)
    } else {
        (changed, None)
    };
    let settled = if died { with_wait_state(advanced_unit(after_gain, now_ms), ActionState::Dead) } else { after_gain };
    (settled, Some(HpOutcome { change, resonance, died, stopped_moving: stopped }))
}

/// A walking unit's motion fits the arithmetic of an update at `now_ms`.
pub open spec fn motion_ok(u: RuntimeUnit, now_ms: u64) -> bool {
    u.action_state matches ActionState::Moving(state) ==> motion_fits(u.pos_x_units as int, u.pos_y_units as int, state, now_ms as int)
}

/// Health after a change of `delta`: a gain saturates at `u32::MAX` and is
/// capped at the maximum health (at least one); a loss stops at zero.
pub open spec fn hp_after_delta(hp: u32, max_health: u32, delta: int) -> int {
    if delta > 0 {
        min_int(min_int(hp + delta, u32::MAX as int), max_int(max_health as int, 1))
    } else {
        max_int(hp + delta, 0)
    }
}

/// Resonance never passes the ceiling: a unit whose resonance is within it
/// stays within it after any gain or loss.
pub proof fn lemma_resonance_stays_within_cap(u: RuntimeUnit, amount: u32, loss: int, now_ms: u64, allow: bool)
    requires
        u.resonance_current <= resonance_cap(u.resonance_max),
        loss >= 0,
    ensures
        add_resonance_spec(u, amount, now_ms, allow).0.resonance_current <= resonance_cap(u.resonance_max),
        lose_resonance_spec(u, loss).0.resonance_current <= resonance_cap(u.resonance_max),
{
}

/// A gain never lowers resonance and a loss never raises it; neither
/// touches anything but resonance and the pending-cast flag, and a loss
/// never arms a cast.
pub proof fn lemma_resonance_moves_one_way(u: RuntimeUnit, amount: u32, loss: int, now_ms: u64, allow: bool)
    requires
        u.resonance_current <= resonance_cap(u.resonance_max),
        loss >= 0,
    ensures
        add_resonance_spec(u, amount, now_ms, allow).0.resonance_current >= u.resonance_current,
        lose_resonance_spec(u, loss).0.resonance_current <= u.resonance_current,
        add_resonance_spec(u, amount, now_ms, allow).0 == with_resonance(
            u,
            add_resonance_spec(u, amount, now_ms, allow).0.resonance_current,
            add_resonance_spec(u, amount, now_ms, allow).0.pending_cast,
        ),
        lose_resonance_spec(u, loss).0 == with_resonance(u, lose_resonance_spec(u, loss).0.resonance_current, u.pending_cast),
{
}

/// Damage never raises health; a change of health never takes it past the
/// maximum health (at least one) when it was within it; resonance changes
/// leave health alone, and a dead unit gains or loses no resonance.
pub proof fn lemma_hp_change_bounds(u: RuntimeUnit, damage: u32, delta: int, reason: HpChangeReason, now_ms: u64)
    requires
        i32::MIN <= delta <= i32::MAX,
    ensures
        hp_change_spec(u, max_int(u.stats.current_health - damage, 0), reason, now_ms).0.stats.current_health
            <= u.stats.current_health,
        u.stats.current_health <= max_int(u.stats.max_health as int, 1) ==> hp_change_spec(
            u,
            hp_after_delta(u.stats.current_health, u.stats.max_health, delta),
            reason,
            now_ms,
        ).0.stats.current_health <= max_int(u.stats.max_health as int, 1),
        add_resonance_spec(u, damage, now_ms, true).0.stats == u.stats,
        u.stats.current_health == 0 ==> add_resonance_spec(u, damage, now_ms, true).0 == u,
        u.stats.current_health == 0 ==> lose_resonance_spec(u, delta).0 == u,
{
}

/// The health change of a heal of `flat` plus `percent` percent of the
/// maximum health (at least one; the percentage truncated), clamped into
/// `i32`.
pub open spec fn heal_delta_spec(max_health: u32, flat: i32, percent: i32) -> int {
    let m = max_int(max_health as int, 1);
    let d = flat + crate::motion::trunc_div(m * percent, 100);
    if d > i32::MAX { i32::MAX as int } else if d < i32::MIN { i32::MIN as int } else { d }
}

pub fn heal_delta(max_health: u32, flat: i32, percent: i32) -> (r: i32)
    ensures
        r == heal_delta_spec(max_health, flat, percent),
{
    let m: i128 = if max_health >= 1 { max_health as i128 } else { 1 };
    let p: i128 = percent as i128;
    proof {
        assert(-0x8000_0000_0000_0000 <= m * p <= 0x8000_0000_0000_0000) by (nonlinear_arith)
            requires 1 <= m <= 0xFFFF_FFFF, i32::MIN <= p <= i32::MAX;
    }
    let product: i128 = m * p;
    let (q, rem) = crate::motion::trunc_div_rem_i128(product, 100);
    proof {
        crate::motion::lemma_trunc_div_matches(product as int, 100, q as int, rem as int);
    }
    let d: i128 = flat as i128 + q;
    if d > i32::MAX as i128 {
        i32::MAX
    } else if d < i32::MIN as i128 {
        i32::MIN
    } else {
        d as i32
    }
}

impl RuntimeUnit {
    /// Heals the unit by `flat` plus `percent` percent of its maximum
    /// health (a negative amount hurts); see `apply_hp_delta_and_record`.
    /// A dead unit is not healed.
    pub fn apply_heal(&mut self, flat: i32, percent: i32, now_ms: u64) -> (r: Option<HpOutcome>)
        requires
            motion_ok(*old(self), now_ms),
        ensures
            old(self).stats.current_health == 0 ==> *final(self) == *old(self) && r is None,
            old(self).stats.current_health != 0 ==> {
                let delta = heal_delta_spec(old(self).stats.max_health, flat, percent);
                &&& delta == 0 ==> *final(self) == *old(self) && r is None
                &&& delta != 0 ==> (*final(self), r) == hp_change_spec(
                    *old(self),
                    hp_after_delta(old(self).stats.current_health, old(self).stats.max_health, delta),
                    HpChangeReason::Command,
                    now_ms,
                )
            },
    {
        if self.is_dead() {
            return None;
        }
        let delta = heal_delta(self.stats.max_health, flat, percent);
        self.apply_hp_delta_and_record(delta, HpChangeReason::Command, now_ms)
    }
}

} // verus!
