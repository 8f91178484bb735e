//! The waiting states a unit enters when it cannot advance: waiting to
//! repath, yielding, blocked, or holding. Each returns the time at which
//! the orchestrator should consider the unit again.
use vstd::prelude::*;
use crate::motion::{advanced_unit, motion_fits};
use crate::movement::{ActionState, REPATH_BASE_DELAY_MS};
use crate::types::RuntimeUnit;

verus! {

/// `a + b` saturated at `u64::MAX`.
pub open spec fn sat_add_u64(a: u64, b: u64) -> u64 {
    if a + b > u64::MAX { u64::MAX } else { (a + b) as u64 }
}

/// When a unit that starts waiting to repath at `now_ms` tries again: after
/// the base delay and the unit's jitter, saturating.
pub fn next_wait_repath_until_ms(now_ms: u64, jitter_ms: u64) -> (r: u64)
    ensures
        r == sat_add_u64(sat_add_u64(now_ms, REPATH_BASE_DELAY_MS), jitter_ms),
{
    now_ms.saturating_add(REPATH_BASE_DELAY_MS).saturating_add(jitter_ms)
}

/// The unit with a new movement epoch and action state.
pub open spec fn with_wait_state(u: RuntimeUnit, state: ActionState) -> RuntimeUnit {
    RuntimeUnit { move_epoch: (if u.move_epoch == u32::MAX { 0 } else { u.move_epoch + 1 }) as u32, action_state: state, ..u }
}

pub(crate) fn next_epoch(e: u32) -> (r: u32)
    ensures
        r == (if e == u32::MAX { 0 } else { e + 1 }) as u32,
{
    if e == u32::MAX { 0 } else { e + 1 }
}

impl RuntimeUnit {
    /// Waits until `until_ms` before repathing: drops the current target,
    /// starts a new movement epoch. Returns when to consider the unit again.
    pub fn enter_wait_repath(&mut self, until_ms: u64, repath_counter: u32) -> (r: u64)
        ensures
            *final(self) == (RuntimeUnit {
                current_target: None,
                ..with_wait_state(*old(self), ActionState::WaitRepath { until_ms, repath_counter })
            }),
            r == until_ms,
    {
        self.current_target = None;
        self.move_epoch = next_epoch(self.move_epoch);
        self.action_state = ActionState::WaitRepath { until_ms, repath_counter };
        until_ms
    }

    /// Yields for `retry_delay_ms`: a moving unit first brings its position
    /// up to `now_ms`; then a new movement epoch starts. Returns when to
    /// consider the unit again.
    pub fn enter_yield(&mut self, now_ms: u64, retry_delay_ms: u64, repath_counter: u32) -> (r: u64)
        requires
            old(self).action_state matches ActionState::Moving(state) ==> motion_fits(
                old(self).pos_x_units as int,
                old(self).pos_y_units as int,
                state,
                now_ms as int,
            ),
        ensures
            r == sat_add_u64(now_ms, retry_delay_ms),
            *final(self) == with_wait_state(
                advanced_unit(*old(self), now_ms),
                (ActionState::Yielding { until_ms: r, repath_counter }),
            ),
    {
        self.update_move_position_to(now_ms);
        let until_ms = now_ms.saturating_add(retry_delay_ms);
        self.move_epoch = next_epoch(self.move_epoch);
        self.action_state = ActionState::Yielding { until_ms, repath_counter };
        until_ms
    }

    /// Is blocked for `retry_delay_ms`, with a new movement epoch. Returns
    /// when to consider the unit again.
    pub fn enter_blocked(&mut self, now_ms: u64, retry_delay_ms: u64, repath_counter: u32) -> (r: u64)
        ensures
            r == sat_add_u64(now_ms, retry_delay_ms),
            *final(self) == with_wait_state(*old(self), (ActionState::Blocked { until_ms: r, repath_counter })),
    {
        let until_ms = now_ms.saturating_add(retry_delay_ms);
        self.move_epoch = next_epoch(self.move_epoch);
        self.action_state = ActionState::Blocked { until_ms, repath_counter };
        until_ms
    }

    /// Holds its position for `retry_delay_ms`, with a new movement epoch.
    /// Returns when to consider the unit again.
    pub fn enter_hold(&mut self, now_ms: u64, retry_delay_ms: u64, repath_counter: u32) -> (r: u64)
        ensures
            r == sat_add_u64(now_ms, retry_delay_ms),
            *final(self) == with_wait_state(*old(self), (ActionState::Holding { until_ms: r, repath_counter })),
    {
        let until_ms = now_ms.saturating_add(retry_delay_ms);
        self.move_epoch = next_epoch(self.move_epoch);
        self.action_state = ActionState::Holding { until_ms, repath_counter };
        until_ms
    }
}

} // verus!
