//! Autocasts: a unit whose resonance filled up has a pending cast, which
//! starts once the unit can act, unless it is silenced.
use vstd::prelude::*;
use crate::arith::ix;
use crate::interrupts::is_interruptible;
use crate::motion::{advanced_unit, motion_fits};
use crate::movement::ActionState;
use crate::types::{ActionLocks, RuntimeUnit, extend_lock};
use crate::waits::with_wait_state;

verus! {

/// One unit's part in scheduling pending autocasts at `now_ms`, with
/// `cause` as the cause to record when the unit has none: a living unit
/// with a pending cast takes the cause if it has none; unless silenced, it
/// then starts its cast once its next action is due, which clears the
/// pending cast and hands out its cause.
pub open spec fn autocast_step(u: RuntimeUnit, silenced: bool, now_ms: u64, cause: u64) -> (RuntimeUnit, Option<u64>) {
    if !u.pending_cast || u.stats.current_health == 0 {
        (u, None)
    } else {
        let u1 = if u.pending_cast_cause is None { RuntimeUnit { pending_cast_cause: Some(cause), ..u } } else { u };
        if silenced || now_ms < u1.next_action_time {
            (u1, None)
        } else {
            (RuntimeUnit { pending_cast: false, pending_cast_cause: None, ..u1 }, u1.pending_cast_cause)
        }
    }
}

impl RuntimeUnit {
    /// This unit's part in scheduling pending autocasts (see
    /// `autocast_step`); returns the cause of the cast that starts, if any.
    pub fn schedule_pending_autocast(&mut self, silenced: bool, now_ms: u64, cause: u64) -> (r: Option<u64>)
        ensures
            (*final(self), r) == autocast_step(*old(self), silenced, now_ms, cause),
    {
        if !self.pending_cast || self.is_dead() {
            return None;
        }
        if self.pending_cast_cause.is_none() {
            self.pending_cast_cause = Some(cause);
        }
        if silenced || !self.can_start_autocast(now_ms) {
            return None;
        }
        let taken = self.pending_cast_cause;
        self.pending_cast = false;
        self.pending_cast_cause = None;
        taken
    }
}

/// How a skill's cast occupies its caster: how long it focuses, and
/// whether it may attack or move meanwhile.
#[derive(Debug, Clone, Copy, PartialEq, Eq, Structural)]
pub struct CastTiming {
    pub focus_time_ms: u32,
    pub allows_basic_attack: bool,
    pub allows_move: bool,
}

/// What the start of an autocast asks of the battle loop.
#[derive(Debug, Clone, Copy, PartialEq, Eq, Structural)]
pub enum AutoCastStartOutcome {
    /// The caster is dead, has no castable skill, or is not on the
    /// battlefield: nothing happens.
    Ignored,
    /// The caster is silenced: the cast stays pending.
    Silenced,
    /// The caster cannot act yet: the cast stays pending and the same start
    /// is tried again at `at_ms`.
    Deferred { at_ms: u64 },
    /// The cast started and ends at `cast_end_ms`; when it stopped the
    /// caster walking, the loop plans movement again at
    /// `movement_intent_at_ms`.
    Started { cast_end_ms: u64, movement_intent_at_ms: Option<u64> },
}

/// `a + b` saturated at `u64::MAX`.
pub open spec fn sat_add(a: u64, b: u64) -> u64 {
    if a + b > u64::MAX { u64::MAX } else { (a + b) as u64 }
}

/// The unit with its cast kept pending, under `cause` unless it has one.
pub open spec fn with_pending_cast(u: RuntimeUnit, cause: u64) -> RuntimeUnit {
    RuntimeUnit {
        pending_cast: true,
        pending_cast_cause: if u.pending_cast_cause is None { Some(cause) } else { u.pending_cast_cause },
        ..u
    }
}

/// When a cast of `timing` started at `time_ms` ends: after its focus, or a
/// millisecond later when it has none.
pub open spec fn cast_end_spec(time_ms: u64, timing: CastTiming) -> u64 {
    if timing.focus_time_ms == 0 { sat_add(time_ms, 1) } else { sat_add(time_ms, timing.focus_time_ms as u64) }
}

/// The caster once its cast started: busy until the cast ends, gaining no
/// resonance meanwhile, and locked from attacking and moving as far as the
/// skill forbids them.
pub open spec fn casting_unit(u: RuntimeUnit, cast_end: u64, timing: CastTiming) -> RuntimeUnit {
    RuntimeUnit {
        next_action_time: cast_end,
        action_locks: ActionLocks {
            resonance_gain_until_ms: extend_lock(u.action_locks.resonance_gain_until_ms, cast_end),
            basic_attack_until_ms: if timing.allows_basic_attack {
                u.action_locks.basic_attack_until_ms
            } else {
                extend_lock(u.action_locks.basic_attack_until_ms, cast_end)
            },
            movement_until_ms: if timing.allows_move {
                u.action_locks.movement_until_ms
            } else {
                extend_lock(u.action_locks.movement_until_ms, cast_end)
            },
        },
        ..u
    }
}

/// The caster and the outcome of an autocast start at `time_ms`.
pub open spec fn autocast_start_spec(
    u: RuntimeUnit,
    time_ms: u64,
    silenced: bool,
    cause: u64,
    skill: Option<CastTiming>,
    placed: bool,
) -> (RuntimeUnit, AutoCastStartOutcome) {
    if u.stats.current_health == 0 {
        (u, AutoCastStartOutcome::Ignored)
    } else if silenced {
        (with_pending_cast(u, cause), AutoCastStartOutcome::Silenced)
    } else if time_ms < u.next_action_time {
        (with_pending_cast(u, cause), AutoCastStartOutcome::Deferred { at_ms: u.next_action_time })
    } else {
        match skill {
            None => (u, AutoCastStartOutcome::Ignored),
            Some(timing) => if !placed {
                (u, AutoCastStartOutcome::Ignored)
            } else {
                let end = cast_end_spec(time_ms, timing);
                let u1 = casting_unit(u, end, timing);
                if !timing.allows_move && is_interruptible(u1.action_state) {
                    (
                        with_wait_state(advanced_unit(u1, time_ms), ActionState::Idle),
                        AutoCastStartOutcome::Started { cast_end_ms: end, movement_intent_at_ms: Some(end) },
                    )
                } else {
                    (u1, AutoCastStartOutcome::Started { cast_end_ms: end, movement_intent_at_ms: None })
                }
            },
        }
    }
}

/// The caster and the time to try again (none when the cast ended) of an
/// autocast end at `time_ms`: a caster still busy waits; otherwise its
/// resonance empties, it gains none for its resonance lock, it may act
/// again and its cast is no longer pending.
pub open spec fn autocast_end_spec(u: RuntimeUnit, time_ms: u64) -> (RuntimeUnit, Option<u64>) {
    if time_ms < u.next_action_time {
        (u, Some(u.next_action_time))
    } else {
        (
            RuntimeUnit {
                resonance_current: 0,
                action_locks: ActionLocks {
                    resonance_gain_until_ms: extend_lock(
                        u.action_locks.resonance_gain_until_ms,
                        sat_add(time_ms, u.resonance_lock_ms),
                    ),
                    ..u.action_locks
                },
                next_action_time: 0,
                pending_cast: false,
                ..u
            },
            None,
        )
    }
}

/// A cast that started is over when its end comes: the end is not put off,
/// and the caster may act again with its resonance emptied and nothing
/// pending.
pub proof fn lemma_started_cast_ends_on_time(
    u: RuntimeUnit,
    time_ms: u64,
    silenced: bool,
    cause: u64,
    skill: Option<CastTiming>,
    placed: bool,
)
    requires
        autocast_start_spec(u, time_ms, silenced, cause, skill, placed).1 is Started,
    ensures
        ({
            let (cast, out) = autocast_start_spec(u, time_ms, silenced, cause, skill, placed);
            let (done, retry) = autocast_end_spec(cast, out->cast_end_ms);
            &&& retry is None
            &&& done.next_action_time == 0
            &&& done.resonance_current == 0
            &&& !done.pending_cast
        }),
{
}

impl RuntimeUnit {
    /// Starts this unit's autocast at `time_ms`. `silenced` tells whether a
    /// silence is on it, `cause` is what the pending cast records when it
    /// has nothing yet, `skill` how the cast of its skill occupies it (none
    /// when it has no castable skill) and `placed` whether it stands on the
    /// battlefield.
    pub fn begin_autocast(
        &mut self,
        time_ms: u64,
        silenced: bool,
        cause: u64,
        skill: Option<CastTiming>,
        placed: bool,
    ) -> (r: AutoCastStartOutcome)
        requires
            old(self).action_state matches ActionState::Moving(state) ==> motion_fits(
                old(self).pos_x_units as int,
                old(self).pos_y_units as int,
                state,
                time_ms as int,
            ),
        ensures
            (*final(self), r) == autocast_start_spec(*old(self), time_ms, silenced, cause, skill, placed),
    {
        if self.is_dead() {
            return AutoCastStartOutcome::Ignored;
        }
        if silenced || time_ms < self.next_action_time {
            self.pending_cast = true;
            if self.pending_cast_cause.is_none() {
                self.pending_cast_cause = Some(cause);
            }
            if silenced {
                return AutoCastStartOutcome::Silenced;
            }
            return AutoCastStartOutcome::Deferred { at_ms: self.next_action_time };
        }
        let timing = match skill {
            Some(t) => t,
            None => return AutoCastStartOutcome::Ignored,
        };
        if !placed {
            return AutoCastStartOutcome::Ignored;
        }
        let cast_end_ms = if timing.focus_time_ms == 0 {
            time_ms.saturating_add(1)
        } else {
            time_ms.saturating_add(timing.focus_time_ms as u64)
        };
        self.next_action_time = cast_end_ms;
        self.action_locks.lock_resonance_gain_until(cast_end_ms);
        if !timing.allows_basic_attack {
            self.action_locks.lock_basic_attack_until(cast_end_ms);
        }
        if !timing.allows_move {
            self.action_locks.lock_movement_until(cast_end_ms);
        }
        let mut movement_intent_at_ms: Option<u64> = None;
        if !timing.allows_move {
            let interrupted = self.interrupt_movement(time_ms, ActionState::Idle);
            if interrupted {
                movement_intent_at_ms = Some(cast_end_ms);
            }
        }
        AutoCastStartOutcome::Started { cast_end_ms, movement_intent_at_ms }
    }

    /// Ends this unit's autocast at `time_ms`; returns when to try again
    /// while the unit is still busy.
    pub fn finish_autocast(&mut self, time_ms: u64) -> (r: Option<u64>)
        ensures
            (*final(self), r) == autocast_end_spec(*old(self), time_ms),
    {
        if time_ms < self.next_action_time {
            return Some(self.next_action_time);
        }
        self.resonance_current = 0;
        let until = time_ms.saturating_add(self.resonance_lock_ms);
        self.action_locks.lock_resonance_gain_until(until);
        if self.next_action_time <= time_ms {
            self.next_action_time = 0;
        }
        self.pending_cast = false;
        None
    }
}

/// Pairs ordered by strictly increasing identifier.
pub open spec fn pairs_increasing<T>(s: Seq<(u128, T)>) -> bool {
    forall|i: int, j: int| 0 <= i < j < s.len() ==> (#[trigger] s[i]).0 < (#[trigger] s[j]).0
}

/// Inserts `(id, cause)` into `out` at its place in identifier order.
pub(crate) fn insert_pair<T>(out: &mut Vec<(u128, T)>, id: u128, cause: T)
    requires
        pairs_increasing(old(out)@),
        forall|k: int| 0 <= k < old(out)@.len() ==> (#[trigger] old(out)@[k]).0 != id,
    ensures
        pairs_increasing(final(out)@),
        forall|p: (u128, T)| final(out)@.contains(p) <==> (old(out)@.contains(p) || p == (id, cause)),
{
    let mut k: usize = 0;
    while k < out.len()
        invariant
            0 <= k <= out@.len(),
            out@ == old(out)@,
            forall|i: int| 0 <= i < k ==> (#[trigger] out@[i]).0 < id,
        ensures
            0 <= k <= out@.len(),
            out@ == old(out)@,
            forall|i: int| 0 <= i < k ==> (#[trigger] out@[i]).0 < id,
            k < out@.len() ==> out@[ix(k)].0 >= id,
        decreases out@.len() - k,
    {
        if out[k].0 >= id {
            break;
        }
        k = k + 1;
    }
    let ghost before = out@;
    out.insert(k, (id, cause));
    proof {
        let after = out@;
        assert(after =~= before.insert(ix(k), (id, cause)));
        if k < before.len() {
            assert(before[ix(k)].0 != id);
        }
        assert forall|i: int, j: int| 0 <= i < j < after.len() implies (#[trigger] after[i]).0 < (#[trigger] after[j]).0 by {
            if j < k {
            } else if j == k {
            } else if i < k {
                assert(after[j] == before[j - 1]);
            } else if i == k {
                assert(after[j] == before[j - 1]);
            } else {
                assert(after[i] == before[i - 1]);
                assert(after[j] == before[j - 1]);
            }
        }
        assert forall|p: (u128, T)| after.contains(p) <==> (before.contains(p) || p == (id, cause)) by {
            if after.contains(p) {
                let i = choose|i: int| 0 <= i < after.len() && after[i] == p;
                if i < k {
                    assert(before[i] == p);
                } else if i > k {
                    assert(before[i - 1] == p);
                }
            }
            if before.contains(p) {
                let i = choose|i: int| 0 <= i < before.len() && before[i] == p;
                if i < k {
                    assert(after[i] == p);
                } else {
                    assert(after[i + 1] == p);
                }
            }
            if p == (id, cause) {
                assert(after[ix(k)] == p);
            }
        }
    }
}

/// The units have pairwise different identifiers.
pub open spec fn distinct_ids(units: Seq<RuntimeUnit>) -> bool {
    forall|a: int, b: int| 0 <= a < b < units.len() ==> (#[trigger] units[a]).instance_id != (#[trigger] units[b]).instance_id
}

/// Whether `id` is in the list of silenced units.
pub open spec fn is_silenced(silenced: Seq<u128>, id: u128) -> bool {
    silenced.contains(id)
}

/// Whether `id` occurs in `ids`.
pub(crate) fn contains_id(ids: &Vec<u128>, id: u128) -> (r: bool)
    ensures
        r == ids@.contains(id),
{
    let mut i: usize = 0;
    while i < ids.len()
        invariant
            0 <= i <= ids@.len(),
            forall|j: int| 0 <= j < i ==> ids@[j] != id,
        decreases ids@.len() - i,
    {
        if ids[i] == id {
            return true;
        }
        i = i + 1;
    }
    false
}

/// Schedules the pending autocasts of all `units` at `now_ms`: each unit
/// takes its step (see `autocast_step`; `silenced` lists the silenced
/// units), and the casts that start are returned with their causes in
/// increasing caster identifier order.
pub fn schedule_pending_autocasts(
    units: &mut Vec<RuntimeUnit>,
    silenced: &Vec<u128>,
    now_ms: u64,
    cause: u64,
) -> (started: Vec<(u128, u64)>)
    requires
        distinct_ids(old(units)@),
    ensures
        final(units)@.len() == old(units)@.len(),
        forall|i: int|
            0 <= i < old(units)@.len() ==> #[trigger] final(units)@[i] == autocast_step(
                old(units)@[i],
                is_silenced(silenced@, old(units)@[i].instance_id),
                now_ms,
                cause,
            ).0,
        pairs_increasing(started@),
        forall|p: (u128, u64)|
            started@.contains(p) <==> exists|i: int|
                0 <= i < old(units)@.len() && (#[trigger] old(units)@[i]).instance_id == p.0 && autocast_step(
                    old(units)@[i],
                    is_silenced(silenced@, old(units)@[i].instance_id),
                    now_ms,
                    cause,
                ).1 == Some(p.1),
{
    let mut started: Vec<(u128, u64)> = Vec::new();
    let mut i: usize = 0;
    while i < units.len()
        invariant
            0 <= i <= units@.len(),
            units@.len() == old(units)@.len(),
            distinct_ids(old(units)@),
            forall|k: int|
                0 <= k < i ==> #[trigger] units@[k] == autocast_step(
                    old(units)@[k],
                    is_silenced(silenced@, old(units)@[k].instance_id),
                    now_ms,
                    cause,
                ).0,
            forall|k: int| i <= k < units@.len() ==> #[trigger] units@[k] == old(units)@[k],
            pairs_increasing(started@),
            forall|p: (u128, u64)|
                started@.contains(p) <==> exists|k: int|
                    0 <= k < i && (#[trigger] old(units)@[k]).instance_id == p.0 && autocast_step(
                        old(units)@[k],
                        is_silenced(silenced@, old(units)@[k].instance_id),
                        now_ms,
                        cause,
                    ).1 == Some(p.1),
        decreases units@.len() - i,
    {
        let ghost before_units = units@;
        let ghost before_started = started@;
        let mut u = units.remove(i);
        assert(u == old(units)@[i as int]);
        let is_sil = contains_id(silenced, u.instance_id);
        let id = u.instance_id;
        let r = u.schedule_pending_autocast(is_sil, now_ms, cause);
        units.insert(i, u);
        proof {
            assert(units@ =~= before_units.update(i as int, u));
        }
        match r {
            Some(c) => {
                proof {
                    assert forall|k: int| 0 <= k < started@.len() implies (#[trigger] started@[k]).0 != id by {
                        assert(started@.contains(started@[k]));
                        let m = choose|m: int|
                            0 <= m < i && (#[trigger] old(units)@[m]).instance_id == started@[k].0 && autocast_step(
                                old(units)@[m],
                                is_silenced(silenced@, old(units)@[m].instance_id),
                                now_ms,
                                cause,
                            ).1 == Some(started@[k].1);
                        assert(old(units)@[m].instance_id != old(units)@[i as int].instance_id);
                    }
                }
                insert_pair(&mut started, id, c);
            },
            None => {},
        }
        proof {
            assert forall|p: (u128, u64)|
                started@.contains(p) <==> exists|k: int|
                    0 <= k < i + 1 && (#[trigger] old(units)@[k]).instance_id == p.0 && autocast_step(
                        old(units)@[k],
                        is_silenced(silenced@, old(units)@[k].instance_id),
                        now_ms,
                        cause,
                    ).1 == Some(p.1) by {
                if started@.contains(p) && !before_started.contains(p) {
                    assert(old(units)@[i as int].instance_id == p.0);
                }
                if exists|k: int|
                    0 <= k < i + 1 && (#[trigger] old(units)@[k]).instance_id == p.0 && autocast_step(
                        old(units)@[k],
                        is_silenced(silenced@, old(units)@[k].instance_id),
                        now_ms,
                        cause,
                    ).1 == Some(p.1) {
                    let k = choose|k: int|
                        0 <= k < i + 1 && (#[trigger] old(units)@[k]).instance_id == p.0 && autocast_step(
                            old(units)@[k],
                            is_silenced(silenced@, old(units)@[k].instance_id),
                            now_ms,
                            cause,
                        ).1 == Some(p.1);
                    if k < i {
                        assert(before_started.contains(p));
                    }
                }
            }
        }
        i = i + 1;
    }
    started
}

} // verus!
