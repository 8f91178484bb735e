//! The start of a basic attack: which target the attacker swings at, and
//! what the start does to the attacker and asks of the battle loop.
use vstd::prelude::*;
use crate::interrupts::is_interruptible;
use crate::motion::{advanced_unit, motion_fits};
use crate::movement::ActionState;
use crate::position::Position;
use crate::targets::{
    TargetCandidate, choose_enemy_target_in_tile_range, distinct_unit_ids, find_unit, in_tile_range,
    is_alive_enemy, lemma_selects_unique, selected, lemma_tile_of, persisted_target_in_range, target_in_range_spec,
    tile_range_key,
};
use crate::autocast::{autocast_start_spec, CastTiming};
use crate::buffs::hard_cc_spec;
use crate::types::{ActionLocks, RuntimeUnit, extend_lock};
use crate::waits::{sat_add_u64, with_wait_state};

verus! {

/// What the start of a basic attack asks of the battle loop.
#[derive(Debug, Clone, Copy, PartialEq, Eq, Structural)]
pub enum AttackStartOutcome {
    /// The attacker is dead or not on the battlefield: nothing happens.
    Ignored,
    /// The attacker is locked: the same start is tried again at `at_ms`.
    Deferred { at_ms: u64 },
    /// No target in range: the attacker gives up its target and the loop
    /// plans movement at `movement_intent_at_ms`.
    NoTarget { movement_intent_at_ms: u64 },
    /// The swing at `target_id` started. It resolves at `resolve_at_ms`;
    /// `stopped_movement` tells that the attacker stopped walking for it (the
    /// loop then plans movement again), and `next_attack_at_ms` when the
    /// next periodic attack starts, for periodic attacks.
    Started { target_id: u128, stopped_movement: bool, resolve_at_ms: u64, next_attack_at_ms: Option<u64> },
}

/// The target of an attack start: the locked target while it is a living
/// enemy in range, else the target a triggered attack was hinted at while
/// that is a living enemy in range, else the enemy in range that basic
/// attacks prefer.
pub open spec fn attack_start_target_spec(
    units: Seq<TargetCandidate>,
    u: RuntimeUnit,
    pos: Position,
    range_tiles: u8,
    hint: Option<u128>,
    schedule_next: bool,
) -> Option<u128> {
    let kept = match u.current_target {
        Some(id) => if target_in_range_spec(units, id, u.owner, pos, range_tiles) {
            Some(id)
        } else {
            None
        },
        None => None,
    };
    let hinted = if schedule_next {
        None
    } else {
        match hint {
            Some(id) => if target_in_range_spec(units, id, u.owner, pos, range_tiles) {
                Some(id)
            } else {
                None
            },
            None => None,
        }
    };
    if kept is Some {
        kept
    } else if hinted is Some {
        hinted
    } else {
        selected(
            units,
            |c: TargetCandidate| in_tile_range(u.owner, pos, range_tiles, c),
            |c: TargetCandidate| tile_range_key(u.owner, pos, c),
        )
    }
}

/// The attack interval, at least one millisecond.
pub open spec fn interval_spec(u: RuntimeUnit) -> u64 {
    if u.stats.attack_interval_ms >= 1 { u.stats.attack_interval_ms } else { 1 }
}

/// The attacker after a swing at `t` started at `time_ms`, resolving at
/// `resolve_at_ms`: it stops walking, takes the target, drops its pending
/// attack, is locked from attacking and moving until the swing resolves,
/// and a periodic attacker notes when its next attack starts.
pub open spec fn started_attacker(u: RuntimeUnit, t: u128, time_ms: u64, resolve_at_ms: u64, schedule_next: bool) -> RuntimeUnit {
    let u1 = if is_interruptible(u.action_state) {
        with_wait_state(advanced_unit(u, time_ms), ActionState::Idle)
    } else {
        u
    };
    RuntimeUnit {
        current_target: Some(t),
        pending_basic_attack: false,
        action_locks: ActionLocks {
            basic_attack_until_ms: extend_lock(u1.action_locks.basic_attack_until_ms, resolve_at_ms),
            movement_until_ms: extend_lock(u1.action_locks.movement_until_ms, resolve_at_ms),
            ..u1.action_locks
        },
        next_basic_attack_ms: if schedule_next {
            sat_add_u64(time_ms, interval_spec(u))
        } else {
            u1.next_basic_attack_ms
        },
        ..u1
    }
}

/// The attacker and the outcome of an attack start, event time `time_ms`,
/// handled at `current_time_ms`, with a swing of `windup_ms`.
pub open spec fn attack_start_spec(
    units: Seq<TargetCandidate>,
    u: RuntimeUnit,
    pos: Option<Position>,
    range_tiles: u8,
    hint: Option<u128>,
    schedule_next: bool,
    time_ms: u64,
    current_time_ms: u64,
    windup_ms: u64,
) -> (RuntimeUnit, AttackStartOutcome) {
    if u.stats.current_health == 0 {
        (u, AttackStartOutcome::Ignored)
    } else if current_time_ms < u.action_locks.basic_attack_until_ms {
        (u, AttackStartOutcome::Deferred { at_ms: u.action_locks.basic_attack_until_ms })
    } else {
        match pos {
            None => (u, AttackStartOutcome::Ignored),
            Some(p) => match attack_start_target_spec(units, u, p, range_tiles, hint, schedule_next) {
                None => (
                    RuntimeUnit {
                        current_target: None,
                        pending_basic_attack: if schedule_next { true } else { u.pending_basic_attack },
                        next_basic_attack_ms: if schedule_next { time_ms } else { u.next_basic_attack_ms },
                        ..u
                    },
                    AttackStartOutcome::NoTarget { movement_intent_at_ms: time_ms },
                ),
                Some(t) => {
                    let resolve = sat_add_u64(time_ms, windup_ms);
                    (
                        started_attacker(u, t, time_ms, resolve, schedule_next),
                        AttackStartOutcome::Started {
                            target_id: t,
                            stopped_movement: is_interruptible(u.action_state),
                            resolve_at_ms: resolve,
                            next_attack_at_ms: if schedule_next {
                                Some(sat_add_u64(time_ms, interval_spec(u)))
                            } else {
                                None
                            },
                        },
                    )
                },
            },
        }
    }
}

/// Whether `id` is a living enemy of `owner` placed within `range_tiles`
/// of `pos`.
fn is_target_in_range(units: &Vec<TargetCandidate>, id: u128, owner: crate::position::Side, pos: Position, range_tiles: u8) -> (r: bool)
    requires
        distinct_unit_ids(units@),
    ensures
        r == target_in_range_spec(units@, id, owner, pos, range_tiles),
{
    if !is_alive_enemy(units, id, owner) {
        return false;
    }
    match find_unit(units, id) {
        Some(i) => {
            proof {
                lemma_tile_of(units@, i as int);
            }
            match units[i].tile {
                Some(t) => pos.chebyshev(&t) <= range_tiles as i64,
                None => false,
            }
        },
        None => false,
    }
}

impl RuntimeUnit {
    /// Starts a basic attack of this unit, standing on `pos` (none when it
    /// is not on the battlefield) with range `range_tiles`, among `units`.
    /// `hint` is the target a triggered attack (`schedule_next` false) was
    /// asked for; a periodic attack (`schedule_next` true) ignores it. The
    /// start event is for `time_ms` and handled at `current_time_ms`; the
    /// swing takes `windup_ms`.
    pub fn start_basic_attack(
        &mut self,
        pos: Option<Position>,
        range_tiles: u8,
        units: &Vec<TargetCandidate>,
        hint: Option<u128>,
        schedule_next: bool,
        time_ms: u64,
        current_time_ms: u64,
        windup_ms: u64,
    ) -> (r: AttackStartOutcome)
        requires
            distinct_unit_ids(units@),
            old(self).action_state matches ActionState::Moving(state) ==> motion_fits(
                old(self).pos_x_units as int,
                old(self).pos_y_units as int,
                state,
                time_ms as int,
            ),
        ensures
            (*final(self), r) == attack_start_spec(
                units@,
                *old(self),
                pos,
                range_tiles,
                hint,
                schedule_next,
                time_ms,
                current_time_ms,
                windup_ms,
            ),
    {
        if self.is_dead() {
            return AttackStartOutcome::Ignored;
        }
        if !self.action_locks.can_basic_attack(current_time_ms) {
            return AttackStartOutcome::Deferred { at_ms: self.action_locks.basic_attack_until_ms };
        }
        let p = match pos {
            Some(p) => p,
            None => return AttackStartOutcome::Ignored,
        };
        let owner = self.owner;
        let kept = persisted_target_in_range(units, owner, self.current_target, p, range_tiles);
        let hinted = if schedule_next {
            None
        } else {
            match hint {
                Some(id) => if is_target_in_range(units, id, owner, p, range_tiles) {
                    Some(id)
                } else {
                    None
                },
                None => None,
            }
        };
        let target = if kept.is_some() {
            kept
        } else if hinted.is_some() {
            hinted
        } else {
            let best = choose_enemy_target_in_tile_range(owner, p, range_tiles, units);
            proof {
                lemma_selects_unique(
                    units@,
                    |u: TargetCandidate| in_tile_range(owner, p, range_tiles, u),
                    |u: TargetCandidate| tile_range_key(owner, p, u),
                    best,
                );
            }
            best
        };
        let t = match target {
            Some(t) => t,
            None => {
                self.current_target = None;
                if schedule_next {
                    self.pending_basic_attack = true;
                    self.next_basic_attack_ms = time_ms;
                }
                return AttackStartOutcome::NoTarget { movement_intent_at_ms: time_ms };
            },
        };
        let interval: u64 = if self.stats.attack_interval_ms >= 1 { self.stats.attack_interval_ms } else { 1 };
        let stopped = self.interrupt_movement(time_ms, ActionState::Idle);
        self.current_target = Some(t);
        self.pending_basic_attack = false;
        let resolve_at_ms = time_ms.saturating_add(windup_ms);
        self.action_locks.lock_basic_attack_until(resolve_at_ms);
        self.action_locks.lock_movement_until(resolve_at_ms);
        let next_attack_at_ms = if schedule_next {
            let next = time_ms.saturating_add(interval);
            self.next_basic_attack_ms = next;
            Some(next)
        } else {
            None
        };
        AttackStartOutcome::Started { target_id: t, stopped_movement: stopped, resolve_at_ms, next_attack_at_ms }
    }
}

/// `b`'s locks last at least as long as `a`'s.
pub open spec fn locks_no_shorter(a: ActionLocks, b: ActionLocks) -> bool {
    &&& b.movement_until_ms >= a.movement_until_ms
    &&& b.basic_attack_until_ms >= a.basic_attack_until_ms
    &&& b.resonance_gain_until_ms >= a.resonance_gain_until_ms
}

/// Action locks never shorten: not when a basic attack starts, not when an
/// autocast starts, not when a hard crowd control takes hold.
pub proof fn lemma_locks_never_shorten(
    units: Seq<TargetCandidate>,
    u: RuntimeUnit,
    pos: Option<Position>,
    range_tiles: u8,
    hint: Option<u128>,
    schedule_next: bool,
    time_ms: u64,
    current_time_ms: u64,
    windup_ms: u64,
    silenced: bool,
    cause: u64,
    skill: Option<CastTiming>,
    placed: bool,
    lock_until_ms: u64,
)
    ensures
        locks_no_shorter(
            u.action_locks,
            attack_start_spec(units, u, pos, range_tiles, hint, schedule_next, time_ms, current_time_ms, windup_ms).0.action_locks,
        ),
        locks_no_shorter(u.action_locks, autocast_start_spec(u, time_ms, silenced, cause, skill, placed).0.action_locks),
        locks_no_shorter(u.action_locks, hard_cc_spec(u, lock_until_ms, time_ms).action_locks),
{
}

} // verus!
