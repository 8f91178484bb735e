//! Basic attacks: whether a unit's pending attack starts, and what one
//! attack does to attacker and target when it is released.
use vstd::prelude::*;
use crate::arith::max_int;
use crate::damage::{base_damage_spec, bonus_fits, calculate_damage, final_damage_spec, on_attack_commands, on_hit_commands, BattleCommand, DamageContext, DamageRequest, DamageResult, DamageSource, Effect};
use crate::position::Position;
use crate::targets::{
    attack_reaches, choose_enemy_target_in_tile_range, distinct_unit_ids, in_tile_range, is_basic_attack_target_in_range_with_policy,
    persisted_target_in_range, selected, target_in_range_spec, tile_range_key, unit_distance_sq,
    BasicAttackRangePolicy, TargetCandidate,
};
use crate::autocast::{distinct_ids, insert_pair, pairs_increasing};
use crate::types::RuntimeUnit;
use crate::vitals::{motion_ok, add_resonance_spec, hp_change_spec, HpChangeReason, HpOutcome, ResonanceChange};

verus! {

/// How a unit's basic attack is delivered, as its definition gives it.
#[derive(Debug, Clone, Copy, PartialEq, Eq, Structural)]
pub enum BasicAttackDelivery {
    Instant,
    Projectile { speed_units_per_ms: u32 },
    /// Not used by basic attacks; resolved as an instant hit.
    Area,
}

/// What releasing a basic attack did.
#[derive(Debug, Clone)]
pub enum BasicAttackResolution {
    /// The attack could not be made: a unit is dead, both are on the same
    /// side, the target is out of reach, or a projectile has no tiles.
    Rejected,
    /// The attack hit at once.
    Hit {
        damage: DamageResult,
        /// Resonance the attacker gained on releasing the attack.
        release_gain: Option<ResonanceChange>,
        /// Resonance the attacker gained from the health it took.
        damage_gain: Option<ResonanceChange>,
        target: Option<HpOutcome>,
    },
    /// A projectile was launched from `attacker_tile` at `target_tile`.
    Launch {
        release_gain: Option<ResonanceChange>,
        attacker_tile: Position,
        target_tile: Position,
        speed_units_per_ms: u32,
    },
}

/// The targeting view of a runtime unit placed on `tile`.
pub open spec fn candidate_view(u: RuntimeUnit, tile: Option<Position>) -> TargetCandidate {
    TargetCandidate {
        id: u.instance_id,
        owner: u.owner,
        current_health: u.stats.current_health,
        tile,
        pos_x_units: u.pos_x_units,
        pos_y_units: u.pos_y_units,
        range_tiles: 0,
    }
}

fn candidate_of(u: &RuntimeUnit, tile: Option<Position>) -> (c: TargetCandidate)
    ensures
        c == candidate_view(*u, tile),
{
    TargetCandidate {
        id: u.instance_id,
        owner: u.owner,
        current_health: u.stats.current_health,
        tile,
        pos_x_units: u.pos_x_units,
        pos_y_units: u.pos_y_units,
        range_tiles: 0,
    }
}

/// Both units alive, on different sides, and the attack reaches.
pub open spec fn attack_accepted(
    attacker: RuntimeUnit,
    attacker_tile: Option<Position>,
    target: RuntimeUnit,
    target_tile: Option<Position>,
    policy: BasicAttackRangePolicy,
) -> bool {
    &&& attacker.stats.current_health != 0
    &&& target.stats.current_health != 0
    &&& attacker.owner != target.owner
    &&& attack_reaches(candidate_view(attacker, attacker_tile), candidate_view(target, target_tile), policy)
}

/// The attacker after the resonance it gains from the health it took:
/// a tenth of it, arming a cast when full.
pub open spec fn damage_gain_spec(attacker: RuntimeUnit, dealt: int, now_ms: u64) -> (RuntimeUnit, Option<ResonanceChange>) {
    if dealt / 10 > 0 {
        add_resonance_spec(attacker, (dealt / 10) as u32, now_ms, true)
    } else {
        (attacker, None)
    }
}

/// What resolving a basic attack does (see `resolve_basic_attack`): the
/// outcome `r` and the attacker and target afterwards, `a_out` and `t_out`.
pub open spec fn resolve_rel(
    a0_in: RuntimeUnit,
    attacker_tile: Option<Position>,
    t0_in: RuntimeUnit,
    target_tile: Option<Position>,
    policy: BasicAttackRangePolicy,
    delivery: BasicAttackDelivery,
    on_attack_effects: Seq<Effect>,
    on_hit_effects: Seq<Effect>,
    now_ms: u64,
    r: BasicAttackResolution,
    a_out: RuntimeUnit,
    t_out: RuntimeUnit,
) -> bool {
    let a0 = a0_in;
    let t0 = t0_in;
    let accepted = attack_accepted(a0, attacker_tile, t0, target_tile, policy);
    let (a1, release) = add_resonance_spec(a0, 10, now_ms, true);
    if !accepted || (delivery is Projectile && (attacker_tile is None || target_tile is None)) {
        &&& r is Rejected
        &&& a_out == a0
        &&& t_out == t0
    } else if delivery is Projectile {
        &&& r matches BasicAttackResolution::Launch { release_gain, attacker_tile: at, target_tile: tt, speed_units_per_ms }
            && release_gain == release && Some(at) == attacker_tile && Some(tt) == target_tile
            && speed_units_per_ms == delivery->speed_units_per_ms
        &&& a_out == a1
        &&& t_out == t0
    } else {
        let fd = final_damage_spec(a0.stats.attack as int, t0.stats.defense as int, on_attack_effects, on_hit_effects);
        let remaining = max_int(t0.stats.current_health - fd, 0);
        let (a2, from_damage) = damage_gain_spec(a1, t0.stats.current_health - remaining, now_ms);
        let (t1, outcome) = hp_change_spec(t0, remaining, HpChangeReason::BasicAttack, now_ms);
        &&& r matches BasicAttackResolution::Hit { damage, release_gain, damage_gain, target: target_outcome } && {
            &&& damage.attacker_id == a0.instance_id
            &&& damage.target_id == t0.instance_id
            &&& damage.final_damage == fd
            &&& damage.target_remaining_hp == remaining
            &&& damage.target_killed == (remaining == 0)
            &&& damage.triggered_commands@ == on_attack_commands(on_attack_effects, a0.instance_id, t0.instance_id)
                + on_hit_commands(on_hit_effects, a0.instance_id, t0.instance_id) + if remaining == 0 {
                seq![BattleCommand::UnitDied { unit_id: t0.instance_id, killer_id: Some(a0.instance_id) }]
            } else {
                seq![]
            }
            &&& release_gain == release
            &&& damage_gain == from_damage
            &&& target_outcome == outcome
        }
        &&& a_out == a2
        &&& t_out == t1
    }
}

/// Releases the basic attack of `attacker` (on `attacker_tile`) at `target`
/// (on `target_tile`) under `policy`, delivered as `delivery`, with the
/// attacker's on-attack and the target's on-hit effects. A released attack
/// gives the attacker ten resonance. A projectile is launched between the
/// two tiles. Otherwise the hit lands at once: the damage is calculated,
/// the attacker gains a tenth of the health it took, and the target takes
/// the damage.
pub fn resolve_basic_attack(
    attacker: &mut RuntimeUnit,
    attacker_tile: Option<Position>,
    target: &mut RuntimeUnit,
    target_tile: Option<Position>,
    policy: BasicAttackRangePolicy,
    delivery: BasicAttackDelivery,
    on_attack_effects: &[Effect],
    on_hit_effects: &[Effect],
    now_ms: u64,
) -> (r: BasicAttackResolution)
    requires
        motion_ok(*old(target), now_ms),
        policy.use_continuous_range ==> unit_distance_sq(
            candidate_view(*old(attacker), attacker_tile),
            candidate_view(*old(target), target_tile),
        ) <= i128::MAX,
        bonus_fits(
            base_damage_spec(old(attacker).stats.attack as int, old(target).stats.defense as int),
            on_attack_effects@ + on_hit_effects@,
        ),
    ensures
        resolve_rel(
            *old(attacker),
            attacker_tile,
            *old(target),
            target_tile,
            policy,
            delivery,
            on_attack_effects@,
            on_hit_effects@,
            now_ms,
            r,
            *final(attacker),
            *final(target),
        ),
{
    if attacker.is_dead() || target.is_dead() || attacker.owner == target.owner {
        return BasicAttackResolution::Rejected;
    }
    let ac = candidate_of(attacker, attacker_tile);
    let tc = candidate_of(target, target_tile);
    if !is_basic_attack_target_in_range_with_policy(&ac, &tc, policy) {
        return BasicAttackResolution::Rejected;
    }
    match delivery {
        BasicAttackDelivery::Projectile { speed_units_per_ms } => {
            match (attacker_tile, target_tile) {
                (Some(at), Some(tt)) => {
                    let release_gain = attacker.add_resonance(10, now_ms, true);
                    BasicAttackResolution::Launch { release_gain, attacker_tile: at, target_tile: tt, speed_units_per_ms }
                },
                _ => BasicAttackResolution::Rejected,
            }
        },
        _ => {
            let release_gain = attacker.add_resonance(10, now_ms, true);
            let ctx = DamageContext {
                attacker_side: attacker.owner,
                target_side: target.owner,
                attacker_attack: attacker.stats.attack,
                target_defense: target.stats.defense,
                target_current_hp: target.stats.current_health,
                target_max_hp: target.stats.max_health,
                on_attack_effects,
                on_hit_effects,
            };
            let request = DamageRequest {
                source: DamageSource::BasicAttack,
                attacker_id: attacker.instance_id,
                target_id: target.instance_id,
                base_damage: attacker.stats.attack,
                time_ms: now_ms,
            };
            let damage = calculate_damage(&request, &ctx);
            let dealt = target.stats.current_health.saturating_sub(damage.target_remaining_hp);
            let gained = dealt / 10;
            let damage_gain = if gained > 0 {
                attacker.add_resonance(gained, now_ms, true)
            } else {
                None
            };
            let target_outcome = target.apply_damage_and_record(damage.final_damage, HpChangeReason::BasicAttack, now_ms);
            BasicAttackResolution::Hit { damage, release_gain, damage_gain, target: target_outcome }
        },
    }
}

/// What happens to a unit's pending basic attack at one tick.
#[derive(Debug, Clone, Copy, PartialEq, Eq, Structural)]
pub enum PendingAttackDecision {
    /// Nothing to do now.
    Skip,
    /// The attack lock still holds: the pending attack is dropped and an
    /// attack start is scheduled for when the lock ends.
    WaitForLock { at_ms: u64 },
    /// No enemy is in range: the target is dropped and movement is
    /// reconsidered at `intent_at_ms`.
    Reposition { intent_at_ms: u64 },
    /// Start the attack on this target now.
    Start { target_id: u128 },
}

/// The target of a pending attack of a unit of side `owner` at `pos`: its
/// locked target while that is a living enemy within range, else the enemy
/// in range that basic attacks prefer.
pub open spec fn pending_target_spec(
    units: Seq<TargetCandidate>,
    current_target: Option<u128>,
    owner: crate::position::Side,
    pos: Position,
    range_tiles: u8,
) -> Option<u128> {
    match current_target {
        Some(id) => if target_in_range_spec(units, id, owner, pos, range_tiles) {
            Some(id)
        } else {
            selected(units, |u: TargetCandidate| in_tile_range(owner, pos, range_tiles, u), |u: TargetCandidate| tile_range_key(owner, pos, u))
        },
        None => selected(units, |u: TargetCandidate| in_tile_range(owner, pos, range_tiles, u), |u: TargetCandidate| tile_range_key(owner, pos, u)),
    }
}

pub open spec fn pending_attack_spec(
    u: RuntimeUnit,
    pos: Option<Position>,
    range_tiles: u8,
    units: Seq<TargetCandidate>,
    now_ms: u64,
) -> PendingAttackDecision {
    if u.stats.current_health == 0 || !u.pending_basic_attack || now_ms < u.next_basic_attack_ms {
        PendingAttackDecision::Skip
    } else if now_ms < u.action_locks.basic_attack_until_ms {
        PendingAttackDecision::WaitForLock { at_ms: u.action_locks.basic_attack_until_ms }
    } else {
        match pos {
            None => PendingAttackDecision::Skip,
            Some(p) => match pending_target_spec(units, u.current_target, u.owner, p, range_tiles) {
                Some(id) => PendingAttackDecision::Start { target_id: id },
                None => PendingAttackDecision::Reposition {
                    intent_at_ms: if now_ms == u64::MAX { u64::MAX } else { (now_ms + 1) as u64 },
                },
            },
        }
    }
}

/// The decision on the pending basic attack of `unit`, placed at `pos`
/// (none when not on the battlefield) with attack range `range_tiles`,
/// among `units`.
pub fn pending_attack_decision(
    unit: &RuntimeUnit,
    pos: Option<Position>,
    range_tiles: u8,
    units: &Vec<TargetCandidate>,
    now_ms: u64,
) -> (r: PendingAttackDecision)
    requires
        distinct_unit_ids(units@),
    ensures
        r == pending_attack_spec(*unit, pos, range_tiles, units@, now_ms),
{
    if unit.is_dead() || !unit.pending_basic_attack || now_ms < unit.next_basic_attack_ms {
        return PendingAttackDecision::Skip;
    }
    if !unit.action_locks.can_basic_attack(now_ms) {
        return PendingAttackDecision::WaitForLock { at_ms: unit.action_locks.basic_attack_until_ms };
    }
    let p = match pos {
        Some(p) => p,
        None => {
            return PendingAttackDecision::Skip;
        },
    };
    let kept = persisted_target_in_range(units, unit.owner, unit.current_target, p, range_tiles);
    let target = match kept {
        Some(id) => Some(id),
        None => {
            let best = choose_enemy_target_in_tile_range(unit.owner, p, range_tiles, units);
            proof {
                crate::targets::lemma_selects_unique(
                    units@,
                    |u: TargetCandidate| in_tile_range(unit.owner, p, range_tiles, u),
                    |u: TargetCandidate| tile_range_key(unit.owner, p, u),
                    best,
                );
            }
            best
        },
    };
    match target {
        Some(id) => PendingAttackDecision::Start { target_id: id },
        None => PendingAttackDecision::Reposition { intent_at_ms: now_ms.saturating_add(1) },
    }
}

/// The unit after a pending-attack decision: waiting for the lock or
/// starting drops the pending attack, repositioning drops the target.
pub open spec fn after_pending_decision(u: RuntimeUnit, decision: PendingAttackDecision) -> RuntimeUnit {
    match decision {
        PendingAttackDecision::Skip => u,
        PendingAttackDecision::WaitForLock { .. } => RuntimeUnit { pending_basic_attack: false, ..u },
        PendingAttackDecision::Reposition { .. } => RuntimeUnit { current_target: None, ..u },
        PendingAttackDecision::Start { .. } => RuntimeUnit { pending_basic_attack: false, ..u },
    }
}

impl RuntimeUnit {
    /// Applies a pending-attack decision to the unit: waiting for the lock
    /// or starting drops the pending attack, repositioning drops the target.
    pub fn apply_pending_attack_decision(&mut self, decision: PendingAttackDecision)
        ensures
            *final(self) == after_pending_decision(*old(self), decision),
    {
        match decision {
            PendingAttackDecision::Skip => {},
            PendingAttackDecision::WaitForLock { .. } => {
                self.pending_basic_attack = false;
            },
            PendingAttackDecision::Reposition { .. } => {
                self.current_target = None;
            },
            PendingAttackDecision::Start { .. } => {
                self.pending_basic_attack = false;
            },
        }
    }
}

/// The decision on the pending basic attack of `units[i]` (see
/// `pending_attack_spec`), standing on `placements[i]` with range
/// `ranges[i]`.
pub open spec fn batch_decision(
    units: Seq<RuntimeUnit>,
    placements: Seq<Option<Position>>,
    ranges: Seq<u8>,
    candidates: Seq<TargetCandidate>,
    now_ms: u64,
    i: int,
) -> PendingAttackDecision {
    pending_attack_spec(units[i], placements[i], ranges[i], candidates, now_ms)
}

/// Takes the pending basic attack of every unit at `now_ms` (see
/// `pending_attack_decision`; `placements[i]` is where `units[i]` stands and
/// `ranges[i]` its attack range) and applies each decision to its unit. The
/// decisions that do something are returned in increasing unit identifier
/// order.
pub fn try_start_pending_basic_attacks(
    units: &mut Vec<RuntimeUnit>,
    placements: &Vec<Option<Position>>,
    ranges: &Vec<u8>,
    candidates: &Vec<TargetCandidate>,
    now_ms: u64,
) -> (decisions: Vec<(u128, PendingAttackDecision)>)
    requires
        distinct_ids(old(units)@),
        placements@.len() == old(units)@.len(),
        ranges@.len() == old(units)@.len(),
        distinct_unit_ids(candidates@),
    ensures
        final(units)@.len() == old(units)@.len(),
        forall|i: int|
            0 <= i < old(units)@.len() ==> #[trigger] final(units)@[i] == after_pending_decision(
                old(units)@[i],
                batch_decision(old(units)@, placements@, ranges@, candidates@, now_ms, i),
            ),
        pairs_increasing(decisions@),
        forall|p: (u128, PendingAttackDecision)|
            decisions@.contains(p) <==> exists|i: int|
                0 <= i < old(units)@.len() && (#[trigger] old(units)@[i]).instance_id == p.0 && p.1 == batch_decision(
                    old(units)@,
                    placements@,
                    ranges@,
                    candidates@,
                    now_ms,
                    i,
                ) && !(p.1 is Skip),
{
    let ghost u0 = units@;
    let mut decisions: Vec<(u128, PendingAttackDecision)> = Vec::new();
    let mut i: usize = 0;
    while i < units.len()
        invariant
            0 <= i <= units@.len(),
            units@.len() == u0.len(),
            u0 == old(units)@,
            distinct_ids(u0),
            placements@.len() == u0.len(),
            ranges@.len() == u0.len(),
            distinct_unit_ids(candidates@),
            forall|k: int|
                0 <= k < i ==> #[trigger] units@[k] == after_pending_decision(
                    u0[k],
                    batch_decision(u0, placements@, ranges@, candidates@, now_ms, k),
                ),
            forall|k: int| i <= k < units@.len() ==> #[trigger] units@[k] == u0[k],
            pairs_increasing(decisions@),
            forall|p: (u128, PendingAttackDecision)|
                decisions@.contains(p) <==> exists|k: int|
                    0 <= k < i && (#[trigger] u0[k]).instance_id == p.0 && p.1 == batch_decision(
                        u0,
                        placements@,
                        ranges@,
                        candidates@,
                        now_ms,
                        k,
                    ) && !(p.1 is Skip),
        decreases units@.len() - i,
    {
        let ghost before_units = units@;
        let ghost before = decisions@;
        let mut u = units.remove(i);
        assert(u == u0[i as int]);
        let d = pending_attack_decision(&u, placements[i], ranges[i], candidates, now_ms);
        let id = u.instance_id;
        u.apply_pending_attack_decision(d);
        units.insert(i, u);
        proof {
            assert(units@ =~= before_units.update(i as int, u));
        }
        match d {
            PendingAttackDecision::Skip => {},
            _ => {
                proof {
                    assert forall|k: int| 0 <= k < decisions@.len() implies (#[trigger] decisions@[k]).0 != id by {
                        assert(decisions@.contains(decisions@[k]));
                        let m = choose|m: int|
                            0 <= m < i && (#[trigger] u0[m]).instance_id == decisions@[k].0 && decisions@[k].1
                                == batch_decision(u0, placements@, ranges@, candidates@, now_ms, m) && !(decisions@[k].1 is Skip);
                        assert(u0[m].instance_id != u0[i as int].instance_id);
                    }
                }
                insert_pair(&mut decisions, id, d);
            },
        }
        proof {
            assert forall|p: (u128, PendingAttackDecision)|
                decisions@.contains(p) <==> exists|k: int|
                    0 <= k < i + 1 && (#[trigger] u0[k]).instance_id == p.0 && p.1 == batch_decision(
                        u0,
                        placements@,
                        ranges@,
                        candidates@,
                        now_ms,
                        k,
                    ) && !(p.1 is Skip) by {
                if decisions@.contains(p) && !before.contains(p) {
                    assert(u0[i as int].instance_id == p.0);
                }
                if exists|k: int|
                    0 <= k < i + 1 && (#[trigger] u0[k]).instance_id == p.0 && p.1 == batch_decision(
                        u0,
                        placements@,
                        ranges@,
                        candidates@,
                        now_ms,
                        k,
                    ) && !(p.1 is Skip) {
                    let k = choose|k: int|
                        0 <= k < i + 1 && (#[trigger] u0[k]).instance_id == p.0 && p.1 == batch_decision(
                            u0,
                            placements@,
                            ranges@,
                            candidates@,
                            now_ms,
                            k,
                        ) && !(p.1 is Skip);
                    if k < i {
                        assert(before.contains(p));
                    } else {
                        assert(u0[i as int].instance_id == u0[k].instance_id);
                    }
                }
            }
        }
        i = i + 1;
    }
    decisions
}

} // verus!
