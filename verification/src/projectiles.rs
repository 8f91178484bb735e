//! Basic-attack projectiles: when one lands, and what its hit does. A
//! projectile is applied at most once: its identifier leaves the set of
//! projectiles in flight when it lands.
use vstd::prelude::*;
use crate::arith::{max_int, min_int};
use crate::attacks::damage_gain_spec;
use crate::damage::{
    base_damage_spec, bonus_fits, calculate_damage, final_damage_spec, on_attack_commands, on_hit_commands,
    BattleCommand, DamageContext, DamageRequest, DamageResult, DamageSource, Effect,
};
use crate::motion::projectile_flight_spec;
use crate::movement::TILE_UNITS_PER_TILE;
use crate::position::{chebyshev_spec, Position};
use crate::types::RuntimeUnit;
use crate::vitals::{motion_ok, hp_change_spec, HpChangeReason, HpOutcome, ResonanceChange};

verus! {

/// When a projectile fired at `fired_at_ms` from `attacker_pos` at the unit
/// on `target_pos` lands: after the flight over the tile distance, every
/// step saturating.
pub open spec fn impact_ms_spec(attacker_pos: Position, target_pos: Position, speed_units_per_ms: u32, fired_at_ms: u64) -> int {
    let distance = min_int(chebyshev_spec(attacker_pos, target_pos) * TILE_UNITS_PER_TILE, u64::MAX as int);
    min_int(fired_at_ms + projectile_flight_spec(distance, speed_units_per_ms as int), u64::MAX as int)
}

/// When a basic-attack projectile lands.
pub fn projectile_impact_ms(attacker_pos: Position, target_pos: Position, speed_units_per_ms: u32, fired_at_ms: u64) -> (r: u64)
    ensures
        r == impact_ms_spec(attacker_pos, target_pos, speed_units_per_ms, fired_at_ms),
{
    let dist_tiles: u64 = attacker_pos.chebyshev(&target_pos) as u64;
    assert(dist_tiles <= 0x1_0000_0000);
    assert(dist_tiles * TILE_UNITS_PER_TILE <= 0x1_0000_0000 * 1_000_000) by (nonlinear_arith)
        requires dist_tiles <= 0x1_0000_0000;
    let distance_units = dist_tiles * TILE_UNITS_PER_TILE;
    let flight_ms = crate::motion::projectile_flight_ms(distance_units, speed_units_per_ms);
    fired_at_ms.saturating_add(flight_ms)
}

/// What a landing projectile did.
#[derive(Debug, Clone)]
pub enum ProjectileHitOutcome {
    /// The projectile had already landed (or was never fired): nothing.
    AlreadyApplied,
    /// The target was dead when it landed.
    Miss,
    /// The attacker was gone: only the plain basic-attack damage landed.
    BaseHit { target: Option<HpOutcome> },
    /// A full hit: damage with the on-attack and on-hit effects.
    Hit { damage: DamageResult, damage_gain: Option<ResonanceChange>, target: Option<HpOutcome> },
}

/// The projectiles in flight, each once.
pub open spec fn in_flight_ok(in_flight: Seq<u128>) -> bool {
    in_flight.no_duplicates()
}

/// `after` holds the projectiles of `before` except `id`.
pub open spec fn landed(before: Seq<u128>, after: Seq<u128>, id: u128) -> bool {
    &&& after.no_duplicates()
    &&& forall|x: u128| after.contains(x) <==> (before.contains(x) && x != id)
}

pub(crate) fn take_projectile(in_flight: &mut Vec<u128>, id: u128) -> (found: bool)
    requires
        in_flight_ok(old(in_flight)@),
    ensures
        found == old(in_flight)@.contains(id),
        found ==> landed(old(in_flight)@, final(in_flight)@, id),
        !found ==> final(in_flight)@ == old(in_flight)@,
{
    let mut i: usize = 0;
    while i < in_flight.len()
        invariant
            0 <= i <= in_flight@.len(),
            in_flight@ == old(in_flight)@,
            in_flight_ok(old(in_flight)@),
            forall|j: int| 0 <= j < i ==> in_flight@[j] != id,
        decreases in_flight@.len() - i,
    {
        if in_flight[i] == id {
            let ghost before = in_flight@;
            in_flight.remove(i);
            proof {
                let after = in_flight@;
                assert(after =~= before.remove(i as int));
                assert forall|a: int, b: int| 0 <= a < b < after.len() implies after[a] != after[b] by {
                    let a0 = if a < i { a } else { a + 1 };
                    let b0 = if b < i { b } else { b + 1 };
                    assert(after[a] == before[a0] && after[b] == before[b0]);
                    assert(a0 < b0);
                }
                assert forall|x: u128| after.contains(x) <==> (before.contains(x) && x != id) by {
                    if after.contains(x) {
                        let k = choose|k: int| 0 <= k < after.len() && after[k] == x;
                        let k0 = if k < i { k } else { k + 1 };
                        assert(before[k0] == x);
                        assert(k0 != i);
                    }
                    if before.contains(x) && x != id {
                        let k = choose|k: int| 0 <= k < before.len() && before[k] == x;
                        assert(k != i);
                        if k < i {
                            assert(after[k] == x);
                        } else {
                            assert(after[k - 1] == x);
                        }
                    }
                }
            }
            return true;
        }
        i = i + 1;
    }
    false
}

/// What landing a projectile does (see `apply_projectile_hit`): the
/// projectiles in flight before and after, the outcome `r`, and the
/// attacker and target afterwards, `a_out` and `t_out`.
pub open spec fn projectile_rel(
    before: Seq<u128>,
    projectile_id: u128,
    a0_in: RuntimeUnit,
    attacker_in_play: bool,
    t0_in: RuntimeUnit,
    on_attack_effects: Seq<Effect>,
    on_hit_effects: Seq<Effect>,
    now_ms: u64,
    after: Seq<u128>,
    r: ProjectileHitOutcome,
    a_out: RuntimeUnit,
    t_out: RuntimeUnit,
) -> bool {
    let a0 = a0_in;
    let t0 = t0_in;
    if !before.contains(projectile_id) {
        &&& r is AlreadyApplied
        &&& after == before
        &&& a_out == a0
        &&& t_out == t0
    } else {
        &&& landed(before, after, projectile_id)
        &&& if t0.stats.current_health == 0 {
            &&& r is Miss
            &&& a_out == a0
            &&& t_out == t0
        } else if !attacker_in_play || a0.stats.current_health == 0 {
            let base = base_damage_spec(a0.stats.attack as int, t0.stats.defense as int);
            let (t1, outcome) = hp_change_spec(t0, max_int(t0.stats.current_health - base, 0), HpChangeReason::BasicAttack, now_ms);
            &&& r matches ProjectileHitOutcome::BaseHit { target: o } && o == outcome
            &&& a_out == a0
            &&& t_out == t1
        } else {
            let fd = final_damage_spec(a0.stats.attack as int, t0.stats.defense as int, on_attack_effects, on_hit_effects);
            let remaining = max_int(t0.stats.current_health - fd, 0);
            let (a1, from_damage) = damage_gain_spec(a0, t0.stats.current_health - remaining, now_ms);
            let (t1, outcome) = hp_change_spec(t0, remaining, HpChangeReason::BasicAttack, now_ms);
            &&& r matches ProjectileHitOutcome::Hit { damage, damage_gain, target: o } && {
                &&& damage.attacker_id == a0.instance_id
                &&& damage.target_id == t0.instance_id
                &&& damage.final_damage == fd
                &&& damage.target_remaining_hp == remaining
                &&& damage.target_killed == (remaining == 0)
                &&& damage.triggered_commands@ == on_attack_commands(on_attack_effects, a0.instance_id, t0.instance_id)
                    + on_hit_commands(on_hit_effects, a0.instance_id, t0.instance_id) + if remaining == 0 {
                    seq![BattleCommand::UnitDied { unit_id: t0.instance_id, killer_id: Some(a0.instance_id) }]
                } else {
                    seq![]
                }
                &&& damage_gain == from_damage
                &&& o == outcome
            }
            &&& a_out == a1
            &&& t_out == t1
        }
    }
}

/// Lands the basic-attack projectile `projectile_id` fired by `attacker` at
/// `target` at `now_ms`. A projectile no longer in flight does nothing;
/// otherwise it leaves the set. A dead target is missed. An attacker no
/// longer in play (`attacker_in_play` false, or dead) deals only its plain
/// basic-attack damage; a living one deals the full hit with the on-attack
/// and on-hit effects and gains a tenth of the health it took as
/// resonance.
pub fn apply_projectile_hit(
    in_flight: &mut Vec<u128>,
    projectile_id: u128,
    attacker: &mut RuntimeUnit,
    attacker_in_play: bool,
    target: &mut RuntimeUnit,
    on_attack_effects: &[Effect],
    on_hit_effects: &[Effect],
    now_ms: u64,
) -> (r: ProjectileHitOutcome)
    requires
        motion_ok(*old(target), now_ms),
        in_flight_ok(old(in_flight)@),
        bonus_fits(
            base_damage_spec(old(attacker).stats.attack as int, old(target).stats.defense as int),
            on_attack_effects@ + on_hit_effects@,
        ),
    ensures
        projectile_rel(
            old(in_flight)@,
            projectile_id,
            *old(attacker),
            attacker_in_play,
            *old(target),
            on_attack_effects@,
            on_hit_effects@,
            now_ms,
            final(in_flight)@,
            r,
            *final(attacker),
            *final(target),
        ),
{
    if !take_projectile(in_flight, projectile_id) {
        return ProjectileHitOutcome::AlreadyApplied;
    }
    if target.is_dead() {
        return ProjectileHitOutcome::Miss;
    }
    if !attacker_in_play || attacker.is_dead() {
        let diff = attacker.stats.attack.saturating_sub(target.stats.defense);
        let base: u32 = if diff >= 1 { diff } else { 1 };
        let outcome = target.apply_damage_and_record(base, HpChangeReason::BasicAttack, now_ms);
        return ProjectileHitOutcome::BaseHit { target: outcome };
    }
    let ctx = DamageContext {
        attacker_side: attacker.owner,
        target_side: target.owner,
        attacker_attack: attacker.stats.attack,
        target_defense: target.stats.defense,
        target_current_hp: target.stats.current_health,
        target_max_hp: target.stats.max_health,
        on_attack_effects,
        on_hit_effects,
    };
    let request = DamageRequest {
        source: DamageSource::BasicAttack,
        attacker_id: attacker.instance_id,
        target_id: target.instance_id,
        base_damage: attacker.stats.attack,
        time_ms: now_ms,
    };
    let damage = calculate_damage(&request, &ctx);
    let dealt = target.stats.current_health.saturating_sub(damage.target_remaining_hp);
    let gained = dealt / 10;
    let damage_gain = if gained > 0 {
        attacker.add_resonance(gained, now_ms, true)
    } else {
        None
    };
    let outcome = target.apply_damage_and_record(damage.final_damage, HpChangeReason::BasicAttack, now_ms);
    ProjectileHitOutcome::Hit { damage, damage_gain, target: outcome }
}

/// A projectile lands at most once: after it landed it is no longer in
/// flight, so landing it again finds nothing to do.
pub proof fn lemma_projectile_lands_once(before: Seq<u128>, after: Seq<u128>, id: u128)
    requires
        landed(before, after, id),
    ensures
        !after.contains(id),
        in_flight_ok(after),
{
}

} // verus!
