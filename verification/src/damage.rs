//! Damage resolution: base damage, on-attack and on-hit effects, and the
//! commands a hit triggers.
use vstd::prelude::*;
use crate::arith::{max_int, min_int};
use crate::motion::trunc_div;
use crate::position::Side;
use crate::types::{UnitInstanceId, UnitStats};

verus! {

/// Identifier of a buff definition.
pub type BuffId = u64;

/// Identifier of an ability definition.
pub type AbilityId = u32;

/// A change to one unit statistic.
#[derive(Debug, Clone, Copy, PartialEq, Eq, Structural)]
pub struct StatModifier {
    pub stat: u32,
    pub amount: i32,
}

/// An effect granted by an artifact or item trigger.
#[derive(Debug, Clone, Copy, PartialEq, Eq, Structural)]
pub enum Effect {
    BonusDamage { flat: i32, percent: i32 },
    Heal { flat: i32, percent: i32 },
    ApplyBuff { buff_id: BuffId, duration_ms: u64 },
    Ability(AbilityId),
    Modifier(StatModifier),
}

/// Where damage comes from.
#[derive(Debug, Clone, Copy, PartialEq, Eq, Structural)]
pub enum DamageSource {
    BasicAttack,
    Ability,
    BuffTick,
    Environment,
}

/// Everything a damage calculation is asked about.
#[derive(Debug, Clone, Copy, PartialEq, Eq, Structural)]
pub struct DamageRequest {
    pub source: DamageSource,
    pub attacker_id: UnitInstanceId,
    pub target_id: UnitInstanceId,
    pub base_damage: u32,
    pub time_ms: u64,
}

/// A state change requested during a battle.
#[derive(Debug, Clone, Copy, PartialEq, Eq, Structural)]
pub enum BattleCommand {
    UnitDied { unit_id: UnitInstanceId, killer_id: Option<UnitInstanceId> },
    ExecuteAbility {
        ability_id: AbilityId,
        caster_id: UnitInstanceId,
        target_id: Option<UnitInstanceId>,
    },
    ApplyModifier { target_id: UnitInstanceId, modifier: StatModifier },
    ApplyHeal {
        target_id: UnitInstanceId,
        flat: i32,
        percent: i32,
        /// Who caused the heal (for credit and triggers); `None` if unknown.
        source_id: Option<UnitInstanceId>,
    },
    ScheduleAttack {
        attacker_id: UnitInstanceId,
        target_id: Option<UnitInstanceId>,
        /// Delay from now, in milliseconds.
        time_ms: u64,
    },
    ApplyBuff {
        caster_id: UnitInstanceId,
        target_id: UnitInstanceId,
        buff_id: BuffId,
        duration_ms: u64,
    },
    /// Changes a unit's resonance by `amount` (see `modify_resonance`).
    ModifyResonance { target_id: UnitInstanceId, amount: i32, allow_autocast_when_full: bool },
}

/// The outcome of one damage calculation.
#[derive(Debug, Clone)]
pub struct DamageResult {
    pub attacker_id: UnitInstanceId,
    pub target_id: UnitInstanceId,
    pub final_damage: u32,
    pub target_killed: bool,
    pub target_remaining_hp: u32,
    /// Commands triggered by the hit, in order.
    pub triggered_commands: Vec<BattleCommand>,
}

/// What a damage calculation reads about attacker and target.
pub struct DamageContext<'a> {
    pub attacker_side: Side,
    pub target_side: Side,
    pub attacker_attack: u32,
    pub target_defense: u32,
    pub target_current_hp: u32,
    pub target_max_hp: u32,
    pub on_attack_effects: &'a [Effect],
    pub on_hit_effects: &'a [Effect],
}

/// Attack minus defense, never below one.
pub open spec fn base_damage_spec(attack: int, defense: int) -> int {
    max_int(max_int(attack - defense, 0), 1)
}

/// `v` clamped into `i128`.
pub open spec fn clamp128(v: int) -> int {
    if v > i128::MAX { i128::MAX as int } else if v < i128::MIN { i128::MIN as int } else { v }
}

/// Damage after one bonus: the flat part is added, then `percent` percent of
/// the result (the product saturating, the percentage truncated).
pub open spec fn bonus_step(d: int, flat: int, percent: int) -> int {
    let d1 = d + flat;
    d1 + trunc_div(clamp128(d1 * percent), 100)
}

/// One bonus step stays within `i128`.
pub open spec fn bonus_step_fits(d: int, flat: int, percent: int) -> bool {
    let d1 = d + flat;
    &&& i128::MIN <= d1 <= i128::MAX
    &&& i128::MIN <= d1 + trunc_div(clamp128(d1 * percent), 100) <= i128::MAX
}

/// Damage after applying, in order, every bonus among `effects`.
pub open spec fn bonus_damage_after(d: int, effects: Seq<Effect>) -> int
    decreases effects.len(),
{
    if effects.len() == 0 {
        d
    } else {
        let next = match effects[0] {
            Effect::BonusDamage { flat, percent } => bonus_step(d, flat as int, percent as int),
            _ => d,
        };
        bonus_damage_after(next, effects.subrange(1, effects.len() as int))
    }
}

/// Every bonus step among `effects`, starting from `d`, stays within `i128`.
pub open spec fn bonus_fits(d: int, effects: Seq<Effect>) -> bool
    decreases effects.len(),
{
    if effects.len() == 0 {
        i128::MIN <= d <= i128::MAX
    } else {
        let (ok, next) = match effects[0] {
            Effect::BonusDamage { flat, percent } => (
                bonus_step_fits(d, flat as int, percent as int),
                bonus_step(d, flat as int, percent as int),
            ),
            _ => (true, d),
        };
        ok && bonus_fits(next, effects.subrange(1, effects.len() as int))
    }
}

/// Commands raised by the attacker's on-attack effects: buffs land on the
/// target, abilities are cast by the attacker at the target.
pub open spec fn on_attack_commands(effects: Seq<Effect>, attacker: UnitInstanceId, target: UnitInstanceId) -> Seq<BattleCommand>
    decreases effects.len(),
{
    if effects.len() == 0 {
        seq![]
    } else {
        let head: Seq<BattleCommand> = match effects[0] {
            Effect::ApplyBuff { buff_id, duration_ms } => seq![BattleCommand::ApplyBuff { caster_id: attacker, target_id: target, buff_id, duration_ms }],
            Effect::Ability(ability_id) => seq![BattleCommand::ExecuteAbility { ability_id, caster_id: attacker, target_id: Some(target) }],
            _ => seq![],
        };
        head + on_attack_commands(effects.subrange(1, effects.len() as int), attacker, target)
    }
}

/// Commands raised by the target's on-hit effects: heals the target,
/// buffs from the target land on the attacker, abilities are cast by the
/// target at the attacker.
pub open spec fn on_hit_commands(effects: Seq<Effect>, attacker: UnitInstanceId, target: UnitInstanceId) -> Seq<BattleCommand>
    decreases effects.len(),
{
    if effects.len() == 0 {
        seq![]
    } else {
        let head: Seq<BattleCommand> = match effects[0] {
            Effect::Heal { flat, percent } => seq![BattleCommand::ApplyHeal { target_id: target, flat, percent, source_id: Some(target) }],
            Effect::ApplyBuff { buff_id, duration_ms } => seq![BattleCommand::ApplyBuff { caster_id: target, target_id: attacker, buff_id, duration_ms }],
            Effect::Ability(ability_id) => seq![BattleCommand::ExecuteAbility { ability_id, caster_id: target, target_id: Some(attacker) }],
            _ => seq![],
        };
        head + on_hit_commands(effects.subrange(1, effects.len() as int), attacker, target)
    }
}

/// The final damage: the bonus-adjusted damage clamped into `u32`.
pub open spec fn final_damage_spec(attack: int, defense: int, on_attack: Seq<Effect>, on_hit: Seq<Effect>) -> int {
    let d = bonus_damage_after(bonus_damage_after(base_damage_spec(attack, defense), on_attack), on_hit);
    min_int(max_int(d, 0), u32::MAX as int)
}

fn apply_bonus(d: i128, flat: i32, percent: i32) -> (r: i128)
    requires
        bonus_step_fits(d as int, flat as int, percent as int),
    ensures
        r == bonus_step(d as int, flat as int, percent as int),
{
    let d1: i128 = d + flat as i128;
    let scaled = crate::arith::sat_mul_i128(d1, percent as i128);
    let (q, rem) = crate::motion::trunc_div_rem_i128(scaled, 100);
    proof {
        crate::motion::lemma_trunc_div_matches(scaled as int, 100, q as int, rem as int);
    }
    d1 + q
}

/// Folds the bonuses of `effects` into `damage` and collects the commands
/// that `effects` raise, as `on_attack` (attacker's side) or on-hit.
fn fold_effects(
    damage: i128,
    effects: &[Effect],
    on_attack: bool,
    attacker: UnitInstanceId,
    target: UnitInstanceId,
    commands: &mut Vec<BattleCommand>,
) -> (r: i128)
    requires
        bonus_fits(damage as int, effects@),
    ensures
        r == bonus_damage_after(damage as int, effects@),
        final(commands)@ == old(commands)@ + if on_attack {
            on_attack_commands(effects@, attacker, target)
        } else {
            on_hit_commands(effects@, attacker, target)
        },
{
    let mut d = damage;
    let mut i: usize = 0;
    let ghost start = commands@;
    assert(effects@.subrange(0, effects@.len() as int) =~= effects@);
    assert(effects@.subrange(0, 0) =~= Seq::<Effect>::empty());
    assert(start + on_attack_commands(Seq::<Effect>::empty(), attacker, target) =~= start);
    assert(start + on_hit_commands(Seq::<Effect>::empty(), attacker, target) =~= start);
    while i < effects.len()
        invariant
            0 <= i <= effects.len(),
            bonus_fits(d as int, effects@.subrange(i as int, effects@.len() as int)),
            bonus_damage_after(d as int, effects@.subrange(i as int, effects@.len() as int))
                == bonus_damage_after(damage as int, effects@),
            start + if on_attack {
                on_attack_commands(effects@.subrange(0, i as int), attacker, target)
            } else {
                on_hit_commands(effects@.subrange(0, i as int), attacker, target)
            } == commands@,
        decreases effects.len() - i,
    {
        let ghost rest = effects@.subrange(i as int, effects@.len() as int);
        assert(rest.subrange(1, rest.len() as int) =~= effects@.subrange(i + 1, effects@.len() as int));
        let effect = effects[i];
        assert(rest[0] == effect);
        let ghost before = commands@;
        match effect {
            Effect::BonusDamage { flat, percent } => {
                d = apply_bonus(d, flat, percent);
            },
            Effect::ApplyBuff { buff_id, duration_ms } => {
                if on_attack {
                    commands.push(BattleCommand::ApplyBuff { caster_id: attacker, target_id: target, buff_id, duration_ms });
                } else {
                    commands.push(BattleCommand::ApplyBuff { caster_id: target, target_id: attacker, buff_id, duration_ms });
                }
            },
            Effect::Ability(ability_id) => {
                if on_attack {
                    commands.push(BattleCommand::ExecuteAbility { ability_id, caster_id: attacker, target_id: Some(target) });
                } else {
                    commands.push(BattleCommand::ExecuteAbility { ability_id, caster_id: target, target_id: Some(attacker) });
                }
            },
            Effect::Heal { flat, percent } => {
                if !on_attack {
                    commands.push(BattleCommand::ApplyHeal { target_id: target, flat, percent, source_id: Some(target) });
                }
            },
            _ => {},
        }
        proof {
            lemma_commands_extend(effects@, i as int, attacker, target);
            let one = seq![effect];
            assert(one.subrange(1, 1) =~= Seq::<Effect>::empty());
            assert(one[0] == effect);
            assert(on_attack_commands(one.subrange(1, 1), attacker, target) =~= Seq::<BattleCommand>::empty());
            assert(on_hit_commands(one.subrange(1, 1), attacker, target) =~= Seq::<BattleCommand>::empty());
            let ha = on_attack_commands(one, attacker, target);
            let hh = on_hit_commands(one, attacker, target);
            assert(commands@ =~= before + if on_attack { ha } else { hh });
            let pre_a = on_attack_commands(effects@.subrange(0, i as int), attacker, target);
            let pre_h = on_hit_commands(effects@.subrange(0, i as int), attacker, target);
            assert(start + (pre_a + ha) =~= (start + pre_a) + ha);
            assert(start + (pre_h + hh) =~= (start + pre_h) + hh);
        }
        i = i + 1;
    }
    proof {
        assert(effects@.subrange(0, effects@.len() as int) =~= effects@);
        assert(effects@.subrange(effects@.len() as int, effects@.len() as int) =~= Seq::<Effect>::empty());
    }
    d
}

proof fn lemma_commands_extend(effects: Seq<Effect>, i: int, attacker: UnitInstanceId, target: UnitInstanceId)
    requires
        0 <= i < effects.len(),
    ensures
        on_attack_commands(effects.subrange(0, i + 1), attacker, target) == on_attack_commands(effects.subrange(0, i), attacker, target) + on_attack_commands(seq![effects[i]], attacker, target),
        on_hit_commands(effects.subrange(0, i + 1), attacker, target) == on_hit_commands(effects.subrange(0, i), attacker, target) + on_hit_commands(seq![effects[i]], attacker, target),
    decreases i,
{
    let s = effects.subrange(0, i + 1);
    if i == 0 {
        assert(s =~= seq![effects[0]]);
        assert(effects.subrange(0, 0) =~= Seq::<Effect>::empty());
    } else {
        let t = effects.subrange(1, effects.len() as int);
        lemma_commands_extend(t, i - 1, attacker, target);
        assert(s.subrange(1, s.len() as int) =~= t.subrange(0, i));
        let p = effects.subrange(0, i);
        assert(p.subrange(1, p.len() as int) =~= t.subrange(0, i - 1));
        assert(t[i - 1] == effects[i]);
        assert(s[0] == effects[0]);
        assert(p[0] == effects[0]);
    }
}

/// `res` is what a damage calculation of `request` in `ctx` gives (see
/// `calculate_damage`): the damage comes from the context's attack, defense
/// and effects, and the commands from the effects and a kill.
pub open spec fn damage_agrees(res: DamageResult, request: DamageRequest, ctx: DamageContext) -> bool {
    &&& res.attacker_id == request.attacker_id
    &&& res.target_id == request.target_id
    &&& res.final_damage == final_damage_spec(
        ctx.attacker_attack as int,
        ctx.target_defense as int,
        ctx.on_attack_effects@,
        ctx.on_hit_effects@,
    )
    &&& res.target_remaining_hp == max_int(ctx.target_current_hp - res.final_damage, 0)
    &&& res.target_killed == (res.target_remaining_hp == 0)
    &&& res.triggered_commands@ == on_attack_commands(ctx.on_attack_effects@, request.attacker_id, request.target_id)
        + on_hit_commands(ctx.on_hit_effects@, request.attacker_id, request.target_id) + if res.target_killed {
        seq![BattleCommand::UnitDied { unit_id: request.target_id, killer_id: Some(request.attacker_id) }]
    } else {
        seq![]
    }
}

/// With no on-attack effects and a single on-hit bonus of `flat` (no
/// percentage), the damage is attack minus defense (at least one) plus
/// `flat`, when that fits the damage range.
pub proof fn lemma_on_hit_flat_bonus_from_base(req: DamageRequest, ctx: DamageContext, res: DamageResult, flat: i32)
    requires
        damage_agrees(res, req, ctx),
        ctx.on_attack_effects@ == Seq::<Effect>::empty(),
        ctx.on_hit_effects@ == seq![Effect::BonusDamage { flat, percent: 0 }],
        0 <= max_int(ctx.attacker_attack - ctx.target_defense, 1) + flat <= u32::MAX,
    ensures
        res.final_damage == max_int(ctx.attacker_attack - ctx.target_defense, 1) + flat,
        res.target_remaining_hp == max_int(ctx.target_current_hp - res.final_damage, 0),
{
    lemma_single_flat_bonus(base_damage_spec(ctx.attacker_attack as int, ctx.target_defense as int), flat);
    assert(bonus_damage_after(base_damage_spec(ctx.attacker_attack as int, ctx.target_defense as int), ctx.on_attack_effects@)
        == base_damage_spec(ctx.attacker_attack as int, ctx.target_defense as int));
}

/// The target's on-hit bonuses come on top of the on-attack ones: adding an
/// on-hit bonus of `flat` (no percentage) to a hit with no on-hit effects
/// raises its damage by exactly `flat`, when neither damage is clamped.
pub proof fn lemma_on_hit_flat_bonus_adds(
    req: DamageRequest,
    ctx1: DamageContext,
    res1: DamageResult,
    ctx2: DamageContext,
    res2: DamageResult,
    flat: i32,
)
    requires
        damage_agrees(res1, req, ctx1),
        damage_agrees(res2, req, ctx2),
        ctx1.attacker_attack == ctx2.attacker_attack,
        ctx1.target_defense == ctx2.target_defense,
        ctx1.target_current_hp == ctx2.target_current_hp,
        ctx1.on_attack_effects@ == ctx2.on_attack_effects@,
        ctx1.on_hit_effects@ == Seq::<Effect>::empty(),
        ctx2.on_hit_effects@ == seq![Effect::BonusDamage { flat, percent: 0 }],
        0 < res1.final_damage < u32::MAX,
        0 <= res1.final_damage + flat <= u32::MAX,
    ensures
        res2.final_damage == res1.final_damage + flat,
        res2.target_remaining_hp == max_int(ctx1.target_current_hp - (res1.final_damage + flat), 0),
{
    let d = bonus_damage_after(base_damage_spec(ctx1.attacker_attack as int, ctx1.target_defense as int), ctx1.on_attack_effects@);
    assert(bonus_damage_after(d, ctx1.on_hit_effects@) == d);
    lemma_single_flat_bonus(d, flat);
}

/// With a single on-attack bonus of `flat` (no percentage) and no on-hit
/// effects, the damage is attack minus defense (at least one) plus `flat`,
/// when that fits the damage range.
pub proof fn lemma_on_attack_flat_bonus_from_base(req: DamageRequest, ctx: DamageContext, res: DamageResult, flat: i32)
    requires
        damage_agrees(res, req, ctx),
        ctx.on_attack_effects@ == seq![Effect::BonusDamage { flat, percent: 0 }],
        ctx.on_hit_effects@ == Seq::<Effect>::empty(),
        0 <= max_int(ctx.attacker_attack - ctx.target_defense, 1) + flat <= u32::MAX,
    ensures
        res.final_damage == max_int(ctx.attacker_attack - ctx.target_defense, 1) + flat,
{
    let b = base_damage_spec(ctx.attacker_attack as int, ctx.target_defense as int);
    lemma_single_flat_bonus(b, flat);
    assert(bonus_damage_after(b + flat, ctx.on_hit_effects@) == b + flat);
}

/// With no on-attack effects and a single on-hit bonus of `percent`
/// percent (no flat part, `percent` not negative), the damage is attack
/// minus defense (at least one) grown by that percentage, rounded down,
/// when that fits the damage range.
pub proof fn lemma_on_hit_percent_bonus_from_base(req: DamageRequest, ctx: DamageContext, res: DamageResult, percent: i32)
    requires
        damage_agrees(res, req, ctx),
        ctx.on_attack_effects@ == Seq::<Effect>::empty(),
        ctx.on_hit_effects@ == seq![Effect::BonusDamage { flat: 0, percent }],
        percent >= 0,
        ({
            let b = max_int(ctx.attacker_attack - ctx.target_defense, 1);
            b + (b * percent) / 100 <= u32::MAX
        }),
    ensures
        ({
            let b = max_int(ctx.attacker_attack - ctx.target_defense, 1);
            res.final_damage == b + (b * percent) / 100
        }),
{
    let b = base_damage_spec(ctx.attacker_attack as int, ctx.target_defense as int);
    let s = ctx.on_hit_effects@;
    assert(s.subrange(1, 1) =~= Seq::<Effect>::empty());
    assert(0 <= b * percent <= 0x1_0000_0000 * 0x8000_0000) by (nonlinear_arith)
        requires
            1 <= b <= 0x1_0000_0000,
            0 <= percent <= 0x8000_0000,
    ;
    assert(clamp128(b * percent) == b * percent);
    assert(trunc_div(b * percent, 100) == (b * percent) / 100);
    assert(bonus_damage_after(b, s) == bonus_damage_after(b + (b * percent) / 100, Seq::<Effect>::empty()));
    assert(bonus_damage_after(b, ctx.on_attack_effects@) == b);
}

/// One flat bonus with no percentage adds exactly its amount.
proof fn lemma_single_flat_bonus(d: int, flat: i32)
    ensures
        bonus_damage_after(d, seq![Effect::BonusDamage { flat, percent: 0 }]) == d + flat,
{
    let s = seq![Effect::BonusDamage { flat, percent: 0 }];
    assert(s.subrange(1, 1) =~= Seq::<Effect>::empty());
    assert(clamp128((d + flat) * 0) == 0);
    assert(trunc_div(0, 100) == 0);
    assert(bonus_damage_after(d + flat, Seq::<Effect>::empty()) == d + flat);
}

/// A damage calculation reads the attack from its context, never the
/// request's base damage: requests that differ only in source, base damage
/// and time, in contexts that differ only in the sides and the target's
/// maximum health, give the same damage, remaining health, kill and
/// commands.
pub proof fn lemma_damage_ignores_request_base(
    req1: DamageRequest,
    ctx1: DamageContext,
    res1: DamageResult,
    req2: DamageRequest,
    ctx2: DamageContext,
    res2: DamageResult,
)
    requires
        damage_agrees(res1, req1, ctx1),
        damage_agrees(res2, req2, ctx2),
        req1.attacker_id == req2.attacker_id,
        req1.target_id == req2.target_id,
        ctx1.attacker_attack == ctx2.attacker_attack,
        ctx1.target_defense == ctx2.target_defense,
        ctx1.target_current_hp == ctx2.target_current_hp,
        ctx1.on_attack_effects@ == ctx2.on_attack_effects@,
        ctx1.on_hit_effects@ == ctx2.on_hit_effects@,
    ensures
        res1.final_damage == res2.final_damage,
        res1.target_remaining_hp == res2.target_remaining_hp,
        res1.target_killed == res2.target_killed,
        res1.triggered_commands@ == res2.triggered_commands@,
{
}

/// Computes the damage of a hit and the commands it triggers: the base
/// damage (attack minus defense, at least one) grows by the bonuses of the
/// attacker's on-attack effects and then the target's on-hit effects; the
/// result is clamped into `u32`. The target's remaining health is its
/// current health minus that damage (at least zero) and it is killed when
/// none remains. Commands come in order: on-attack, on-hit, then the death.
pub fn calculate_damage(request: &DamageRequest, ctx: &DamageContext) -> (res: DamageResult)
    requires
        bonus_fits(
            base_damage_spec(ctx.attacker_attack as int, ctx.target_defense as int),
            ctx.on_attack_effects@ + ctx.on_hit_effects@,
        ),
    ensures
        damage_agrees(res, *request, *ctx),
{
    let mut commands: Vec<BattleCommand> = Vec::new();
    let diff = ctx.attacker_attack.saturating_sub(ctx.target_defense);
    let base_damage: u32 = if diff >= 1 { diff } else { 1 };
    proof {
        lemma_bonus_split(
            base_damage as int,
            ctx.on_attack_effects@,
            ctx.on_hit_effects@,
        );
    }
    let damage: i128 = base_damage as i128;
    let damage = fold_effects(damage, ctx.on_attack_effects, true, request.attacker_id, request.target_id, &mut commands);
    let damage = fold_effects(damage, ctx.on_hit_effects, false, request.attacker_id, request.target_id, &mut commands);
    let final_damage: u32 = if damage < 0 {
        0
    } else if damage > 0xFFFF_FFFF {
        0xFFFF_FFFF
    } else {
        damage as u32
    };
    let target_remaining_hp = ctx.target_current_hp.saturating_sub(final_damage);
    let target_killed = target_remaining_hp == 0;
    if target_killed {
        commands.push(BattleCommand::UnitDied { unit_id: request.target_id, killer_id: Some(request.attacker_id) });
    }
    let res = DamageResult {
        attacker_id: request.attacker_id,
        target_id: request.target_id,
        final_damage,
        target_killed,
        target_remaining_hp,
        triggered_commands: commands,
    };
    proof {
        assert(res.triggered_commands@ =~= on_attack_commands(ctx.on_attack_effects@, request.attacker_id, request.target_id)
            + on_hit_commands(ctx.on_hit_effects@, request.attacker_id, request.target_id) + if res.target_killed {
            seq![BattleCommand::UnitDied { unit_id: request.target_id, killer_id: Some(request.attacker_id) }]
        } else {
            seq![]
        });
    }
    res
}

proof fn lemma_bonus_split(d: int, a: Seq<Effect>, b: Seq<Effect>)
    requires
        i128::MIN <= d <= i128::MAX,
        bonus_fits(d, a + b),
    ensures
        bonus_fits(d, a),
        bonus_fits(bonus_damage_after(d, a), b),
        bonus_damage_after(d, a + b) == bonus_damage_after(bonus_damage_after(d, a), b),
    decreases a.len(),
{
    if a.len() == 0 {
        assert(a + b =~= b);
    } else {
        let next = match a[0] {
            Effect::BonusDamage { flat, percent } => bonus_step(d, flat as int, percent as int),
            _ => d,
        };
        assert((a + b).subrange(1, (a + b).len() as int) =~= a.subrange(1, a.len() as int) + b);
        assert((a + b)[0] == a[0]);
        lemma_bonus_split(next, a.subrange(1, a.len() as int), b);
        if a.len() == 1 {
            assert(a.subrange(1, 1) =~= Seq::<Effect>::empty());
        }
    }
}

/// Takes `damage` off the unit's current health (never below zero);
/// returns the remaining health and whether the unit died.
pub fn apply_damage_to_unit(stats: &mut UnitStats, damage: u32) -> (r: (u32, bool))
    ensures
        final(stats).current_health == max_int(old(stats).current_health - damage, 0),
        *final(stats) == (UnitStats { current_health: final(stats).current_health, ..*old(stats) }),
        r.0 == final(stats).current_health,
        r.1 == (final(stats).current_health == 0),
{
    stats.current_health = stats.current_health.saturating_sub(damage);
    let killed = stats.current_health == 0;
    (stats.current_health, killed)
}

/// No effect in the list is a damage bonus.
pub open spec fn no_bonus(effects: Seq<Effect>) -> bool {
    forall|i: int| 0 <= i < effects.len() ==> !(#[trigger] effects[i] is BonusDamage)
}

proof fn lemma_no_bonus_keeps_damage(d: int, effects: Seq<Effect>)
    requires
        no_bonus(effects),
    ensures
        bonus_damage_after(d, effects) == d,
    decreases effects.len(),
{
    if effects.len() > 0 {
        let rest = effects.subrange(1, effects.len() as int);
        assert forall|i: int| 0 <= i < rest.len() implies !(#[trigger] rest[i] is BonusDamage) by {
            assert(rest[i] == effects[i + 1]);
        }
        assert(!(effects[0] is BonusDamage));
        lemma_no_bonus_keeps_damage(d, rest);
    }
}

/// Every hit deals at least one damage when no bonus changes it: attack
/// minus defense, or one when defense is as high as attack.
pub proof fn lemma_plain_hit_deals_base_damage(attack: u32, defense: u32, on_attack: Seq<Effect>, on_hit: Seq<Effect>)
    requires
        no_bonus(on_attack),
        no_bonus(on_hit),
    ensures
        final_damage_spec(attack as int, defense as int, on_attack, on_hit) == base_damage_spec(attack as int, defense as int),
        final_damage_spec(attack as int, defense as int, on_attack, on_hit) >= 1,
{
    let b = base_damage_spec(attack as int, defense as int);
    lemma_no_bonus_keeps_damage(b, on_attack);
    lemma_no_bonus_keeps_damage(b, on_hit);
}

} // verus!
