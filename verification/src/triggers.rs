//! Triggered effects: which units an artifact or item effect lands on, and
//! the commands the effects raise.
use vstd::prelude::*;
use crate::areas::{ids_increasing, insert_id};
use crate::damage::{BattleCommand, Effect};
use crate::targets::{distinct_unit_ids, TargetCandidate};

verus! {

/// Whom a triggered effect lands on.
#[derive(Debug, Clone, Copy, PartialEq, Eq, Structural)]
pub enum TriggerEffectTarget {
    SelfUnit,
    CounterpartUnit,
    AllAllies,
    AllEnemies,
}

/// The unit whose trigger fired and the other unit of the event, if any.
#[derive(Debug, Clone, Copy, PartialEq, Eq, Structural)]
pub struct TriggerEffectContext {
    pub trigger_unit_id: u128,
    pub counterpart_unit_id: Option<u128>,
}

/// A triggered effect with whom it lands on.
#[derive(Debug, Clone, Copy, PartialEq, Eq, Structural)]
pub struct SourcedEffect {
    pub effect: Effect,
    pub target: TriggerEffectTarget,
}

/// The unit of the trigger is known, and `u` is a living unit that the
/// effect lands on.
pub open spec fn lands_on(
    units: Seq<TargetCandidate>,
    context: TriggerEffectContext,
    target: TriggerEffectTarget,
    u: TargetCandidate,
) -> bool {
    exists|t: int|
        0 <= t < units.len() && (#[trigger] units[t]).id == context.trigger_unit_id && {
            let owner = units[t].owner;
            &&& u.current_health != 0
            &&& match target {
                TriggerEffectTarget::SelfUnit => u.id == context.trigger_unit_id,
                TriggerEffectTarget::CounterpartUnit => context.counterpart_unit_id == Some(u.id),
                TriggerEffectTarget::AllAllies => u.owner == owner,
                TriggerEffectTarget::AllEnemies => u.owner != owner,
            }
        }
}

/// The identifiers, in increasing order, of the living units an effect
/// aimed at `target` lands on.
pub open spec fn resolved_targets(
    units: Seq<TargetCandidate>,
    context: TriggerEffectContext,
    target: TriggerEffectTarget,
    ids: Seq<u128>,
) -> bool {
    &&& ids_increasing(ids)
    &&& forall|x: u128|
        ids.contains(x) <==> exists|i: int| 0 <= i < units.len() && (#[trigger] units[i]).id == x && lands_on(units, context, target, units[i])
}

pub fn resolve_trigger_effect_targets(
    units: &Vec<TargetCandidate>,
    context: TriggerEffectContext,
    target: TriggerEffectTarget,
) -> (ids: Vec<u128>)
    requires
        distinct_unit_ids(units@),
    ensures
        resolved_targets(units@, context, target, ids@),
{
    let mut ids: Vec<u128> = Vec::new();
    let owner = match crate::targets::find_unit(units, context.trigger_unit_id) {
        Some(t) => units[t].owner,
        None => {
            proof {
                assert forall|x: u128|
                    ids@.contains(x) <==> exists|i: int|
                        0 <= i < units@.len() && (#[trigger] units@[i]).id == x && lands_on(units@, context, target, units@[i]) by {
                }
            }
            return ids;
        },
    };
    let ghost tix = choose|t: int| 0 <= t < units@.len() && (#[trigger] units@[t]).id == context.trigger_unit_id;
    proof {
        assert forall|t: int| 0 <= t < units@.len() && (#[trigger] units@[t]).id == context.trigger_unit_id implies units@[t].owner == owner by {
            if t != tix {
                if t < tix {
                    assert(units@[t].id != units@[tix].id);
                } else {
                    assert(units@[tix].id != units@[t].id);
                }
            }
        }
    }
    let mut i: usize = 0;
    while i < units.len()
        invariant
            0 <= i <= units@.len(),
            distinct_unit_ids(units@),
            0 <= tix < units@.len(),
            units@[tix].id == context.trigger_unit_id,
            units@[tix].owner == owner,
            ids_increasing(ids@),
            forall|x: u128|
                ids@.contains(x) <==> exists|k: int|
                    0 <= k < i && (#[trigger] units@[k]).id == x && lands_on(units@, context, target, units@[k]),
        decreases units@.len() - i,
    {
        let u = units[i];
        let hit = u.current_health != 0 && match target {
            TriggerEffectTarget::SelfUnit => u.id == context.trigger_unit_id,
            TriggerEffectTarget::CounterpartUnit => context.counterpart_unit_id == Some(u.id),
            TriggerEffectTarget::AllAllies => u.owner == owner,
            TriggerEffectTarget::AllEnemies => u.owner != owner,
        };
        proof {
            assert(hit == lands_on(units@, context, target, u)) by {
                if lands_on(units@, context, target, u) {
                    let t = choose|t: int| 0 <= t < units@.len() && (#[trigger] units@[t]).id == context.trigger_unit_id && {
                        let owner = units@[t].owner;
                        &&& u.current_health != 0
                        &&& match target {
                            TriggerEffectTarget::SelfUnit => u.id == context.trigger_unit_id,
                            TriggerEffectTarget::CounterpartUnit => context.counterpart_unit_id == Some(u.id),
                            TriggerEffectTarget::AllAllies => u.owner == owner,
                            TriggerEffectTarget::AllEnemies => u.owner != owner,
                        }
                    };
                    if t != tix {
                        if t < tix {
                            assert(units@[t].id != units@[tix].id);
                        } else {
                            assert(units@[tix].id != units@[t].id);
                        }
                    }
                }
            }
        }
        let ghost before = ids@;
        if hit {
            proof {
                if before.contains(u.id) {
                    let k = choose|k: int|
                        0 <= k < i && (#[trigger] units@[k]).id == u.id && lands_on(units@, context, target, units@[k]);
                    assert(units@[k].id != units@[i as int].id);
                }
            }
            insert_id(&mut ids, u.id);
        }
        proof {
            assert forall|x: u128|
                ids@.contains(x) <==> exists|k: int|
                    0 <= k < i + 1 && (#[trigger] units@[k]).id == x && lands_on(units@, context, target, units@[k]) by {
                if ids@.contains(x) && !before.contains(x) {
                    assert(units@[i as int].id == x);
                }
                if exists|k: int| 0 <= k < i + 1 && (#[trigger] units@[k]).id == x && lands_on(units@, context, target, units@[k]) {
                    let k = choose|k: int|
                        0 <= k < i + 1 && (#[trigger] units@[k]).id == x && lands_on(units@, context, target, units@[k]);
                    if k < i {
                        assert(before.contains(x));
                    }
                }
            }
        }
        i = i + 1;
    }
    ids
}

/// The commands one effect raises on the units `ids`: stat modifiers,
/// heals credited to the trigger unit, and buffs cast by it; damage bonuses
/// and abilities raise none here.
pub open spec fn effect_commands(effect: Effect, trigger_unit: u128, ids: Seq<u128>) -> Seq<BattleCommand> {
    match effect {
        Effect::Modifier(modifier) => ids.map_values(|t: u128| BattleCommand::ApplyModifier { target_id: t, modifier }),
        Effect::Heal { flat, percent } => ids.map_values(
            |t: u128| BattleCommand::ApplyHeal { target_id: t, flat, percent, source_id: Some(trigger_unit) },
        ),
        Effect::ApplyBuff { buff_id, duration_ms } => ids.map_values(
            |t: u128| BattleCommand::ApplyBuff { caster_id: trigger_unit, target_id: t, buff_id, duration_ms },
        ),
        _ => seq![],
    }
}

fn effect_commands_of(effect: Effect, trigger_unit: u128, ids: &Vec<u128>) -> (r: Vec<BattleCommand>)
    ensures
        r@ == effect_commands(effect, trigger_unit, ids@),
{
    let mut r: Vec<BattleCommand> = Vec::new();
    match effect {
        Effect::Modifier(_) | Effect::Heal { .. } | Effect::ApplyBuff { .. } => {},
        _ => {
            return r;
        },
    }
    let mut i: usize = 0;
    while i < ids.len()
        invariant
            0 <= i <= ids@.len(),
            effect is Modifier || effect is Heal || effect is ApplyBuff,
            r@ == effect_commands(effect, trigger_unit, ids@.subrange(0, i as int)),
        decreases ids@.len() - i,
    {
        let t = ids[i];
        let c = match effect {
            Effect::Modifier(modifier) => BattleCommand::ApplyModifier { target_id: t, modifier },
            Effect::Heal { flat, percent } => BattleCommand::ApplyHeal { target_id: t, flat, percent, source_id: Some(trigger_unit) },
            Effect::ApplyBuff { buff_id, duration_ms } => BattleCommand::ApplyBuff {
                caster_id: trigger_unit,
                target_id: t,
                buff_id,
                duration_ms,
            },
            _ => BattleCommand::ApplyModifier { target_id: t, modifier: crate::damage::StatModifier { stat: 0, amount: 0 } },
        };
        r.push(c);
        proof {
            assert(ids@.subrange(0, i as int + 1) =~= ids@.subrange(0, i as int).push(t));
            assert(r@ =~= effect_commands(effect, trigger_unit, ids@.subrange(0, i as int + 1)));
        }
        i = i + 1;
    }
    assert(ids@.subrange(0, ids@.len() as int) =~= ids@);
    r
}

/// `cmds` are the commands the effects raise, effect by effect, each on the
/// units it lands on in increasing identifier order.
pub open spec fn trigger_commands_spec(
    units: Seq<TargetCandidate>,
    effects: Seq<SourcedEffect>,
    context: TriggerEffectContext,
    cmds: Seq<BattleCommand>,
) -> bool
    decreases effects.len(),
{
    if effects.len() == 0 {
        cmds.len() == 0
    } else {
        let last = effects[effects.len() - 1];
        exists|ids: Seq<u128>, n: int|
            #![trigger resolved_targets(units, context, last.target, ids), cmds.subrange(0, n)]
            0 <= n <= cmds.len() && resolved_targets(units, context, last.target, ids) && cmds.subrange(n, cmds.len() as int)
                == effect_commands(last.effect, context.trigger_unit_id, ids) && trigger_commands_spec(
                units,
                effects.drop_last(),
                context,
                cmds.subrange(0, n),
            )
    }
}

/// The commands raised by the triggered `effects` of the unit in `context`,
/// effect by effect in order.
pub fn trigger_commands_from_effects(
    units: &Vec<TargetCandidate>,
    effects: &Vec<SourcedEffect>,
    context: TriggerEffectContext,
) -> (cmds: Vec<BattleCommand>)
    requires
        distinct_unit_ids(units@),
    ensures
        trigger_commands_spec(units@, effects@, context, cmds@),
{
    let mut cmds: Vec<BattleCommand> = Vec::new();
    let mut i: usize = 0;
    while i < effects.len()
        invariant
            0 <= i <= effects@.len(),
            distinct_unit_ids(units@),
            trigger_commands_spec(units@, effects@.subrange(0, i as int), context, cmds@),
        decreases effects@.len() - i,
    {
        let sourced = effects[i];
        let ids = resolve_trigger_effect_targets(units, context, sourced.target);
        let block = effect_commands_of(sourced.effect, context.trigger_unit_id, &ids);
        let ghost prev = cmds@;
        let mut j: usize = 0;
        while j < block.len()
            invariant
                0 <= j <= block@.len(),
                cmds@ == prev + block@.subrange(0, j as int),
            decreases block@.len() - j,
        {
            cmds.push(block[j]);
            proof {
                assert(block@.subrange(0, j as int + 1) =~= block@.subrange(0, j as int).push(block@[j as int]));
                assert(cmds@ =~= prev + block@.subrange(0, j as int + 1));
            }
            j = j + 1;
        }
        proof {
            assert(block@.subrange(0, block@.len() as int) =~= block@);
            let s = effects@.subrange(0, i as int + 1);
            assert(s.drop_last() =~= effects@.subrange(0, i as int));
            assert(s[s.len() - 1] == sourced);
            let n = prev.len() as int;
            assert(cmds@.subrange(0, n) =~= prev);
            assert(cmds@.subrange(n, cmds@.len() as int) =~= block@);
            assert(trigger_commands_spec(units@, s, context, cmds@));
        }
        i = i + 1;
    }
    assert(effects@.subrange(0, effects@.len() as int) =~= effects@);
    cmds
}

/// The list of units an effect lands on is determined by its members: two
/// increasing lists of the same identifiers are equal.
pub proof fn lemma_increasing_ids_unique(a: Seq<u128>, b: Seq<u128>)
    requires
        ids_increasing(a),
        ids_increasing(b),
        forall|x: u128| a.contains(x) <==> b.contains(x),
    ensures
        a == b,
    decreases a.len(),
{
    if a.len() == 0 {
        if b.len() > 0 {
            assert(b.contains(b[0]));
        }
        assert(a =~= b);
    } else {
        assert(a.contains(a[0]));
        assert(b.len() > 0);
        assert(b.contains(b[0]));
        let j = choose|j: int| 0 <= j < b.len() && b[j] == a[0];
        let k = choose|k: int| 0 <= k < a.len() && a[k] == b[0];
        if j > 0 {
            assert(b[0] < b[j]);
        }
        if k > 0 {
            assert(a[0] < a[k]);
        }
        assert(a[0] == b[0]);
        let ta = a.drop_first();
        let tb = b.drop_first();
        assert forall|i: int, m: int| 0 <= i < m < ta.len() implies (#[trigger] ta[i]) < (#[trigger] ta[m]) by {
            assert(ta[i] == a[i + 1] && ta[m] == a[m + 1]);
        }
        assert forall|i: int, m: int| 0 <= i < m < tb.len() implies (#[trigger] tb[i]) < (#[trigger] tb[m]) by {
            assert(tb[i] == b[i + 1] && tb[m] == b[m + 1]);
        }
        assert forall|x: u128| ta.contains(x) <==> tb.contains(x) by {
            if ta.contains(x) {
                let i = choose|i: int| 0 <= i < ta.len() && ta[i] == x;
                assert(a[i + 1] == x);
                assert(a[0] < a[i + 1]);
                assert(a.contains(x));
                let m = choose|m: int| 0 <= m < b.len() && b[m] == x;
                assert(m != 0);
                assert(tb[m - 1] == x);
            }
            if tb.contains(x) {
                let i = choose|i: int| 0 <= i < tb.len() && tb[i] == x;
                assert(b[i + 1] == x);
                assert(b[0] < b[i + 1]);
                assert(b.contains(x));
                let m = choose|m: int| 0 <= m < a.len() && a[m] == x;
                assert(m != 0);
                assert(ta[m - 1] == x);
            }
        }
        lemma_increasing_ids_unique(ta, tb);
        assert(a =~= b) by {
            assert forall|i: int| 0 <= i < a.len() implies a[i] == b[i] by {
                if i > 0 {
                    assert(a[i] == ta[i - 1] && b[i] == tb[i - 1]);
                }
            }
        }
    }
}

/// A unit whose ally-death triggers fire for the death of `dead_id` of
/// `dead_side`: another living unit of that side that is not itself about
/// to die.
pub open spec fn mourner(dead_id: u128, dead_side: crate::position::Side, pending: Seq<u128>, u: TargetCandidate) -> bool {
    &&& u.id != dead_id
    &&& u.owner == dead_side
    &&& u.current_health != 0
    &&& !pending.contains(u.id)
}

/// The units whose ally-death triggers fire for the death of `dead_id`, in
/// increasing identifier order; units dying at the same time (`pending`)
/// are left out.
pub fn allies_for_death_triggers(
    units: &Vec<TargetCandidate>,
    dead_id: u128,
    dead_side: crate::position::Side,
    pending: &Vec<u128>,
) -> (ids: Vec<u128>)
    requires
        distinct_unit_ids(units@),
    ensures
        ids_increasing(ids@),
        forall|x: u128|
            ids@.contains(x) <==> exists|i: int| 0 <= i < units@.len() && (#[trigger] units@[i]).id == x && mourner(dead_id, dead_side, pending@, units@[i]),
{
    let mut ids: Vec<u128> = Vec::new();
    let mut i: usize = 0;
    while i < units.len()
        invariant
            0 <= i <= units@.len(),
            distinct_unit_ids(units@),
            ids_increasing(ids@),
            forall|x: u128|
                ids@.contains(x) <==> exists|k: int| 0 <= k < i && (#[trigger] units@[k]).id == x && mourner(dead_id, dead_side, pending@, units@[k]),
        decreases units@.len() - i,
    {
        let u = units[i];
        let mut is_pending = false;
        let mut j: usize = 0;
        while j < pending.len()
            invariant
                0 <= j <= pending@.len(),
                is_pending == exists|m: int| 0 <= m < j && pending@[m] == u.id,
            decreases pending@.len() - j,
        {
            if pending[j] == u.id {
                is_pending = true;
            }
            j = j + 1;
        }
        let ghost before = ids@;
        if u.id != dead_id && u.owner == dead_side && u.current_health != 0 && !is_pending {
            proof {
                if before.contains(u.id) {
                    let k = choose|k: int| 0 <= k < i && (#[trigger] units@[k]).id == u.id && mourner(dead_id, dead_side, pending@, units@[k]);
                    assert(units@[k].id != units@[i as int].id);
                }
            }
            insert_id(&mut ids, u.id);
        }
        proof {
            assert forall|x: u128|
                ids@.contains(x) <==> exists|k: int| 0 <= k < i + 1 && (#[trigger] units@[k]).id == x && mourner(dead_id, dead_side, pending@, units@[k]) by {
                if ids@.contains(x) && !before.contains(x) {
                    assert(units@[i as int].id == x);
                }
                if exists|k: int| 0 <= k < i + 1 && (#[trigger] units@[k]).id == x && mourner(dead_id, dead_side, pending@, units@[k]) {
                    let k = choose|k: int| 0 <= k < i + 1 && (#[trigger] units@[k]).id == x && mourner(dead_id, dead_side, pending@, units@[k]);
                    if k < i {
                        assert(before.contains(x));
                    }
                }
            }
        }
        i = i + 1;
    }
    ids
}

/// Drops `removed` as the target of every unit that targeted it; nothing
/// else changes.
pub fn clear_targets_of(units: &mut Vec<crate::types::RuntimeUnit>, removed: u128)
    ensures
        final(units)@.len() == old(units)@.len(),
        forall|i: int|
            0 <= i < old(units)@.len() ==> #[trigger] final(units)@[i] == (if old(units)@[i].current_target == Some(removed) {
                crate::types::RuntimeUnit { current_target: None, ..old(units)@[i] }
            } else {
                old(units)@[i]
            }),
{
    let mut i: usize = 0;
    while i < units.len()
        invariant
            0 <= i <= units@.len(),
            units@.len() == old(units)@.len(),
            forall|k: int|
                0 <= k < i ==> #[trigger] units@[k] == (if old(units)@[k].current_target == Some(removed) {
                    crate::types::RuntimeUnit { current_target: None, ..old(units)@[k] }
                } else {
                    old(units)@[k]
                }),
            forall|k: int| i <= k < units@.len() ==> #[trigger] units@[k] == old(units)@[k],
        decreases units@.len() - i,
    {
        if units[i].current_target == Some(removed) {
            let ghost before = units@;
            let mut u = units.remove(i);
            u.current_target = None;
            units.insert(i, u);
            proof {
                assert(units@ =~= before.update(i as int, u));
            }
        }
        i = i + 1;
    }
}

/// The triggered effects listed for `id` (the first entry for it), or none.
pub open spec fn effects_for(listed: Seq<(u128, Vec<SourcedEffect>)>, id: u128) -> Seq<SourcedEffect> {
    if exists|k: int| 0 <= k < listed.len() && listed[k].0 == id {
        listed[choose|k: int| 0 <= k < listed.len() && listed[k].0 == id && forall|j: int| 0 <= j < k ==> (#[trigger] listed[j]).0 != id].1@
    } else {
        seq![]
    }
}

fn effects_for_of(listed: &Vec<(u128, Vec<SourcedEffect>)>, id: u128) -> (r: Vec<SourcedEffect>)
    ensures
        r@ == effects_for(listed@, id),
{
    let mut k: usize = 0;
    while k < listed.len()
        invariant
            0 <= k <= listed@.len(),
            forall|j: int| 0 <= j < k ==> (#[trigger] listed@[j]).0 != id,
        decreases listed@.len() - k,
    {
        if listed[k].0 == id {
            proof {
                let c = choose|c: int| 0 <= c < listed@.len() && listed@[c].0 == id && forall|j: int| 0 <= j < c ==> (#[trigger] listed@[j]).0 != id;
                if c < k {
                    assert(listed@[c].0 != id);
                } else if c > k {
                    assert(listed@[k as int].0 != id);
                }
            }
            let mut r: Vec<SourcedEffect> = Vec::new();
            let effects = &listed[k].1;
            let mut m: usize = 0;
            while m < effects.len()
                invariant
                    0 <= m <= effects@.len(),
                    r@ == effects@.subrange(0, m as int),
                decreases effects@.len() - m,
            {
                r.push(effects[m]);
                proof {
                    assert(effects@.subrange(0, m as int + 1) =~= effects@.subrange(0, m as int).push(effects@[m as int]));
                }
                m = m + 1;
            }
            assert(effects@.subrange(0, effects@.len() as int) =~= effects@);
            return r;
        }
        k = k + 1;
    }
    Vec::new()
}

/// `cmds` are the ally-death commands of the mourners `allies`, one after
/// the other, each from that ally's listed effects.
pub open spec fn mourning_commands_spec(
    units: Seq<TargetCandidate>,
    allies: Seq<u128>,
    listed: Seq<(u128, Vec<SourcedEffect>)>,
    dead_id: u128,
    cmds: Seq<BattleCommand>,
) -> bool
    decreases allies.len(),
{
    if allies.len() == 0 {
        cmds.len() == 0
    } else {
        let ally = allies[allies.len() - 1];
        exists|n: int|
            #![trigger cmds.subrange(0, n)]
            0 <= n <= cmds.len() && mourning_commands_spec(units, allies.drop_last(), listed, dead_id, cmds.subrange(0, n))
                && trigger_commands_spec(
                units,
                effects_for(listed, ally),
                TriggerEffectContext { trigger_unit_id: ally, counterpart_unit_id: Some(dead_id) },
                cmds.subrange(n, cmds.len() as int),
            )
    }
}

fn append(cmds: &mut Vec<BattleCommand>, more: &Vec<BattleCommand>)
    ensures
        final(cmds)@ == old(cmds)@ + more@,
{
    let mut j: usize = 0;
    while j < more.len()
        invariant
            0 <= j <= more@.len(),
            cmds@ == old(cmds)@ + more@.subrange(0, j as int),
        decreases more@.len() - j,
    {
        cmds.push(more[j]);
        proof {
            assert(more@.subrange(0, j as int + 1) =~= more@.subrange(0, j as int).push(more@[j as int]));
            assert(cmds@ =~= old(cmds)@ + more@.subrange(0, j as int + 1));
        }
        j = j + 1;
    }
    assert(more@.subrange(0, more@.len() as int) =~= more@);
}

/// The commands raised by the death of `dead_id` (of `dead_owner`), killed
/// by `killer_id` if known: the dead unit's on-death effects, then the
/// killer's on-kill effects, then the ally-death effects of every other
/// living unit of the dead unit's side in increasing identifier order.
/// `on_death` and `on_kill` are the effects of the dead unit and of the
/// killer; `ally_effects` lists the ally-death effects by unit.
pub fn death_trigger_commands(
    units: &Vec<TargetCandidate>,
    killer_id: Option<u128>,
    dead_id: u128,
    dead_owner: crate::position::Side,
    on_death: &Vec<SourcedEffect>,
    on_kill: &Vec<SourcedEffect>,
    ally_effects: &Vec<(u128, Vec<SourcedEffect>)>,
) -> (cmds: Vec<BattleCommand>)
    requires
        distinct_unit_ids(units@),
    ensures
        exists|a: int, b: int, allies: Seq<u128>|
            #![trigger cmds@.subrange(0, a), cmds@.subrange(a, b), allies_spec(units@, dead_id, dead_owner, allies)]
            0 <= a <= b <= cmds@.len() && trigger_commands_spec(
                units@,
                on_death@,
                TriggerEffectContext { trigger_unit_id: dead_id, counterpart_unit_id: killer_id },
                cmds@.subrange(0, a),
            ) && (match killer_id {
                Some(k) => trigger_commands_spec(
                    units@,
                    on_kill@,
                    TriggerEffectContext { trigger_unit_id: k, counterpart_unit_id: Some(dead_id) },
                    cmds@.subrange(a, b),
                ),
                None => a == b,
            }) && allies_spec(units@, dead_id, dead_owner, allies) && mourning_commands_spec(
                units@,
                allies,
                ally_effects@,
                dead_id,
                cmds@.subrange(b, cmds@.len() as int),
            ),
{
    let mut cmds = trigger_commands_from_effects(
        units,
        on_death,
        TriggerEffectContext { trigger_unit_id: dead_id, counterpart_unit_id: killer_id },
    );
    let ghost a = cmds@.len() as int;
    let ghost part_a = cmds@;
    match killer_id {
        Some(k) => {
            let kill_cmds = trigger_commands_from_effects(
                units,
                on_kill,
                TriggerEffectContext { trigger_unit_id: k, counterpart_unit_id: Some(dead_id) },
            );
            append(&mut cmds, &kill_cmds);
            proof {
                assert(cmds@.subrange(a, cmds@.len() as int) =~= kill_cmds@);
                assert(cmds@.subrange(0, a) =~= part_a);
            }
        },
        None => {},
    }
    let ghost b = cmds@.len() as int;
    let ghost part_ab = cmds@;
    proof {
        assert(a <= b);
        assert(part_ab.subrange(0, a) =~= part_a);
        match killer_id {
            Some(k) => {
                assert(trigger_commands_spec(
                    units@,
                    on_kill@,
                    TriggerEffectContext { trigger_unit_id: k, counterpart_unit_id: Some(dead_id) },
                    part_ab.subrange(a, b),
                ));
            },
            None => {
                assert(a == b);
            },
        }
    }
    let allies = allies_for_death_triggers(units, dead_id, dead_owner, &Vec::new());
    let mut i: usize = 0;
    while i < allies.len()
        invariant
            0 <= i <= allies@.len(),
            distinct_unit_ids(units@),
            b == part_ab.len(),
            b <= cmds@.len(),
            cmds@.subrange(0, b) == part_ab,
            mourning_commands_spec(units@, allies@.subrange(0, i as int), ally_effects@, dead_id, cmds@.subrange(b, cmds@.len() as int)),
        decreases allies@.len() - i,
    {
        let ally = allies[i];
        let effects = effects_for_of(ally_effects, ally);
        let more = trigger_commands_from_effects(
            units,
            &effects,
            TriggerEffectContext { trigger_unit_id: ally, counterpart_unit_id: Some(dead_id) },
        );
        let ghost prev = cmds@;
        append(&mut cmds, &more);
        proof {
            let s = allies@.subrange(0, i as int + 1);
            assert(s.drop_last() =~= allies@.subrange(0, i as int));
            assert(s[s.len() - 1] == ally);
            let tail = cmds@.subrange(b, cmds@.len() as int);
            let n = prev.len() - b;
            assert(tail.subrange(0, n) =~= prev.subrange(b, prev.len() as int));
            assert(tail.subrange(n, tail.len() as int) =~= more@);
            assert(cmds@.subrange(0, b) =~= prev.subrange(0, b));
            assert(mourning_commands_spec(units@, s, ally_effects@, dead_id, tail));
        }
        i = i + 1;
    }
    proof {
        assert(allies@.subrange(0, allies@.len() as int) =~= allies@);
        assert(cmds@.subrange(0, b).subrange(0, a) =~= cmds@.subrange(0, a));
        assert(cmds@.subrange(0, a) =~= part_a);
        assert(cmds@.subrange(0, b).subrange(a, b) =~= cmds@.subrange(a, b));
        assert(cmds@.subrange(a, b) =~= part_ab.subrange(a, b));
        assert(allies_spec(units@, dead_id, dead_owner, allies@)) by {
            assert forall|x: u128|
                allies@.contains(x) <==> exists|i: int| 0 <= i < units@.len() && (#[trigger] units@[i]).id == x && mourner(dead_id, dead_owner, seq![], units@[i]) by {
            }
        }
    }
    cmds
}

/// `allies` are, in increasing order, the other living units of the dead
/// unit's side.
pub open spec fn allies_spec(units: Seq<TargetCandidate>, dead_id: u128, dead_side: crate::position::Side, allies: Seq<u128>) -> bool {
    &&& ids_increasing(allies)
    &&& forall|x: u128|
        allies.contains(x) <==> exists|i: int| 0 <= i < units.len() && (#[trigger] units[i]).id == x && mourner(dead_id, dead_side, seq![], units[i])
}

} // verus!
