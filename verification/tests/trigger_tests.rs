use battle_core::damage::{BattleCommand, Effect, StatModifier};
use battle_core::position::Side;
use battle_core::targets::TargetCandidate;
use battle_core::movement::ActionState;
use battle_core::types::{ActionLocks, RuntimeUnit, UnitStats};
use battle_core::triggers::{
    allies_for_death_triggers, clear_targets_of, death_trigger_commands, resolve_trigger_effect_targets, trigger_commands_from_effects, SourcedEffect, TriggerEffectContext, TriggerEffectTarget,
};

fn unit(id: u128, owner: Side, current_health: u32) -> TargetCandidate {
    TargetCandidate { id, owner, current_health, tile: None, pos_x_units: 0, pos_y_units: 0, range_tiles: 1 }
}

fn units() -> Vec<TargetCandidate> {
    vec![
        unit(8, Side::Player, 5),
        unit(3, Side::Player, 5),
        unit(5, Side::Player, 0),
        unit(9, Side::Opponent, 5),
        unit(2, Side::Opponent, 5),
    ]
}

#[test]
fn trigger_targets_are_living_and_sorted() {
    let units = units();
    let ctx = TriggerEffectContext { trigger_unit_id: 8, counterpart_unit_id: Some(9) };
    assert_eq!(resolve_trigger_effect_targets(&units, ctx, TriggerEffectTarget::SelfUnit), vec![8]);
    assert_eq!(resolve_trigger_effect_targets(&units, ctx, TriggerEffectTarget::CounterpartUnit), vec![9]);
    assert_eq!(resolve_trigger_effect_targets(&units, ctx, TriggerEffectTarget::AllAllies), vec![3, 8]);
    assert_eq!(resolve_trigger_effect_targets(&units, ctx, TriggerEffectTarget::AllEnemies), vec![2, 9]);
    let dead_counterpart = TriggerEffectContext { trigger_unit_id: 8, counterpart_unit_id: Some(5) };
    assert_eq!(resolve_trigger_effect_targets(&units, dead_counterpart, TriggerEffectTarget::CounterpartUnit), Vec::<u128>::new());
    let unknown = TriggerEffectContext { trigger_unit_id: 77, counterpart_unit_id: Some(9) };
    assert_eq!(resolve_trigger_effect_targets(&units, unknown, TriggerEffectTarget::AllEnemies), Vec::<u128>::new());
}

#[test]
fn triggered_effects_raise_commands_in_order() {
    let units = units();
    let ctx = TriggerEffectContext { trigger_unit_id: 3, counterpart_unit_id: Some(2) };
    let modifier = StatModifier { stat: 1, amount: 4 };
    let effects = vec![
        SourcedEffect { effect: Effect::Heal { flat: 5, percent: 10 }, target: TriggerEffectTarget::AllAllies },
        SourcedEffect { effect: Effect::BonusDamage { flat: 1, percent: 1 }, target: TriggerEffectTarget::SelfUnit },
        SourcedEffect { effect: Effect::ApplyBuff { buff_id: 11, duration_ms: 300 }, target: TriggerEffectTarget::CounterpartUnit },
        SourcedEffect { effect: Effect::Modifier(modifier), target: TriggerEffectTarget::SelfUnit },
    ];
    let cmds = trigger_commands_from_effects(&units, &effects, ctx);
    assert_eq!(
        cmds,
        vec![
            BattleCommand::ApplyHeal { target_id: 3, flat: 5, percent: 10, source_id: Some(3) },
            BattleCommand::ApplyHeal { target_id: 8, flat: 5, percent: 10, source_id: Some(3) },
            BattleCommand::ApplyBuff { caster_id: 3, target_id: 2, buff_id: 11, duration_ms: 300 },
            BattleCommand::ApplyModifier { target_id: 3, modifier },
        ]
    );
    assert!(trigger_commands_from_effects(&units, &Vec::new(), ctx).is_empty());
}

#[test]
fn units_dying_together_do_not_mourn_each_other() {
    let units = units();
    // Unit 3 dies while unit 8 dies too: no living, non-dying ally is left.
    assert_eq!(allies_for_death_triggers(&units, 3, Side::Player, &vec![3, 8]), Vec::<u128>::new());
    // Unit 3 dies alone: unit 8 mourns; the dead unit 5 does not.
    assert_eq!(allies_for_death_triggers(&units, 3, Side::Player, &vec![3]), vec![8]);
    assert_eq!(allies_for_death_triggers(&units, 9, Side::Opponent, &vec![9]), vec![2]);
}

fn runtime_unit(id: u128, current_target: Option<u128>) -> RuntimeUnit {
    RuntimeUnit {
        instance_id: id,
        owner: Side::Player,
        base_uuid: 0,
        stats: UnitStats {
            max_health: 10,
            current_health: 10,
            attack: 1,
            defense: 0,
            attack_interval_ms: 1,
            move_speed_units_per_ms: 1,
        },
        pos_x_units: 0,
        pos_y_units: 0,
        move_epoch: 0,
        action_state: ActionState::Idle,
        action_locks: ActionLocks::default(),
        current_target,
        next_basic_attack_ms: 0,
        pending_basic_attack: false,
        resonance_current: 0,
        resonance_max: 100,
        resonance_lock_ms: 0,
        next_action_time: 0,
        pending_cast: false,
        pending_cast_cause: None,
    }
}

#[test]
fn removed_units_are_dropped_as_targets() {
    let mut all = vec![runtime_unit(1, Some(9)), runtime_unit(2, Some(4)), runtime_unit(3, None), runtime_unit(5, Some(9))];
    clear_targets_of(&mut all, 9);
    let targets: Vec<Option<u128>> = all.iter().map(|u| u.current_target).collect();
    assert_eq!(targets, vec![None, Some(4), None, None]);
    let ids: Vec<u128> = all.iter().map(|u| u.instance_id).collect();
    assert_eq!(ids, vec![1, 2, 3, 5]);
}

#[test]
fn a_death_raises_on_death_then_on_kill_then_ally_death_commands() {
    let mut units = units();
    units[1].current_health = 0;
    let on_death = vec![SourcedEffect {
        effect: Effect::ApplyBuff { buff_id: 11, duration_ms: 100 },
        target: TriggerEffectTarget::CounterpartUnit,
    }];
    let on_kill = vec![SourcedEffect { effect: Effect::Heal { flat: 3, percent: 0 }, target: TriggerEffectTarget::SelfUnit }];
    let modifier = StatModifier { stat: 2, amount: -1 };
    let ally_effects = vec![
        (8, vec![SourcedEffect { effect: Effect::Modifier(modifier), target: TriggerEffectTarget::SelfUnit }]),
        (5, vec![SourcedEffect { effect: Effect::Heal { flat: 1, percent: 0 }, target: TriggerEffectTarget::SelfUnit }]),
    ];
    let cmds = death_trigger_commands(&units, Some(9), 3, Side::Player, &on_death, &on_kill, &ally_effects);
    assert_eq!(
        cmds,
        vec![
            BattleCommand::ApplyBuff { caster_id: 3, target_id: 9, buff_id: 11, duration_ms: 100 },
            BattleCommand::ApplyHeal { target_id: 9, flat: 3, percent: 0, source_id: Some(9) },
            BattleCommand::ApplyModifier { target_id: 8, modifier },
        ]
    );
    let no_killer = death_trigger_commands(&units, None, 3, Side::Player, &on_death, &on_kill, &ally_effects);
    assert_eq!(no_killer, vec![BattleCommand::ApplyModifier { target_id: 8, modifier }]);
}
