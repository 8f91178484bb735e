use battle_core::damage::{
    apply_damage_to_unit, calculate_damage, BattleCommand, DamageContext, DamageRequest, DamageSource, Effect,
};
use battle_core::position::Side;
use battle_core::types::UnitStats;

fn request(base_damage: u32) -> DamageRequest {
    DamageRequest { source: DamageSource::BasicAttack, attacker_id: 0xA, target_id: 0xB, base_damage, time_ms: 0 }
}

fn context<'a>(attack: u32, defense: u32, hp: u32, on_attack: &'a [Effect], on_hit: &'a [Effect]) -> DamageContext<'a> {
    DamageContext {
        attacker_side: Side::Player,
        target_side: Side::Opponent,
        attacker_attack: attack,
        target_defense: defense,
        target_current_hp: hp,
        target_max_hp: hp,
        on_attack_effects: on_attack,
        on_hit_effects: on_hit,
    }
}

#[test]
fn calculate_damage_clamps_extreme_bonus_damage() {
    let effects = [Effect::BonusDamage { flat: i32::MAX, percent: i32::MAX }];
    let ctx = context(1, 0, 1, &effects, &[]);
    let result = calculate_damage(&request(1), &ctx);
    assert_eq!(result.final_damage, u32::MAX);
}

#[test]
fn damage_is_attack_minus_defense_but_at_least_one() {
    let r = calculate_damage(&request(0), &context(10, 3, 100, &[], &[]));
    assert_eq!(r.final_damage, 7);
    assert_eq!(r.target_remaining_hp, 93);
    assert!(!r.target_killed);
    assert!(r.triggered_commands.is_empty());
    let r = calculate_damage(&request(0), &context(1, 50, 100, &[], &[]));
    assert_eq!(r.final_damage, 1);
}

#[test]
fn killing_blow_reports_the_death_after_the_triggers() {
    let on_attack = [Effect::Ability(7), Effect::BonusDamage { flat: 5, percent: 0 }];
    let on_hit = [Effect::Heal { flat: 2, percent: 0 }];
    let r = calculate_damage(&request(0), &context(10, 0, 12, &on_attack, &on_hit));
    assert_eq!(r.final_damage, 15);
    assert_eq!(r.target_remaining_hp, 0);
    assert!(r.target_killed);
    let n = r.triggered_commands.len();
    assert!(n >= 1);
    assert_eq!(r.triggered_commands[n - 1], BattleCommand::UnitDied { unit_id: 0xB, killer_id: Some(0xA) });
}

#[test]
fn apply_damage_to_unit_never_goes_below_zero() {
    let mut stats = UnitStats {
        max_health: 10,
        current_health: 10,
        attack: 1,
        defense: 0,
        attack_interval_ms: 1,
        move_speed_units_per_ms: 1,
    };
    assert_eq!(apply_damage_to_unit(&mut stats, 4), (6, false));
    assert_eq!(apply_damage_to_unit(&mut stats, 40), (0, true));
    assert_eq!(stats.current_health, 0);
    assert_eq!(stats.max_health, 10);
}

#[test]
fn damage_reads_the_context_attack_not_the_request_base() {
    let effects = [Effect::BonusDamage { flat: 2, percent: 0 }];
    let a = calculate_damage(&request(1), &context(10, 3, 8, &effects, &[]));
    let mut other = request(999);
    other.source = DamageSource::Ability;
    other.time_ms = 500;
    let mut ctx = context(10, 3, 8, &effects, &[]);
    ctx.attacker_side = Side::Opponent;
    ctx.target_side = Side::Player;
    ctx.target_max_hp = 1000;
    let b = calculate_damage(&other, &ctx);
    assert_eq!(a.final_damage, 9);
    assert_eq!(a.final_damage, b.final_damage);
    assert_eq!(a.target_remaining_hp, b.target_remaining_hp);
    assert_eq!(a.target_killed, b.target_killed);
    assert!(a.target_killed);
    assert_eq!(a.triggered_commands, b.triggered_commands);
}
