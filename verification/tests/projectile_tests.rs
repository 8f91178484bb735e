use battle_core::movement::ActionState;
use battle_core::position::{Position, Side};
use battle_core::projectiles::{apply_projectile_hit, projectile_impact_ms, ProjectileHitOutcome};
use battle_core::types::{ActionLocks, RuntimeUnit, UnitStats};

fn runtime_unit(id: u128, owner: Side, attack: u32) -> RuntimeUnit {
    RuntimeUnit {
        instance_id: id,
        owner,
        base_uuid: 0,
        stats: UnitStats {
            max_health: 100,
            current_health: 100,
            attack,
            defense: 0,
            attack_interval_ms: 1000,
            move_speed_units_per_ms: 1,
        },
        pos_x_units: 0,
        pos_y_units: 0,
        move_epoch: 0,
        action_state: ActionState::Idle,
        action_locks: ActionLocks::default(),
        current_target: None,
        next_basic_attack_ms: 0,
        pending_basic_attack: false,
        resonance_current: 0,
        resonance_max: 100,
        resonance_lock_ms: 0,
        next_action_time: 0,
        pending_cast: false,
        pending_cast_cause: None,
    }
}

#[test]
fn apply_projectile_hit_is_idempotent_for_same_projectile_id() {
    let attacker_id: u128 = 1;
    let target_id: u128 = 2;
    let mut attacker = runtime_unit(attacker_id, Side::Player, 10);
    let mut target = runtime_unit(target_id, Side::Opponent, 0);
    let projectile_id: u128 = 0xAAAA;
    let mut in_flight = vec![projectile_id];

    let mut hits = 0;
    let first = apply_projectile_hit(&mut in_flight, projectile_id, &mut attacker, true, &mut target, &[], &[], 10);
    if let ProjectileHitOutcome::Hit { target: Some(_), .. } = first {
        hits += 1;
    }
    let hp_after_first = target.stats.current_health;

    let second = apply_projectile_hit(&mut in_flight, projectile_id, &mut attacker, true, &mut target, &[], &[], 10);
    if let ProjectileHitOutcome::Hit { target: Some(_), .. } = second {
        hits += 1;
    }
    let hp_after_second = target.stats.current_health;

    assert_eq!(hp_after_first, hp_after_second);
    assert_eq!(hp_after_first, 90);
    assert!(matches!(second, ProjectileHitOutcome::AlreadyApplied));
    assert_eq!(hits, 1);
    assert!(in_flight.is_empty());
}

#[test]
fn projectile_misses_a_dead_target_and_a_gone_attacker_deals_base_damage() {
    let mut attacker = runtime_unit(1, Side::Player, 30);
    let mut target = runtime_unit(2, Side::Opponent, 0);
    target.stats.defense = 10;
    let mut in_flight = vec![5, 6, 7];

    target.stats.current_health = 0;
    let r = apply_projectile_hit(&mut in_flight, 6, &mut attacker, true, &mut target, &[], &[], 0);
    assert!(matches!(r, ProjectileHitOutcome::Miss));
    assert_eq!(in_flight, vec![5, 7]);

    target.stats.current_health = 100;
    let r = apply_projectile_hit(&mut in_flight, 7, &mut attacker, false, &mut target, &[], &[], 0);
    match r {
        ProjectileHitOutcome::BaseHit { target: Some(o) } => assert_eq!(o.change.hp_after, 80),
        _ => panic!("expected a base hit"),
    }
    assert_eq!(attacker.resonance_current, 0);
    assert_eq!(target.resonance_current, 2);
    assert_eq!(in_flight, vec![5]);
}

#[test]
fn projectile_impact_time_follows_the_tile_distance() {
    // Two tiles at 1000 units per millisecond: 2000 ms after firing.
    assert_eq!(projectile_impact_ms(Position::new(0, 0), Position::new(2, 0), 1000, 100), 2100);
    assert_eq!(projectile_impact_ms(Position::new(0, 0), Position::new(1, 1), 3000, 0), 334);
    assert_eq!(projectile_impact_ms(Position::new(0, 0), Position::new(0, 0), 1000, 7), 7);
    assert_eq!(projectile_impact_ms(Position::new(0, 0), Position::new(5, 0), 0, 7), 7);
    assert_eq!(projectile_impact_ms(Position::new(0, 0), Position::new(1, 0), 1, u64::MAX - 3), u64::MAX);
}
