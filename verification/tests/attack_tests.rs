use battle_core::attacks::{
    pending_attack_decision, resolve_basic_attack, try_start_pending_basic_attacks, BasicAttackDelivery, BasicAttackResolution,
    PendingAttackDecision,
};
use battle_core::movement::{ActionState, TILE_UNITS_PER_TILE};
use battle_core::position::{Position, Side};
use battle_core::targets::{basic_attack_range_policy, basic_attack_range_tiles, choose_attack_target_in_range, AttackDelivery, TargetCandidate};
use battle_core::types::{ActionLocks, RuntimeUnit, UnitStats};
use battle_core::vitals::ResonanceChange;

fn runtime_unit(unit_id: u128, owner: Side) -> RuntimeUnit {
    RuntimeUnit {
        instance_id: unit_id,
        owner,
        base_uuid: 0,
        stats: UnitStats {
            max_health: 10,
            current_health: 10,
            attack: 1,
            defense: 0,
            attack_interval_ms: 1,
            move_speed_units_per_ms: 1,
        },
        pos_x_units: 0,
        pos_y_units: 0,
        move_epoch: 0,
        action_state: ActionState::Idle,
        action_locks: ActionLocks::default(),
        current_target: None,
        next_basic_attack_ms: 0,
        pending_basic_attack: false,
        resonance_current: 0,
        resonance_max: 100,
        resonance_lock_ms: 0,
        next_action_time: 0,
        pending_cast: false,
        pending_cast_cause: None,
    }
}

/// Places the unit on `pos` with its continuous position at the tile's
/// corner value, as the battle's setup does.
fn place(unit: &mut RuntimeUnit, pos: Position) -> Option<Position> {
    unit.pos_x_units = pos.x as i64 * TILE_UNITS_PER_TILE as i64;
    unit.pos_y_units = pos.y as i64 * TILE_UNITS_PER_TILE as i64;
    Some(pos)
}

fn view(unit: &RuntimeUnit, tile: Option<Position>, range_tiles: u8) -> TargetCandidate {
    TargetCandidate {
        id: unit.instance_id,
        owner: unit.owner,
        current_health: unit.stats.current_health,
        tile,
        pos_x_units: unit.pos_x_units,
        pos_y_units: unit.pos_y_units,
        range_tiles,
    }
}

#[test]
fn pending_basic_attack_retargets_when_persisted_target_is_out_of_range() {
    let attacker_id: u128 = 1;
    let locked_target_id: u128 = 2;
    let nearer_enemy_id: u128 = 3;

    let mut attacker = runtime_unit(attacker_id, Side::Player);
    attacker.pending_basic_attack = true;
    attacker.current_target = Some(locked_target_id);
    let mut locked = runtime_unit(locked_target_id, Side::Opponent);
    let mut nearer = runtime_unit(nearer_enemy_id, Side::Opponent);

    let attacker_tile = place(&mut attacker, Position::new(0, 0));
    let locked_tile = place(&mut locked, Position::new(3, 0));
    let nearer_tile = place(&mut nearer, Position::new(1, 0));

    let range = basic_attack_range_tiles(None);
    let candidates = vec![view(&attacker, attacker_tile, range), view(&locked, locked_tile, 1), view(&nearer, nearer_tile, 1)];
    let mut units = vec![attacker, locked, nearer];
    let placements = vec![attacker_tile, locked_tile, nearer_tile];
    let decisions = try_start_pending_basic_attacks(&mut units, &placements, &vec![range, 1, 1], &candidates, 0);
    assert!(!units[0].pending_basic_attack);
    assert_eq!(decisions, vec![(attacker_id, PendingAttackDecision::Start { target_id: nearer_enemy_id })]);
}

#[test]
fn pending_basic_attack_retargets_when_persisted_target_is_dead() {
    let attacker_id: u128 = 4;
    let locked_target_id: u128 = 5;
    let nearer_enemy_id: u128 = 6;

    let mut attacker = runtime_unit(attacker_id, Side::Player);
    attacker.pending_basic_attack = true;
    attacker.current_target = Some(locked_target_id);
    let mut locked = runtime_unit(locked_target_id, Side::Opponent);
    let mut nearer = runtime_unit(nearer_enemy_id, Side::Opponent);
    locked.stats.current_health = 0;

    let attacker_tile = place(&mut attacker, Position::new(0, 0));
    let locked_tile = place(&mut locked, Position::new(1, 0));
    let nearer_tile = place(&mut nearer, Position::new(1, 1));

    let range = basic_attack_range_tiles(Some(2));
    let candidates = vec![view(&attacker, attacker_tile, range), view(&locked, locked_tile, 1), view(&nearer, nearer_tile, 1)];
    let mut units = vec![attacker, locked, nearer];
    let placements = vec![attacker_tile, locked_tile, nearer_tile];
    let decisions = try_start_pending_basic_attacks(&mut units, &placements, &vec![range, 1, 1], &candidates, 0);
    assert!(!units[0].pending_basic_attack);
    assert_eq!(decisions, vec![(attacker_id, PendingAttackDecision::Start { target_id: nearer_enemy_id })]);
}

#[test]
fn pending_attacks_of_all_units_are_decided_in_identifier_order() {
    let mut a = runtime_unit(9, Side::Player);
    a.pending_basic_attack = true;
    let mut b = runtime_unit(3, Side::Player);
    b.pending_basic_attack = true;
    b.action_locks.basic_attack_until_ms = 40;
    let mut c = runtime_unit(5, Side::Player);
    c.pending_basic_attack = true;
    c.current_target = Some(77);
    let mut enemy = runtime_unit(7, Side::Opponent);
    let a_tile = place(&mut a, Position::new(0, 0));
    let b_tile = place(&mut b, Position::new(4, 4));
    let c_tile = place(&mut c, Position::new(8, 8));
    let e_tile = place(&mut enemy, Position::new(1, 0));
    let candidates = vec![view(&a, a_tile, 1), view(&b, b_tile, 1), view(&c, c_tile, 1), view(&enemy, e_tile, 1)];
    let mut units = vec![a, b, c, enemy];
    let placements = vec![a_tile, b_tile, c_tile, e_tile];
    let decisions = try_start_pending_basic_attacks(&mut units, &placements, &vec![1, 1, 1, 1], &candidates, 10);
    assert_eq!(
        decisions,
        vec![
            (3, PendingAttackDecision::WaitForLock { at_ms: 40 }),
            (5, PendingAttackDecision::Reposition { intent_at_ms: 11 }),
            (9, PendingAttackDecision::Start { target_id: 7 }),
        ]
    );
    assert!(!units[0].pending_basic_attack);
    assert!(!units[1].pending_basic_attack);
    assert!(units[2].pending_basic_attack);
    assert_eq!(units[2].current_target, None);
    assert!(!units[3].pending_basic_attack);
}

#[test]
fn pending_attack_waits_for_lock_or_repositions() {
    let mut attacker = runtime_unit(1, Side::Player);
    let mut enemy = runtime_unit(2, Side::Opponent);
    let attacker_tile = place(&mut attacker, Position::new(0, 0));
    let enemy_tile = place(&mut enemy, Position::new(3, 3));
    let units = vec![view(&attacker, attacker_tile, 1), view(&enemy, enemy_tile, 1)];

    // Not pending: nothing happens.
    assert_eq!(pending_attack_decision(&attacker, attacker_tile, 1, &units, 0), PendingAttackDecision::Skip);

    attacker.pending_basic_attack = true;
    attacker.next_basic_attack_ms = 10;
    assert_eq!(pending_attack_decision(&attacker, attacker_tile, 1, &units, 9), PendingAttackDecision::Skip);

    attacker.action_locks.lock_basic_attack_until(40);
    let wait = pending_attack_decision(&attacker, attacker_tile, 1, &units, 10);
    assert_eq!(wait, PendingAttackDecision::WaitForLock { at_ms: 40 });

    attacker.current_target = Some(2);
    let repos = pending_attack_decision(&attacker, attacker_tile, 1, &units, 40);
    assert_eq!(repos, PendingAttackDecision::Reposition { intent_at_ms: 41 });
    attacker.apply_pending_attack_decision(repos);
    assert_eq!(attacker.current_target, None);
    assert!(attacker.pending_basic_attack);

    // Not on the battlefield: nothing happens.
    assert_eq!(pending_attack_decision(&attacker, None, 1, &units, 40), PendingAttackDecision::Skip);
}

#[test]
fn instant_basic_attack_uses_continuous_range_for_selection_and_resolve() {
    let attacker_id: u128 = 61;
    let target_id: u128 = 62;
    let mut attacker = runtime_unit(attacker_id, Side::Player);
    let mut target = runtime_unit(target_id, Side::Opponent);
    let attacker_tile = place(&mut attacker, Position::new(0, 0));
    let target_tile = place(&mut target, Position::new(1, 1));
    let policy = basic_attack_range_policy(Some(AttackDelivery::Instant), Some(1));

    let units = vec![view(&attacker, attacker_tile, 1), view(&target, target_tile, 1)];
    assert_eq!(choose_attack_target_in_range(attacker_id, policy, &units), None);
    let r = resolve_basic_attack(&mut attacker, attacker_tile, &mut target, target_tile, policy, BasicAttackDelivery::Instant, &[], &[], 0);
    assert!(matches!(r, BasicAttackResolution::Rejected));

    attacker.pos_x_units = TILE_UNITS_PER_TILE as i64;
    attacker.pos_y_units = TILE_UNITS_PER_TILE as i64;

    let units = vec![view(&attacker, attacker_tile, 1), view(&target, target_tile, 1)];
    assert_eq!(choose_attack_target_in_range(attacker_id, policy, &units), Some(target_id));
    let r = resolve_basic_attack(&mut attacker, attacker_tile, &mut target, target_tile, policy, BasicAttackDelivery::Instant, &[], &[], 1);
    assert!(matches!(r, BasicAttackResolution::Hit { .. }));
}

#[test]
fn projectile_basic_attack_keeps_tile_range_behavior() {
    let attacker_id: u128 = 71;
    let target_id: u128 = 72;
    let mut attacker = runtime_unit(attacker_id, Side::Player);
    let mut target = runtime_unit(target_id, Side::Opponent);
    let attacker_tile = place(&mut attacker, Position::new(0, 0));
    let target_tile = place(&mut target, Position::new(1, 1));
    attacker.pos_x_units = -(TILE_UNITS_PER_TILE as i64);
    attacker.pos_y_units = -(TILE_UNITS_PER_TILE as i64);
    let policy = basic_attack_range_policy(Some(AttackDelivery::Projectile), Some(1));

    let units = vec![view(&attacker, attacker_tile, 1), view(&target, target_tile, 1)];
    assert_eq!(choose_attack_target_in_range(attacker_id, policy, &units), Some(target_id));
    let r = resolve_basic_attack(
        &mut attacker,
        attacker_tile,
        &mut target,
        target_tile,
        policy,
        BasicAttackDelivery::Projectile { speed_units_per_ms: 1_000 },
        &[],
        &[],
        0,
    );
    assert!(matches!(r, BasicAttackResolution::Launch { speed_units_per_ms: 1_000, .. }));
}

#[test]
fn instant_hit_moves_health_and_resonance() {
    let mut attacker = runtime_unit(1, Side::Player);
    let mut target = runtime_unit(2, Side::Opponent);
    attacker.stats.attack = 45;
    target.stats.max_health = 100;
    target.stats.current_health = 100;
    target.stats.defense = 5;
    let attacker_tile = place(&mut attacker, Position::new(0, 0));
    let target_tile = place(&mut target, Position::new(1, 0));
    let policy = basic_attack_range_policy(None, None);
    let r = resolve_basic_attack(&mut attacker, attacker_tile, &mut target, target_tile, policy, BasicAttackDelivery::Instant, &[], &[], 0);
    match r {
        BasicAttackResolution::Hit { damage, release_gain, damage_gain, target: outcome } => {
            assert_eq!(damage.final_damage, 40);
            assert_eq!(release_gain, Some(ResonanceChange { before: 0, after: 10, max: 100 }));
            assert_eq!(damage_gain, Some(ResonanceChange { before: 10, after: 14, max: 100 }));
            let outcome = outcome.unwrap();
            assert_eq!(outcome.change.hp_after, 60);
            assert_eq!(outcome.resonance, Some(ResonanceChange { before: 0, after: 4, max: 100 }));
        },
        _ => panic!("expected a hit"),
    }
    assert_eq!(attacker.resonance_current, 14);
    assert_eq!(target.stats.current_health, 60);
    assert_eq!(target.resonance_current, 4);

    // Allies are never attacked.
    let mut ally = runtime_unit(3, Side::Player);
    let ally_tile = place(&mut ally, Position::new(1, 0));
    let r = resolve_basic_attack(&mut attacker, attacker_tile, &mut ally, ally_tile, policy, BasicAttackDelivery::Instant, &[], &[], 0);
    assert!(matches!(r, BasicAttackResolution::Rejected));
    assert_eq!(attacker.resonance_current, 14);
}
