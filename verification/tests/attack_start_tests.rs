use battle_core::attack_start::AttackStartOutcome;
use battle_core::movement::{ActionState, MovementState};
use battle_core::position::{Position, Side};
use battle_core::targets::{basic_attack_range_tiles, TargetCandidate};
use battle_core::types::{ActionLocks, RuntimeUnit, UnitStats};

fn runtime_unit(id: u128, owner: Side) -> RuntimeUnit {
    RuntimeUnit {
        instance_id: id,
        owner,
        base_uuid: 0,
        stats: UnitStats {
            max_health: 10,
            current_health: 10,
            attack: 1,
            defense: 0,
            attack_interval_ms: 1,
            move_speed_units_per_ms: 1,
        },
        pos_x_units: 0,
        pos_y_units: 0,
        move_epoch: 0,
        action_state: ActionState::Idle,
        action_locks: ActionLocks::default(),
        current_target: None,
        next_basic_attack_ms: 0,
        pending_basic_attack: false,
        resonance_current: 0,
        resonance_max: 100,
        resonance_lock_ms: 0,
        next_action_time: 0,
        pending_cast: false,
        pending_cast_cause: None,
    }
}

fn placed(id: u128, owner: Side, health: u32, tile: Position) -> TargetCandidate {
    TargetCandidate { id, owner, current_health: health, tile: Some(tile), pos_x_units: 0, pos_y_units: 0, range_tiles: 1 }
}

#[test]
fn attack_start_keeps_persisted_target_when_it_is_still_in_range() {
    let mut attacker = runtime_unit(31, Side::Player);
    attacker.current_target = Some(32);
    let units = vec![
        placed(31, Side::Player, 10, Position::new(0, 0)),
        placed(32, Side::Opponent, 10, Position::new(1, 0)),
        placed(33, Side::Opponent, 10, Position::new(1, 1)),
    ];
    let range = basic_attack_range_tiles(None);
    attacker.start_basic_attack(Some(Position::new(0, 0)), range, &units, None, true, 0, 0, 0);
    assert_eq!(attacker.current_target, Some(32));
}

#[test]
fn attack_start_hint_does_not_override_persisted_target_when_it_is_still_in_range() {
    let mut attacker = runtime_unit(34, Side::Player);
    attacker.current_target = Some(35);
    let units = vec![
        placed(34, Side::Player, 10, Position::new(0, 0)),
        placed(35, Side::Opponent, 10, Position::new(1, 0)),
        placed(36, Side::Opponent, 10, Position::new(1, 1)),
    ];
    let range = basic_attack_range_tiles(None);
    attacker.start_basic_attack(Some(Position::new(0, 0)), range, &units, Some(36), false, 0, 0, 0);
    assert_eq!(attacker.current_target, Some(35));
}

#[test]
fn attack_start_retargets_to_nearest_in_range_when_persisted_target_is_dead() {
    let mut attacker = runtime_unit(37, Side::Player);
    attacker.current_target = Some(38);
    let units = vec![
        placed(37, Side::Player, 10, Position::new(0, 0)),
        placed(38, Side::Opponent, 0, Position::new(1, 0)),
        placed(39, Side::Opponent, 10, Position::new(1, 1)),
    ];
    let range = basic_attack_range_tiles(Some(2));
    attacker.start_basic_attack(Some(Position::new(0, 0)), range, &units, None, true, 0, 0, 0);
    assert_eq!(attacker.current_target, Some(39));
}

#[test]
fn attack_start_prefers_straight_enemy_over_equal_range_diagonal_enemy() {
    let mut attacker = runtime_unit(40, Side::Player);
    let units = vec![
        placed(40, Side::Player, 10, Position::new(2, 2)),
        placed(41, Side::Opponent, 10, Position::new(1, 1)),
        placed(42, Side::Opponent, 10, Position::new(2, 1)),
    ];
    let range = basic_attack_range_tiles(Some(1));
    attacker.start_basic_attack(Some(Position::new(2, 2)), range, &units, None, true, 0, 0, 0);
    assert_eq!(attacker.current_target, Some(42));
}

#[test]
fn a_periodic_attack_start_locks_until_resolution_and_schedules_the_next() {
    let mut attacker = runtime_unit(1, Side::Player);
    attacker.stats.attack_interval_ms = 700;
    attacker.pending_basic_attack = true;
    let units = vec![placed(1, Side::Player, 10, Position::new(0, 0)), placed(2, Side::Opponent, 10, Position::new(1, 0))];
    let r = attacker.start_basic_attack(Some(Position::new(0, 0)), 1, &units, None, true, 1000, 1000, 250);
    assert_eq!(
        r,
        AttackStartOutcome::Started { target_id: 2, stopped_movement: false, resolve_at_ms: 1250, next_attack_at_ms: Some(1700) }
    );
    assert_eq!(attacker.current_target, Some(2));
    assert!(!attacker.pending_basic_attack);
    assert_eq!(attacker.action_locks.basic_attack_until_ms, 1250);
    assert_eq!(attacker.action_locks.movement_until_ms, 1250);
    assert_eq!(attacker.next_basic_attack_ms, 1700);
}

#[test]
fn a_triggered_attack_uses_an_in_range_hint_and_schedules_nothing() {
    let mut attacker = runtime_unit(1, Side::Player);
    attacker.next_basic_attack_ms = 77;
    let units = vec![
        placed(1, Side::Player, 10, Position::new(0, 0)),
        placed(2, Side::Opponent, 10, Position::new(1, 0)),
        placed(3, Side::Opponent, 10, Position::new(0, 1)),
        placed(4, Side::Opponent, 10, Position::new(5, 5)),
    ];
    let r = attacker.start_basic_attack(Some(Position::new(0, 0)), 1, &units, Some(3), false, 10, 10, 0);
    assert_eq!(
        r,
        AttackStartOutcome::Started { target_id: 3, stopped_movement: false, resolve_at_ms: 10, next_attack_at_ms: None }
    );
    assert_eq!(attacker.next_basic_attack_ms, 77);
    // A hint out of range is ignored.
    let mut other = runtime_unit(1, Side::Player);
    let r = other.start_basic_attack(Some(Position::new(0, 0)), 1, &units, Some(4), false, 10, 10, 0);
    assert!(matches!(r, AttackStartOutcome::Started { target_id: 2, .. }));
}

#[test]
fn an_attack_start_stops_a_walking_attacker() {
    let mut attacker = runtime_unit(1, Side::Player);
    attacker.move_epoch = 4;
    let mut movement = MovementState::new_at(Position::new(0, 0), 100);
    movement.target_x_units = movement.step_start_x_units + 100;
    attacker.pos_x_units = movement.step_start_x_units;
    let start_x = attacker.pos_x_units;
    attacker.action_state = ActionState::Moving(movement);
    let units = vec![placed(1, Side::Player, 10, Position::new(0, 0)), placed(2, Side::Opponent, 10, Position::new(1, 0))];
    let r = attacker.start_basic_attack(Some(Position::new(0, 0)), 1, &units, None, true, 130, 130, 0);
    assert!(matches!(r, AttackStartOutcome::Started { target_id: 2, stopped_movement: true, .. }));
    assert_eq!(attacker.action_state, ActionState::Idle);
    assert_eq!(attacker.pos_x_units, start_x + 30);
    assert_eq!(attacker.move_epoch, 5);
}

#[test]
fn an_attack_start_without_target_arms_the_pending_attack() {
    let mut attacker = runtime_unit(1, Side::Player);
    attacker.current_target = Some(2);
    let units = vec![placed(1, Side::Player, 10, Position::new(0, 0)), placed(2, Side::Opponent, 10, Position::new(3, 0))];
    let r = attacker.start_basic_attack(Some(Position::new(0, 0)), 1, &units, None, true, 40, 40, 0);
    assert_eq!(r, AttackStartOutcome::NoTarget { movement_intent_at_ms: 40 });
    assert_eq!(attacker.current_target, None);
    assert!(attacker.pending_basic_attack);
    assert_eq!(attacker.next_basic_attack_ms, 40);

    let mut triggered = runtime_unit(1, Side::Player);
    triggered.current_target = Some(2);
    let r = triggered.start_basic_attack(Some(Position::new(0, 0)), 1, &units, None, false, 40, 40, 0);
    assert_eq!(r, AttackStartOutcome::NoTarget { movement_intent_at_ms: 40 });
    assert_eq!(triggered.current_target, None);
    assert!(!triggered.pending_basic_attack);
}

#[test]
fn locked_dead_or_unplaced_attackers_do_not_start() {
    let units = vec![placed(1, Side::Player, 10, Position::new(0, 0)), placed(2, Side::Opponent, 10, Position::new(1, 0))];
    let mut locked = runtime_unit(1, Side::Player);
    locked.action_locks.basic_attack_until_ms = 90;
    let before = locked.clone();
    let r = locked.start_basic_attack(Some(Position::new(0, 0)), 1, &units, None, true, 50, 50, 0);
    assert_eq!(r, AttackStartOutcome::Deferred { at_ms: 90 });
    assert_eq!(locked, before);

    let mut dead = runtime_unit(1, Side::Player);
    dead.stats.current_health = 0;
    let before = dead.clone();
    assert_eq!(dead.start_basic_attack(Some(Position::new(0, 0)), 1, &units, None, true, 50, 50, 0), AttackStartOutcome::Ignored);
    assert_eq!(dead, before);

    let mut unplaced = runtime_unit(1, Side::Player);
    let before = unplaced.clone();
    assert_eq!(unplaced.start_basic_attack(None, 1, &units, None, true, 50, 50, 0), AttackStartOutcome::Ignored);
    assert_eq!(unplaced, before);
}
