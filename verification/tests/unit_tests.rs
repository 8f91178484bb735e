use battle_core::autocast::schedule_pending_autocasts;
use battle_core::movement::{ActionState, MovementState};
use battle_core::position::{Position, Side};
use battle_core::types::{ActionLocks, RuntimeUnit, SkillStepResult, UnitStats};
use battle_core::vitals::{heal_delta, HpChangeReason, ResonanceChange};
use battle_core::waits::next_wait_repath_until_ms;

fn stats(max_health: u32, current_health: u32) -> UnitStats {
    UnitStats {
        max_health,
        current_health,
        attack: 1,
        defense: 0,
        attack_interval_ms: 1,
        move_speed_units_per_ms: 1,
    }
}

fn runtime_unit(unit_id: u128, owner: Side) -> RuntimeUnit {
    RuntimeUnit {
        instance_id: unit_id,
        owner,
        base_uuid: 0,
        stats: stats(10, 10),
        pos_x_units: 0,
        pos_y_units: 0,
        move_epoch: 0,
        action_state: ActionState::Idle,
        action_locks: ActionLocks::default(),
        current_target: None,
        next_basic_attack_ms: 0,
        pending_basic_attack: false,
        resonance_current: 0,
        resonance_max: 100,
        resonance_lock_ms: 0,
        next_action_time: 0,
        pending_cast: false,
        pending_cast_cause: None,
    }
}

#[test]
fn action_locks_lock_methods_take_max_and_gate_actions() {
    let mut locks = ActionLocks::default();
    assert!(locks.can_move(0));
    assert!(locks.can_basic_attack(0));
    assert!(locks.can_gain_resonance(0));

    locks.lock_movement_until(10);
    locks.lock_movement_until(5);
    assert!(!locks.can_move(9));
    assert!(locks.can_move(10));

    locks.lock_basic_attack_until(20);
    locks.lock_basic_attack_until(15);
    assert!(!locks.can_basic_attack(19));
    assert!(locks.can_basic_attack(20));

    locks.lock_resonance_gain_until(30);
    locks.lock_resonance_gain_until(25);
    assert!(!locks.can_gain_resonance(29));
    assert!(locks.can_gain_resonance(30));
}

#[test]
fn skill_step_result_merge_adds_and_saturates() {
    let mut a = SkillStepResult::default();
    assert!(!a.dealt_damage());
    let b = SkillStepResult {
        resolved_target_count: 2,
        damage_target_count: 1,
        applied_effect_count: 3,
        scheduled_attack_count: 4,
    };
    a.merge(&b);
    a.merge(&b);
    assert_eq!(a.resolved_target_count, 4);
    assert_eq!(a.damage_target_count, 2);
    assert_eq!(a.applied_effect_count, 6);
    assert_eq!(a.scheduled_attack_count, 8);
    assert!(a.dealt_damage());
    let big = SkillStepResult {
        resolved_target_count: usize::MAX,
        damage_target_count: 0,
        applied_effect_count: 0,
        scheduled_attack_count: 0,
    };
    a.merge(&big);
    assert_eq!(a.resolved_target_count, usize::MAX);
}

#[test]
fn runtime_unit_snapshot_and_death() {
    let mut unit = runtime_unit(7, Side::Opponent);
    let snap = unit.to_snapshot(Position::new(3, 4));
    assert_eq!(snap.id, 7);
    assert_eq!(snap.owner, Side::Opponent);
    assert_eq!(snap.position, Position::new(3, 4));
    assert_eq!(snap.stats, unit.stats);
    assert!(!unit.is_dead());
    unit.stats.current_health = 0;
    assert!(unit.is_dead());
    match RuntimeUnit::new_action_state_at(Position::new(1, 2), 50, 3) {
        ActionState::Moving(m) => assert_eq!(m, MovementState::new_at(Position::new(1, 2), 50)),
        _ => panic!("expected a moving state"),
    }
}

#[test]
fn add_resonance_clamps_and_sets_pending_cast_only_when_allowed() {
    let mut unit = runtime_unit(1, Side::Player);
    unit.resonance_current = 90;
    unit.resonance_max = 100;

    unit.add_resonance(10, 0, false);
    assert_eq!(unit.resonance_current, 100);
    assert!(!unit.pending_cast);

    unit.resonance_current = 90;
    unit.add_resonance(10, 0, true);
    assert_eq!(unit.resonance_current, 100);
    assert!(unit.pending_cast);

    // Locked resonance gain should prevent any change.
    unit.action_locks.lock_resonance_gain_until(10);
    unit.resonance_current = 0;
    unit.add_resonance(10, 0, true);
    assert_eq!(unit.resonance_current, 0);
}

#[test]
fn add_resonance_reports_the_change_and_caps_at_maximum() {
    let mut unit = runtime_unit(1, Side::Player);
    unit.resonance_current = 95;
    assert_eq!(unit.add_resonance(20, 0, false), Some(ResonanceChange { before: 95, after: 100, max: 100 }));
    assert_eq!(unit.add_resonance(20, 0, false), None);
    assert_eq!(unit.add_resonance(0, 0, false), None);
    unit.resonance_max = 0;
    unit.resonance_current = 0;
    assert_eq!(unit.add_resonance(5, 0, true), Some(ResonanceChange { before: 0, after: 1, max: 1 }));
    assert!(unit.pending_cast);
}

#[test]
fn modify_resonance_loses_at_most_what_is_there() {
    let mut unit = runtime_unit(1, Side::Player);
    unit.resonance_current = 30;
    assert_eq!(unit.modify_resonance(-50, 0, true), Some(ResonanceChange { before: 30, after: 0, max: 100 }));
    assert_eq!(unit.modify_resonance(-5, 0, true), None);
    assert_eq!(unit.modify_resonance(i32::MIN, 0, true), None);
    assert_eq!(unit.modify_resonance(40, 0, true), Some(ResonanceChange { before: 0, after: 40, max: 100 }));
    // A loss is not blocked by the gain lock.
    unit.action_locks.lock_resonance_gain_until(100);
    assert_eq!(unit.modify_resonance(-10, 0, false), Some(ResonanceChange { before: 40, after: 30, max: 100 }));
    assert_eq!(unit.modify_resonance(10, 0, false), None);
    // A dead unit does not change.
    unit.stats.current_health = 0;
    assert_eq!(unit.modify_resonance(-10, 0, false), None);
    assert_eq!(unit.resonance_current, 30);
}

#[test]
fn can_start_autocast_needs_a_due_action_and_a_living_unit() {
    let mut unit = runtime_unit(1, Side::Player);
    unit.next_action_time = 10;
    assert!(!unit.can_start_autocast(9));
    assert!(unit.can_start_autocast(10));
    unit.stats.current_health = 0;
    assert!(!unit.can_start_autocast(10));
}

#[test]
fn basic_attack_damage_grants_a_tenth_of_lost_health_as_resonance() {
    let mut unit = runtime_unit(1, Side::Player);
    unit.stats = stats(100, 100);
    let outcome = unit.apply_damage_and_record(35, HpChangeReason::BasicAttack, 0).unwrap();
    assert_eq!(outcome.change.hp_before, 100);
    assert_eq!(outcome.change.hp_after, 65);
    assert_eq!(outcome.change.delta, -35);
    assert!(!outcome.died);
    assert_eq!(outcome.resonance, Some(ResonanceChange { before: 0, after: 3, max: 100 }));
    assert_eq!(unit.resonance_current, 3);

    // Command damage grants nothing.
    let outcome = unit.apply_damage_and_record(20, HpChangeReason::Command, 0).unwrap();
    assert_eq!(outcome.change.hp_after, 45);
    assert_eq!(outcome.resonance, None);

    // A lethal hit kills and grants nothing to the dead unit.
    let outcome = unit.apply_damage_and_record(1_000, HpChangeReason::BasicAttack, 0).unwrap();
    assert_eq!(outcome.change.hp_after, 0);
    assert!(outcome.died);
    assert_eq!(outcome.resonance, None);
    assert_eq!(unit.resonance_current, 3);

    // Damage to a dead unit is ignored.
    assert_eq!(unit.apply_damage_and_record(5, HpChangeReason::BasicAttack, 0), None);
}

#[test]
fn hp_delta_heals_up_to_maximum_and_damages_down_to_zero() {
    let mut unit = runtime_unit(1, Side::Player);
    unit.stats = stats(50, 20);
    assert_eq!(unit.apply_hp_delta_and_record(0, HpChangeReason::Command, 0), None);
    let outcome = unit.apply_hp_delta_and_record(100, HpChangeReason::Command, 0).unwrap();
    assert_eq!(outcome.change.hp_after, 50);
    assert_eq!(outcome.change.delta, 30);
    let outcome = unit.apply_hp_delta_and_record(-19, HpChangeReason::BasicAttack, 0).unwrap();
    assert_eq!(outcome.change.hp_after, 31);
    assert_eq!(outcome.resonance, Some(ResonanceChange { before: 0, after: 1, max: 100 }));
    let outcome = unit.apply_hp_delta_and_record(i32::MIN, HpChangeReason::Command, 0).unwrap();
    assert_eq!(outcome.change.hp_after, 0);
    assert!(outcome.died);
    assert!(unit.is_dead());
}

#[test]
fn waiting_states_start_a_new_epoch_and_return_the_retry_time() {
    let mut unit = runtime_unit(1, Side::Player);
    unit.current_target = Some(9);
    unit.move_epoch = u32::MAX;
    assert_eq!(unit.enter_wait_repath(500, 2), 500);
    assert_eq!(unit.action_state, ActionState::WaitRepath { until_ms: 500, repath_counter: 2 });
    assert_eq!(unit.current_target, None);
    assert_eq!(unit.move_epoch, 0);

    assert_eq!(unit.enter_blocked(100, 30, 1), 130);
    assert_eq!(unit.action_state, ActionState::Blocked { until_ms: 130, repath_counter: 1 });
    assert_eq!(unit.enter_hold(u64::MAX - 5, 20, 1), u64::MAX);
    assert_eq!(unit.action_state, ActionState::Holding { until_ms: u64::MAX, repath_counter: 1 });
    assert_eq!(unit.move_epoch, 2);

    let mut movement = MovementState::new_at(Position::new(0, 0), 100);
    movement.target_x_units = 100;
    movement.target_y_units = 0;
    unit.pos_x_units = 0;
    unit.pos_y_units = 0;
    unit.stats.move_speed_units_per_ms = 10;
    unit.action_state = ActionState::Moving(movement);
    assert_eq!(unit.enter_yield(105, 10, 3), 115);
    assert_eq!(unit.pos_x_units, 50);
    assert_eq!(unit.action_state, ActionState::Yielding { until_ms: 115, repath_counter: 3 });

    assert_eq!(next_wait_repath_until_ms(1_000, 7), 1_107);
    assert_eq!(next_wait_repath_until_ms(u64::MAX - 50, 7), u64::MAX);
}

#[test]
fn update_move_position_to_advances_position_with_speed_cap() {
    let mut unit = runtime_unit(1, Side::Player);
    unit.stats.move_speed_units_per_ms = 10;
    let mut movement = MovementState::new_at(Position::new(0, 0), 100);
    movement.target_x_units = 100;
    movement.target_y_units = 0;
    movement.last_update_ms = 100;
    unit.action_state = ActionState::Moving(movement);

    // now_ms <= last_update_ms: no-op
    unit.update_move_position_to(100);
    assert_eq!(unit.pos_x_units, 0);

    // elapsed=5ms, cap=10*5=50 units.
    unit.update_move_position_to(105);
    assert_eq!(unit.pos_x_units, 50);

    // elapsed=5ms again, reaches target but should not overshoot.
    unit.update_move_position_to(110);
    assert_eq!(unit.pos_x_units, 100);
}

#[test]
fn interrupt_movement_updates_continuous_position_before_recording_stop() {
    let mut unit = runtime_unit(2, Side::Player);
    unit.stats = stats(10, 10);
    unit.stats.move_speed_units_per_ms = 10;
    let mut movement = MovementState::new_at(Position::new(0, 0), 100);
    movement.target_x_units = 100;
    movement.target_y_units = 0;
    movement.last_update_ms = 100;
    unit.action_state = ActionState::Moving(movement);

    assert!(unit.interrupt_movement(105, ActionState::Dead));
    assert_eq!(unit.pos_x_units, 50);
    assert_eq!(unit.pos_y_units, 0);
    assert!(matches!(unit.action_state, ActionState::Dead));
}

#[test]
fn apply_hp_delta_records_died_stop_with_latest_continuous_position() {
    let mut target = runtime_unit(2, Side::Opponent);
    target.stats = stats(100, 100);
    target.stats.attack = 0;
    target.stats.attack_interval_ms = 1000;
    target.stats.move_speed_units_per_ms = 10;
    let mut movement = MovementState::new_at(Position::new(0, 0), 100);
    movement.target_x_units = 100;
    movement.target_y_units = 0;
    movement.last_update_ms = 100;
    target.action_state = ActionState::Moving(movement);

    let outcome = target.apply_hp_delta_and_record(-999, HpChangeReason::Command, 105).unwrap();
    assert!(outcome.died);
    assert!(outcome.stopped_moving);
    assert_eq!(target.move_epoch, 1);

    assert_eq!(target.stats.current_health, 0);
    assert_eq!(target.pos_x_units, 50);
    assert!(matches!(target.action_state, ActionState::Dead));
}

#[test]
fn a_standing_unit_marked_dead_starts_a_new_epoch() {
    let mut unit = runtime_unit(3, Side::Player);
    unit.move_epoch = u32::MAX;
    assert!(!unit.mark_dead(10));
    assert_eq!(unit.move_epoch, 0);
    assert!(matches!(unit.action_state, ActionState::Dead));
}

#[test]
fn apply_heal_percent_affects_current_health() {
    let mut unit = runtime_unit(10, Side::Player);
    unit.stats = stats(20, 10);
    unit.apply_heal(0, 50, 0);
    assert_eq!(unit.stats.current_health, 20);
}

#[test]
fn heal_amounts_truncate_and_clamp() {
    assert_eq!(heal_delta(20, 0, 50), 10);
    assert_eq!(heal_delta(0, 3, 150), 4);
    assert_eq!(heal_delta(7, 0, -50), -3);
    assert_eq!(heal_delta(u32::MAX, i32::MAX, i32::MAX), i32::MAX);
    assert_eq!(heal_delta(u32::MAX, i32::MIN, i32::MIN), i32::MIN);
    let mut dead = runtime_unit(1, Side::Player);
    dead.stats = stats(20, 0);
    assert_eq!(dead.apply_heal(5, 0, 0), None);
    assert_eq!(dead.stats.current_health, 0);
}

#[test]
fn schedule_pending_autocasts_is_deterministic_and_consumes_pending_cause() {
    let caster_small: u128 = 1;
    let caster_large: u128 = 2;
    let mut u1 = runtime_unit(caster_small, Side::Player);
    u1.pending_cast = true;
    let mut u2 = runtime_unit(caster_large, Side::Player);
    u2.pending_cast = true;
    // Listed in the other order: the casts still start smallest first.
    let mut units = vec![u2, u1];

    let started = schedule_pending_autocasts(&mut units, &Vec::new(), 100, 42);

    // Pending flags are consumed and causes are taken.
    for unit in &units {
        assert!(!unit.pending_cast);
        assert!(unit.pending_cast_cause.is_none());
    }
    assert_eq!(started, vec![(caster_small, 42), (caster_large, 42)]);
}

#[test]
fn schedule_pending_autocast_respects_next_action_time_and_dead_units() {
    let mut unit = runtime_unit(1, Side::Player);
    unit.pending_cast = true;
    unit.next_action_time = 200;
    let mut units = vec![unit];

    let started = schedule_pending_autocasts(&mut units, &Vec::new(), 100, 7);
    assert!(started.is_empty());
    assert!(units[0].pending_cast);

    // Dead unit never schedules.
    units[0].next_action_time = 0;
    units[0].stats.current_health = 0;
    let started = schedule_pending_autocasts(&mut units, &Vec::new(), 300, 7);
    assert!(started.is_empty());
}

#[test]
fn silenced_units_keep_their_pending_cast_and_earlier_causes_win() {
    let mut unit = runtime_unit(3, Side::Player);
    unit.pending_cast = true;
    unit.pending_cast_cause = Some(5);
    let mut units = vec![unit];
    assert!(schedule_pending_autocasts(&mut units, &vec![3], 0, 9).is_empty());
    assert!(units[0].pending_cast);
    assert_eq!(units[0].pending_cast_cause, Some(5));
    assert_eq!(schedule_pending_autocasts(&mut units, &Vec::new(), 0, 9), vec![(3, 5)]);
}
