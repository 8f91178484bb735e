use battle_core::motion::{
    distance_minus_reach_sq_at, div_ceil_i128, div_floor_i128, earliest_instant_range_enter_dt,
    earliest_range_enter_dt_ms, sample_projectile_position_at, SampledMotionSegment,
};
use battle_core::movement::{ActionState, ContinuousPosition, MovementSegmentEndKind, MovementState};
use battle_core::position::{Position, Side};
use battle_core::types::{ActionLocks, RuntimeUnit, UnitStats};

fn still(x: i64, y: i64) -> SampledMotionSegment {
    SampledMotionSegment { pos_x_units: x, pos_y_units: y, vel_x_units_per_ms: 0, vel_y_units_per_ms: 0, moving_until_ms: None }
}

fn moving(x: i64, y: i64, vx: i64, vy: i64, until: u64) -> SampledMotionSegment {
    SampledMotionSegment { pos_x_units: x, pos_y_units: y, vel_x_units_per_ms: vx, vel_y_units_per_ms: vy, moving_until_ms: Some(until) }
}

#[test]
fn floor_and_ceil_division_round_towards_the_right_infinity() {
    assert_eq!(div_floor_i128(7, 2), 3);
    assert_eq!(div_floor_i128(-7, 2), -4);
    assert_eq!(div_floor_i128(7, -2), -4);
    assert_eq!(div_floor_i128(-7, -2), 3);
    assert_eq!(div_ceil_i128(7, 2), 4);
    assert_eq!(div_ceil_i128(-7, 2), -3);
    assert_eq!(div_ceil_i128(7, -2), -3);
    assert_eq!(div_ceil_i128(-6, 2), -3);
}

#[test]
fn reach_gap_is_squared_distance_minus_squared_reach() {
    // Offset (10, 0) closing at 2 per ms: at t = 3 the offset is (4, 0).
    assert_eq!(distance_minus_reach_sq_at(10, 0, -2, 0, 3, 3), 16 - 9);
    assert_eq!(distance_minus_reach_sq_at(3, 4, 0, 0, 5, 100), 0);
}

#[test]
fn earliest_range_enter_finds_the_first_meeting_millisecond() {
    let attacker = moving(0, 0, 10, 0, 1_000);
    let target = still(100, 0);
    // Within reach 25 once 10 t >= 75, that is at t = 8.
    assert_eq!(earliest_range_enter_dt_ms(attacker, target, 25, 100), Some(8));
    assert_eq!(earliest_range_enter_dt_ms(attacker, target, 25, 7), None);
    assert_eq!(earliest_range_enter_dt_ms(attacker, target, 25, 0), None);
    // Already within reach: at once.
    assert_eq!(earliest_range_enter_dt_ms(still(0, 0), still(3, 4), 5, 10), Some(0));
    // Moving apart never meets.
    assert_eq!(earliest_range_enter_dt_ms(moving(0, 0, -1, 0, 10), target, 25, 50), None);
}

#[test]
fn earliest_instant_range_enter_takes_the_soonest_target() {
    let attacker = moving(0, 0, 10, 0, 1_000);
    let targets = vec![still(200, 0), still(0, 120), still(100, 0)];
    assert_eq!(earliest_instant_range_enter_dt(attacker, &targets, 0, 50, 25), Some(8));
    assert_eq!(earliest_instant_range_enter_dt(attacker, &Vec::new(), 0, 50, 25), None);
}

#[test]
fn projectile_position_is_interpolated_until_arrival() {
    let start = ContinuousPosition::new(0, 0);
    let aim = ContinuousPosition::new(100, -50);
    assert_eq!(sample_projectile_position_at(start, aim, 0, 10), start);
    assert_eq!(sample_projectile_position_at(start, aim, 5, 10), ContinuousPosition::new(50, -25));
    assert_eq!(sample_projectile_position_at(start, aim, 10, 10), aim);
    assert_eq!(sample_projectile_position_at(start, aim, 3, 0), aim);
}

fn moving_unit(speed: u32, target_x: i64) -> RuntimeUnit {
    let mut movement = MovementState::new_at(Position::new(0, 0), 0);
    movement.step_to = Position::new(1, 0);
    movement.target_x_units = target_x;
    movement.target_y_units = 0;
    RuntimeUnit {
        instance_id: 1,
        owner: Side::Player,
        base_uuid: 0,
        stats: UnitStats {
            max_health: 10,
            current_health: 10,
            attack: 1,
            defense: 0,
            attack_interval_ms: 1,
            move_speed_units_per_ms: speed,
        },
        pos_x_units: 0,
        pos_y_units: 0,
        move_epoch: 0,
        action_state: ActionState::Moving(movement),
        action_locks: ActionLocks::default(),
        current_target: None,
        next_basic_attack_ms: 0,
        pending_basic_attack: false,
        resonance_current: 0,
        resonance_max: 100,
        resonance_lock_ms: 0,
        next_action_time: 0,
        pending_cast: false,
        pending_cast_cause: None,
    }
}

#[test]
fn sampled_motion_of_a_moving_unit_heads_for_its_step_target() {
    let unit = moving_unit(10, 500);
    let s = unit.sample_motion_segment(20);
    assert_eq!(s.pos_x_units, 200);
    assert_eq!(s.vel_x_units_per_ms, 10);
    assert_eq!(s.vel_y_units_per_ms, 0);
    assert!(s.moving_until_ms.is_some());
}

#[test]
fn move_step_ends_early_when_a_melee_unit_meets_an_enemy() {
    let mut unit = moving_unit(10, 500);
    let enemies = vec![still(300, 0)];
    let end = unit.schedule_current_move_step(0, true, &enemies, 100).unwrap();
    // Within 100 of x = 300 once x >= 200, at t = 20; the boundary is at t = 50.
    assert_eq!(end, 20);
    match &unit.action_state {
        ActionState::Moving(m) => assert_eq!(m.step_end_kind, MovementSegmentEndKind::RangeEnter),
        _ => panic!("expected a moving unit"),
    }

    let mut unit = moving_unit(10, 500);
    let end = unit.schedule_current_move_step(0, false, &enemies, 100).unwrap();
    assert_eq!(end, 50);
    match &unit.action_state {
        ActionState::Moving(m) => assert_eq!(m.step_end_kind, MovementSegmentEndKind::Boundary),
        _ => panic!("expected a moving unit"),
    }
}
