use battle_core::autocast::{AutoCastStartOutcome, CastTiming};
use battle_core::movement::{ActionState, MovementState};
use battle_core::position::{Position, Side};
use battle_core::types::{ActionLocks, RuntimeUnit, UnitStats};

fn caster() -> RuntimeUnit {
    RuntimeUnit {
        instance_id: 1,
        owner: Side::Player,
        base_uuid: 0,
        stats: UnitStats {
            max_health: 10,
            current_health: 10,
            attack: 1,
            defense: 0,
            attack_interval_ms: 1,
            move_speed_units_per_ms: 1,
        },
        pos_x_units: 0,
        pos_y_units: 0,
        move_epoch: 0,
        action_state: ActionState::Idle,
        action_locks: ActionLocks::default(),
        current_target: None,
        next_basic_attack_ms: 0,
        pending_basic_attack: false,
        resonance_current: 100,
        resonance_max: 100,
        resonance_lock_ms: 300,
        next_action_time: 0,
        pending_cast: true,
        pending_cast_cause: Some(4),
    }
}

const FOCUSED: CastTiming = CastTiming { focus_time_ms: 500, allows_basic_attack: false, allows_move: false };
const INSTANT: CastTiming = CastTiming { focus_time_ms: 0, allows_basic_attack: true, allows_move: true };

#[test]
fn a_focused_cast_locks_the_caster_and_stops_its_walk() {
    let mut u = caster();
    let mut movement = MovementState::new_at(Position::new(0, 0), 1000);
    movement.target_x_units = movement.step_start_x_units + 100;
    u.pos_x_units = movement.step_start_x_units;
    let start_x = u.pos_x_units;
    u.action_state = ActionState::Moving(movement);
    let r = u.begin_autocast(1010, false, 9, Some(FOCUSED), true);
    assert_eq!(r, AutoCastStartOutcome::Started { cast_end_ms: 1510, movement_intent_at_ms: Some(1510) });
    assert_eq!(u.next_action_time, 1510);
    assert_eq!(u.action_locks.resonance_gain_until_ms, 1510);
    assert_eq!(u.action_locks.basic_attack_until_ms, 1510);
    assert_eq!(u.action_locks.movement_until_ms, 1510);
    assert_eq!(u.action_state, ActionState::Idle);
    assert_eq!(u.pos_x_units, start_x + 10);
    assert_eq!(u.move_epoch, 1);
}

#[test]
fn an_instant_cast_takes_a_millisecond_and_leaves_attacks_and_moves_free() {
    let mut u = caster();
    u.action_state = ActionState::Holding { until_ms: 50, repath_counter: 0 };
    let r = u.begin_autocast(20, false, 9, Some(INSTANT), true);
    assert_eq!(r, AutoCastStartOutcome::Started { cast_end_ms: 21, movement_intent_at_ms: None });
    assert_eq!(u.next_action_time, 21);
    assert_eq!(u.action_locks.resonance_gain_until_ms, 21);
    assert_eq!(u.action_locks.basic_attack_until_ms, 0);
    assert_eq!(u.action_locks.movement_until_ms, 0);
    assert_eq!(u.action_state, ActionState::Holding { until_ms: 50, repath_counter: 0 });
}

#[test]
fn a_silenced_or_busy_caster_keeps_its_cast_pending() {
    let mut u = caster();
    u.pending_cast = false;
    u.pending_cast_cause = None;
    assert_eq!(u.begin_autocast(20, true, 9, Some(INSTANT), true), AutoCastStartOutcome::Silenced);
    assert!(u.pending_cast);
    assert_eq!(u.pending_cast_cause, Some(9));

    let mut busy = caster();
    busy.next_action_time = 70;
    assert_eq!(busy.begin_autocast(20, false, 9, Some(INSTANT), true), AutoCastStartOutcome::Deferred { at_ms: 70 });
    assert_eq!(busy.pending_cast_cause, Some(4));
    assert_eq!(busy.next_action_time, 70);
}

#[test]
fn dead_unplaced_or_skillless_casters_cast_nothing() {
    let mut dead = caster();
    dead.stats.current_health = 0;
    let before = dead.clone();
    assert_eq!(dead.begin_autocast(20, true, 9, Some(INSTANT), true), AutoCastStartOutcome::Ignored);
    assert_eq!(dead, before);
    let mut skillless = caster();
    let before = skillless.clone();
    assert_eq!(skillless.begin_autocast(20, false, 9, None, true), AutoCastStartOutcome::Ignored);
    assert_eq!(skillless, before);
    let mut unplaced = caster();
    assert_eq!(unplaced.begin_autocast(20, false, 9, Some(INSTANT), false), AutoCastStartOutcome::Ignored);
    assert_eq!(unplaced, before);
}

#[test]
fn a_cast_ends_on_time_emptying_resonance() {
    let mut u = caster();
    let r = u.begin_autocast(1000, false, 9, Some(FOCUSED), true);
    assert!(matches!(r, AutoCastStartOutcome::Started { cast_end_ms: 1500, .. }));
    assert_eq!(u.finish_autocast(1400), Some(1500));
    assert_eq!(u.resonance_current, 100);
    assert_eq!(u.finish_autocast(1500), None);
    assert_eq!(u.resonance_current, 0);
    assert_eq!(u.next_action_time, 0);
    assert!(!u.pending_cast);
    assert_eq!(u.action_locks.resonance_gain_until_ms, 1800);
}
