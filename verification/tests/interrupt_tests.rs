use battle_core::interrupts::{
    classify_movement_blocker, is_temporarily_blocked_by_friendly_unit, moving_unit_has_near_engage_lock,
    MovementBlockerKind,
};
use battle_core::movement::{ActionState, MovementState};
use battle_core::position::{Position, Side};
use battle_core::targets::{choose_enemy_target_in_tile_range, persisted_target_in_range, TargetCandidate};
use battle_core::types::{ActionLocks, RuntimeUnit, UnitStats};

fn unit(id: u128, owner: Side) -> RuntimeUnit {
    RuntimeUnit {
        instance_id: id,
        owner,
        base_uuid: 0,
        stats: UnitStats {
            max_health: 10,
            current_health: 10,
            attack: 1,
            defense: 0,
            attack_interval_ms: 1,
            move_speed_units_per_ms: 2,
        },
        pos_x_units: 0,
        pos_y_units: 0,
        move_epoch: 7,
        action_state: ActionState::Idle,
        action_locks: ActionLocks::default(),
        current_target: None,
        next_basic_attack_ms: 0,
        pending_basic_attack: false,
        resonance_current: 0,
        resonance_max: 100,
        resonance_lock_ms: 0,
        next_action_time: 0,
        pending_cast: false,
        pending_cast_cause: None,
    }
}

/// A unit walking east from the centre of (0, 0), started at 100 ms, with
/// `path_len` tiles on its path.
fn walker(id: u128, path_len: i32) -> RuntimeUnit {
    let mut u = unit(id, Side::Player);
    let mut state = MovementState::new_at(Position::new(0, 0), 100);
    state.path = (0..path_len).map(|x| Position::new(x, 0)).collect();
    state.target_x_units = state.step_start_x_units + 50;
    u.pos_x_units = state.step_start_x_units;
    u.pos_y_units = state.step_start_y_units;
    u.action_state = ActionState::Moving(state);
    u
}

fn candidate(id: u128, owner: Side, health: u32) -> TargetCandidate {
    TargetCandidate {
        id,
        owner,
        current_health: health,
        tile: Some(Position::new(id as i32, 0)),
        pos_x_units: 0,
        pos_y_units: 0,
        range_tiles: 1,
    }
}

#[test]
fn interrupting_a_walker_advances_it_and_starts_a_new_epoch() {
    let mut u = walker(1, 3);
    let start_x = u.pos_x_units;
    let start_y = u.pos_y_units;
    assert!(u.interrupt_movement(110, ActionState::Idle));
    assert_eq!(u.pos_x_units, start_x + 20);
    assert_eq!(u.pos_y_units, start_y);
    assert_eq!(u.move_epoch, 8);
    assert_eq!(u.action_state, ActionState::Idle);
}

#[test]
fn interrupting_a_waiting_unit_keeps_its_position() {
    let mut u = unit(1, Side::Player);
    u.pos_x_units = 42;
    u.action_state = ActionState::Holding { until_ms: 500, repath_counter: 1 };
    let next = ActionState::HardCCLocked { until_ms: 900, movement: None };
    assert!(u.interrupt_movement(200, next.clone()));
    assert_eq!(u.pos_x_units, 42);
    assert_eq!(u.move_epoch, 8);
    assert_eq!(u.action_state, next);

    let mut w = unit(2, Side::Player);
    w.move_epoch = u32::MAX;
    w.action_state = ActionState::WaitRepath { until_ms: 10, repath_counter: 0 };
    assert!(w.interrupt_movement(5, ActionState::Idle));
    assert_eq!(w.move_epoch, 0);
}

#[test]
fn interrupting_an_idle_or_locked_unit_changes_nothing() {
    let mut u = unit(1, Side::Player);
    let before = u.clone();
    assert!(!u.interrupt_movement(10, ActionState::Dead));
    assert_eq!(u, before);

    let mut l = unit(2, Side::Player);
    l.action_state = ActionState::HardCCLocked { until_ms: 50, movement: None };
    let before = l.clone();
    assert!(!l.interrupt_movement(10, ActionState::Idle));
    assert_eq!(l, before);
}

#[test]
fn blockers_are_classified_by_due_set_priority_and_side() {
    let units = vec![
        candidate(1, Side::Player, 10),
        candidate(2, Side::Player, 10),
        candidate(3, Side::Player, 0),
        candidate(4, Side::Opponent, 10),
        candidate(5, Side::Player, 10),
    ];
    let due = vec![2, 5];
    let priorities = vec![(2, 9), (5, 3), (1, 5)];
    assert_eq!(
        classify_movement_blocker(&units, 1, 2, 5, &due, &priorities),
        MovementBlockerKind::DeferToHigherPriorityDueMover
    );
    assert_eq!(classify_movement_blocker(&units, 1, 5, 5, &due, &priorities), MovementBlockerKind::YieldToDueMover);
    assert_eq!(classify_movement_blocker(&units, 1, 2, 9, &due, &priorities), MovementBlockerKind::YieldToDueMover);
    assert_eq!(classify_movement_blocker(&units, 1, 2, 5, &vec![], &priorities), MovementBlockerKind::FriendlyStatic);
    assert_eq!(classify_movement_blocker(&units, 1, 3, 5, &due, &priorities), MovementBlockerKind::HardFailure);
    assert_eq!(classify_movement_blocker(&units, 1, 4, 5, &due, &priorities), MovementBlockerKind::HardFailure);
    assert_eq!(classify_movement_blocker(&units, 1, 99, 5, &due, &priorities), MovementBlockerKind::HardFailure);
    // A due blocker without a known priority is yielded to.
    assert_eq!(classify_movement_blocker(&units, 1, 4, 5, &vec![4], &priorities), MovementBlockerKind::YieldToDueMover);
}

#[test]
fn a_friendly_blocker_must_be_known_alive_and_of_the_same_side() {
    let units = vec![candidate(1, Side::Player, 10), candidate(2, Side::Player, 10), candidate(3, Side::Player, 0)];
    assert!(is_temporarily_blocked_by_friendly_unit(&units, 1, 2));
    assert!(!is_temporarily_blocked_by_friendly_unit(&units, 1, 3));
    assert!(!is_temporarily_blocked_by_friendly_unit(&units, 9, 2));
    assert!(!is_temporarily_blocked_by_friendly_unit(&units, 1, 9));
}

#[test]
fn a_near_engage_lock_needs_a_living_target_and_a_path_ending_within_a_tile() {
    let units = vec![candidate(1, Side::Player, 10), candidate(8, Side::Opponent, 10), candidate(9, Side::Opponent, 0)];
    let mut u = walker(1, 2);
    u.current_target = Some(8);
    assert!(moving_unit_has_near_engage_lock(&units, &u));
    let mut far = walker(1, 3);
    far.current_target = Some(8);
    assert!(!moving_unit_has_near_engage_lock(&units, &far));
    if let ActionState::Moving(state) = &mut far.action_state {
        state.path_cursor = 1;
    }
    assert!(moving_unit_has_near_engage_lock(&units, &far));
    u.current_target = Some(9);
    assert!(!moving_unit_has_near_engage_lock(&units, &u));
    let mut idle = unit(1, Side::Player);
    idle.current_target = Some(8);
    assert!(!moving_unit_has_near_engage_lock(&units, &idle));
}

#[test]
fn a_walker_stops_when_its_attack_has_a_target() {
    let units = vec![candidate(1, Side::Player, 10), candidate(8, Side::Opponent, 10)];
    let mut u = walker(1, 4);
    let start_x = u.pos_x_units;
    assert!(u.stop_moving_unit_on_target_in_range(&units, 105, Some(8)));
    assert_eq!(u.current_target, Some(8));
    assert_eq!(u.action_state, ActionState::Idle);
    assert_eq!(u.pos_x_units, start_x + 10);
    assert_eq!(u.move_epoch, 8);
}

#[test]
fn a_walker_without_a_target_in_range_walks_on() {
    let units = vec![candidate(1, Side::Player, 10), candidate(8, Side::Opponent, 10)];
    // Far from the end of its path: the target is dropped.
    let mut u = walker(1, 4);
    u.current_target = Some(8);
    let before = u.clone();
    assert!(!u.stop_moving_unit_on_target_in_range(&units, 105, None));
    assert_eq!(u.current_target, None);
    assert_eq!(u.action_state, before.action_state);
    assert_eq!(u.pos_x_units, before.pos_x_units);
    // Near the end of its path: the target is kept.
    let mut near = walker(1, 2);
    near.current_target = Some(8);
    let before = near.clone();
    assert!(!near.stop_moving_unit_on_target_in_range(&units, 105, None));
    assert_eq!(near, before);
}

#[test]
fn dead_or_standing_units_do_not_stop() {
    let units = vec![candidate(1, Side::Player, 10), candidate(8, Side::Opponent, 10)];
    let mut dead = walker(1, 4);
    dead.stats.current_health = 0;
    let before = dead.clone();
    assert!(!dead.stop_moving_unit_on_target_in_range(&units, 105, Some(8)));
    assert_eq!(dead, before);
    let mut idle = unit(1, Side::Player);
    let before = idle.clone();
    assert!(!idle.stop_moving_unit_on_target_in_range(&units, 105, Some(8)));
    assert_eq!(idle, before);
}

/// The target a basic attack of range one picks for a unit of side `owner`
/// on tile `pos`: its locked target while in range, else the best enemy in
/// range.
fn basic_attack_selection(units: &Vec<TargetCandidate>, owner: Side, pos: Position, current_target: Option<u128>) -> Option<u128> {
    persisted_target_in_range(units, owner, current_target, pos, 1)
        .or_else(|| choose_enemy_target_in_tile_range(owner, pos, 1, units))
}

fn placed(id: u128, owner: Side, health: u32, tile: Position) -> TargetCandidate {
    TargetCandidate { id, owner, current_health: health, tile: Some(tile), pos_x_units: 0, pos_y_units: 0, range_tiles: 1 }
}

/// A moving unit as the orchestrator tests build it: standing at the origin
/// in continuous units, walking `path` from `cursor`.
fn moving_unit(id: u128, start: Position, path: Vec<Position>, cursor: u32, locked: Option<u128>) -> RuntimeUnit {
    let mut u = unit(id, Side::Player);
    u.stats.move_speed_units_per_ms = 1;
    u.move_epoch = 0;
    let mut movement = MovementState::new_at(start, 100);
    movement.path = path;
    movement.path_cursor = cursor;
    u.action_state = ActionState::Moving(movement);
    u.current_target = locked;
    u
}

#[test]
fn moving_unit_retargets_to_nearer_enemy_when_locked_target_is_out_of_range() {
    let tile = Position::new(1, 0);
    let path = vec![Position::new(0, 0), tile, Position::new(2, 0)];
    let mut u = moving_unit(5, Position::new(0, 0), path, 0, Some(6));
    let units = vec![
        placed(5, Side::Player, 10, tile),
        placed(6, Side::Opponent, 10, Position::new(3, 0)),
        placed(7, Side::Opponent, 10, Position::new(2, 0)),
    ];
    let selected = basic_attack_selection(&units, Side::Player, tile, u.current_target);
    let stopped = u.stop_moving_unit_on_target_in_range(&units, 100, selected);
    assert!(stopped);
    assert_eq!(u.current_target, Some(7));
    assert!(matches!(u.action_state, ActionState::Idle));
}

#[test]
fn moving_unit_engages_other_enemy_when_near_engage_locked_target_is_not_yet_in_range() {
    let from = Position::new(1, 0);
    let toward = Position::new(2, 0);
    let mut u = moving_unit(15, from, vec![Position::new(0, 0), from, toward], 1, Some(16));
    let units = vec![
        placed(15, Side::Player, 10, from),
        placed(16, Side::Opponent, 10, Position::new(3, 0)),
        placed(17, Side::Opponent, 10, Position::new(1, 1)),
    ];
    let selected = basic_attack_selection(&units, Side::Player, from, u.current_target);
    let stopped = u.stop_moving_unit_on_target_in_range(&units, 100, selected);
    assert!(stopped);
    assert_eq!(u.current_target, Some(17));
    assert!(matches!(u.action_state, ActionState::Idle));
}

#[test]
fn moving_unit_retargets_to_straight_enemy_over_equal_range_diagonal_enemy() {
    let tile = Position::new(2, 2);
    let path = vec![Position::new(2, 3), tile, Position::new(2, 1)];
    let mut u = moving_unit(18, Position::new(2, 3), path, 0, Some(19));
    let units = vec![
        placed(18, Side::Player, 10, tile),
        placed(19, Side::Opponent, 10, Position::new(2, 0)),
        placed(20, Side::Opponent, 10, Position::new(1, 1)),
        placed(21, Side::Opponent, 10, Position::new(2, 1)),
    ];
    let selected = basic_attack_selection(&units, Side::Player, tile, u.current_target);
    let stopped = u.stop_moving_unit_on_target_in_range(&units, 100, selected);
    assert!(stopped);
    assert_eq!(u.current_target, Some(21));
    assert!(matches!(u.action_state, ActionState::Idle));
}

#[test]
fn moving_unit_keeps_locked_target_when_almost_in_range_and_no_other_enemy_is_attackable() {
    let from = Position::new(1, 0);
    let toward = Position::new(2, 0);
    let mut u = moving_unit(150, from, vec![Position::new(0, 0), from, toward], 1, Some(151));
    let units = vec![placed(150, Side::Player, 10, from), placed(151, Side::Opponent, 10, Position::new(3, 0))];
    let selected = basic_attack_selection(&units, Side::Player, from, u.current_target);
    let stopped = u.stop_moving_unit_on_target_in_range(&units, 100, selected);
    assert!(!stopped);
    assert_eq!(u.current_target, Some(151));
    assert!(matches!(u.action_state, ActionState::Moving(_)));
}

#[test]
fn moving_unit_retargets_when_near_engage_locked_target_is_dead() {
    let from = Position::new(1, 0);
    let toward = Position::new(2, 0);
    let mut u = moving_unit(18, from, vec![Position::new(0, 0), from, toward], 1, Some(19));
    let units = vec![
        placed(18, Side::Player, 10, from),
        placed(19, Side::Opponent, 0, Position::new(3, 0)),
        placed(20, Side::Opponent, 10, Position::new(1, 1)),
    ];
    let selected = basic_attack_selection(&units, Side::Player, from, u.current_target);
    let stopped = u.stop_moving_unit_on_target_in_range(&units, 100, selected);
    assert!(stopped);
    assert_eq!(u.current_target, Some(20));
    assert!(matches!(u.action_state, ActionState::Idle));
}
