use battle_core::advance::{MovementAdvanceCandidate, MovementIntentContext, MovementIntentStateKind};
use battle_core::intents::{
    collect_movement_intent_contexts, movement_intent_context_of, resolve_movement_intent_decisions, CommitOutcome,
    IntentInputs, MovementDecision, StepAdvance,
};
use battle_core::movement::ActionState;
use battle_core::movement::PlannedContinuation;
use battle_core::position::{Position, Side};
use battle_core::targets::TargetCandidate;

fn context(unit_id: u128, kind: MovementIntentStateKind, start: Position, current_target: Option<u128>) -> MovementIntentContext {
    MovementIntentContext {
        unit_id,
        state_kind: kind,
        repath_counter: 5,
        start_pos: start,
        owner: Side::Player,
        base_uuid: 0,
        current_target,
    }
}

fn candidate(enemy_id: u128, enemy_pos: Position, path: Vec<Position>) -> MovementAdvanceCandidate {
    MovementAdvanceCandidate {
        enemy_id,
        enemy_pos,
        destination: *path.last().unwrap(),
        first_step: path[1],
        path,
        first_step_reserved_by_other: false,
        second_step_blocked_by_friendly: false,
    }
}

fn inputs(candidates: Vec<MovementAdvanceCandidate>) -> IntentInputs {
    IntentInputs {
        engage_target: None,
        direct_engage: None,
        candidates,
        has_loose_attack_path: false,
        wait_repath_until_ms: 777,
    }
}

#[test]
fn units_in_one_pass_never_share_a_first_step() {
    let a = Position::new(2, 4);
    let b = Position::new(3, 4);
    let shared = Position::new(2, 3);
    let enemy = Position::new(2, 0);
    let contexts = vec![
        context(1, MovementIntentStateKind::Holding, a, None),
        context(2, MovementIntentStateKind::Idle, b, None),
        context(3, MovementIntentStateKind::Idle, b, None),
    ];
    let ins = vec![
        inputs(vec![candidate(9, enemy, vec![a, shared, Position::new(2, 2)])]),
        inputs(vec![
            candidate(9, enemy, vec![b, shared, Position::new(2, 2)]),
            candidate(9, enemy, vec![b, Position::new(3, 3), Position::new(2, 2)]),
        ]),
        inputs(vec![candidate(9, enemy, vec![b, shared, Position::new(1, 2)])]),
    ];
    let units: Vec<TargetCandidate> = Vec::new();
    let d = resolve_movement_intent_decisions(100, &contexts, &ins, &units);
    assert_eq!(d.len(), 3);
    assert_eq!(
        d[0],
        MovementDecision::Advance {
            unit_id: 1,
            enemy_id: 9,
            destination: Position::new(2, 2),
            path: vec![a, shared, Position::new(2, 2)],
            planned_continuation: Some(PlannedContinuation {
                step: Position::new(2, 2),
                owner_priority: 0,
                claim_priority: None,
                retry_budget: 1,
            }),
            orchestrator_priority: 0,
            repath_counter: 5,
        }
    );
    // The second unit's preferred first step is taken; it takes its other
    // candidate, whose follow-up step was claimed with priority 0.
    assert_eq!(
        d[1],
        MovementDecision::Advance {
            unit_id: 2,
            enemy_id: 9,
            destination: Position::new(2, 2),
            path: vec![b, Position::new(3, 3), Position::new(2, 2)],
            planned_continuation: Some(PlannedContinuation {
                step: Position::new(2, 2),
                owner_priority: 3,
                claim_priority: Some(0),
                retry_budget: 1,
            }),
            orchestrator_priority: 3,
            repath_counter: 5,
        }
    );
    // The third unit has no free first step left.
    assert_eq!(d[2], MovementDecision::Yield { unit_id: 3, retry_at_ms: 110, repath_counter: 5 });
}

#[test]
fn engage_and_direct_engage_come_first_and_claim_nothing() {
    let start = Position::new(1, 1);
    let contexts = vec![
        context(1, MovementIntentStateKind::Idle, start, None),
        context(2, MovementIntentStateKind::Idle, start, None),
        context(3, MovementIntentStateKind::Idle, start, None),
    ];
    let step = Position::new(1, 0);
    let mut engage = inputs(vec![candidate(9, Position::new(0, 0), vec![start, step])]);
    engage.engage_target = Some(9);
    let mut direct = inputs(vec![candidate(9, Position::new(0, 0), vec![start, step])]);
    direct.direct_engage = Some((8, Position::new(2, 2)));
    let plain = inputs(vec![candidate(9, Position::new(0, 0), vec![start, step])]);
    let units: Vec<TargetCandidate> = Vec::new();
    let d = resolve_movement_intent_decisions(0, &contexts, &vec![engage, direct, plain], &units);
    assert_eq!(d[0], MovementDecision::Engage { unit_id: 1, target_id: 9 });
    assert_eq!(
        d[1],
        MovementDecision::Advance {
            unit_id: 2,
            enemy_id: 8,
            destination: Position::new(2, 2),
            path: vec![start, Position::new(2, 2)],
            planned_continuation: None,
            orchestrator_priority: 3,
            repath_counter: 5,
        }
    );
    assert!(matches!(d[2], MovementDecision::Advance { unit_id: 3, .. }));
}

#[test]
fn units_without_candidates_block_or_wait_to_repath() {
    let start = Position::new(1, 1);
    let contexts = vec![
        context(1, MovementIntentStateKind::Idle, start, None),
        context(2, MovementIntentStateKind::WaitRepath, start, None),
    ];
    let mut loose = inputs(Vec::new());
    loose.has_loose_attack_path = true;
    let stuck = inputs(Vec::new());
    let units: Vec<TargetCandidate> = Vec::new();
    let d = resolve_movement_intent_decisions(u64::MAX - 1, &contexts, &vec![loose, stuck], &units);
    assert_eq!(d[0], MovementDecision::Blocked { unit_id: 1, retry_at_ms: u64::MAX, repath_counter: 5 });
    assert_eq!(d[1], MovementDecision::WaitRepath { unit_id: 2, until_ms: 777, repath_counter: 6 });
}

#[test]
fn a_unit_holds_to_keep_a_near_engage_on_its_locked_target() {
    let start = Position::new(2, 3);
    let units = vec![
        TargetCandidate {
            id: 1,
            owner: Side::Player,
            current_health: 5,
            tile: Some(start),
            pos_x_units: 0,
            pos_y_units: 0,
            range_tiles: 1,
        },
        TargetCandidate {
            id: 7,
            owner: Side::Opponent,
            current_health: 5,
            tile: Some(Position::new(2, 1)),
            pos_x_units: 0,
            pos_y_units: 0,
            range_tiles: 1,
        },
    ];
    let other = candidate(8, Position::new(0, 0), vec![start, Position::new(1, 2), Position::new(1, 1)]);
    let near = candidate(7, Position::new(2, 1), vec![start, Position::new(2, 2)]);
    let contexts = vec![
        context(5, MovementIntentStateKind::Idle, Position::new(3, 3), None),
        context(1, MovementIntentStateKind::Idle, start, Some(7)),
    ];
    // When the first unit takes the near step, the second advances on the
    // other enemy; while the near step is free, it holds instead.
    let first_takes_near = inputs(vec![candidate(7, Position::new(2, 1), vec![Position::new(3, 3), Position::new(2, 2)])]);
    let d = resolve_movement_intent_decisions(0, &contexts, &vec![first_takes_near, inputs(vec![other.clone(), near.clone()])], &units);
    assert!(matches!(d[1], MovementDecision::Advance { unit_id: 1, enemy_id: 8, .. }));

    let first_elsewhere = inputs(vec![candidate(7, Position::new(2, 1), vec![Position::new(3, 3), Position::new(3, 2)])]);
    let d = resolve_movement_intent_decisions(0, &contexts, &vec![first_elsewhere, inputs(vec![other, near])], &units);
    assert_eq!(d[1], MovementDecision::Hold { unit_id: 1, retry_at_ms: 20, repath_counter: 5 });
}

fn unit(id: u128) -> battle_core::types::RuntimeUnit {
    battle_core::types::RuntimeUnit {
        instance_id: id,
        owner: Side::Player,
        base_uuid: 0,
        stats: battle_core::types::UnitStats {
            max_health: 10,
            current_health: 10,
            attack: 1,
            defense: 0,
            attack_interval_ms: 1,
            move_speed_units_per_ms: 1,
        },
        pos_x_units: 0,
        pos_y_units: 0,
        move_epoch: 3,
        action_state: ActionState::Idle,
        action_locks: battle_core::types::ActionLocks::default(),
        current_target: None,
        next_basic_attack_ms: 0,
        pending_basic_attack: false,
        resonance_current: 0,
        resonance_max: 100,
        resonance_lock_ms: 0,
        next_action_time: 0,
        pending_cast: false,
        pending_cast_cause: None,
    }
}

#[test]
fn committing_engage_and_advance_updates_the_unit() {
    let mut u = unit(1);
    u.engage(9);
    assert_eq!(u.current_target, Some(9));
    assert_eq!(u.action_state, ActionState::Idle);

    let start = Position::new(2, 2);
    let path = vec![start, Position::new(3, 1), Position::new(4, 1)];
    assert!(u.begin_advance(start, 50, 7, Position::new(4, 1), path.clone(), None, 3, 2));
    assert_eq!(u.current_target, Some(7));
    assert_eq!(u.move_epoch, 4);
    match &u.action_state {
        ActionState::Moving(m) => {
            assert_eq!(m.path, path);
            assert_eq!(m.reserved_destination, Some(Position::new(4, 1)));
            assert_eq!(m.step_from, start);
            assert_eq!(m.step_to, Position::new(3, 1));
            assert_eq!(m.step_start_x_units, 2_000_000);
            assert_eq!(m.target_x_units, 2_500_000);
            assert_eq!(m.target_y_units, 1_500_000);
            assert_eq!(m.step_started_at_ms, 50);
            assert_eq!(m.orchestrator_priority, 3);
            assert_eq!(m.repath_counter, 2);
        },
        _ => panic!("expected a moving unit"),
    }
    let before = u.clone();
    assert!(!u.begin_advance(start, 60, 8, start, vec![start], None, 3, 2));
    assert_eq!(u.current_target, before.current_target);
    assert_eq!(u.move_epoch, before.move_epoch);
}

#[test]
fn contexts_are_collected_in_priority_then_identifier_order() {
    let mut idle_high = unit(9);
    idle_high.action_state = ActionState::Idle;
    let mut holding = unit(7);
    holding.action_state = ActionState::Holding { until_ms: 50, repath_counter: 2 };
    let mut blocked_late = unit(3);
    blocked_late.action_state = ActionState::Blocked { until_ms: 500, repath_counter: 0 };
    let mut idle_low = unit(1);
    idle_low.action_state = ActionState::Idle;
    let mut locked = unit(4);
    locked.action_locks.lock_movement_until(200);
    let mut still = unit(5);
    still.stats.move_speed_units_per_ms = 0;
    let unplaced = unit(6);
    let units = vec![idle_high, holding, blocked_late, idle_low, locked, still, unplaced];
    let p = Some(Position::new(1, 1));
    let tiles = vec![p, p, p, p, p, p, None];
    let contexts = collect_movement_intent_contexts(&units, &tiles, 100);
    let order: Vec<(u128, MovementIntentStateKind)> = contexts.iter().map(|c| (c.unit_id, c.state_kind)).collect();
    assert_eq!(
        order,
        vec![
            (7, MovementIntentStateKind::Holding),
            (1, MovementIntentStateKind::Idle),
            (9, MovementIntentStateKind::Idle),
        ]
    );
    assert_eq!(contexts[0].repath_counter, 2);
    assert_eq!(movement_intent_context_of(&units[2], p, 100), None);
    assert!(movement_intent_context_of(&units[2], p, 500).is_some());
}

fn advance(path: Vec<Position>, repath_counter: u32) -> MovementDecision {
    MovementDecision::Advance {
        unit_id: 1,
        enemy_id: 7,
        destination: Position::new(4, 1),
        path,
        planned_continuation: None,
        orchestrator_priority: 3,
        repath_counter,
    }
}

#[test]
fn committing_an_advance_starts_the_walk_when_its_first_step_is_secured() {
    let start = Position::new(2, 2);
    let path = vec![start, Position::new(3, 1), Position::new(4, 1)];
    let mut u = unit(1);
    let r = u.commit_movement_decision(50, advance(path.clone(), 2), Some(start), false, true, false, 9);
    assert_eq!(r, CommitOutcome::Started);
    assert_eq!(u.current_target, Some(7));
    assert_eq!(u.move_epoch, 4);
    assert!(matches!(&u.action_state, ActionState::Moving(m) if m.path == path && m.step_to == Position::new(3, 1)));
    // A direct approach needs no reservation.
    let mut d = unit(1);
    let r = d.commit_movement_decision(50, advance(path.clone(), 2), Some(start), true, false, true, 9);
    assert_eq!(r, CommitOutcome::Started);
}

#[test]
fn committing_an_advance_that_cannot_start_waits() {
    let start = Position::new(2, 2);
    let path = vec![start, Position::new(3, 1)];
    // No next tile: wait to repath with the next counter.
    let mut u = unit(1);
    u.current_target = Some(7);
    let r = u.commit_movement_decision(50, advance(vec![start], u32::MAX), Some(start), false, true, false, 9);
    assert_eq!(r, CommitOutcome::RetryAt { at_ms: 159 });
    assert_eq!(u.action_state, ActionState::WaitRepath { until_ms: 159, repath_counter: 0 });
    assert_eq!(u.current_target, None);
    // Not on the battlefield.
    let mut off = unit(1);
    let before = off.clone();
    assert_eq!(off.commit_movement_decision(50, advance(path.clone(), 2), None, false, true, false, 9), CommitOutcome::NotPlaced);
    assert_eq!(off, before);
    // The first step is held by a friend: blocked.
    let mut b = unit(1);
    let r = b.commit_movement_decision(50, advance(path.clone(), 2), Some(start), false, false, true, 9);
    assert_eq!(r, CommitOutcome::RetryAt { at_ms: 80 });
    assert_eq!(b.action_state, ActionState::Blocked { until_ms: 80, repath_counter: 2 });
    // Otherwise: wait to repath.
    let mut w = unit(1);
    let r = w.commit_movement_decision(50, advance(path, 2), Some(start), false, false, false, 9);
    assert_eq!(r, CommitOutcome::RetryAt { at_ms: 159 });
    assert_eq!(w.action_state, ActionState::WaitRepath { until_ms: 159, repath_counter: 3 });
}

#[test]
fn committing_waiting_decisions_enters_their_states() {
    let mut e = unit(1);
    assert_eq!(e.commit_movement_decision(10, MovementDecision::Engage { unit_id: 1, target_id: 5 }, None, false, false, false, 0), CommitOutcome::Done);
    assert_eq!(e.current_target, Some(5));
    let mut y = unit(1);
    let r = y.commit_movement_decision(10, MovementDecision::Yield { unit_id: 1, retry_at_ms: 20, repath_counter: 1 }, None, false, false, false, 0);
    assert_eq!(r, CommitOutcome::RetryAt { at_ms: 20 });
    assert_eq!(y.action_state, ActionState::Yielding { until_ms: 20, repath_counter: 1 });
    let mut h = unit(1);
    let r = h.commit_movement_decision(10, MovementDecision::Hold { unit_id: 1, retry_at_ms: 5, repath_counter: 1 }, None, false, false, false, 0);
    assert_eq!(r, CommitOutcome::RetryAt { at_ms: 10 });
    assert_eq!(h.action_state, ActionState::Holding { until_ms: 10, repath_counter: 1 });
    let mut b = unit(1);
    let r = b.commit_movement_decision(10, MovementDecision::Blocked { unit_id: 1, retry_at_ms: 40, repath_counter: 0 }, None, false, false, false, 0);
    assert_eq!(r, CommitOutcome::RetryAt { at_ms: 40 });
    let mut w = unit(1);
    w.current_target = Some(3);
    let r = w.commit_movement_decision(10, MovementDecision::WaitRepath { unit_id: 1, until_ms: 99, repath_counter: 4 }, None, false, false, false, 0);
    assert_eq!(r, CommitOutcome::RetryAt { at_ms: 99 });
    assert_eq!(w.current_target, None);
    assert_eq!(w.action_state, ActionState::WaitRepath { until_ms: 99, repath_counter: 4 });
}

#[test]
fn movement_intent_prioritizes_holding_unit_over_fresh_idle_competitor() {
    let holder_start = Position::new(1, 3);
    let idle_start = Position::new(2, 3);
    let target = Position::new(1, 1);
    let step = Position::new(1, 2);
    let mut holder = unit(1);
    holder.action_state = ActionState::Holding { until_ms: 100, repath_counter: 2 };
    let idle = unit(2);
    // The idle competitor comes first among the units; the holder still goes first.
    let units = vec![idle, holder];
    let tiles = vec![Some(idle_start), Some(holder_start)];
    let ordered = collect_movement_intent_contexts(&units, &tiles, 100);
    assert_eq!(ordered.len(), 2);
    assert_eq!(ordered[0].unit_id, 1);
    assert_eq!(ordered[1].unit_id, 2);
    let ins = vec![
        inputs(vec![candidate(3, target, vec![holder_start, step])]),
        inputs(vec![candidate(3, target, vec![idle_start, step])]),
    ];
    let none: Vec<TargetCandidate> = Vec::new();
    let d = resolve_movement_intent_decisions(100, &ordered, &ins, &none);
    assert!(matches!(&d[0], MovementDecision::Advance { unit_id: 1, path, .. } if path[1] == step));
    assert!(matches!(d[1], MovementDecision::Hold { .. } | MovementDecision::Yield { .. } | MovementDecision::Blocked { .. }));
}

#[test]
fn a_step_onto_a_tile_moves_the_cursor_and_names_the_next_step() {
    let start = Position::new(2, 2);
    let path = vec![start, Position::new(3, 1), Position::new(4, 1), Position::new(5, 1)];
    let mut u = unit(1);
    assert!(u.begin_advance(start, 50, 7, Position::new(5, 1), path.clone(), None, 3, 2));
    let r = u.advance_after_step(Position::new(3, 1), 60);
    assert_eq!(r, StepAdvance::Next { next_step: Position::new(4, 1), continuation: None });
    assert!(matches!(&u.action_state, ActionState::Moving(m) if m.path_cursor == 1 && m.step_from == Position::new(3, 1) && m.step_started_at_ms == 60));
    assert_eq!(u.advance_after_step(Position::new(4, 1), 70), StepAdvance::Next { next_step: Position::new(5, 1), continuation: None });
    assert_eq!(u.advance_after_step(Position::new(5, 1), 80), StepAdvance::Arrived);
    let mut idle = unit(2);
    assert_eq!(idle.advance_after_step(start, 10), StepAdvance::NotMoving);
}
