use battle_core::advance::{
    choose_available_advance_candidate, enemy_axis_alignment, enemy_distance_from_start, follow_up_step,
    forward_progress, intent_state_of, is_near_engage_candidate, lateral_shift, distance_after_first_step,
    preserves_locked_target_approach, should_hold_position, MovementAdvanceCandidate, MovementIntentContext,
    MovementIntentStateKind,
};
use battle_core::movement::ActionState;
use battle_core::plan::compare_advance_candidate;
use battle_core::position::{Position, Side};
use battle_core::targets::TargetCandidate;
use std::cmp::Ordering;

fn context(unit_id: u128, start: Position, current_target: Option<u128>) -> MovementIntentContext {
    MovementIntentContext {
        unit_id,
        state_kind: MovementIntentStateKind::Idle,
        repath_counter: 0,
        start_pos: start,
        owner: Side::Player,
        base_uuid: 0,
        current_target,
    }
}

fn candidate(
    enemy_id: u128,
    enemy_pos: Position,
    destination: Position,
    path: Vec<Position>,
    first_step_reserved_by_other: bool,
    second_step_blocked_by_friendly: bool,
) -> MovementAdvanceCandidate {
    let first_step = path[1];
    MovementAdvanceCandidate {
        enemy_id,
        enemy_pos,
        destination,
        path,
        first_step,
        first_step_reserved_by_other,
        second_step_blocked_by_friendly,
    }
}

#[test]
fn compare_advance_candidate_prefers_open_second_step_over_equal_detour() {
    let units: Vec<TargetCandidate> = Vec::new();
    let enemy_id: u128 = 1;
    let ctx = context(10, Position::new(2, 3), Some(enemy_id));

    let blocked_left = candidate(
        enemy_id,
        Position::new(2, 0),
        Position::new(1, 1),
        vec![Position::new(2, 3), Position::new(1, 2), Position::new(1, 1)],
        false,
        true,
    );
    let open_right = candidate(
        enemy_id,
        Position::new(2, 0),
        Position::new(3, 1),
        vec![Position::new(2, 3), Position::new(3, 2), Position::new(3, 1)],
        false,
        false,
    );

    assert_eq!(compare_advance_candidate(ctx, &units, &blocked_left, &open_right), Ordering::Greater);
    assert_eq!(compare_advance_candidate(ctx, &units, &open_right, &blocked_left), Ordering::Less);
}

#[test]
fn choose_available_advance_candidate_prefers_unclaimed_follow_up_step() {
    let enemy_id: u128 = 2;
    let blocked_follow_up = candidate(
        enemy_id,
        Position::new(2, 0),
        Position::new(1, 1),
        vec![Position::new(2, 3), Position::new(1, 2), Position::new(1, 1)],
        false,
        false,
    );
    let open_follow_up = candidate(
        enemy_id,
        Position::new(2, 0),
        Position::new(3, 1),
        vec![Position::new(2, 3), Position::new(3, 2), Position::new(3, 1)],
        false,
        false,
    );

    let claimed_first_steps: Vec<Position> = Vec::new();
    let claimed_follow_up_steps = vec![(Side::Player, Position::new(1, 1), 0_u8)];

    let candidates = vec![blocked_follow_up.clone(), open_follow_up.clone()];
    let chosen = choose_available_advance_candidate(Side::Player, &candidates, &claimed_first_steps, &claimed_follow_up_steps)
        .expect("expected an available candidate");

    assert_eq!(candidates[chosen].first_step, open_follow_up.first_step);

    let all_claimed_follow_ups =
        vec![(Side::Player, Position::new(1, 1), 0_u8), (Side::Player, Position::new(3, 1), 1_u8)];
    let fallback_candidates = vec![blocked_follow_up.clone(), open_follow_up];
    let fallback =
        choose_available_advance_candidate(Side::Player, &fallback_candidates, &claimed_first_steps, &all_claimed_follow_ups)
            .expect("expected fallback candidate when all follow-up steps are claimed");

    assert_eq!(fallback_candidates[fallback].first_step, blocked_follow_up.first_step);
}

#[test]
fn choose_available_advance_candidate_ignores_opposing_follow_up_claim() {
    let enemy_id: u128 = 20;
    let preferred = candidate(
        enemy_id,
        Position::new(5, 1),
        Position::new(5, 4),
        vec![Position::new(5, 6), Position::new(5, 5), Position::new(5, 4)],
        false,
        false,
    );
    let detour = candidate(
        enemy_id,
        Position::new(5, 1),
        Position::new(4, 4),
        vec![Position::new(5, 6), Position::new(5, 5), Position::new(4, 4)],
        false,
        false,
    );

    let claimed_first_steps: Vec<Position> = Vec::new();
    let opposing_claims = vec![(Side::Opponent, Position::new(5, 4), 0_u8)];
    let candidates = vec![preferred.clone(), detour];

    let chosen = choose_available_advance_candidate(Side::Player, &candidates, &claimed_first_steps, &opposing_claims)
        .expect("expected candidate despite opposing follow-up claim");

    assert_eq!(candidates[chosen].destination, preferred.destination);
}

#[test]
fn compare_advance_candidate_prefers_unreserved_first_step_before_equal_detour() {
    let units: Vec<TargetCandidate> = Vec::new();
    let enemy_id: u128 = 3;
    let ctx = context(11, Position::new(2, 3), Some(enemy_id));

    let reserved_first_step = candidate(
        enemy_id,
        Position::new(2, 0),
        Position::new(1, 1),
        vec![Position::new(2, 3), Position::new(1, 2), Position::new(1, 1)],
        true,
        false,
    );
    let open_first_step = candidate(
        enemy_id,
        Position::new(2, 0),
        Position::new(3, 1),
        vec![Position::new(2, 3), Position::new(3, 2), Position::new(3, 1)],
        false,
        false,
    );

    assert_eq!(compare_advance_candidate(ctx, &units, &reserved_first_step, &open_first_step), Ordering::Greater);
    assert_eq!(compare_advance_candidate(ctx, &units, &open_first_step, &reserved_first_step), Ordering::Less);
}

#[test]
fn compare_advance_candidate_prefers_locked_sticky_approach_over_equal_lateral_finish() {
    let units: Vec<TargetCandidate> = Vec::new();
    let enemy_id: u128 = 4;
    let ctx = context(12, Position::new(1, 4), Some(enemy_id));

    let straight_follow_up = candidate(
        enemy_id,
        Position::new(0, 1),
        Position::new(1, 2),
        vec![Position::new(1, 4), Position::new(1, 3), Position::new(1, 2)],
        false,
        false,
    );
    let lateral_finish = candidate(
        enemy_id,
        Position::new(0, 1),
        Position::new(0, 2),
        vec![Position::new(1, 4), Position::new(1, 3), Position::new(0, 2)],
        false,
        false,
    );

    assert_eq!(compare_advance_candidate(ctx, &units, &straight_follow_up, &lateral_finish), Ordering::Less);
    assert_eq!(compare_advance_candidate(ctx, &units, &lateral_finish, &straight_follow_up), Ordering::Greater);
}

#[test]
fn candidate_measures() {
    let start = Position::new(2, 3);
    assert_eq!(forward_progress(Side::Player, start, Position::new(2, 2)), 1);
    assert_eq!(forward_progress(Side::Opponent, start, Position::new(2, 2)), -1);
    assert_eq!(enemy_distance_from_start(start, Position::new(5, 0)), 3);
    assert_eq!(lateral_shift(start, Position::new(0, 2)), 2);
    assert_eq!(distance_after_first_step(Position::new(3, 2), Position::new(5, 0)), 2);
    assert_eq!(enemy_axis_alignment(Position::new(3, 2), Position::new(5, 0)), 2);

    let near = candidate(1, Position::new(2, 1), Position::new(2, 2), vec![start, Position::new(2, 2)], false, false);
    assert!(is_near_engage_candidate(&near));
    assert_eq!(follow_up_step(&near), None);
    assert!(preserves_locked_target_approach(context(9, start, Some(1)), &near));
    assert!(!preserves_locked_target_approach(context(9, start, Some(2)), &near));
    let far = candidate(
        1,
        Position::new(2, 0),
        Position::new(2, 1),
        vec![start, Position::new(2, 2), Position::new(2, 1)],
        false,
        false,
    );
    assert!(!is_near_engage_candidate(&far));
    assert_eq!(follow_up_step(&far), Some(Position::new(2, 1)));
}

#[test]
fn priorities_and_intent_states() {
    assert_eq!(MovementIntentStateKind::Holding.priority(), 0);
    assert_eq!(MovementIntentStateKind::Yielding.priority(), 1);
    assert_eq!(MovementIntentStateKind::Blocked.priority(), 2);
    assert_eq!(MovementIntentStateKind::Idle.priority(), 3);
    assert_eq!(MovementIntentStateKind::WaitRepath.priority(), 4);

    assert_eq!(intent_state_of(&ActionState::Idle, 5), Some((MovementIntentStateKind::Idle, 0)));
    assert_eq!(
        intent_state_of(&ActionState::Holding { until_ms: 5, repath_counter: 2 }, 5),
        Some((MovementIntentStateKind::Holding, 2))
    );
    assert_eq!(intent_state_of(&ActionState::Blocked { until_ms: 6, repath_counter: 2 }, 5), None);
    assert_eq!(
        intent_state_of(&ActionState::WaitRepath { until_ms: 1, repath_counter: 7 }, 5),
        Some((MovementIntentStateKind::WaitRepath, 7))
    );
    assert_eq!(intent_state_of(&ActionState::Dead, 5), None);
}

#[test]
fn holding_waits_for_a_near_engage_on_the_locked_target() {
    let units = vec![
        TargetCandidate {
            id: 1,
            owner: Side::Player,
            current_health: 5,
            tile: Some(Position::new(2, 3)),
            pos_x_units: 0,
            pos_y_units: 0,
            range_tiles: 1,
        },
        TargetCandidate {
            id: 7,
            owner: Side::Opponent,
            current_health: 5,
            tile: Some(Position::new(2, 1)),
            pos_x_units: 0,
            pos_y_units: 0,
            range_tiles: 1,
        },
    ];
    let start = Position::new(2, 3);
    let locked_near =
        candidate(7, Position::new(2, 1), Position::new(2, 2), vec![start, Position::new(2, 2)], false, false);
    let other = candidate(
        8,
        Position::new(0, 0),
        Position::new(1, 1),
        vec![start, Position::new(1, 2), Position::new(1, 1)],
        false,
        false,
    );
    let candidates = vec![other.clone(), locked_near.clone()];
    let ctx = context(1, start, Some(7));
    assert!(should_hold_position(ctx, &units, &candidates, &Vec::new(), &other));
    assert!(!should_hold_position(ctx, &units, &candidates, &Vec::new(), &locked_near));
    assert!(!should_hold_position(ctx, &units, &candidates, &vec![Position::new(2, 2)], &other));
    assert!(!should_hold_position(context(1, start, None), &units, &candidates, &Vec::new(), &other));
}
