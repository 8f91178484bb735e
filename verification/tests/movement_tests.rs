use battle_core::motion::{ceil_div_u64, projectile_flight_ms, projectile_flight_ms_for_delivery, time_to_reach_target_ms};
use battle_core::movement::{
    battlefield_forward_vector, boundary_target_units, tile_center_units, ContinuousPosition, MovementSegmentEndKind,
    MovementState, HALF_TILE_UNITS, TILE_UNITS_PER_TILE,
};
use battle_core::position::{Position, Side};

#[test]
fn projectile_flight_ms_is_zero_when_speed_is_zero() {
    assert_eq!(projectile_flight_ms(1, 0), 0);
    assert_eq!(projectile_flight_ms(1_000_000, 0), 0);
}

#[test]
fn projectile_flight_ms_is_zero_when_distance_is_zero() {
    assert_eq!(projectile_flight_ms(0, 0), 0);
    assert_eq!(projectile_flight_ms(0, 1), 0);
    assert_eq!(projectile_flight_ms(0, u32::MAX), 0);
}

#[test]
fn projectile_flight_ms_uses_ceil_division() {
    assert_eq!(projectile_flight_ms(1_000_000, 3_000), 334);
    assert_eq!(projectile_flight_ms(1_000_000, 2_000_000), 1);
    assert_eq!(projectile_flight_ms(2_000_000, 2_000_000), 1);
}

#[test]
fn projectile_flight_ms_for_delivery_matches_flight_time() {
    assert_eq!(projectile_flight_ms_for_delivery(1_000_000, 3_000), 334);
    assert_eq!(projectile_flight_ms_for_delivery(7, 0), 0);
}

#[test]
fn ceil_div_u64_rounds_up_and_treats_zero_divisor_as_one() {
    assert_eq!(ceil_div_u64(0, 5), 0);
    assert_eq!(ceil_div_u64(10, 5), 2);
    assert_eq!(ceil_div_u64(11, 5), 3);
    assert_eq!(ceil_div_u64(7, 0), 7);
    assert_eq!(ceil_div_u64(u64::MAX, 1), u64::MAX);
}

#[test]
fn time_to_reach_target_ms_uses_chebyshev_distance_and_ceil_division() {
    // dist=max(|dx|,|dy|)=11, speed=10 -> ceil(11/10)=2
    let dt = time_to_reach_target_ms(0, 0, 11, -1, 10);
    assert_eq!(dt, 2);

    // Even when already at target, it returns at least 1ms.
    let dt = time_to_reach_target_ms(5, 5, 5, 5, 10);
    assert_eq!(dt, 1);
}

#[test]
fn tile_center_units_maps_tiles_to_unit_coordinates() {
    let p = Position::new(2, 3);
    let (x, y) = tile_center_units(p);
    assert_eq!(x, 2_i64 * TILE_UNITS_PER_TILE as i64);
    assert_eq!(y, 3_i64 * TILE_UNITS_PER_TILE as i64);
}

#[test]
fn boundary_target_units_points_to_tile_boundary_in_move_direction() {
    let from = Position::new(5, 5);

    let (tx, ty) = boundary_target_units(from, Position::new(6, 5));
    assert_eq!(tx, 5_i64 * TILE_UNITS_PER_TILE as i64 + HALF_TILE_UNITS as i64);
    assert_eq!(ty, 5_i64 * TILE_UNITS_PER_TILE as i64);

    let (tx, ty) = boundary_target_units(from, Position::new(5, 4));
    assert_eq!(tx, 5_i64 * TILE_UNITS_PER_TILE as i64);
    assert_eq!(ty, 5_i64 * TILE_UNITS_PER_TILE as i64 - HALF_TILE_UNITS as i64);

    let (tx, ty) = boundary_target_units(from, Position::new(4, 4));
    assert_eq!(tx, 5_i64 * TILE_UNITS_PER_TILE as i64 - HALF_TILE_UNITS as i64);
    assert_eq!(ty, 5_i64 * TILE_UNITS_PER_TILE as i64 - HALF_TILE_UNITS as i64);
}

#[test]
fn movement_state_new_at_sets_consistent_defaults() {
    let pos = Position::new(1, 1);
    let state = MovementState::new_at(pos, 123);
    assert_eq!(state.path, vec![pos]);
    assert_eq!(state.reserved_destination, None);
    assert_eq!(state.planned_continuation, None);
    assert_eq!(state.path_cursor, 0);
    assert_eq!(state.last_update_ms, 123);
    assert_eq!(state.step_from, pos);
    assert_eq!(state.step_to, pos);
    assert_eq!(state.step_started_at_ms, 123);
    assert_eq!(state.step_ends_at_ms, 123);
    assert_eq!(state.step_end_kind, MovementSegmentEndKind::Boundary);

    let (cx, cy) = tile_center_units(pos);
    assert_eq!(state.step_start_x_units, cx);
    assert_eq!(state.step_start_y_units, cy);
    assert_eq!(state.target_x_units, cx);
    assert_eq!(state.target_y_units, cy);
}

#[test]
fn movement_state_exposes_current_segment() {
    let pos = Position::new(1, 1);
    let mut state = MovementState::new_at(pos, 123);
    state.step_to = Position::new(1, 0);
    state.step_start_x_units = 1_000_000;
    state.step_start_y_units = 1_000_000;
    state.target_x_units = 1_000_000;
    state.target_y_units = 500_000;
    state.step_ends_at_ms = 173;
    state.step_end_kind = MovementSegmentEndKind::RangeEnter;

    let segment = state.current_segment();
    assert_eq!(segment.from_tile, pos);
    assert_eq!(segment.to_tile, Position::new(1, 0));
    assert_eq!(segment.start, ContinuousPosition::new(1_000_000, 1_000_000));
    assert_eq!(segment.target, ContinuousPosition::new(1_000_000, 500_000));
    assert_eq!(segment.started_at_ms, 123);
    assert_eq!(segment.ends_at_ms, 173);
    assert_eq!(segment.end_kind, MovementSegmentEndKind::RangeEnter);
}

#[test]
fn continuous_tile_center_matches_tile_center_units() {
    let p = ContinuousPosition::tile_center(Position::new(-3, 4));
    assert_eq!(p, ContinuousPosition::new(-3_000_000, 4_000_000));
}

#[test]
fn battlefield_forward_vector_points_player_down_the_rows_and_opponent_up() {
    assert_eq!(battlefield_forward_vector(Side::Player), (0, 1));
    assert_eq!(battlefield_forward_vector(Side::Opponent), (0, -1));
}
