use battle_core::plan::{
    compare_destination_preference, compare_enemy_target_preference, compare_enemy_target_range_preference,
    compare_in_range_target_preference, compare_plan_preference,
};
use battle_core::position::{Position, Side};
use battle_core::targets::TargetCandidate;
use std::cmp::Ordering;

#[test]
fn compare_plan_preference_is_antisymmetric_for_tied_inputs() {
    let mover_start = Position::new(1, 0);
    let enemy_a = Position::new(0, 0);
    let enemy_b = Position::new(2, 0);
    let best_dest_a = Position::new(0, 0);
    let best_dest_b = Position::new(1, 0);

    let ab = compare_plan_preference(Side::Player, mover_start, enemy_a, enemy_b, best_dest_a, best_dest_b);
    let ba = compare_plan_preference(Side::Player, mover_start, enemy_b, enemy_a, best_dest_b, best_dest_a);

    assert_eq!(ab, ba.reverse());
}

#[test]
fn destination_preference_favours_the_row_of_the_side() {
    let start = Position::new(2, 3);
    let enemy = Position::new(2, 1);
    // The player prefers smaller rows, the opponent larger ones.
    assert_eq!(
        compare_destination_preference(Side::Player, start, enemy, Position::new(2, 0), Position::new(2, 2)),
        Ordering::Less
    );
    assert_eq!(
        compare_destination_preference(Side::Opponent, start, enemy, Position::new(2, 0), Position::new(2, 2)),
        Ordering::Greater
    );
    // Same row: nearer the enemy, then less sideways shift.
    assert_eq!(
        compare_destination_preference(Side::Player, start, enemy, Position::new(3, 2), Position::new(1, 2)),
        Ordering::Greater
    );
    assert_eq!(
        compare_destination_preference(Side::Player, start, enemy, Position::new(2, 2), Position::new(2, 2)),
        Ordering::Equal
    );
}

fn unit(id: u128, range_tiles: u8) -> TargetCandidate {
    TargetCandidate {
        id,
        owner: Side::Opponent,
        current_health: 1,
        tile: None,
        pos_x_units: 0,
        pos_y_units: 0,
        range_tiles,
    }
}

#[test]
fn enemy_preferences_rank_range_then_identifier() {
    let units = vec![unit(1, 3), unit(2, 1), unit(3, 1)];
    assert_eq!(compare_enemy_target_range_preference(&units, 1, 2), Ordering::Greater);
    assert_eq!(compare_enemy_target_range_preference(&units, 2, 3), Ordering::Equal);
    assert_eq!(compare_enemy_target_preference(&units, 2, 3), Ordering::Less);
    assert_eq!(compare_enemy_target_preference(&units, 9, 1), Ordering::Greater);
    let attacker = Position::new(2, 2);
    assert_eq!(
        compare_in_range_target_preference(&units, Side::Player, attacker, 2, Position::new(1, 1), 3, Position::new(2, 1)),
        Ordering::Greater
    );
    assert_eq!(
        compare_in_range_target_preference(&units, Side::Player, attacker, 1, Position::new(2, 1), 3, Position::new(1, 1)),
        Ordering::Greater
    );
}
