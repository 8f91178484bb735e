use battle_core::advance::{MovementIntentContext, MovementIntentStateKind};
use battle_core::engage::{direct_continuous_melee_engage_target, is_direct_continuous_melee_engage_approach};
use battle_core::interrupts::{
    candidate_first_step_reserved_by_other, candidate_second_step_blocked_by_friendly,
    first_step_is_temporarily_blocked_by_friendly,
};
use battle_core::position::{Position, Side};
use battle_core::targets::{basic_attack_range_policy, AttackDelivery, TargetCandidate};

fn unit_at(id: u128, owner: Side, health: u32, tile: Option<Position>) -> TargetCandidate {
    TargetCandidate { id, owner, current_health: health, tile, pos_x_units: 0, pos_y_units: 0, range_tiles: 1 }
}

fn context(start: Position, current_target: Option<u128>) -> MovementIntentContext {
    MovementIntentContext {
        unit_id: 1,
        state_kind: MovementIntentStateKind::Idle,
        repath_counter: 0,
        start_pos: start,
        owner: Side::Player,
        base_uuid: 0,
        current_target,
    }
}

#[test]
fn a_continuous_melee_attacker_engages_the_adjacent_enemy_directly() {
    let start = Position::new(2, 2);
    let units = vec![
        unit_at(1, Side::Player, 10, Some(start)),
        unit_at(7, Side::Opponent, 10, Some(Position::new(3, 3))),
        unit_at(8, Side::Opponent, 10, Some(Position::new(5, 5))),
    ];
    let melee = basic_attack_range_policy(Some(AttackDelivery::Instant), Some(1));
    assert_eq!(
        direct_continuous_melee_engage_target(&units, context(start, None), melee),
        Some((7, Position::new(3, 3)))
    );
    // A kept target out of range gives way to the one in range.
    assert_eq!(
        direct_continuous_melee_engage_target(&units, context(start, Some(8)), melee),
        Some((7, Position::new(3, 3)))
    );
}

#[test]
fn ranged_attackers_and_lonely_units_do_not_engage_directly() {
    let start = Position::new(2, 2);
    let units = vec![
        unit_at(1, Side::Player, 10, Some(start)),
        unit_at(7, Side::Opponent, 10, Some(Position::new(3, 2))),
    ];
    let ranged = basic_attack_range_policy(Some(AttackDelivery::Projectile), Some(1));
    assert_eq!(direct_continuous_melee_engage_target(&units, context(start, None), ranged), None);
    let far = vec![
        unit_at(1, Side::Player, 10, Some(start)),
        unit_at(7, Side::Opponent, 10, Some(Position::new(4, 2))),
        unit_at(9, Side::Opponent, 0, Some(Position::new(3, 2))),
    ];
    let melee = basic_attack_range_policy(Some(AttackDelivery::Instant), Some(1));
    assert_eq!(direct_continuous_melee_engage_target(&far, context(start, None), melee), None);
}

#[test]
fn a_direct_approach_steps_onto_the_enemy_within_range() {
    let melee = basic_attack_range_policy(Some(AttackDelivery::Instant), Some(1));
    let ranged = basic_attack_range_policy(Some(AttackDelivery::Projectile), Some(1));
    let start = Position::new(0, 0);
    let step = Position::new(1, 1);
    assert!(is_direct_continuous_melee_engage_approach(melee, 7, start, step, Some(7)));
    assert!(!is_direct_continuous_melee_engage_approach(melee, 7, start, step, Some(8)));
    assert!(!is_direct_continuous_melee_engage_approach(melee, 7, start, step, None));
    assert!(!is_direct_continuous_melee_engage_approach(melee, 7, start, start, Some(7)));
    assert!(!is_direct_continuous_melee_engage_approach(melee, 7, start, Position::new(2, 0), Some(7)));
    assert!(!is_direct_continuous_melee_engage_approach(ranged, 7, start, step, Some(7)));
}

#[test]
fn steps_held_by_living_friends_block_for_a_while() {
    let units = vec![
        unit_at(1, Side::Player, 10, None),
        unit_at(2, Side::Player, 10, None),
        unit_at(3, Side::Player, 0, None),
        unit_at(4, Side::Opponent, 10, None),
    ];
    assert!(first_step_is_temporarily_blocked_by_friendly(&units, 1, Some(2), None));
    assert!(first_step_is_temporarily_blocked_by_friendly(&units, 1, None, Some(2)));
    assert!(first_step_is_temporarily_blocked_by_friendly(&units, 1, Some(4), Some(2)));
    assert!(!first_step_is_temporarily_blocked_by_friendly(&units, 1, Some(3), Some(4)));
    assert!(!first_step_is_temporarily_blocked_by_friendly(&units, 1, None, None));
    assert!(!first_step_is_temporarily_blocked_by_friendly(&units, 99, Some(2), Some(2)));

    let path = vec![Position::new(0, 0), Position::new(1, 0), Position::new(2, 0)];
    assert!(candidate_second_step_blocked_by_friendly(&units, Side::Player, &path, None, Some(2)));
    assert!(!candidate_second_step_blocked_by_friendly(&units, Side::Opponent, &path, None, Some(2)));
    assert!(candidate_second_step_blocked_by_friendly(&units, Side::Opponent, &path, Some(4), None));
    assert!(!candidate_second_step_blocked_by_friendly(&units, Side::Player, &path[..2].to_vec(), Some(2), Some(2)));
}

#[test]
fn a_first_step_reserved_by_another_unit_is_flagged() {
    let path = vec![Position::new(0, 0), Position::new(1, 0)];
    assert!(candidate_first_step_reserved_by_other(1, &path, Some(2)));
    assert!(!candidate_first_step_reserved_by_other(1, &path, Some(1)));
    assert!(!candidate_first_step_reserved_by_other(1, &path, None));
    assert!(!candidate_first_step_reserved_by_other(1, &vec![Position::new(0, 0)], Some(2)));
}
