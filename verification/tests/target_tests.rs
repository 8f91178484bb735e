use battle_core::position::{Position, Side};
use battle_core::targets::{basic_attack_target_distance_key, is_basic_attack_target_in_range_with_policy};
use battle_core::targets::{
    basic_attack_delivery, basic_attack_range_policy, basic_attack_range_tiles, choose_attack_target_in_range,
    choose_attack_target_in_tile_range_for_continuous_melee, choose_enemy_target_in_tile_range,
    choose_skill_target_by_rule, compute_winner, enemy_target_range_tiles, find_nearest_alive_enemy, is_alive_enemy,
    persisted_target_if_alive, persisted_target_in_range, persisted_target_in_tile_range_for_continuous_melee,
    AttackDelivery, BattleWinner, TargetCandidate, UnitTargetRule, INSTANT_BASIC_ATTACK_MELEE_REACH_UNITS,
};

const TILE: i64 = 1_000_000;

fn placed(id: u128, owner: Side, x: i32, y: i32, range_tiles: u8) -> TargetCandidate {
    TargetCandidate {
        id,
        owner,
        current_health: 10,
        tile: Some(Position::new(x, y)),
        pos_x_units: x as i64 * TILE,
        pos_y_units: y as i64 * TILE,
        range_tiles,
    }
}

#[test]
fn choose_attack_target_in_range_prefers_melee_enemy_when_distance_is_equal() {
    let attacker_id: u128 = 80;
    let melee_enemy_id: u128 = 81;
    let ranged_enemy_id: u128 = 82;
    let units = vec![
        placed(attacker_id, Side::Player, 0, 0, 3),
        placed(melee_enemy_id, Side::Opponent, 1, 0, 1),
        placed(ranged_enemy_id, Side::Opponent, 0, 1, 3),
    ];
    let policy = basic_attack_range_policy(Some(AttackDelivery::Projectile), Some(3));
    assert_eq!(choose_attack_target_in_range(attacker_id, policy, &units), Some(melee_enemy_id));
}

#[test]
fn choose_attack_target_in_range_prefers_straight_enemy_over_equal_range_diagonal_enemy() {
    let attacker_id: u128 = 91;
    let diagonal_enemy_id: u128 = 92;
    let straight_enemy_id: u128 = 93;
    let units = vec![
        placed(attacker_id, Side::Player, 2, 2, 1),
        placed(diagonal_enemy_id, Side::Opponent, 1, 1, 1),
        placed(straight_enemy_id, Side::Opponent, 2, 1, 1),
    ];
    let policy = basic_attack_range_policy(Some(AttackDelivery::Instant), Some(1));
    assert_eq!(choose_attack_target_in_range(attacker_id, policy, &units), Some(straight_enemy_id));
}

#[test]
fn choose_enemy_target_in_tile_range_prefers_melee_enemy_when_distance_is_equal() {
    let melee_enemy_id: u128 = 83;
    let ranged_enemy_id: u128 = 84;
    let units = vec![
        placed(melee_enemy_id, Side::Opponent, 1, 0, 1),
        placed(ranged_enemy_id, Side::Opponent, 0, 1, 3),
    ];
    assert_eq!(
        choose_enemy_target_in_tile_range(Side::Player, Position::new(0, 0), 3, &units),
        Some(melee_enemy_id)
    );
}

#[test]
fn choose_enemy_target_in_tile_range_prefers_straight_enemy_over_equal_range_diagonal_enemy() {
    let diagonal_enemy_id: u128 = 94;
    let straight_enemy_id: u128 = 95;
    let units = vec![
        placed(diagonal_enemy_id, Side::Opponent, 1, 1, 1),
        placed(straight_enemy_id, Side::Opponent, 2, 1, 1),
    ];
    assert_eq!(
        choose_enemy_target_in_tile_range(Side::Player, Position::new(2, 2), 1, &units),
        Some(straight_enemy_id)
    );
}

#[test]
fn range_policy_defaults_and_continuous_melee() {
    assert_eq!(basic_attack_range_tiles(None), 1);
    assert_eq!(basic_attack_range_tiles(Some(0)), 1);
    assert_eq!(basic_attack_range_tiles(Some(4)), 4);
    assert_eq!(basic_attack_delivery(None), AttackDelivery::Instant);
    assert_eq!(basic_attack_delivery(Some(AttackDelivery::Projectile)), AttackDelivery::Projectile);

    let melee = basic_attack_range_policy(None, None);
    assert!(melee.use_continuous_range);
    assert_eq!(melee.range_tiles, 1);
    assert_eq!(melee.instant_melee_reach_units, INSTANT_BASIC_ATTACK_MELEE_REACH_UNITS);
    assert!(!basic_attack_range_policy(Some(AttackDelivery::Instant), Some(2)).use_continuous_range);
    assert!(!basic_attack_range_policy(Some(AttackDelivery::Projectile), Some(1)).use_continuous_range);
}

#[test]
fn continuous_melee_reaches_by_distance_not_by_tile() {
    let attacker_id: u128 = 1;
    let mut units = vec![placed(attacker_id, Side::Player, 0, 0, 1), placed(2, Side::Opponent, 1, 1, 1)];
    let policy = basic_attack_range_policy(None, None);
    // The diagonal neighbour is a tile away but farther than the melee reach.
    assert_eq!(choose_attack_target_in_range(attacker_id, policy, &units), None);
    // Moved in by a little, it is within reach.
    units[1].pos_x_units = 600_000;
    units[1].pos_y_units = 600_000;
    assert_eq!(choose_attack_target_in_range(attacker_id, policy, &units), Some(2));
    // Unknown attacker, dead enemy, or an ally: nothing.
    assert_eq!(choose_attack_target_in_range(99, policy, &units), None);
    units[1].current_health = 0;
    assert_eq!(choose_attack_target_in_range(attacker_id, policy, &units), None);
    units[1].current_health = 5;
    units[1].owner = Side::Player;
    assert_eq!(choose_attack_target_in_range(attacker_id, policy, &units), None);
}

#[test]
fn unplaced_attacker_ranks_by_distance_range_and_identifier() {
    let mut attacker = placed(1, Side::Player, 0, 0, 1);
    attacker.tile = None;
    let mut a = placed(7, Side::Opponent, 0, 0, 1);
    a.pos_x_units = 300_000;
    let mut b = placed(6, Side::Opponent, 0, 0, 1);
    b.pos_x_units = -300_000;
    let units = vec![attacker, a, b];
    let policy = basic_attack_range_policy(None, None);
    assert_eq!(choose_attack_target_in_range(1, policy, &units), Some(6));
}

#[test]
fn nearest_alive_enemy_breaks_ties_by_identifier() {
    let units = vec![
        placed(1, Side::Player, 2, 2, 1),
        placed(30, Side::Opponent, 2, 4, 1),
        placed(20, Side::Opponent, 4, 2, 1),
        placed(10, Side::Opponent, 0, 0, 1),
        placed(5, Side::Player, 2, 3, 1),
    ];
    assert_eq!(find_nearest_alive_enemy(1, Side::Player, &units), Some(10));
    let mut units = units;
    units[3].current_health = 0;
    assert_eq!(find_nearest_alive_enemy(1, Side::Player, &units), Some(20));
    units[0].tile = None;
    assert_eq!(find_nearest_alive_enemy(1, Side::Player, &units), None);
    assert_eq!(find_nearest_alive_enemy(77, Side::Player, &units), None);
}

#[test]
fn winner_is_decided_by_the_living_units() {
    let mut units = vec![placed(1, Side::Player, 0, 0, 1), placed(2, Side::Opponent, 1, 1, 1)];
    assert_eq!(compute_winner(&units), None);
    units[1].current_health = 0;
    assert_eq!(compute_winner(&units), Some(BattleWinner::Player));
    units[0].current_health = 0;
    assert_eq!(compute_winner(&units), Some(BattleWinner::Draw));
    units[1].current_health = 3;
    assert_eq!(compute_winner(&units), Some(BattleWinner::Opponent));
    assert_eq!(compute_winner(&Vec::new()), Some(BattleWinner::Draw));
}

#[test]
fn persisted_targets_are_kept_only_while_alive_and_in_range() {
    let mut units = vec![placed(1, Side::Player, 0, 0, 1), placed(2, Side::Opponent, 0, 2, 1)];
    assert!(is_alive_enemy(&units, 2, Side::Player));
    assert!(!is_alive_enemy(&units, 1, Side::Player));
    assert!(!is_alive_enemy(&units, 3, Side::Player));
    assert_eq!(persisted_target_if_alive(&units, Side::Player, Some(2)), Some(2));
    assert_eq!(persisted_target_if_alive(&units, Side::Player, None), None);
    assert_eq!(persisted_target_in_range(&units, Side::Player, Some(2), Position::new(0, 0), 2), Some(2));
    assert_eq!(persisted_target_in_range(&units, Side::Player, Some(2), Position::new(0, 0), 1), None);
    units[1].current_health = 0;
    assert_eq!(persisted_target_if_alive(&units, Side::Player, Some(2)), None);
}

#[test]
fn continuous_melee_tile_range_helpers() {
    let units = vec![placed(1, Side::Player, 0, 0, 1), placed(2, Side::Opponent, 1, 1, 1)];
    let melee = basic_attack_range_policy(None, None);
    let ranged = basic_attack_range_policy(Some(AttackDelivery::Projectile), Some(3));
    assert_eq!(persisted_target_in_tile_range_for_continuous_melee(&units, 1, melee, Some(2)), Some(2));
    assert_eq!(persisted_target_in_tile_range_for_continuous_melee(&units, 1, ranged, Some(2)), None);
    assert_eq!(choose_attack_target_in_tile_range_for_continuous_melee(&units, 1, melee), Some(2));
    assert_eq!(choose_attack_target_in_tile_range_for_continuous_melee(&units, 1, ranged), None);
    assert_eq!(choose_attack_target_in_tile_range_for_continuous_melee(&units, 9, melee), None);
}

#[test]
fn enemy_range_defaults_to_the_largest_for_unknown_units() {
    let units = vec![placed(1, Side::Player, 0, 0, 3)];
    assert_eq!(enemy_target_range_tiles(&units, 1), 3);
    assert_eq!(enemy_target_range_tiles(&units, 2), u8::MAX);
}

#[test]
fn skill_target_rules() {
    let mut weak = placed(3, Side::Opponent, 2, 0, 1);
    weak.current_health = 2;
    let units = vec![
        placed(1, Side::Player, 0, 0, 1),
        placed(2, Side::Opponent, 1, 0, 1),
        weak,
        placed(4, Side::Opponent, 5, 5, 1),
    ];
    let pos = Position::new(0, 0);
    assert_eq!(choose_skill_target_by_rule(&units, None, Side::Player, pos, 2, UnitTargetRule::Nearest), Some(2));
    assert_eq!(
        choose_skill_target_by_rule(&units, None, Side::Player, pos, 2, UnitTargetRule::LowestHealthEnemy),
        Some(3)
    );
    assert_eq!(
        choose_skill_target_by_rule(&units, Some(3), Side::Player, pos, 2, UnitTargetRule::CurrentTarget),
        Some(3)
    );
    // The locked target out of range falls back to the nearest.
    assert_eq!(
        choose_skill_target_by_rule(&units, Some(4), Side::Player, pos, 2, UnitTargetRule::CurrentTarget),
        Some(2)
    );
    assert_eq!(choose_skill_target_by_rule(&units, None, Side::Player, pos, 0, UnitTargetRule::Nearest), None);
}

#[test]
fn basic_attack_range_checks_by_policy() {
    let attacker = placed(1, Side::Player, 0, 0, 3);
    let target = placed(2, Side::Opponent, 2, 1, 1);
    let ranged = basic_attack_range_policy(Some(AttackDelivery::Projectile), Some(3));
    let melee = basic_attack_range_policy(None, None);
    assert_eq!(basic_attack_target_distance_key(&attacker, &target, ranged), Some(2));
    assert_eq!(basic_attack_target_distance_key(&attacker, &target, melee), Some(5_000_000_000_000));
    assert!(is_basic_attack_target_in_range_with_policy(&attacker, &target, ranged));
    assert!(!is_basic_attack_target_in_range_with_policy(&attacker, &target, melee));
    let mut unplaced = target;
    unplaced.tile = None;
    assert_eq!(basic_attack_target_distance_key(&attacker, &unplaced, ranged), None);
    assert!(!is_basic_attack_target_in_range_with_policy(&attacker, &unplaced, ranged));
}

fn placed_enemy(id: u128, owner: Side, health: u32, tile: Position) -> TargetCandidate {
    TargetCandidate { id, owner, current_health: health, tile: Some(tile), pos_x_units: 0, pos_y_units: 0, range_tiles: 1 }
}

#[test]
fn current_target_skill_rule_prefers_locked_target() {
    let caster = Position::new(0, 0);
    let units = vec![
        placed_enemy(41, Side::Player, 10, caster),
        placed_enemy(42, Side::Opponent, 10, Position::new(1, 0)),
        placed_enemy(43, Side::Opponent, 10, Position::new(1, 1)),
    ];
    assert_eq!(choose_skill_target_by_rule(&units, Some(42), Side::Player, caster, 2, UnitTargetRule::CurrentTarget), Some(42));
}

#[test]
fn lowest_health_enemy_skill_rule_prefers_weaker_target() {
    let caster = Position::new(0, 0);
    let units = vec![
        placed_enemy(51, Side::Player, 10, caster),
        placed_enemy(52, Side::Opponent, 20, Position::new(1, 0)),
        placed_enemy(53, Side::Opponent, 5, Position::new(1, 1)),
    ];
    assert_eq!(choose_skill_target_by_rule(&units, None, Side::Player, caster, 2, UnitTargetRule::LowestHealthEnemy), Some(53));
}
