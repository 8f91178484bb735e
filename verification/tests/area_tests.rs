use battle_core::areas::{
    apply_skill_area_tick, collect_cone_targets, ActiveAreaTicks, SkillAreaTickPolicy,
    area_shape_contains, collect_area_targets_at, is_point_on_skill_line, resolve_area_anchor_position,
    resolve_area_direction_hint,
    skill_delivery_accepts_unit, SkillAreaAnchorSource, SkillAreaShape, SkillHitTargetFilter, SkillImpactContext,
    StepTargetPosition,
};
use battle_core::movement::ContinuousPosition;
use battle_core::position::{Position, Side};
use battle_core::targets::TargetCandidate;

fn unit(id: u128, owner: Side, x: i64, y: i64) -> TargetCandidate {
    TargetCandidate { id, owner, current_health: 5, tile: None, pos_x_units: x, pos_y_units: y, range_tiles: 1 }
}

#[test]
fn delivery_filter_respects_side_caster_and_death() {
    let mut units = vec![unit(1, Side::Player, 0, 0), unit(2, Side::Player, 0, 0), unit(3, Side::Opponent, 0, 0)];
    assert!(!skill_delivery_accepts_unit(&units, Side::Player, 1, 1, SkillHitTargetFilter::Allies, false));
    assert!(skill_delivery_accepts_unit(&units, Side::Player, 1, 1, SkillHitTargetFilter::Allies, true));
    assert!(skill_delivery_accepts_unit(&units, Side::Player, 1, 2, SkillHitTargetFilter::Allies, false));
    assert!(!skill_delivery_accepts_unit(&units, Side::Player, 1, 2, SkillHitTargetFilter::Enemies, false));
    assert!(skill_delivery_accepts_unit(&units, Side::Player, 1, 3, SkillHitTargetFilter::Enemies, false));
    assert!(skill_delivery_accepts_unit(&units, Side::Player, 1, 3, SkillHitTargetFilter::Any, false));
    assert!(!skill_delivery_accepts_unit(&units, Side::Player, 1, 4, SkillHitTargetFilter::Any, false));
    units[2].current_health = 0;
    assert!(!skill_delivery_accepts_unit(&units, Side::Player, 1, 3, SkillHitTargetFilter::Any, false));
}

#[test]
fn shapes_are_grown_by_the_hitbox_radius() {
    let o = ContinuousPosition::new(0, 0);
    let hint = ContinuousPosition::new(1_000_000, 0);
    let circle = SkillAreaShape::Circle { radius_units: 100_000 };
    assert!(area_shape_contains(circle, o, o, hint, ContinuousPosition::new(350_000, 0)));
    assert!(!area_shape_contains(circle, o, o, hint, ContinuousPosition::new(350_001, 0)));
    let line = SkillAreaShape::Line { length_units: 1_000_000 };
    assert!(area_shape_contains(line, o, o, hint, ContinuousPosition::new(1_250_000, 250_000)));
    assert!(!area_shape_contains(line, o, o, hint, ContinuousPosition::new(1_250_001, 0)));
    let boxed = SkillAreaShape::Box { width_units: 0, height_units: 10 };
    assert!(area_shape_contains(boxed, o, o, hint, o));
    assert!(!area_shape_contains(boxed, o, o, hint, ContinuousPosition::new(1, 0)));
    let rect = SkillAreaShape::Rectangle { width_units: 200_000, length_units: 500_000 };
    assert!(area_shape_contains(rect, o, o, hint, ContinuousPosition::new(600_000, 350_000)));
    assert!(!area_shape_contains(rect, o, o, hint, ContinuousPosition::new(600_000, 350_001)));
}

#[test]
fn area_targets_come_sorted_by_identifier() {
    let units = vec![
        unit(9, Side::Opponent, 100, 0),
        unit(4, Side::Opponent, -100, 0),
        unit(7, Side::Player, 0, 0),
        unit(5, Side::Opponent, 5_000_000, 0),
        unit(2, Side::Opponent, 0, 200),
    ];
    let o = ContinuousPosition::new(0, 0);
    let ids = collect_area_targets_at(
        &units,
        Side::Player,
        7,
        o,
        o,
        ContinuousPosition::new(1, 0),
        SkillAreaShape::Circle { radius_units: 1_000 },
        SkillHitTargetFilter::Enemies,
        false,
    );
    assert_eq!(ids, vec![2, 4, 9]);
    let all = collect_area_targets_at(
        &units,
        Side::Player,
        7,
        o,
        o,
        ContinuousPosition::new(1, 0),
        SkillAreaShape::Circle { radius_units: 1_000 },
        SkillHitTargetFilter::Any,
        true,
    );
    assert_eq!(all, vec![2, 4, 7, 9]);
}

#[test]
fn skill_lines_step_towards_the_anchor_for_their_length() {
    let caster = Position::new(2, 2);
    // Diagonal towards (5, 5).
    assert!(is_point_on_skill_line(caster, Position::new(5, 5), Position::new(3, 3), 3, Side::Player));
    assert!(is_point_on_skill_line(caster, Position::new(5, 5), Position::new(5, 5), 3, Side::Player));
    assert!(!is_point_on_skill_line(caster, Position::new(5, 5), Position::new(6, 6), 3, Side::Player));
    assert!(!is_point_on_skill_line(caster, Position::new(5, 5), Position::new(2, 2), 3, Side::Player));
    assert!(!is_point_on_skill_line(caster, Position::new(5, 5), Position::new(3, 2), 3, Side::Player));
    // Only the signs of the offset count: (9, 3) steps diagonally too.
    assert!(is_point_on_skill_line(caster, Position::new(9, 3), Position::new(4, 4), 3, Side::Player));
    // Straight left.
    assert!(is_point_on_skill_line(caster, Position::new(0, 2), Position::new(1, 2), 2, Side::Player));
    assert!(!is_point_on_skill_line(caster, Position::new(0, 2), Position::new(3, 2), 2, Side::Player));
    // An anchor on the caster's tile points forward for its side.
    assert!(is_point_on_skill_line(caster, caster, Position::new(2, 1), 2, Side::Player));
    assert!(!is_point_on_skill_line(caster, caster, Position::new(2, 3), 2, Side::Player));
    assert!(is_point_on_skill_line(caster, caster, Position::new(2, 4), 2, Side::Opponent));
    // No length, no line.
    assert!(!is_point_on_skill_line(caster, Position::new(5, 5), Position::new(3, 3), 0, Side::Player));
    assert!(!is_point_on_skill_line(caster, Position::new(5, 5), Position::new(3, 3), -1, Side::Player));
}

#[test]
fn area_direction_hints_follow_impact_target_or_caster() {
    let caster = ContinuousPosition { x_units: 0, y_units: 0 };
    let anchor = ContinuousPosition { x_units: 1_000_000, y_units: 2_000_000 };
    let impact = SkillImpactContext {
        impact_position: ContinuousPosition { x_units: 5, y_units: 5 },
        direction_hint: Some(ContinuousPosition { x_units: 9, y_units: 9 }),
    };
    let no_hint = SkillImpactContext { direction_hint: None, ..impact };
    // Impact-anchored areas take the impact's direction, else reflect the caster.
    assert_eq!(
        resolve_area_direction_hint(SkillAreaAnchorSource::ImpactContext, Side::Player, caster, anchor, None, Some(impact)),
        ContinuousPosition { x_units: 9, y_units: 9 }
    );
    assert_eq!(
        resolve_area_direction_hint(SkillAreaAnchorSource::ImpactContextStart, Side::Player, caster, anchor, None, Some(no_hint)),
        ContinuousPosition { x_units: 2_000_000, y_units: 4_000_000 }
    );
    // Other areas point at the step target.
    let tile_target = StepTargetPosition::Tile { position: Position::new(3, 1) };
    assert_eq!(
        resolve_area_direction_hint(SkillAreaAnchorSource::Caster, Side::Player, caster, anchor, Some(tile_target), Some(impact)),
        ContinuousPosition { x_units: 3_000_000, y_units: 1_000_000 }
    );
    let unit_target = StepTargetPosition::Unit { sampled: Some(ContinuousPosition { x_units: 7, y_units: 8 }) };
    assert_eq!(
        resolve_area_direction_hint(SkillAreaAnchorSource::CastTarget, Side::Player, caster, anchor, Some(unit_target), None),
        ContinuousPosition { x_units: 7, y_units: 8 }
    );
    // Without a target, the impact position; a target on the anchor does not count.
    assert_eq!(
        resolve_area_direction_hint(SkillAreaAnchorSource::CastTarget, Side::Player, caster, anchor, None, Some(no_hint)),
        ContinuousPosition { x_units: 5, y_units: 5 }
    );
    let on_anchor = StepTargetPosition::Unit { sampled: Some(anchor) };
    assert_eq!(
        resolve_area_direction_hint(SkillAreaAnchorSource::CastTarget, Side::Player, caster, anchor, Some(on_anchor), None),
        ContinuousPosition { x_units: 2_000_000, y_units: 4_000_000 }
    );
    // A caster on the anchor points one tile forward for its side.
    assert_eq!(
        resolve_area_direction_hint(SkillAreaAnchorSource::Caster, Side::Player, anchor, anchor, None, None),
        ContinuousPosition { x_units: 1_000_000, y_units: 1_000_000 }
    );
    assert_eq!(
        resolve_area_direction_hint(SkillAreaAnchorSource::Caster, Side::Opponent, anchor, anchor, None, None),
        ContinuousPosition { x_units: 1_000_000, y_units: 3_000_000 }
    );
    // Reflection saturates.
    let far = ContinuousPosition { x_units: i64::MIN, y_units: 0 };
    let edge = ContinuousPosition { x_units: i64::MAX - 1, y_units: 0 };
    assert_eq!(
        resolve_area_direction_hint(SkillAreaAnchorSource::Caster, Side::Player, far, edge, None, None),
        ContinuousPosition { x_units: i64::MAX, y_units: 0 }
    );
}

#[test]
fn area_anchors_come_from_target_impact_or_caster() {
    let caster = ContinuousPosition { x_units: 10, y_units: 20 };
    let impact = ContinuousPosition { x_units: 5, y_units: 6 };
    let stored = Position::new(4, 4);
    let tile = StepTargetPosition::Tile { position: Position::new(2, 3) };
    let unit_seen = StepTargetPosition::Unit { sampled: Some(ContinuousPosition { x_units: 1, y_units: 2 }) };
    let unit_gone = StepTargetPosition::Unit { sampled: None };
    let center = |x: i64, y: i64| Some(ContinuousPosition { x_units: x * 1_000_000, y_units: y * 1_000_000 });
    assert_eq!(resolve_area_anchor_position(SkillAreaAnchorSource::CastTarget, Some(caster), Some(tile), Some(stored), None), center(2, 3));
    assert_eq!(
        resolve_area_anchor_position(SkillAreaAnchorSource::CastTargetStart, Some(caster), Some(unit_seen), Some(stored), None),
        Some(ContinuousPosition { x_units: 1, y_units: 2 })
    );
    assert_eq!(resolve_area_anchor_position(SkillAreaAnchorSource::CastTarget, Some(caster), Some(unit_gone), Some(stored), None), center(4, 4));
    assert_eq!(resolve_area_anchor_position(SkillAreaAnchorSource::CastTarget, Some(caster), None, Some(stored), None), center(4, 4));
    assert_eq!(resolve_area_anchor_position(SkillAreaAnchorSource::CastTarget, Some(caster), None, None, Some(impact)), None);
    assert_eq!(resolve_area_anchor_position(SkillAreaAnchorSource::ImpactContext, Some(caster), Some(tile), None, Some(impact)), Some(impact));
    assert_eq!(resolve_area_anchor_position(SkillAreaAnchorSource::ImpactContextStart, Some(caster), None, None, None), None);
    assert_eq!(resolve_area_anchor_position(SkillAreaAnchorSource::Caster, Some(caster), Some(tile), Some(stored), None), Some(caster));
    assert_eq!(resolve_area_anchor_position(SkillAreaAnchorSource::Caster, None, Some(tile), Some(stored), Some(impact)), None);
}

#[test]
fn line_enemy_area_hits_units_along_anchor_direction() {
    let caster = Position::new(1, 1);
    let front = Position::new(2, 1);
    let back = Position::new(3, 1);
    let offline = Position::new(2, 2);
    // The line starts towards the enemy in front (the cast target) and runs three tiles.
    let hit: Vec<Position> = [front, back, offline]
        .into_iter()
        .filter(|p| is_point_on_skill_line(caster, front, *p, 3, Side::Player))
        .collect();
    assert!(hit.contains(&front));
    assert!(hit.contains(&back));
    assert!(!hit.contains(&offline));
}

#[test]
fn area_ticks_hit_by_their_policy() {
    let mut once = ActiveAreaTicks {
        tick_policy: SkillAreaTickPolicy::OncePerArea,
        hit_unit_ids: vec![],
        previous_tick_unit_ids: vec![],
        tick_interval_ms: Some(500),
        next_tick_ms: None,
        expires_at_ms: 1200,
    };
    let (t, next) = apply_skill_area_tick(&mut once, &vec![2, 5], 0);
    assert_eq!(t, vec![2, 5]);
    assert_eq!(next, Some(500));
    let (t, next) = apply_skill_area_tick(&mut once, &vec![1, 5, 7], 500);
    assert_eq!(t, vec![1, 7]);
    assert_eq!(once.hit_unit_ids, vec![1, 2, 5, 7]);
    assert_eq!(next, Some(1000));
    let (_, next) = apply_skill_area_tick(&mut once, &vec![], 1000);
    assert_eq!(next, None);
    assert_eq!(once.next_tick_ms, Some(1500));

    let mut enter = ActiveAreaTicks { tick_policy: SkillAreaTickPolicy::OnEnter, tick_interval_ms: None, ..once.clone() };
    enter.hit_unit_ids = vec![];
    let (t, next) = apply_skill_area_tick(&mut enter, &vec![3, 4], 0);
    assert_eq!(t, vec![3, 4]);
    assert_eq!(next, None);
    let (t, _) = apply_skill_area_tick(&mut enter, &vec![4, 6], 10);
    assert_eq!(t, vec![6]);
    assert_eq!(enter.previous_tick_unit_ids, vec![4, 6]);

    let mut every = ActiveAreaTicks { tick_policy: SkillAreaTickPolicy::EveryTick, ..enter.clone() };
    let (t, _) = apply_skill_area_tick(&mut every, &vec![4, 6], 20);
    assert_eq!(t, vec![4, 6]);
    assert_eq!(every.previous_tick_unit_ids, vec![4, 6]);
}

#[test]
fn cone_hits_are_the_accepted_units_inside_in_increasing_order() {
    let mut dead = unit(4, Side::Opponent, 0, 0);
    dead.current_health = 0;
    let units = vec![unit(9, Side::Opponent, 0, 0), unit(1, Side::Player, 0, 0), unit(3, Side::Opponent, 0, 0), dead, unit(2, Side::Opponent, 0, 0)];
    let in_cone = vec![true, true, true, true, false];
    assert_eq!(collect_cone_targets(&units, &in_cone, Side::Player, 1, SkillHitTargetFilter::Enemies, false), vec![3, 9]);
    assert_eq!(collect_cone_targets(&units, &in_cone, Side::Player, 1, SkillHitTargetFilter::Any, true), vec![1, 3, 9]);
}
