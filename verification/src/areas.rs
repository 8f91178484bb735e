//! Skill areas: which units a skill delivery may hit, whether a unit's
//! position lies in an area shape, and the sorted list of units an area
//! hits.
use vstd::prelude::*;
use crate::arith::{abs_int, clamp_i64, ix, max_int, sat_add_i64, sat_sub_i64, signum_int};
use crate::movement::{ContinuousPosition, tile_center_axis};
use crate::position::{Position, Side};
use crate::spatial::{
    box_contains_point_centered, box_half_extent, circle_contains_point, dir_len_sq_fits, distance_sq_spec,
    line_contains_point_from_origin, oriented_strip_spec, rectangle_contains_point_from_origin,
    DEFAULT_UNIT_HITBOX_RADIUS_UNITS,
};
use crate::targets::{distinct_unit_ids, TargetCandidate};

verus! {

/// Which units a skill delivery may hit.
#[derive(Debug, Clone, Copy, PartialEq, Eq, Structural)]
pub enum SkillHitTargetFilter {
    Allies,
    Enemies,
    Any,
}

/// The shape of a skill area (sizes in position units). Cones measure an
/// angle and are tested outside the library.
#[derive(Debug, Clone, Copy, PartialEq, Eq, Structural)]
pub enum SkillAreaShape {
    Circle { radius_units: u32 },
    Line { length_units: u32 },
    Box { width_units: u32, height_units: u32 },
    Rectangle { width_units: u32, length_units: u32 },
}

/// The unit is alive, is not the caster unless the caster is included, and
/// is on the side the filter asks for.
pub open spec fn accepts_spec(
    caster_owner: Side,
    caster_id: u128,
    u: TargetCandidate,
    filter: SkillHitTargetFilter,
    include_caster: bool,
) -> bool {
    &&& (u.id == caster_id ==> include_caster)
    &&& u.current_health != 0
    &&& match filter {
        SkillHitTargetFilter::Allies => u.owner == caster_owner,
        SkillHitTargetFilter::Enemies => u.owner != caster_owner,
        SkillHitTargetFilter::Any => true,
    }
}

/// Whether a skill delivery of a caster of `caster_owner` may hit the unit
/// `target_id` (known to `units`).
pub fn skill_delivery_accepts_unit(
    units: &Vec<TargetCandidate>,
    caster_owner: Side,
    caster_id: u128,
    target_id: u128,
    filter: SkillHitTargetFilter,
    include_caster: bool,
) -> (r: bool)
    requires
        distinct_unit_ids(units@),
    ensures
        r == exists|i: int|
            0 <= i < units@.len() && (#[trigger] units@[i]).id == target_id && accepts_spec(
                caster_owner,
                caster_id,
                units@[i],
                filter,
                include_caster,
            ),
{
    if target_id == caster_id && !include_caster {
        return false;
    }
    match crate::targets::find_unit(units, target_id) {
        Some(i) => {
            let t = units[i];
            proof {
                assert forall|k: int| 0 <= k < units@.len() && (#[trigger] units@[k]).id == target_id implies k == ix(i) by {
                    if k < ix(i) {
                        assert(units@[k].id != units@[ix(i)].id);
                    } else if k > ix(i) {
                        assert(units@[ix(i)].id != units@[k].id);
                    }
                }
            }
            if t.current_health == 0 {
                return false;
            }
            match filter {
                SkillHitTargetFilter::Allies => t.owner == caster_owner,
                SkillHitTargetFilter::Enemies => t.owner != caster_owner,
                SkillHitTargetFilter::Any => true,
            }
        },
        None => false,
    }
}

/// The identifiers, in increasing order, of the units a cone area hits:
/// those the delivery accepts (see `accepts_spec`) whose position the cone
/// holds (`in_cone`, unit by unit).
pub fn collect_cone_targets(
    units: &Vec<TargetCandidate>,
    in_cone: &Vec<bool>,
    caster_owner: Side,
    caster_id: u128,
    filter: SkillHitTargetFilter,
    include_caster: bool,
) -> (ids: Vec<u128>)
    requires
        distinct_unit_ids(units@),
        in_cone@.len() == units@.len(),
    ensures
        forall|a: int, b: int| 0 <= a < b < ids@.len() ==> ids@[a] < ids@[b],
        forall|id: u128|
            ids@.contains(id) <==> exists|i: int|
                0 <= i < units@.len() && (#[trigger] units@[i]).id == id && in_cone@[i] && accepts_spec(
                    caster_owner,
                    caster_id,
                    units@[i],
                    filter,
                    include_caster,
                ),
{
    let mut out: Vec<(u128, ())> = Vec::new();
    let mut i: usize = 0;
    while i < units.len()
        invariant
            0 <= i <= units@.len(),
            distinct_unit_ids(units@),
            in_cone@.len() == units@.len(),
            crate::autocast::pairs_increasing(out@),
            forall|p: (u128, ())|
                out@.contains(p) <==> exists|j: int|
                    0 <= j < i && (#[trigger] units@[j]).id == p.0 && in_cone@[j] && accepts_spec(
                        caster_owner,
                        caster_id,
                        units@[j],
                        filter,
                        include_caster,
                    ),
        decreases units@.len() - i,
    {
        let id = units[i].id;
        let hit = in_cone[i] && skill_delivery_accepts_unit(units, caster_owner, caster_id, id, filter, include_caster);
        proof {
            assert forall|j: int| 0 <= j < units@.len() && (#[trigger] units@[j]).id == id implies j == i by {
                if j < i {
                    assert(units@[j].id != units@[i as int].id);
                } else if j > i {
                    assert(units@[i as int].id != units@[j].id);
                }
            }
        }
        let ghost out0 = out@;
        if hit {
            proof {
                assert forall|k: int| 0 <= k < out@.len() implies (#[trigger] out@[k]).0 != id by {
                    assert(out@.contains(out@[k]));
                }
            }
            crate::autocast::insert_pair(&mut out, id, ());
        }
        proof {
            assert forall|p: (u128, ())|
                out@.contains(p) <==> exists|j: int|
                    0 <= j < i + 1 && (#[trigger] units@[j]).id == p.0 && in_cone@[j] && accepts_spec(
                        caster_owner,
                        caster_id,
                        units@[j],
                        filter,
                        include_caster,
                    ) by {
                if exists|j: int|
                    0 <= j < i + 1 && (#[trigger] units@[j]).id == p.0 && in_cone@[j] && accepts_spec(
                        caster_owner,
                        caster_id,
                        units@[j],
                        filter,
                        include_caster,
                    ) {
                    let j = choose|j: int|
                        0 <= j < i + 1 && (#[trigger] units@[j]).id == p.0 && in_cone@[j] && accepts_spec(
                            caster_owner,
                            caster_id,
                            units@[j],
                            filter,
                            include_caster,
                        );
                    if j == i {
                        assert(hit);
                        assert(p == (id, ()));
                    } else {
                        assert(out0.contains(p));
                    }
                }
                if out@.contains(p) && !out0.contains(p) {
                    assert(p == (id, ()));
                    assert(units@[i as int].id == p.0);
                }
            }
        }
        i = i + 1;
    }
    let mut ids: Vec<u128> = Vec::new();
    let mut k: usize = 0;
    while k < out.len()
        invariant
            0 <= k <= out@.len(),
            ids@.len() == k,
            crate::autocast::pairs_increasing(out@),
            forall|j: int| 0 <= j < k ==> ids@[j] == (#[trigger] out@[j]).0,
        decreases out@.len() - k,
    {
        ids.push(out[k].0);
        k = k + 1;
    }
    proof {
        assert forall|a: int, b: int| 0 <= a < b < ids@.len() implies ids@[a] < ids@[b] by {
            assert(ids@[a] == out@[a].0);
            assert(ids@[b] == out@[b].0);
        }
        assert forall|id: u128| ids@.contains(id) <==> out@.contains((id, ())) by {
            if ids@.contains(id) {
                let j = choose|j: int| 0 <= j < ids@.len() && ids@[j] == id;
                assert(out@[j] == (id, ()));
            }
            if out@.contains((id, ())) {
                let j = choose|j: int| 0 <= j < out@.len() && out@[j] == (id, ());
                assert(ids@[j] == id);
            }
        }
    }
    ids
}

/// The shape, placed with `origin`, `center` and `direction_hint`, holds
/// `point` once every side is grown by the unit hitbox radius.
pub open spec fn shape_contains_spec(
    shape: SkillAreaShape,
    origin: ContinuousPosition,
    center: ContinuousPosition,
    hint: ContinuousPosition,
    point: ContinuousPosition,
) -> bool {
    let e = DEFAULT_UNIT_HITBOX_RADIUS_UNITS as int;
    match shape {
        SkillAreaShape::Circle { radius_units } => {
            let r = radius_units + e;
            distance_sq_spec(center, point) <= r * r
        },
        SkillAreaShape::Line { length_units } => if length_units == 0 {
            point == origin
        } else {
            oriented_strip_spec(origin, hint, e, length_units as int, e, point)
        },
        SkillAreaShape::Box { width_units, height_units } => if width_units == 0 || height_units == 0 {
            point == center
        } else {
            &&& abs_int(point.x_units - center.x_units) <= box_half_extent(width_units as int, e)
            &&& abs_int(point.y_units - center.y_units) <= box_half_extent(height_units as int, e)
        },
        SkillAreaShape::Rectangle { width_units, length_units } => if width_units == 0 || length_units == 0 {
            point == origin
        } else {
            oriented_strip_spec(origin, hint, width_units / 2 + e, length_units as int, e, point)
        },
    }
}

/// A box's reach along x comes from its width and along y from its height:
/// a point level with the centre lies in a box (of positive sizes) exactly
/// when it is within half the width plus the hitbox radius of the centre,
/// and a point straight above or below it exactly when it is within half
/// the height plus the hitbox radius, whatever the other size.
pub proof fn lemma_box_extents(
    width_units: u32,
    height_units: u32,
    origin: ContinuousPosition,
    center: ContinuousPosition,
    hint: ContinuousPosition,
    point: ContinuousPosition,
)
    requires
        width_units > 0,
        height_units > 0,
    ensures
        point.y_units == center.y_units ==> (shape_contains_spec(
            SkillAreaShape::Box { width_units, height_units },
            origin,
            center,
            hint,
            point,
        ) <==> abs_int(point.x_units - center.x_units) <= width_units / 2 + DEFAULT_UNIT_HITBOX_RADIUS_UNITS),
        point.x_units == center.x_units ==> (shape_contains_spec(
            SkillAreaShape::Box { width_units, height_units },
            origin,
            center,
            hint,
            point,
        ) <==> abs_int(point.y_units - center.y_units) <= height_units / 2 + DEFAULT_UNIT_HITBOX_RADIUS_UNITS),
{
}

/// A circle reaches its radius plus the hitbox radius: a point level with
/// the centre lies in it exactly when it is within that distance of the
/// centre.
pub proof fn lemma_circle_reach(
    radius_units: u32,
    origin: ContinuousPosition,
    center: ContinuousPosition,
    hint: ContinuousPosition,
    point: ContinuousPosition,
)
    requires
        point.y_units == center.y_units,
        i64::MIN <= center.x_units - point.x_units <= i64::MAX,
    ensures
        shape_contains_spec(SkillAreaShape::Circle { radius_units }, origin, center, hint, point) <==> abs_int(
            point.x_units - center.x_units,
        ) <= radius_units + DEFAULT_UNIT_HITBOX_RADIUS_UNITS,
{
    let dx = center.x_units - point.x_units;
    let r = radius_units + DEFAULT_UNIT_HITBOX_RADIUS_UNITS;
    assert(clamp_i64(dx) == dx);
    assert(clamp_i64(center.y_units - point.y_units) == 0);
    assert(abs_int(point.x_units - center.x_units) == abs_int(dx));
    assert((dx * dx + 0 * 0 <= r * r) <==> (abs_int(dx) <= r)) by (nonlinear_arith)
        requires
            r >= 0,
            abs_int(dx) == if dx >= 0 { dx } else { -dx },
    ;
}

/// Whether the placed shape, grown by the unit hitbox radius, holds `point`.
pub fn area_shape_contains(
    shape: SkillAreaShape,
    origin: ContinuousPosition,
    center: ContinuousPosition,
    direction_hint: ContinuousPosition,
    point: ContinuousPosition,
) -> (r: bool)
    requires
        dir_len_sq_fits(origin, direction_hint),
    ensures
        r == shape_contains_spec(shape, origin, center, direction_hint, point),
{
    match shape {
        SkillAreaShape::Circle { radius_units } => circle_contains_point(
            center,
            radius_units as i64 + DEFAULT_UNIT_HITBOX_RADIUS_UNITS,
            point,
        ),
        SkillAreaShape::Line { length_units } => line_contains_point_from_origin(
            origin,
            direction_hint,
            length_units as i64,
            DEFAULT_UNIT_HITBOX_RADIUS_UNITS,
            point,
        ),
        SkillAreaShape::Box { width_units, height_units } => box_contains_point_centered(
            center,
            width_units as i64,
            height_units as i64,
            DEFAULT_UNIT_HITBOX_RADIUS_UNITS,
            point,
        ),
        SkillAreaShape::Rectangle { width_units, length_units } => rectangle_contains_point_from_origin(
            origin,
            direction_hint,
            width_units as i64,
            length_units as i64,
            DEFAULT_UNIT_HITBOX_RADIUS_UNITS,
            point,
        ),
    }
}

/// The continuous position of a unit.
pub open spec fn position_of(u: TargetCandidate) -> ContinuousPosition {
    ContinuousPosition { x_units: u.pos_x_units, y_units: u.pos_y_units }
}

/// Strictly increasing identifiers.
pub open spec fn ids_increasing(ids: Seq<u128>) -> bool {
    forall|i: int, j: int| 0 <= i < j < ids.len() ==> (#[trigger] ids[i]) < (#[trigger] ids[j])
}

pub(crate) fn insert_id(ids: &mut Vec<u128>, id: u128)
    requires
        ids_increasing(old(ids)@),
        !old(ids)@.contains(id),
    ensures
        ids_increasing(final(ids)@),
        forall|x: u128| final(ids)@.contains(x) <==> (old(ids)@.contains(x) || x == id),
{
    let mut k: usize = 0;
    while k < ids.len()
        invariant
            0 <= k <= ids@.len(),
            ids@ == old(ids)@,
            forall|i: int| 0 <= i < k ==> (#[trigger] ids@[i]) < id,
        ensures
            0 <= k <= ids@.len(),
            ids@ == old(ids)@,
            forall|i: int| 0 <= i < k ==> (#[trigger] ids@[i]) < id,
            k < ids@.len() ==> ids@[ix(k)] >= id,
        decreases ids@.len() - k,
    {
        if ids[k] >= id {
            break;
        }
        k = k + 1;
    }
    let ghost before = ids@;
    proof {
        if k < before.len() {
            assert(before[ix(k)] != id) by {
                assert(!before.contains(id));
                if before[ix(k)] == id {
                    assert(before.contains(before[ix(k)]));
                }
            }
        }
    }
    ids.insert(k, id);
    proof {
        let after = ids@;
        assert(after =~= before.insert(ix(k), id));
        assert forall|i: int, j: int| 0 <= i < j < after.len() implies (#[trigger] after[i]) < (#[trigger] after[j]) by {
            if j < k {
            } else if j == k {
            } else if i < k {
                assert(after[j] == before[j - 1]);
            } else if i == k {
                assert(after[j] == before[j - 1]);
            } else {
                assert(after[i] == before[i - 1]);
                assert(after[j] == before[j - 1]);
            }
        }
        assert forall|x: u128| after.contains(x) <==> (before.contains(x) || x == id) by {
            if after.contains(x) {
                let i = choose|i: int| 0 <= i < after.len() && after[i] == x;
                if i < k {
                    assert(before[i] == x);
                } else if i > k {
                    assert(before[i - 1] == x);
                }
            }
            if before.contains(x) {
                let i = choose|i: int| 0 <= i < before.len() && before[i] == x;
                if i < k {
                    assert(after[i] == x);
                } else {
                    assert(after[i + 1] == x);
                }
            }
            if x == id {
                assert(after[ix(k)] == id);
            }
        }
    }
}

/// The unit is hit by the area: accepted by the filter and inside the shape.
pub open spec fn area_hits(
    caster_owner: Side,
    caster_id: u128,
    origin: ContinuousPosition,
    center: ContinuousPosition,
    hint: ContinuousPosition,
    shape: SkillAreaShape,
    filter: SkillHitTargetFilter,
    include_caster: bool,
    u: TargetCandidate,
) -> bool {
    accepts_spec(caster_owner, caster_id, u, filter, include_caster) && shape_contains_spec(
        shape,
        origin,
        center,
        hint,
        position_of(u),
    )
}

/// The identifiers of the units the area hits, each unit taken at its
/// continuous position, in increasing order.
pub fn collect_area_targets_at(
    units: &Vec<TargetCandidate>,
    caster_owner: Side,
    caster_id: u128,
    origin: ContinuousPosition,
    center: ContinuousPosition,
    direction_hint: ContinuousPosition,
    shape: SkillAreaShape,
    filter: SkillHitTargetFilter,
    include_caster: bool,
) -> (ids: Vec<u128>)
    requires
        distinct_unit_ids(units@),
        dir_len_sq_fits(origin, direction_hint),
    ensures
        ids_increasing(ids@),
        forall|x: u128|
            ids@.contains(x) <==> exists|i: int|
                0 <= i < units@.len() && (#[trigger] units@[i]).id == x && area_hits(
                    caster_owner,
                    caster_id,
                    origin,
                    center,
                    direction_hint,
                    shape,
                    filter,
                    include_caster,
                    units@[i],
                ),
{
    let mut ids: Vec<u128> = Vec::new();
    let mut i: usize = 0;
    while i < units.len()
        invariant
            0 <= i <= units@.len(),
            distinct_unit_ids(units@),
            dir_len_sq_fits(origin, direction_hint),
            ids_increasing(ids@),
            forall|x: u128|
                ids@.contains(x) <==> exists|k: int|
                    0 <= k < i && (#[trigger] units@[k]).id == x && area_hits(
                        caster_owner,
                        caster_id,
                        origin,
                        center,
                        direction_hint,
                        shape,
                        filter,
                        include_caster,
                        units@[k],
                    ),
        decreases units@.len() - i,
    {
        let u = units[i];
        let accepted = (u.id != caster_id || include_caster) && u.current_health != 0 && match filter {
            SkillHitTargetFilter::Allies => u.owner == caster_owner,
            SkillHitTargetFilter::Enemies => u.owner != caster_owner,
            SkillHitTargetFilter::Any => true,
        };
        let ghost before = ids@;
        if accepted && area_shape_contains(shape, origin, center, direction_hint, ContinuousPosition::new(u.pos_x_units, u.pos_y_units)) {
            proof {
                if before.contains(u.id) {
                    let k = choose|k: int| 0 <= k < i && (#[trigger] units@[k]).id == u.id && area_hits(
                        caster_owner,
                        caster_id,
                        origin,
                        center,
                        direction_hint,
                        shape,
                        filter,
                        include_caster,
                        units@[k],
                    );
                    assert(units@[k].id != units@[ix(i)].id);
                }
            }
            insert_id(&mut ids, u.id);
        }
        proof {
            assert forall|x: u128|
                ids@.contains(x) <==> exists|k: int|
                    0 <= k < i + 1 && (#[trigger] units@[k]).id == x && area_hits(
                        caster_owner,
                        caster_id,
                        origin,
                        center,
                        direction_hint,
                        shape,
                        filter,
                        include_caster,
                        units@[k],
                    ) by {
                if ids@.contains(x) && !before.contains(x) {
                    assert(units@[ix(i)].id == x);
                }
                if exists|k: int|
                    0 <= k < i + 1 && (#[trigger] units@[k]).id == x && area_hits(
                        caster_owner,
                        caster_id,
                        origin,
                        center,
                        direction_hint,
                        shape,
                        filter,
                        include_caster,
                        units@[k],
                    ) {
                    let k = choose|k: int|
                        0 <= k < i + 1 && (#[trigger] units@[k]).id == x && area_hits(
                            caster_owner,
                            caster_id,
                            origin,
                            center,
                            direction_hint,
                            shape,
                            filter,
                            include_caster,
                            units@[k],
                        );
                    if k < i {
                        assert(before.contains(x));
                    }
                }
            }
        }
        i = i + 1;
    }
    ids
}

/// The tile direction of a skill line from `caster` towards `anchor`: each
/// axis steps by the sign of its offset; an anchor on the caster's own tile
/// points forward for `owner` (up for the player, down for the opponent).
pub open spec fn skill_line_direction(caster: Position, anchor: Position, owner: Side) -> (int, int) {
    let sx = signum_int(anchor.x - caster.x);
    let sy = signum_int(anchor.y - caster.y);
    if sx == 0 && sy == 0 {
        (0, if owner == Side::Player { -1 } else { 1 })
    } else {
        (sx, sy)
    }
}

/// `candidate` is one of the first `length_tiles` tiles stepped from
/// `caster` along the skill line towards `anchor`.
pub open spec fn on_skill_line(caster: Position, anchor: Position, candidate: Position, length_tiles: i32, owner: Side) -> bool {
    let (sx, sy) = skill_line_direction(caster, anchor, owner);
    exists|k: int| 1 <= k <= length_tiles && #[trigger] (caster.x + sx * k) == candidate.x && caster.y + sy * k == candidate.y
}

fn sign_i64(v: i64) -> (r: i64)
    ensures
        r == signum_int(v as int),
{
    if v > 0 { 1 } else if v < 0 { -1 } else { 0 }
}

/// Whether `candidate` lies on the skill line of `length_tiles` tiles cast
/// from `caster_pos` towards `anchor` by a unit of side `owner`.
pub fn is_point_on_skill_line(
    caster_pos: Position,
    anchor: Position,
    candidate: Position,
    length_tiles: i32,
    caster_owner: Side,
) -> (r: bool)
    requires
        i32::MIN <= anchor.x - caster_pos.x <= i32::MAX,
        i32::MIN <= anchor.y - caster_pos.y <= i32::MAX,
        length_tiles > 0 ==> i32::MIN <= caster_pos.x + skill_line_direction(caster_pos, anchor, caster_owner).0 * length_tiles <= i32::MAX,
        length_tiles > 0 ==> i32::MIN <= caster_pos.y + skill_line_direction(caster_pos, anchor, caster_owner).1 * length_tiles <= i32::MAX,
    ensures
        r == on_skill_line(caster_pos, anchor, candidate, length_tiles, caster_owner),
{
    let step_x = sign_i64(anchor.x as i64 - caster_pos.x as i64);
    let mut step_y = sign_i64(anchor.y as i64 - caster_pos.y as i64);
    if step_x == 0 && step_y == 0 {
        step_y = match caster_owner {
            Side::Player => -1,
            Side::Opponent => 1,
        };
    }
    let dx: i64 = candidate.x as i64 - caster_pos.x as i64;
    let dy: i64 = candidate.y as i64 - caster_pos.y as i64;
    // The only step count that can reach the candidate.
    let k: i64 = if step_x > 0 {
        dx
    } else if step_x < 0 {
        -dx
    } else if step_y > 0 {
        dy
    } else {
        -dy
    };
    proof {
        assert(-1 <= step_x <= 1);
        assert(-1 <= step_y <= 1);
        assert(1 <= k <= i32::MAX ==> -0x8000_0000 <= step_x * k <= 0x8000_0000) by (nonlinear_arith)
            requires
                -1 <= step_x <= 1,
        ;
        assert(1 <= k <= i32::MAX ==> -0x8000_0000 <= step_y * k <= 0x8000_0000) by (nonlinear_arith)
            requires
                -1 <= step_y <= 1,
        ;
    }
    let r = 1 <= k && k <= length_tiles as i64 && dx == step_x * k && dy == step_y * k;
    proof {
        let sx = step_x as int;
        let sy = step_y as int;
        assert((sx, sy) == skill_line_direction(caster_pos, anchor, caster_owner));
        if r {
            assert(caster_pos.x + sx * k == candidate.x);
        }
        if on_skill_line(caster_pos, anchor, candidate, length_tiles, caster_owner) {
            let w = choose|w: int| 1 <= w <= length_tiles && #[trigger] (caster_pos.x + sx * w) == candidate.x && caster_pos.y + sy * w == candidate.y;
            assert(w == k);
        }
    }
    r
}

/// Where a skill area is anchored.
#[derive(Debug, Clone, Copy, PartialEq, Eq, Structural)]
pub enum SkillAreaAnchorSource {
    CastTarget,
    CastTargetStart,
    ImpactContext,
    ImpactContextStart,
    Caster,
}

/// The target of a skill step, with where it stands: a tile, or a unit and
/// its position sampled now (none when it has none).
#[derive(Debug, Clone, Copy, PartialEq, Eq, Structural)]
pub enum StepTargetPosition {
    Tile { position: Position },
    Unit { sampled: Option<ContinuousPosition> },
}

/// Where an earlier step of the same cast hit, and the direction it gave.
#[derive(Debug, Clone, Copy, PartialEq, Eq, Structural)]
pub struct SkillImpactContext {
    pub impact_position: ContinuousPosition,
    pub direction_hint: Option<ContinuousPosition>,
}

/// The point as far beyond `anchor` as `caster` is before it, saturating.
pub open spec fn reflected_spec(caster: ContinuousPosition, anchor: ContinuousPosition) -> ContinuousPosition {
    ContinuousPosition {
        x_units: clamp_i64(anchor.x_units + clamp_i64(anchor.x_units - caster.x_units)) as i64,
        y_units: clamp_i64(anchor.y_units + clamp_i64(anchor.y_units - caster.y_units)) as i64,
    }
}

/// One tile forward of `anchor` for `owner`: up for the player, down for
/// the opponent.
pub open spec fn forward_of_spec(owner: Side, anchor: ContinuousPosition) -> ContinuousPosition {
    ContinuousPosition {
        x_units: anchor.x_units,
        y_units: (anchor.y_units + (if owner == Side::Player { -1_000_000int } else { 1_000_000int })) as i64,
    }
}

/// The position a step target points at.
pub open spec fn step_target_point(t: StepTargetPosition) -> Option<ContinuousPosition> {
    match t {
        StepTargetPosition::Tile { position } => Some(tile_center_point(position)),
        StepTargetPosition::Unit { sampled } => sampled,
    }
}

/// The point that gives a skill area at `anchor` its direction: for an area
/// anchored on an earlier impact, the direction that impact gave; otherwise
/// the step target's position (or, without a target, the impact's), unless
/// it is the anchor itself. Failing these, the point beyond the anchor seen
/// from the caster, or, when the caster stands on the anchor, one tile
/// forward of it.
pub open spec fn direction_hint_spec(
    anchor_source: SkillAreaAnchorSource,
    owner: Side,
    caster: ContinuousPosition,
    anchor: ContinuousPosition,
    step_target: Option<StepTargetPosition>,
    impact: Option<SkillImpactContext>,
) -> ContinuousPosition {
    let fallback = if caster != anchor { reflected_spec(caster, anchor) } else { forward_of_spec(owner, anchor) };
    if anchor_source is ImpactContext || anchor_source is ImpactContextStart {
        match impact {
            Some(c) => match c.direction_hint {
                Some(d) => d,
                None => fallback,
            },
            None => fallback,
        }
    } else {
        let hint = match step_target {
            Some(t) => step_target_point(t),
            None => match impact {
                Some(c) => Some(c.impact_position),
                None => None,
            },
        };
        match hint {
            Some(h) => if h != anchor { h } else { fallback },
            None => fallback,
        }
    }
}

fn reflected(caster: ContinuousPosition, anchor: ContinuousPosition) -> (r: ContinuousPosition)
    ensures
        r == reflected_spec(caster, anchor),
{
    ContinuousPosition {
        x_units: sat_add_i64(anchor.x_units, sat_sub_i64(anchor.x_units, caster.x_units)),
        y_units: sat_add_i64(anchor.y_units, sat_sub_i64(anchor.y_units, caster.y_units)),
    }
}

/// The point that gives a skill area anchored at `anchor_position` (by
/// `area_anchor`) its direction, for a caster of side `caster_owner` at
/// `caster_position`; see `direction_hint_spec`.
pub fn resolve_area_direction_hint(
    area_anchor: SkillAreaAnchorSource,
    caster_owner: Side,
    caster_position: ContinuousPosition,
    anchor_position: ContinuousPosition,
    step_target: Option<StepTargetPosition>,
    impact_context: Option<SkillImpactContext>,
) -> (r: ContinuousPosition)
    requires
        caster_position == anchor_position ==> i64::MIN + 1_000_000 <= anchor_position.y_units <= i64::MAX - 1_000_000,
    ensures
        r == direction_hint_spec(area_anchor, caster_owner, caster_position, anchor_position, step_target, impact_context),
{
    let fallback = if caster_position != anchor_position {
        reflected(caster_position, anchor_position)
    } else {
        let dy: i64 = match caster_owner {
            Side::Player => -1_000_000,
            Side::Opponent => 1_000_000,
        };
        ContinuousPosition { x_units: anchor_position.x_units, y_units: anchor_position.y_units + dy }
    };
    match area_anchor {
        SkillAreaAnchorSource::ImpactContext | SkillAreaAnchorSource::ImpactContextStart => {
            return match impact_context {
                Some(c) => match c.direction_hint {
                    Some(d) => d,
                    None => fallback,
                },
                None => fallback,
            };
        },
        _ => {},
    }
    let hint = match step_target {
        Some(StepTargetPosition::Tile { position }) => Some(ContinuousPosition::tile_center(position)),
        Some(StepTargetPosition::Unit { sampled }) => sampled,
        None => match impact_context {
            Some(c) => Some(c.impact_position),
            None => None,
        },
    };
    match hint {
        Some(h) => if h != anchor_position { h } else { fallback },
        None => fallback,
    }
}

/// The centre of `tile` as a continuous position.
pub open spec fn tile_center_point(tile: Position) -> ContinuousPosition {
    ContinuousPosition { x_units: tile_center_axis(tile.x as int) as i64, y_units: tile_center_axis(tile.y as int) as i64 }
}

/// Where a skill area is anchored: at the step target (a tile's centre, or
/// a unit where it stands, else the tile the cast was aimed at), at the
/// cast's stored target tile when the step has none, at the impact of an
/// earlier step, or at the caster. Nothing without a caster to cast from.
pub open spec fn area_anchor_spec(
    area_anchor: SkillAreaAnchorSource,
    caster_position: Option<ContinuousPosition>,
    step_target: Option<StepTargetPosition>,
    cast_target_anchor: Option<Position>,
    impact_before_step: Option<ContinuousPosition>,
) -> Option<ContinuousPosition> {
    let stored = match cast_target_anchor {
        Some(t) => Some(tile_center_point(t)),
        None => None,
    };
    match caster_position {
        None => None,
        Some(c) => match area_anchor {
            SkillAreaAnchorSource::CastTarget | SkillAreaAnchorSource::CastTargetStart => match step_target {
                Some(StepTargetPosition::Tile { position }) => Some(tile_center_point(position)),
                Some(StepTargetPosition::Unit { sampled }) => if sampled is Some { sampled } else { stored },
                None => stored,
            },
            SkillAreaAnchorSource::ImpactContext | SkillAreaAnchorSource::ImpactContextStart => impact_before_step,
            SkillAreaAnchorSource::Caster => Some(c),
        },
    }
}

/// The anchor of a skill area (see `area_anchor_spec`), given the caster's
/// position now (none when it cannot cast), the step target with its
/// position, the tile the cast was aimed at, and the impact of the step
/// before, if any.
pub fn resolve_area_anchor_position(
    area_anchor: SkillAreaAnchorSource,
    caster_position: Option<ContinuousPosition>,
    step_target: Option<StepTargetPosition>,
    cast_target_anchor: Option<Position>,
    impact_before_step: Option<ContinuousPosition>,
) -> (r: Option<ContinuousPosition>)
    ensures
        r == area_anchor_spec(area_anchor, caster_position, step_target, cast_target_anchor, impact_before_step),
{
    let c = match caster_position {
        Some(c) => c,
        None => return None,
    };
    let stored = match cast_target_anchor {
        Some(t) => Some(ContinuousPosition::tile_center(t)),
        None => None,
    };
    match area_anchor {
        SkillAreaAnchorSource::CastTarget | SkillAreaAnchorSource::CastTargetStart => match step_target {
            Some(StepTargetPosition::Tile { position }) => Some(ContinuousPosition::tile_center(position)),
            Some(StepTargetPosition::Unit { sampled }) => if sampled.is_some() { sampled } else { stored },
            None => stored,
        },
        SkillAreaAnchorSource::ImpactContext | SkillAreaAnchorSource::ImpactContextStart => impact_before_step,
        SkillAreaAnchorSource::Caster => Some(c),
    }
}

/// Which units a persistent area hits on each tick.
#[derive(Debug, Clone, Copy, PartialEq, Eq, Structural)]
pub enum SkillAreaTickPolicy {
    /// Everyone inside, every tick.
    EveryTick,
    /// Everyone inside, once over the area's life.
    OncePerArea,
    /// Everyone inside who was not inside on the previous tick.
    OnEnter,
}

/// The bookkeeping of a persistent skill area between its ticks.
#[derive(Debug, Clone)]
pub struct ActiveAreaTicks {
    pub tick_policy: SkillAreaTickPolicy,
    /// The units hit so far (kept for `OncePerArea`), in increasing order.
    pub hit_unit_ids: Vec<u128>,
    /// The units inside on the previous tick (kept for `OnEnter`), in
    /// increasing order.
    pub previous_tick_unit_ids: Vec<u128>,
    pub tick_interval_ms: Option<u32>,
    pub next_tick_ms: Option<u64>,
    pub expires_at_ms: u64,
}

/// `ids` without the members of `out`, in order.
pub open spec fn without_ids(ids: Seq<u128>, out: Seq<u128>) -> Seq<u128>
    decreases ids.len(),
{
    if ids.len() == 0 {
        ids
    } else {
        let rest = without_ids(ids.drop_last(), out);
        if out.contains(ids.last()) { rest } else { rest.push(ids.last()) }
    }
}

/// The units a tick of an area under `policy` hits among those inside
/// (`raw`), given those hit before and those inside on the previous tick.
pub open spec fn tick_targets_spec(policy: SkillAreaTickPolicy, raw: Seq<u128>, hit: Seq<u128>, previous: Seq<u128>) -> Seq<u128> {
    match policy {
        SkillAreaTickPolicy::EveryTick => raw,
        SkillAreaTickPolicy::OncePerArea => without_ids(raw, hit),
        SkillAreaTickPolicy::OnEnter => without_ids(raw, previous),
    }
}

fn filter_out(ids: &Vec<u128>, out: &Vec<u128>) -> (r: Vec<u128>)
    ensures
        r@ == without_ids(ids@, out@),
{
    let mut r: Vec<u128> = Vec::new();
    let mut i: usize = 0;
    while i < ids.len()
        invariant
            0 <= i <= ids@.len(),
            r@ == without_ids(ids@.subrange(0, i as int), out@),
        decreases ids@.len() - i,
    {
        proof {
            assert(ids@.subrange(0, i as int + 1).drop_last() =~= ids@.subrange(0, i as int));
            assert(ids@.subrange(0, i as int + 1).last() == ids@[i as int]);
        }
        if !crate::autocast::contains_id(out, ids[i]) {
            r.push(ids[i]);
        }
        i = i + 1;
    }
    proof {
        assert(ids@.subrange(0, ids@.len() as int) =~= ids@);
    }
    r
}

/// A subsequence kept by `without_ids` holds only members of `ids`.
pub proof fn lemma_without_ids(ids: Seq<u128>, out: Seq<u128>)
    ensures
        forall|x: u128| without_ids(ids, out).contains(x) <==> (ids.contains(x) && !out.contains(x)),
        ids_increasing(ids) ==> ids_increasing(without_ids(ids, out)),
    decreases ids.len(),
{
    if ids.len() > 0 {
        let d = ids.drop_last();
        let last = ids.last();
        let rest = without_ids(d, out);
        lemma_without_ids(d, out);
        assert forall|x: u128| ids.contains(x) <==> (d.contains(x) || x == last) by {
            if ids.contains(x) {
                let k = choose|k: int| 0 <= k < ids.len() && ids[k] == x;
                if k < ids.len() - 1 {
                    assert(d[k] == x);
                }
            }
            if d.contains(x) {
                let k = choose|k: int| 0 <= k < d.len() && d[k] == x;
                assert(ids[k] == x);
            }
            if x == last {
                assert(ids[ids.len() - 1] == x);
            }
        }
        assert forall|x: u128| rest.push(last).contains(x) <==> (rest.contains(x) || x == last) by {
            if rest.push(last).contains(x) {
                let k = choose|k: int| 0 <= k < rest.push(last).len() && rest.push(last)[k] == x;
                if k < rest.len() {
                    assert(rest[k] == x);
                }
            }
            if rest.contains(x) {
                let k = choose|k: int| 0 <= k < rest.len() && rest[k] == x;
                assert(rest.push(last)[k] == x);
            }
            if x == last {
                assert(rest.push(last)[rest.len() as int] == x);
            }
        }
        if ids_increasing(ids) {
            assert(ids_increasing(d));
            if !out.contains(last) {
                let w = rest.push(last);
                assert forall|i: int, j: int| 0 <= i < j < w.len() implies (#[trigger] w[i]) < (#[trigger] w[j]) by {
                    if j == w.len() - 1 {
                        assert(w[i] == rest[i]);
                        assert(rest.contains(rest[i]));
                        assert(d.contains(rest[i]));
                        let k = choose|k: int| 0 <= k < d.len() && d[k] == rest[i];
                        assert(ids[k] == d[k]);
                        assert(ids[k] < ids[ids.len() - 1]);
                    } else {
                        assert(w[i] == rest[i]);
                        assert(w[j] == rest[j]);
                    }
                }
            }
        }
    }
}

/// The units a tick of `area` hits at `time_ms` among `raw`, the units
/// inside in increasing order (see `collect_area_targets_at`), and the
/// area's bookkeeping after it: an area hit once per life remembers whom it
/// hit, an area that hits on entry remembers who was inside, and an area
/// with a tick interval plans its next tick (queued by the caller when it
/// comes before the area expires, which the second result tells).
pub fn apply_skill_area_tick(area: &mut ActiveAreaTicks, raw: &Vec<u128>, time_ms: u64) -> (r: (Vec<u128>, Option<u64>))
    requires
        ids_increasing(raw@),
        ids_increasing(old(area).hit_unit_ids@),
        ids_increasing(old(area).previous_tick_unit_ids@),
    ensures
        r.0@ == tick_targets_spec(old(area).tick_policy, raw@, old(area).hit_unit_ids@, old(area).previous_tick_unit_ids@),
        ids_increasing(r.0@),
        final(area).tick_policy == old(area).tick_policy,
        final(area).tick_interval_ms == old(area).tick_interval_ms,
        final(area).expires_at_ms == old(area).expires_at_ms,
        ids_increasing(final(area).hit_unit_ids@),
        ids_increasing(final(area).previous_tick_unit_ids@),
        old(area).tick_policy is OncePerArea ==> forall|x: u128|
            final(area).hit_unit_ids@.contains(x) <==> (old(area).hit_unit_ids@.contains(x) || raw@.contains(x)),
        !(old(area).tick_policy is OncePerArea) ==> final(area).hit_unit_ids@ == old(area).hit_unit_ids@,
        old(area).tick_policy is OnEnter ==> final(area).previous_tick_unit_ids@ == raw@,
        !(old(area).tick_policy is OnEnter) ==> final(area).previous_tick_unit_ids@ == old(area).previous_tick_unit_ids@,
        match old(area).tick_interval_ms {
            Some(interval) => {
                let next = if time_ms + interval > u64::MAX { u64::MAX } else { (time_ms + interval) as u64 };
                &&& final(area).next_tick_ms == Some(next)
                &&& r.1 == if next < old(area).expires_at_ms { Some(next) } else { None }
            },
            None => final(area).next_tick_ms == old(area).next_tick_ms && r.1 is None,
        },
{
    let targets = match area.tick_policy {
        SkillAreaTickPolicy::EveryTick => raw.clone(),
        SkillAreaTickPolicy::OncePerArea => filter_out(raw, &area.hit_unit_ids),
        SkillAreaTickPolicy::OnEnter => filter_out(raw, &area.previous_tick_unit_ids),
    };
    proof {
        lemma_without_ids(raw@, area.hit_unit_ids@);
        lemma_without_ids(raw@, area.previous_tick_unit_ids@);
    }
    match area.tick_policy {
        SkillAreaTickPolicy::EveryTick => {},
        SkillAreaTickPolicy::OncePerArea => {
            let ghost h0 = area.hit_unit_ids@;
            let mut k: usize = 0;
            while k < targets.len()
                invariant
                    0 <= k <= targets@.len(),
                    targets@ == without_ids(raw@, h0),
                    ids_increasing(area.hit_unit_ids@),
                    forall|x: u128| area.hit_unit_ids@.contains(x) <==> (h0.contains(x) || targets@.subrange(0, k as int).contains(x)),
                    forall|x: u128| without_ids(raw@, h0).contains(x) <==> (raw@.contains(x) && !h0.contains(x)),
                    ids_increasing(targets@),
                    area.tick_policy == old(area).tick_policy,
                    area.tick_interval_ms == old(area).tick_interval_ms,
                    area.expires_at_ms == old(area).expires_at_ms,
                    area.next_tick_ms == old(area).next_tick_ms,
                    area.previous_tick_unit_ids == old(area).previous_tick_unit_ids,
                    area.tick_policy is OncePerArea,
                decreases targets@.len() - k,
            {
                let id = targets[k];
                let ghost pre = targets@.subrange(0, k as int);
                proof {
                    assert(targets@.subrange(0, k as int + 1) =~= pre.push(id));
                    assert forall|x: u128| pre.push(id).contains(x) <==> (pre.contains(x) || x == id) by {
                        if pre.push(id).contains(x) {
                            let w = choose|w: int| 0 <= w < pre.push(id).len() && pre.push(id)[w] == x;
                            if w < pre.len() {
                                assert(pre[w] == x);
                            }
                        }
                        if pre.contains(x) {
                            let w = choose|w: int| 0 <= w < pre.len() && pre[w] == x;
                            assert(pre.push(id)[w] == x);
                        }
                        if x == id {
                            assert(pre.push(id)[pre.len() as int] == x);
                        }
                    }
                    if targets@.subrange(0, k as int).contains(id) {
                        let w = choose|w: int| 0 <= w < k && targets@.subrange(0, k as int)[w] == id;
                        assert(targets@[w] < targets@[k as int]);
                    }
                    assert(targets@.contains(id));
                }
                let ghost hb = area.hit_unit_ids@;
                if !crate::autocast::contains_id(&area.hit_unit_ids, id) {
                    insert_id(&mut area.hit_unit_ids, id);
                }
                k = k + 1;
                proof {
                    assert(targets@.subrange(0, k as int) =~= pre.push(id));
                    assert forall|x: u128| #[trigger] area.hit_unit_ids@.contains(x) <==> (h0.contains(x) || targets@.subrange(0, k as int).contains(x)) by {
                        assert(hb.contains(x) <==> (h0.contains(x) || pre.contains(x)));
                        assert(pre.push(id).contains(x) <==> (pre.contains(x) || x == id));
                    }
                }
            }
            proof {
                assert(targets@.subrange(0, targets@.len() as int) =~= targets@);
            }
        },
        SkillAreaTickPolicy::OnEnter => {
            area.previous_tick_unit_ids = raw.clone();
        },
    }
    let scheduled = match area.tick_interval_ms {
        Some(interval) => {
            let next = time_ms.saturating_add(interval as u64);
            area.next_tick_ms = Some(next);
            if next < area.expires_at_ms { Some(next) } else { None }
        },
        None => None,
    };
    (targets, scheduled)
}

} // verus!
