//! Integer geometry on continuous positions: distances and the shapes that
//! skill areas use (circle, box, line, rectangle).
use vstd::prelude::*;
use crate::arith::{abs_int, clamp_i128, clamp_i64, max_int, sat_add_i128, sat_mul_i128, sat_mul_u128, sat_sub_i64};
use crate::movement::{ContinuousPosition, HALF_TILE_UNITS};

verus! {

pub const DEFAULT_UNIT_HITBOX_RADIUS_UNITS: i64 = 250_000;

/// Squared distance, each axis difference saturated to `i64` first.
pub open spec fn distance_sq_spec(a: ContinuousPosition, b: ContinuousPosition) -> int {
    let dx = clamp_i64(a.x_units - b.x_units);
    let dy = clamp_i64(a.y_units - b.y_units);
    dx * dx + dy * dy
}

/// `r` is the integer square root of `v` rounded down.
pub open spec fn is_floor_sqrt(r: int, v: int) -> bool {
    r >= 0 && r * r <= v && v < (r + 1) * (r + 1)
}

/// `r` is the integer square root of `v` rounded up.
pub open spec fn is_ceil_sqrt(r: int, v: int) -> bool {
    r >= 0 && v <= r * r && (r == 0 || (r - 1) * (r - 1) < v)
}

proof fn lemma_square_bound(d: int)
    requires
        -0x8000_0000_0000_0000 <= d <= 0x8000_0000_0000_0000,
    ensures
        0 <= d * d <= 0x4000_0000_0000_0000_0000_0000_0000_0000,
{
    assert(0 <= d * d <= 0x4000_0000_0000_0000_0000_0000_0000_0000) by (nonlinear_arith)
        requires -0x8000_0000_0000_0000 <= d <= 0x8000_0000_0000_0000;
}

/// Squared distance between two points (axis gaps saturated to `i64`).
pub fn distance_sq_units(a: ContinuousPosition, b: ContinuousPosition) -> (r: u128)
    ensures
        r == distance_sq_spec(a, b),
{
    let dx: i128 = sat_sub_i64(a.x_units, b.x_units) as i128;
    let dy: i128 = sat_sub_i64(a.y_units, b.y_units) as i128;
    proof {
        lemma_square_bound(dx as int);
        lemma_square_bound(dy as int);
    }
    let sx: u128 = (dx * dx) as u128;
    let sy: u128 = (dy * dy) as u128;
    sx.saturating_add(sy)
}

proof fn lemma_sq_monotone(a: int, b: int)
    requires
        0 <= a <= b,
    ensures
        a * a <= b * b,
{
    assert(a * a <= b * b) by (nonlinear_arith) requires 0 <= a <= b;
}

fn sqrt_floor_u128(value: u128) -> (r: u128)
    requires
        value < u128::MAX,
    ensures
        is_floor_sqrt(r as int, value as int),
{
    if value <= 1 {
        assert(value * value == value) by (nonlinear_arith) requires value <= 1;
        assert((value + 1) * (value + 1) > value) by (nonlinear_arith) requires value <= 1;
        return value;
    }
    let mut low: u128 = 0;
    let mut high: u128 = value;
    assert(value < value * value) by (nonlinear_arith) requires value > 1;
    while low + 1 < high
        invariant
            value < u128::MAX,
            low < high <= value,
            low * low <= value,
            value < high * high,
        decreases high - low,
    {
        let mid: u128 = low + (high - low) / 2;
        let mid_sq = sat_mul_u128(mid, mid);
        if mid_sq <= value {
            assert(mid * mid <= value) by {
                if mid * mid > u128::MAX {
                    assert(mid_sq == u128::MAX);
                }
            }
            low = mid;
        } else {
            assert(mid * mid > value);
            high = mid;
        }
    }
    assert(high == low + 1);
    low
}

/// Euclidean distance rounded up to a whole unit.
pub fn euclidean_distance_units_ceil(a: ContinuousPosition, b: ContinuousPosition) -> (r: u64)
    ensures
        is_ceil_sqrt(r as int, distance_sq_spec(a, b)),
{
    let distance_sq = distance_sq_units(a, b);
    if distance_sq == 0 {
        return 0;
    }
    proof {
        let dx = clamp_i64(a.x_units - b.x_units);
        let dy = clamp_i64(a.y_units - b.y_units);
        lemma_square_bound(dx);
        lemma_square_bound(dy);
    }
    let floor = sqrt_floor_u128(distance_sq);
    proof {
        // floor^2 <= distance_sq <= 2^127 < (2^64 - 1)^2, hence floor < 2^64 - 1
        if floor >= 0xFFFF_FFFF_FFFF_FFFF {
            lemma_sq_monotone(0xFFFF_FFFF_FFFF_FFFF, floor as int);
            assert(0xFFFF_FFFF_FFFF_FFFFint * 0xFFFF_FFFF_FFFF_FFFFint
                > 0x4000_0000_0000_0000_0000_0000_0000_0000int * 2) by (nonlinear_arith);
            assert(false);
        }
        lemma_sq_monotone(floor as int, 0xFFFF_FFFF_FFFF_FFFF);
        assert(0xFFFF_FFFF_FFFF_FFFFint * 0xFFFF_FFFF_FFFF_FFFFint < u128::MAX) by (nonlinear_arith);
    }
    let floor_sq = sat_mul_u128(floor, floor);
    assert(floor_sq == floor * floor);
    let ceil: u128 = if floor_sq == distance_sq {
        floor
    } else {
        floor + 1
    };
    proof {
        let d = distance_sq as int;
        let f = floor as int;
        if floor_sq == distance_sq {
            assert(f >= 1) by {
                if f == 0 {
                    assert(f * f == 0) by (nonlinear_arith) requires f == 0;
                }
            }
            assert((f - 1) * (f - 1) < f * f) by (nonlinear_arith) requires f >= 1;
        } else {
            assert((f + 1 - 1) * (f + 1 - 1) == f * f);
        }
    }
    let m: u128 = if ceil < 0xFFFF_FFFF_FFFF_FFFF { ceil } else { 0xFFFF_FFFF_FFFF_FFFF };
    m as u64
}

/// Whether `point` lies in the disc of radius `radius_units` around
/// `center`; a non-positive radius only contains the centre itself.
pub fn circle_contains_point(
    center: ContinuousPosition,
    radius_units: i64,
    point: ContinuousPosition,
) -> (r: bool)
    ensures
        radius_units <= 0 ==> (r == (center == point)),
        radius_units > 0 ==> (r == (distance_sq_spec(center, point) <= radius_units
            * radius_units)),
{
    if radius_units <= 0 {
        return center == point;
    }
    let rr: i128 = radius_units as i128;
    proof {
        lemma_square_bound(rr as int);
    }
    let radius_sq: u128 = (rr * rr) as u128;
    distance_sq_units(center, point) <= radius_sq
}

/// Half extent of a centred box along one axis.
pub open spec fn box_half_extent(size: int, expansion: int) -> int {
    size / 2 + max_int(expansion, 0)
}

/// Whether `point` lies in the axis-aligned box of the given size centred on
/// `center`, grown by `expansion_units` on every side; a degenerate box only
/// contains its centre.
pub fn box_contains_point_centered(
    center: ContinuousPosition,
    width_units: i64,
    height_units: i64,
    expansion_units: i64,
    point: ContinuousPosition,
) -> (r: bool)
    ensures
        (width_units <= 0 || height_units <= 0) ==> (r == (point == center)),
        (width_units > 0 && height_units > 0) ==> (r == (abs_int(point.x_units - center.x_units)
            <= box_half_extent(width_units as int, expansion_units as int) && abs_int(
            point.y_units - center.y_units,
        ) <= box_half_extent(height_units as int, expansion_units as int))),
{
    if width_units <= 0 || height_units <= 0 {
        return point == center;
    }
    let e: i128 = if expansion_units > 0 { expansion_units as i128 } else { 0 };
    let half_width: i128 = (width_units as i128) / 2 + e;
    let half_height: i128 = (height_units as i128) / 2 + e;
    let ddx: i128 = point.x_units as i128 - center.x_units as i128;
    let ddy: i128 = point.y_units as i128 - center.y_units as i128;
    let dx: i128 = if ddx >= 0 { ddx } else { -ddx };
    let dy: i128 = if ddy >= 0 { ddy } else { -ddy };
    dx <= half_width && dy <= half_height
}

/// The signed projection `parallel` (scaled by the direction length) lies
/// within `backward_units` behind or `forward_units` ahead of the origin,
/// compared in squares with saturating arithmetic.
pub open spec fn parallel_within_spec(
    parallel: int,
    dir_len_sq: int,
    backward_units: int,
    forward_units: int,
) -> bool {
    let limit = if parallel < 0 { backward_units } else { forward_units };
    clamp_i128(parallel * parallel) <= clamp_i128(clamp_i128(limit * limit) * dir_len_sq)
}

fn signed_parallel_within_expanded_segment(
    parallel: i128,
    dir_len_sq: i128,
    backward_units: i128,
    forward_units: i128,
) -> (r: bool)
    ensures
        r == parallel_within_spec(
            parallel as int,
            dir_len_sq as int,
            backward_units as int,
            forward_units as int,
        ),
{
    let parallel_sq = sat_mul_i128(parallel, parallel);
    let limit_units = if parallel < 0 {
        backward_units
    } else {
        forward_units
    };
    let max_parallel_sq = sat_mul_i128(sat_mul_i128(limit_units, limit_units), dir_len_sq);
    parallel_sq <= max_parallel_sq
}

/// Squared length of the direction from `origin` to `hint`, each square
/// saturated to `i128`.
pub open spec fn dir_len_sq_spec(origin: ContinuousPosition, hint: ContinuousPosition) -> int {
    let dx = hint.x_units - origin.x_units;
    let dy = hint.y_units - origin.y_units;
    clamp_i128(dx * dx) + clamp_i128(dy * dy)
}

/// The direction's squared length can be summed without overflowing `i128`.
pub open spec fn dir_len_sq_fits(origin: ContinuousPosition, hint: ContinuousPosition) -> bool {
    dir_len_sq_spec(origin, hint) <= i128::MAX
}

/// Projection of `point - origin` onto the direction (saturating).
pub open spec fn parallel_spec(
    origin: ContinuousPosition,
    hint: ContinuousPosition,
    point: ContinuousPosition,
) -> int {
    let dx = hint.x_units - origin.x_units;
    let dy = hint.y_units - origin.y_units;
    let rx = point.x_units - origin.x_units;
    let ry = point.y_units - origin.y_units;
    clamp_i128(clamp_i128(rx * dx) + clamp_i128(ry * dy))
}

/// Cross product of `point - origin` with the direction (saturating).
pub open spec fn perp_spec(
    origin: ContinuousPosition,
    hint: ContinuousPosition,
    point: ContinuousPosition,
) -> int {
    let dx = hint.x_units - origin.x_units;
    let dy = hint.y_units - origin.y_units;
    let rx = point.x_units - origin.x_units;
    let ry = point.y_units - origin.y_units;
    clamp_i128(clamp_i128(rx * (-dy)) + clamp_i128(ry * dx))
}

/// The oriented strip test shared by lines and rectangles: the point's
/// projection lies in `[-expansion, length + expansion]` and its distance to
/// the axis is at most `half_width` (all scaled by the direction length).
pub open spec fn oriented_strip_spec(
    origin: ContinuousPosition,
    hint: ContinuousPosition,
    half_width: int,
    length: int,
    expansion: int,
    point: ContinuousPosition,
) -> bool {
    let d = dir_len_sq_spec(origin, hint);
    let p = perp_spec(origin, hint, point);
    &&& d > 0
    &&& parallel_within_spec(
        parallel_spec(origin, hint, point),
        d,
        expansion,
        clamp_i128(length + expansion),
    )
    &&& clamp_i128(p * p) <= clamp_i128(clamp_i128(half_width * half_width) * d)
}

fn offsets(origin: ContinuousPosition, other: ContinuousPosition) -> (r: (i128, i128))
    ensures
        r.0 == other.x_units - origin.x_units,
        r.1 == other.y_units - origin.y_units,
{
    (other.x_units as i128 - origin.x_units as i128, other.y_units as i128 - origin.y_units as i128)
}

/// Whether `point` lies on the segment of `length_units` from `origin` towards
/// `direction_hint`, thickened by `expansion_units` on every side.
pub fn line_contains_point_from_origin(
    origin: ContinuousPosition,
    direction_hint: ContinuousPosition,
    length_units: i64,
    expansion_units: i64,
    point: ContinuousPosition,
) -> (r: bool)
    requires
        length_units > 0 ==> dir_len_sq_fits(origin, direction_hint),
    ensures
        length_units <= 0 ==> (r == (point == origin)),
        length_units > 0 ==> (r == oriented_strip_spec(
            origin,
            direction_hint,
            max_int(expansion_units as int, 0),
            length_units as int,
            max_int(expansion_units as int, 0),
            point,
        )),
{
    if length_units <= 0 {
        return point == origin;
    }
    let (dir_x, dir_y) = offsets(origin, direction_hint);
    proof {
        assert(dir_x * dir_x >= 0) by (nonlinear_arith);
        assert(dir_y * dir_y >= 0) by (nonlinear_arith);
    }
    let dir_len_sq = sat_mul_i128(dir_x, dir_x) + sat_mul_i128(dir_y, dir_y);
    if dir_len_sq <= 0 {
        return false;
    }
    let (rel_x, rel_y) = offsets(origin, point);
    let parallel = sat_add_i128(sat_mul_i128(rel_x, dir_x), sat_mul_i128(rel_y, dir_y));
    let expansion: i128 = if expansion_units > 0 { expansion_units as i128 } else { 0 };
    let max_parallel_distance = sat_add_i128(length_units as i128, expansion);
    if !signed_parallel_within_expanded_segment(
        parallel,
        dir_len_sq,
        expansion,
        max_parallel_distance,
    ) {
        return false;
    }
    let perp = sat_add_i128(sat_mul_i128(rel_x, -dir_y), sat_mul_i128(rel_y, dir_x));
    let max_perp_sq = sat_mul_i128(sat_mul_i128(expansion, expansion), dir_len_sq);
    sat_mul_i128(perp, perp) <= max_perp_sq
}

/// Whether `point` lies in the rectangle of `width_units` x `length_units`
/// that starts at `origin` and extends towards `direction_hint`, grown by
/// `expansion_units` on every side.
pub fn rectangle_contains_point_from_origin(
    origin: ContinuousPosition,
    direction_hint: ContinuousPosition,
    width_units: i64,
    length_units: i64,
    expansion_units: i64,
    point: ContinuousPosition,
) -> (r: bool)
    requires
        (width_units > 0 && length_units > 0) ==> dir_len_sq_fits(origin, direction_hint),
    ensures
        (width_units <= 0 || length_units <= 0) ==> (r == (point == origin)),
        (width_units > 0 && length_units > 0) ==> (r == oriented_strip_spec(
            origin,
            direction_hint,
            width_units / 2 + max_int(expansion_units as int, 0),
            length_units as int,
            max_int(expansion_units as int, 0),
            point,
        )),
{
    if width_units <= 0 || length_units <= 0 {
        return point == origin;
    }
    let (dir_x, dir_y) = offsets(origin, direction_hint);
    proof {
        assert(dir_x * dir_x >= 0) by (nonlinear_arith);
        assert(dir_y * dir_y >= 0) by (nonlinear_arith);
    }
    let dir_len_sq = sat_mul_i128(dir_x, dir_x) + sat_mul_i128(dir_y, dir_y);
    if dir_len_sq <= 0 {
        return false;
    }
    let (rel_x, rel_y) = offsets(origin, point);
    let parallel = sat_add_i128(sat_mul_i128(rel_x, dir_x), sat_mul_i128(rel_y, dir_y));
    let half_width: i128 = (width_units as i128) / 2;
    let length: i128 = length_units as i128;
    let expansion: i128 = if expansion_units > 0 { expansion_units as i128 } else { 0 };
    let max_parallel_distance = sat_add_i128(length, expansion);
    if !signed_parallel_within_expanded_segment(
        parallel,
        dir_len_sq,
        expansion,
        max_parallel_distance,
    ) {
        return false;
    }
    let perp = sat_add_i128(sat_mul_i128(rel_x, -dir_y), sat_mul_i128(rel_y, dir_x));
    let expanded_half_width = sat_add_i128(half_width, expansion);
    let perp_sq = sat_mul_i128(perp, perp);
    let max_perp_sq = sat_mul_i128(
        sat_mul_i128(expanded_half_width, expanded_half_width),
        dir_len_sq,
    );
    perp_sq <= max_perp_sq
}

/// Every area shape contains the point it is anchored at: a circle of any
/// radius its centre, a box of any size its centre, and a line or
/// rectangle its origin whenever the direction is not degenerate.
pub proof fn lemma_shapes_contain_their_anchor(
    origin: ContinuousPosition,
    hint: ContinuousPosition,
    radius: int,
    size: int,
    half_width: int,
    length: int,
    expansion: int,
)
    requires
        dir_len_sq_spec(origin, hint) > 0,
        size > 0,
        half_width >= 0,
        length >= 0,
        expansion >= 0,
    ensures
        distance_sq_spec(origin, origin) <= radius * radius,
        abs_int(origin.x_units - origin.x_units) <= box_half_extent(size, expansion),
        oriented_strip_spec(origin, hint, half_width, length, expansion, origin),
{
    assert(radius * radius >= 0) by (nonlinear_arith);
    assert(clamp_i64(origin.x_units - origin.x_units) == 0);
    assert(clamp_i64(origin.y_units - origin.y_units) == 0);
    assert(distance_sq_spec(origin, origin) == 0);
    let dx = hint.x_units - origin.x_units;
    let dy = hint.y_units - origin.y_units;
    let zero = origin.x_units - origin.x_units;
    assert(zero * dx == 0 && zero * dy == 0 && zero * (-dy) == 0 && zero * zero == 0) by (nonlinear_arith)
        requires zero == 0;
    assert(parallel_spec(origin, hint, origin) == 0);
    assert(perp_spec(origin, hint, origin) == 0);
    let d = dir_len_sq_spec(origin, hint);
    assert(clamp_i128(clamp_i128(expansion * expansion) * d) >= 0) by (nonlinear_arith)
        requires d > 0;
    assert(clamp_i128(clamp_i128(clamp_i128(length + expansion) * clamp_i128(length + expansion)) * d) >= 0) by (nonlinear_arith)
        requires d > 0;
    assert(clamp_i128(clamp_i128(half_width * half_width) * d) >= 0) by (nonlinear_arith)
        requires d > 0;
}

/// A larger circle around the same centre contains everything a smaller
/// one does.
pub proof fn lemma_circle_grows_with_radius(center: ContinuousPosition, point: ContinuousPosition, r1: int, r2: int)
    requires
        0 < r1 <= r2,
        distance_sq_spec(center, point) <= r1 * r1,
    ensures
        distance_sq_spec(center, point) <= r2 * r2,
{
    lemma_sq_monotone(r1, r2);
}

/// Distance does not depend on the order of the two points, as long as
/// the axis gaps fit in `i64` (beyond that each gap saturates on its own
/// side).
pub proof fn lemma_distance_is_symmetric(a: ContinuousPosition, b: ContinuousPosition)
    requires
        i64::MIN < a.x_units - b.x_units <= i64::MAX,
        i64::MIN < a.y_units - b.y_units <= i64::MAX,
    ensures
        distance_sq_spec(a, b) == distance_sq_spec(b, a),
{
    assert((a.x_units - b.x_units) * (a.x_units - b.x_units) == (b.x_units - a.x_units) * (b.x_units - a.x_units)) by (nonlinear_arith);
    assert((a.y_units - b.y_units) * (a.y_units - b.y_units) == (b.y_units - a.y_units) * (b.y_units - a.y_units)) by (nonlinear_arith);
}

} // verus!
