//! Timing and kinematics: projectile flight times, step durations, sampled
//! motion of moving units and the earliest moment two moving units come
//! within reach of each other.
use vstd::prelude::*;
use crate::arith::{abs_int, clamp_i128, sat_add_i128, sat_mul_i128, clamp_i64, max_int, min_int, sat_add_i64, sat_mul_i64, sat_sub_i64, signum_int};
use crate::movement::{ActionState, ContinuousPosition, MovementSegmentEndKind, MovementState};
use crate::types::RuntimeUnit;

verus! {

/// `a / b` rounded up, for `b > 0`.
pub open spec fn ceil_div_nat(a: int, b: int) -> int {
    (a + b - 1) / b
}

/// Flight time of a projectile covering `distance_units` at
/// `speed_units_per_ms`: zero for no distance or no speed, otherwise the
/// distance divided by the speed rounded up (the numerator saturating).
pub open spec fn projectile_flight_spec(distance_units: int, speed_units_per_ms: int) -> int {
    if distance_units == 0 || speed_units_per_ms == 0 {
        0
    } else {
        min_int(distance_units + speed_units_per_ms - 1, u64::MAX as int) / speed_units_per_ms
    }
}

/// Flight time of a projectile over `distance_units`.
pub fn projectile_flight_ms(distance_units: u64, speed_units_per_ms: u32) -> (r: u64)
    ensures
        r == projectile_flight_spec(distance_units as int, speed_units_per_ms as int),
        distance_units > 0 && speed_units_per_ms > 0 && distance_units + speed_units_per_ms
            - 1 <= u64::MAX ==> r == ceil_div_nat(
            distance_units as int,
            speed_units_per_ms as int,
        ),
{
    if distance_units == 0 {
        return 0;
    }
    let speed_units_per_ms: u64 = speed_units_per_ms as u64;
    if speed_units_per_ms == 0 {
        // An invalid speed counts as an instant hit.
        return 0;
    }
    distance_units.saturating_add(speed_units_per_ms.saturating_sub(1)) / speed_units_per_ms
}

/// Flight time of a projectile launched by a skill delivery.
pub fn projectile_flight_ms_for_delivery(distance_units: u64, speed_units_per_ms: u32) -> (r: u64)
    ensures
        r == projectile_flight_spec(distance_units as int, speed_units_per_ms as int),
{
    projectile_flight_ms(distance_units, speed_units_per_ms)
}

/// `a / b` rounded up, where a zero divisor counts as one.
pub fn ceil_div_u64(a: u64, b: u64) -> (r: u64)
    requires
        b > 0 ==> a + b - 1 <= u64::MAX,
    ensures
        a == 0 ==> r == 0,
        a != 0 && b == 0 ==> r == a,
        a != 0 && b > 0 ==> r == ceil_div_nat(a as int, b as int),
{
    if a == 0 {
        return 0;
    }
    let d: u64 = if b >= 1 { b } else { 1 };
    (a + b.saturating_sub(1)) / d
}

/// Time for a unit moving at `speed` (zero counts as one) to cover the
/// larger axis distance to its target, rounded up and at least one
/// millisecond.
pub open spec fn time_to_reach_spec(
    pos_x_units: int,
    pos_y_units: int,
    target_x_units: int,
    target_y_units: int,
    speed_units_per_ms: int,
) -> int {
    let speed = max_int(speed_units_per_ms, 1);
    let dist = max_int(abs_int(target_x_units - pos_x_units), abs_int(target_y_units - pos_y_units));
    max_int(ceil_div_nat(dist, speed), 1)
}

/// The coordinate differences fit in `i64`.
pub open spec fn offsets_fit_i64(ax: int, ay: int, bx: int, by: int) -> bool {
    i64::MIN <= bx - ax <= i64::MAX && i64::MIN <= by - ay <= i64::MAX
}

/// Time for a unit to reach its step target (see `time_to_reach_spec`).
pub fn time_to_reach_target_ms(
    pos_x_units: i64,
    pos_y_units: i64,
    target_x_units: i64,
    target_y_units: i64,
    speed_units_per_ms: u32,
) -> (r: u64)
    requires
        offsets_fit_i64(
            pos_x_units as int,
            pos_y_units as int,
            target_x_units as int,
            target_y_units as int,
        ),
    ensures
        r == time_to_reach_spec(
            pos_x_units as int,
            pos_y_units as int,
            target_x_units as int,
            target_y_units as int,
            speed_units_per_ms as int,
        ),
        r >= 1,
{
    let speed: u64 = if speed_units_per_ms >= 1 { speed_units_per_ms as u64 } else { 1 };
    let ddx: i64 = target_x_units - pos_x_units;
    let ddy: i64 = target_y_units - pos_y_units;
    let dist_x: u64 = if ddx >= 0 { ddx as u64 } else { (-(ddx as i128)) as u64 };
    let dist_y: u64 = if ddy >= 0 { ddy as u64 } else { (-(ddy as i128)) as u64 };
    let dist_units: u64 = if dist_x >= dist_y { dist_x } else { dist_y };
    // `div_ceil` on u64
    let q: u64 = dist_units / speed;
    let c: u64 = if dist_units % speed != 0 { q + 1 } else { q };
    proof {
        let d = dist_units as int;
        let s = speed as int;
        assert(d == s * (d / s) + d % s) by (nonlinear_arith) requires s > 0;
        assert(0 <= d % s < s);
        assert((d + s - 1) / s == c) by (nonlinear_arith)
            requires
                s > 0,
                d == s * (d / s) + d % s,
                0 <= d % s < s,
                q == d / s,
                c == if d % s != 0 { q + 1 } else { q as int },
        ;
    }
    if c >= 1 { c } else { 1 }
}

/// `a / b` rounded towards negative infinity (`b != 0`).
pub open spec fn floor_div(a: int, b: int) -> int {
    if b > 0 { a / b } else { (-a) / (-b) }
}

/// `a / b` rounded towards positive infinity (`b != 0`).
pub open spec fn ceil_div(a: int, b: int) -> int {
    -floor_div(-a, b)
}

/// The quotient of `a / b` fits in `i128`.
pub open spec fn div_fits(a: int, b: int) -> bool {
    b != 0 && !(a == i128::MIN && b == -1)
}

/// Truncating division and remainder, as Rust computes them on `i128`.
pub(crate) fn trunc_div_rem_i128(a: i128, b: i128) -> (r: (i128, i128))
    requires
        div_fits(a as int, b as int),
    ensures
        r.0 * b + r.1 == a,
        abs_int(r.1 as int) < abs_int(b as int),
        r.1 == 0 || ((r.1 > 0) == (a > 0)),
        r.1 != 0 ==> -0x4000_0000_0000_0000_0000_0000_0000_0000 <= r.0
            <= 0x4000_0000_0000_0000_0000_0000_0000_0000,
{
    // Rust's `/` and `%` on `i128` truncate; compute them through magnitudes.
    let ua: u128 = if a >= 0 { a as u128 } else if a == i128::MIN { 0x8000_0000_0000_0000_0000_0000_0000_0000u128 } else { (-a) as u128 };
    let ub: u128 = if b >= 0 { b as u128 } else if b == i128::MIN { 0x8000_0000_0000_0000_0000_0000_0000_0000u128 } else { (-b) as u128 };
    let uq = ua / ub;
    let ur = ua % ub;
    proof {
        let ia = ua as int;
        let ib = ub as int;
        let iq = uq as int;
        let ir = ur as int;
        assert(ia == ib * (ia / ib) + ia % ib) by (nonlinear_arith) requires ib > 0;
        assert(0 <= ia % ib < ib);
        assert(ia == ib * iq + ir);
        assert(iq <= ia) by (nonlinear_arith) requires ib >= 1, ia == ib * iq + ir, ir >= 0, iq >= 0;
        assert(ib >= 2 ==> 2 * iq <= ia) by (nonlinear_arith) requires ia == ib * iq + ir, ir >= 0, iq >= 0;
        assert(ir != 0 ==> ib >= 2);
    }
    let sq: i128 = if (a >= 0) == (b >= 0) {
        uq as i128
    } else if uq == 0x8000_0000_0000_0000_0000_0000_0000_0000u128 {
        i128::MIN
    } else {
        -(uq as i128)
    };
    let sr: i128 = if a >= 0 { ur as i128 } else { -(ur as i128) };
    proof {
        let ia = ua as int;
        let ib = ub as int;
        assert(sq * b + sr == a) by (nonlinear_arith)
            requires
                ia == ib * uq + ur,
                ia == abs_int(a as int),
                ib == abs_int(b as int),
                sq == (if (a >= 0) == (b >= 0) { uq as int } else { -(uq as int) }),
                sr == (if a >= 0 { ur as int } else { -(ur as int) }),
        ;
    }
    (sq, sr)
}

/// Division rounding towards negative infinity.
pub fn div_floor_i128(lhs: i128, rhs: i128) -> (r: i128)
    requires
        div_fits(lhs as int, rhs as int),
    ensures
        r == floor_div(lhs as int, rhs as int),
{
    let (q, r) = trunc_div_rem_i128(lhs, rhs);
    proof {
        lemma_floor_div_unique(lhs as int, rhs as int, q as int, r as int);
    }
    if r != 0 && ((r > 0) != (rhs > 0)) {
        q - 1
    } else {
        q
    }
}

/// Division rounding towards positive infinity.
pub fn div_ceil_i128(lhs: i128, rhs: i128) -> (r: i128)
    requires
        div_fits(lhs as int, rhs as int),
    ensures
        r == ceil_div(lhs as int, rhs as int),
{
    let (q, r) = trunc_div_rem_i128(lhs, rhs);
    proof {
        lemma_ceil_div_unique(lhs as int, rhs as int, q as int, r as int);
    }
    if r != 0 && ((r > 0) == (rhs > 0)) {
        q + 1
    } else {
        q
    }
}

proof fn lemma_floor_div_unique(a: int, b: int, q: int, r: int)
    requires
        b != 0,
        q * b + r == a,
        abs_int(r) < abs_int(b),
    ensures
        floor_div(a, b) == if r != 0 && ((r > 0) != (b > 0)) { q - 1 } else { q },
{
    let f = if r != 0 && ((r > 0) != (b > 0)) { q - 1 } else { q };
    if b > 0 {
        // a == f * b + m with 0 <= m < b
        let m = a - f * b;
        assert(0 <= m < b) by (nonlinear_arith)
            requires
                b > 0,
                q * b + r == a,
                abs_int(r) < b,
                f == (if r != 0 && r < 0 { q - 1 } else { q }),
                m == a - f * b,
        ;
        lemma_div_unique(a, b, f, m);
    } else {
        let m = -a - f * (-b);
        assert(0 <= m < -b) by (nonlinear_arith)
            requires
                b < 0,
                q * b + r == a,
                abs_int(r) < -b,
                f == (if r != 0 && r > 0 { q - 1 } else { q }),
                m == -a - f * (-b),
        ;
        lemma_div_unique(-a, -b, f, m);
    }
}

proof fn lemma_ceil_div_unique(a: int, b: int, q: int, r: int)
    requires
        b != 0,
        q * b + r == a,
        abs_int(r) < abs_int(b),
    ensures
        ceil_div(a, b) == if r != 0 && ((r > 0) == (b > 0)) { q + 1 } else { q },
{
    assert((-q) * b + (-r) == -a) by (nonlinear_arith) requires q * b + r == a;
    lemma_floor_div_unique(-a, b, -q, -r);
}

proof fn lemma_div_unique(a: int, b: int, q: int, m: int)
    requires
        b > 0,
        a == q * b + m,
        0 <= m < b,
    ensures
        a / b == q,
{
    vstd::arithmetic::div_mod::lemma_fundamental_div_mod_converse(a, b, q, m);
}

/// A moving unit sampled at one instant: where it is, its per-millisecond
/// velocity, and until when that velocity holds (`None`: standing still).
#[derive(Debug, Clone, Copy, PartialEq, Eq, Structural)]
pub struct SampledMotionSegment {
    pub pos_x_units: i64,
    pub pos_y_units: i64,
    pub vel_x_units_per_ms: i64,
    pub vel_y_units_per_ms: i64,
    pub moving_until_ms: Option<u64>,
}

/// Squared distance at time `t` of two points whose offset starts at
/// `(dx0, dy0)` and changes by `(dvx, dvy)` per millisecond, minus the
/// squared reach: non-positive exactly when they are within reach.
pub open spec fn reach_gap(dx0: int, dy0: int, dvx: int, dvy: int, reach: int, t: int) -> int {
    (dx0 + dvx * t) * (dx0 + dvx * t) + (dy0 + dvy * t) * (dy0 + dvy * t) - reach * reach
}

/// The squared distance at time `t` can be formed in `i128`.
pub open spec fn gap_fits(dx0: int, dy0: int, dvx: int, dvy: int, t: int) -> bool {
    (dx0 + dvx * t) * (dx0 + dvx * t) + (dy0 + dvy * t) * (dy0 + dvy * t) <= i128::MAX
}

proof fn lemma_square_small(x: int)
    requires
        x * x <= i128::MAX,
    ensures
        -0x1_0000_0000_0000_0000 < x < 0x1_0000_0000_0000_0000,
{
    if x >= 0x1_0000_0000_0000_0000 || x <= -0x1_0000_0000_0000_0000 {
        assert(x * x >= 0x1_0000_0000_0000_0000 * 0x1_0000_0000_0000_0000) by (nonlinear_arith)
            requires x >= 0x1_0000_0000_0000_0000 || x <= -0x1_0000_0000_0000_0000;
    }
}

proof fn lemma_nonneg_sq(x: int)
    ensures
        x * x >= 0,
{
    assert(x * x >= 0) by (nonlinear_arith);
}

/// `distance_minus_reach_sq_at`: the reach gap of an offset evolving
/// linearly, at `t_ms`.
pub fn distance_minus_reach_sq_at(
    dx0: i64,
    dy0: i64,
    dvx: i64,
    dvy: i64,
    reach_units: i64,
    t_ms: u64,
) -> (r: i128)
    requires
        gap_fits(dx0 as int, dy0 as int, dvx as int, dvy as int, t_ms as int),
    ensures
        r == reach_gap(dx0 as int, dy0 as int, dvx as int, dvy as int, reach_units as int, t_ms as int),
{
    let t: i128 = t_ms as i128;
    proof {
        let ex = dx0 + dvx * t;
        let ey = dy0 + dvy * t;
        lemma_nonneg_sq(ex);
        lemma_nonneg_sq(ey);
        lemma_square_small(ex);
        lemma_square_small(ey);
        lemma_nonneg_sq(reach_units as int);
        assert(reach_units * reach_units <= 0x4000_0000_0000_0000_0000_0000_0000_0000) by (nonlinear_arith)
            requires i64::MIN <= reach_units <= i64::MAX;
    }
    let dx: i128 = dx0 as i128 + dvx as i128 * t;
    let dy: i128 = dy0 as i128 + dvy as i128 * t;
    let reach: i128 = if reach_units >= 0 { reach_units as i128 } else { -(reach_units as i128) };
    proof {
        assert(reach * reach == reach_units * reach_units) by (nonlinear_arith)
            requires reach == abs_int(reach_units as int);
    }
    dx * dx + dy * dy - reach * reach
}

/// Offsets and relative velocity of `attacker` with respect to `target`,
/// each saturated to `i64`.
pub open spec fn rel_dx0(a: SampledMotionSegment, b: SampledMotionSegment) -> int {
    clamp_i64(a.pos_x_units - b.pos_x_units)
}

pub open spec fn rel_dy0(a: SampledMotionSegment, b: SampledMotionSegment) -> int {
    clamp_i64(a.pos_y_units - b.pos_y_units)
}

pub open spec fn rel_dvx(a: SampledMotionSegment, b: SampledMotionSegment) -> int {
    clamp_i64(a.vel_x_units_per_ms - b.vel_x_units_per_ms)
}

pub open spec fn rel_dvy(a: SampledMotionSegment, b: SampledMotionSegment) -> int {
    clamp_i64(a.vel_y_units_per_ms - b.vel_y_units_per_ms)
}

/// Reach gap between two sampled units `t` milliseconds after the sample.
pub open spec fn encounter_gap(
    a: SampledMotionSegment,
    b: SampledMotionSegment,
    reach: int,
    t: int,
) -> int {
    reach_gap(rel_dx0(a, b), rel_dy0(a, b), rel_dvx(a, b), rel_dvy(a, b), reach, t)
}

/// The encounter computation over `[0, max_dt]` stays within `i128`: the
/// squared distance at both ends of the window, the squared relative speed
/// (doubled) and the doubled linear coefficient all fit.
pub open spec fn encounter_fits(a: SampledMotionSegment, b: SampledMotionSegment, max_dt: int) -> bool {
    let dx0 = rel_dx0(a, b);
    let dy0 = rel_dy0(a, b);
    let dvx = rel_dvx(a, b);
    let dvy = rel_dvy(a, b);
    &&& gap_fits(dx0, dy0, dvx, dvy, 0)
    &&& gap_fits(dx0, dy0, dvx, dvy, max_dt)
    &&& 2 * (dvx * dvx + dvy * dvy) <= i128::MAX
    &&& 2 * abs_int(dx0 * dvx + dy0 * dvy) <= i128::MAX
}

proof fn lemma_gap_poly(dx0: int, dy0: int, dvx: int, dvy: int, reach: int, t: int)
    ensures
        reach_gap(dx0, dy0, dvx, dvy, reach, t) == (dvx * dvx + dvy * dvy) * (t * t) + (2 * (dx0
            * dvx + dy0 * dvy)) * t + (dx0 * dx0 + dy0 * dy0 - reach * reach),
{
    assert((dx0 + dvx * t) * (dx0 + dvx * t) == dvx * dvx * (t * t) + 2 * dx0 * dvx * t + dx0
        * dx0) by (nonlinear_arith);
    assert((dy0 + dvy * t) * (dy0 + dvy * t) == dvy * dvy * (t * t) + 2 * dy0 * dvy * t + dy0
        * dy0) by (nonlinear_arith);
    assert((dvx * dvx + dvy * dvy) * (t * t) == dvx * dvx * (t * t) + dvy * dvy * (t * t))
        by (nonlinear_arith);
    assert((2 * (dx0 * dvx + dy0 * dvy)) * t == 2 * dx0 * dvx * t + 2 * dy0 * dvy * t)
        by (nonlinear_arith);
}

/// The difference of the reach gap at two times factors through the
/// quadratic's coefficients.
proof fn lemma_gap_diff(dx0: int, dy0: int, dvx: int, dvy: int, reach: int, t: int, s: int)
    ensures
        reach_gap(dx0, dy0, dvx, dvy, reach, t) - reach_gap(dx0, dy0, dvx, dvy, reach, s) == (t
            - s) * ((dvx * dvx + dvy * dvy) * (t + s) + 2 * (dx0 * dvx + dy0 * dvy)),
{
    lemma_gap_poly(dx0, dy0, dvx, dvy, reach, t);
    lemma_gap_poly(dx0, dy0, dvx, dvy, reach, s);
    let a = dvx * dvx + dvy * dvy;
    let b = 2 * (dx0 * dvx + dy0 * dvy);
    assert(a * (t * t) + b * t - (a * (s * s) + b * s) == (t - s) * (a * (t + s) + b))
        by (nonlinear_arith);
}

proof fn lemma_gap_fits_between(dx0: int, dy0: int, dvx: int, dvy: int, t: int, big_t: int)
    requires
        0 <= t <= big_t,
        gap_fits(dx0, dy0, dvx, dvy, 0),
        gap_fits(dx0, dy0, dvx, dvy, big_t),
    ensures
        gap_fits(dx0, dy0, dvx, dvy, t),
{
    let a = dvx * dvx + dvy * dvy;
    let b = 2 * (dx0 * dvx + dy0 * dvy);
    lemma_gap_diff(dx0, dy0, dvx, dvy, 0, t, 0);
    lemma_gap_diff(dx0, dy0, dvx, dvy, 0, t, big_t);
    lemma_nonneg_sq(dvx);
    lemma_nonneg_sq(dvy);
    let g0 = reach_gap(dx0, dy0, dvx, dvy, 0, 0);
    let gt = reach_gap(dx0, dy0, dvx, dvy, 0, t);
    let gb = reach_gap(dx0, dy0, dvx, dvy, 0, big_t);
    assert(gt <= g0 || gt <= gb) by (nonlinear_arith)
        requires
            a >= 0,
            0 <= t <= big_t,
            gt - g0 == (t - 0) * (a * (t + 0) + b),
            gt - gb == (t - big_t) * (a * (t + big_t) + b),
    ;
    assert(reach_gap(dx0, dy0, dvx, dvy, 0, 0) == (dx0 + dvx * 0) * (dx0 + dvx * 0) + (dy0 + dvy
        * 0) * (dy0 + dvy * 0) - 0 * 0);
}

/// Between the integer floor and ceiling of the vertex of the gap's
/// parabola lies its minimum over any integer window.
proof fn lemma_candidate_min(
    dx0: int,
    dy0: int,
    dvx: int,
    dvy: int,
    reach: int,
    t: int,
    big_t: int,
    c2: int,
    c3: int,
)
    requires
        dvx * dvx + dvy * dvy > 0,
        0 <= t <= big_t,
        c2 == min_int(max_int(floor_div(-(2 * (dx0 * dvx + dy0 * dvy)), 2 * (dvx * dvx + dvy
            * dvy)), 0), big_t),
        c3 == min_int(max_int(ceil_div(-(2 * (dx0 * dvx + dy0 * dvy)), 2 * (dvx * dvx + dvy
            * dvy)), 0), big_t),
    ensures
        reach_gap(dx0, dy0, dvx, dvy, reach, t) >= reach_gap(dx0, dy0, dvx, dvy, reach, c2)
            || reach_gap(dx0, dy0, dvx, dvy, reach, t) >= reach_gap(
            dx0,
            dy0,
            dvx,
            dvy,
            reach,
            c3,
        ),
{
    let a = dvx * dvx + dvy * dvy;
    let b = 2 * (dx0 * dvx + dy0 * dvy);
    let d = 2 * a;
    let q = floor_div(-b, d);
    let p = b / d;
    let qc = ceil_div(-b, d);
    assert(qc == -p);
    // q * d <= -b < (q + 1) * d and p * d <= b < (p + 1) * d
    vstd::arithmetic::div_mod::lemma_fundamental_div_mod(-b, d);
    vstd::arithmetic::div_mod::lemma_fundamental_div_mod(b, d);
    assert(q * d <= -b < (q + 1) * d) by (nonlinear_arith)
        requires -b == d * q + (-b) % d, 0 <= (-b) % d < d;
    assert(qc * d >= -b > (qc - 1) * d) by (nonlinear_arith)
        requires b == d * p + b % d, 0 <= b % d < d, qc == -p;
    assert(qc <= q + 1) by (nonlinear_arith)
        requires d > 0, -b < (q + 1) * d, -b > (qc - 1) * d;
    let gt = reach_gap(dx0, dy0, dvx, dvy, reach, t);
    if t <= q {
        assert(c2 == min_int(q, big_t));
        if t < c2 {
            lemma_gap_diff(dx0, dy0, dvx, dvy, reach, t, c2);
            assert(gt - reach_gap(dx0, dy0, dvx, dvy, reach, c2) > 0) by (nonlinear_arith)
                requires
                    a > 0,
                    d == 2 * a,
                    t < c2 <= q,
                    q * d <= -b,
                    gt - reach_gap(dx0, dy0, dvx, dvy, reach, c2) == (t - c2) * (a * (t + c2)
                        + b),
            ;
        }
    } else {
        assert(t >= qc);
        assert(c3 == max_int(qc, 0));
        if t > c3 {
            lemma_gap_diff(dx0, dy0, dvx, dvy, reach, t, c3);
            assert(gt - reach_gap(dx0, dy0, dvx, dvy, reach, c3) > 0) by (nonlinear_arith)
                requires
                    a > 0,
                    d == 2 * a,
                    qc <= c3 < t,
                    qc * d >= -b,
                    gt - reach_gap(dx0, dy0, dvx, dvy, reach, c3) == (t - c3) * (a * (t + c3)
                        + b),
            ;
        }
    }
}

/// Up to a minimiser of the gap over `[0, big_t]`, the gap does not increase.
proof fn lemma_gap_nonincreasing_to_min(
    dx0: int,
    dy0: int,
    dvx: int,
    dvy: int,
    reach: int,
    s: int,
    u: int,
    m: int,
    big_t: int,
)
    requires
        0 <= s <= u <= m <= big_t,
        forall|t: int|
            0 <= t <= big_t ==> #[trigger] reach_gap(dx0, dy0, dvx, dvy, reach, t)
                >= reach_gap(dx0, dy0, dvx, dvy, reach, m),
    ensures
        reach_gap(dx0, dy0, dvx, dvy, reach, s) >= reach_gap(dx0, dy0, dvx, dvy, reach, u),
{
    let a = dvx * dvx + dvy * dvy;
    let b = 2 * (dx0 * dvx + dy0 * dvy);
    lemma_nonneg_sq(dvx);
    lemma_nonneg_sq(dvy);
    let gs = reach_gap(dx0, dy0, dvx, dvy, reach, s);
    let gu = reach_gap(dx0, dy0, dvx, dvy, reach, u);
    let gm = reach_gap(dx0, dy0, dvx, dvy, reach, m);
    assert(gs >= gm);
    assert(gu >= gm);
    if s < u && u < m {
        lemma_gap_diff(dx0, dy0, dvx, dvy, reach, s, u);
        lemma_gap_diff(dx0, dy0, dvx, dvy, reach, m, u);
        assert(gs >= gu) by (nonlinear_arith)
            requires
                a >= 0,
                s < u < m,
                gu >= gm,
                gs - gu == (s - u) * (a * (s + u) + b),
                gm - gu == (m - u) * (a * (m + u) + b),
        ;
    }
}

fn clamp_i128_range(v: i128, lo: i128, hi: i128) -> (r: i128)
    requires
        lo <= hi,
    ensures
        r == min_int(max_int(v as int, lo as int), hi as int),
{
    if v < lo {
        lo
    } else if v > hi {
        hi
    } else {
        v
    }
}

/// The earliest whole millisecond `t` in `[0, max_dt_ms]` at which
/// `attacker` is within `reach_units` of `target` (both keep their sampled
/// velocities), or `None` if the window is empty or they never meet in it.
pub fn earliest_range_enter_dt_ms(
    attacker: SampledMotionSegment,
    target: SampledMotionSegment,
    reach_units: i64,
    max_dt_ms: u64,
) -> (r: Option<u64>)
    requires
        encounter_fits(attacker, target, max_dt_ms as int),
    ensures
        opt_u64_as_int(r) == first_meeting(attacker, target, reach_units as int, max_dt_ms as int),
        max_dt_ms == 0 ==> r is None,
        r matches Some(t) ==> {
            &&& t <= max_dt_ms
            &&& encounter_gap(attacker, target, reach_units as int, t as int) <= 0
            &&& forall|s: int|
                0 <= s < t ==> #[trigger] encounter_gap(attacker, target, reach_units as int, s)
                    > 0
        },
        (r is None && max_dt_ms > 0) ==> forall|t: int|
            0 <= t <= max_dt_ms ==> #[trigger] encounter_gap(
                attacker,
                target,
                reach_units as int,
                t,
            ) > 0,
{
    if max_dt_ms == 0 {
        return None;
    }
    let dx0 = sat_sub_i64(attacker.pos_x_units, target.pos_x_units);
    let dy0 = sat_sub_i64(attacker.pos_y_units, target.pos_y_units);
    let dvx = sat_sub_i64(attacker.vel_x_units_per_ms, target.vel_x_units_per_ms);
    let dvy = sat_sub_i64(attacker.vel_y_units_per_ms, target.vel_y_units_per_ms);
    let ghost reach = reach_units as int;
    let ghost big_t = max_dt_ms as int;
    assert forall|t: int| 0 <= t <= big_t implies gap_fits(
        dx0 as int,
        dy0 as int,
        dvx as int,
        dvy as int,
        t,
    ) by {
        lemma_gap_fits_between(dx0 as int, dy0 as int, dvx as int, dvy as int, t, big_t);
    }

    if distance_minus_reach_sq_at(dx0, dy0, dvx, dvy, reach_units, 0) <= 0 {
        proof {
            lemma_first_meeting_is(attacker, target, reach_units as int, max_dt_ms as int, 0);
        }
        return Some(0);
    }
    proof {
        lemma_nonneg_sq(dvx as int);
        lemma_nonneg_sq(dvy as int);
    }
    let a: i128 = dvx as i128 * dvx as i128 + dvy as i128 * dvy as i128;
    if a == 0 {
        proof {
            assert(dvx == 0 && dvy == 0) by (nonlinear_arith)
                requires dvx * dvx + dvy * dvy == 0, dvx * dvx >= 0, dvy * dvy >= 0;
            assert forall|t: int| 0 <= t <= big_t implies #[trigger] encounter_gap(
                attacker,
                target,
                reach,
                t,
            ) > 0 by {
                lemma_gap_diff(dx0 as int, dy0 as int, dvx as int, dvy as int, reach, t, 0);
            }
        }
        return None;
    }
    proof {
        assert(-0x4000_0000_0000_0000_0000_0000_0000_0000 <= dx0 * dvx <= 0x4000_0000_0000_0000_0000_0000_0000_0000) by (nonlinear_arith)
            requires i64::MIN <= dx0 <= i64::MAX, i64::MIN <= dvx <= i64::MAX;
        assert(-0x4000_0000_0000_0000_0000_0000_0000_0000 <= dy0 * dvy <= 0x4000_0000_0000_0000_0000_0000_0000_0000) by (nonlinear_arith)
            requires i64::MIN <= dy0 <= i64::MAX, i64::MIN <= dvy <= i64::MAX;
    }
    let b: i128 = 2 * (dx0 as i128 * dvx as i128 + dy0 as i128 * dvy as i128);
    let vertex_denom: i128 = 2 * a;
    let max_dt_i128: i128 = max_dt_ms as i128;
    let c2 = clamp_i128_range(div_floor_i128(-b, vertex_denom), 0, max_dt_i128);
    let c3 = clamp_i128_range(div_ceil_i128(-b, vertex_denom), 0, max_dt_i128);
    let candidates: [i128; 4] = [0, max_dt_i128, c2, c3];

    let mut min_t: u64 = 0;
    let mut min_value: i128 = i128::MAX;
    let mut i: usize = 0;
    while i < 4
        invariant
            0 <= i <= 4,
            candidates@ == seq![0, max_dt_i128, c2, c3],
            0 <= c2 <= max_dt_ms,
            0 <= c3 <= max_dt_ms,
            max_dt_i128 == max_dt_ms,
            big_t == max_dt_ms as int,
            forall|t: int| 0 <= t <= big_t ==> #[trigger] gap_fits(dx0 as int, dy0 as int, dvx as int, dvy as int, t),
            min_t <= max_dt_ms,
            i == 0 ==> min_value == i128::MAX,
            i > 0 ==> min_value == reach_gap(dx0 as int, dy0 as int, dvx as int, dvy as int, reach_units as int, min_t as int),
            forall|j: int| 0 <= j < i ==> reach_gap(dx0 as int, dy0 as int, dvx as int, dvy as int, reach_units as int, candidates@[j] as int) >= min_value,
        decreases 4 - i,
    {
        let candidate = candidates[i];
        assert(0 <= candidate <= max_dt_ms);
        let t_ms: u64 = candidate as u64;
        assert(gap_fits(dx0 as int, dy0 as int, dvx as int, dvy as int, t_ms as int));
        let value = distance_minus_reach_sq_at(dx0, dy0, dvx, dvy, reach_units, t_ms);
        if value < min_value || (value == min_value && t_ms < min_t) {
            min_value = value;
            min_t = t_ms;
        }
        i = i + 1;
    }
    proof {
        assert(reach_gap(dx0 as int, dy0 as int, dvx as int, dvy as int, reach_units as int, c2 as int) >= min_value);
        assert(reach_gap(dx0 as int, dy0 as int, dvx as int, dvy as int, reach_units as int, c3 as int) >= min_value);
        assert forall|t: int| 0 <= t <= big_t implies #[trigger] reach_gap(dx0 as int, dy0 as int, dvx as int, dvy as int, reach_units as int, t) >= min_value by {
            lemma_candidate_min(
                dx0 as int,
                dy0 as int,
                dvx as int,
                dvy as int,
                reach,
                t,
                big_t,
                c2 as int,
                c3 as int,
            );
        }
    }

    if min_value > 0 {
        assert(!(exists|t: int| 0 <= t <= big_t && #[trigger] encounter_gap(attacker, target, reach_units as int, t) <= 0)) by {
            assert forall|t: int| 0 <= t <= big_t implies #[trigger] encounter_gap(attacker, target, reach_units as int, t) > 0 by {
                assert(reach_gap(dx0 as int, dy0 as int, dvx as int, dvy as int, reach_units as int, t) >= min_value);
            }
        }
        return None;
    }

    let mut low: u64 = 1;
    let mut high: u64 = if min_t >= 1 { min_t } else { 1 };
    assert(min_t >= 1) by {
        assert(reach_gap(dx0 as int, dy0 as int, dvx as int, dvy as int, reach_units as int, 0) > 0);
    }
    while low < high
        invariant
            1 <= low <= high <= min_t <= max_dt_ms,
            reach_gap(dx0 as int, dy0 as int, dvx as int, dvy as int, reach_units as int, high as int) <= 0,
            forall|s: int| 0 <= s < low ==> #[trigger] reach_gap(dx0 as int, dy0 as int, dvx as int, dvy as int, reach_units as int, s) > 0,
            big_t == max_dt_ms as int,
            forall|t: int| 0 <= t <= big_t ==> #[trigger] gap_fits(dx0 as int, dy0 as int, dvx as int, dvy as int, t),
            forall|t: int| 0 <= t <= big_t ==> #[trigger] reach_gap(dx0 as int, dy0 as int, dvx as int, dvy as int, reach_units as int, t) >= reach_gap(dx0 as int, dy0 as int, dvx as int, dvy as int, reach_units as int, min_t as int),
        decreases high - low,
    {
        let mid = low + (high - low) / 2;
        assert(gap_fits(dx0 as int, dy0 as int, dvx as int, dvy as int, mid as int));
        if distance_minus_reach_sq_at(dx0, dy0, dvx, dvy, reach_units, mid) <= 0 {
            high = mid;
        } else {
            assert forall|s: int| 0 <= s < mid + 1 implies #[trigger] reach_gap(dx0 as int, dy0 as int, dvx as int, dvy as int, reach_units as int, s) > 0 by {
                lemma_gap_nonincreasing_to_min(
                    dx0 as int,
                    dy0 as int,
                    dvx as int,
                    dvy as int,
                    reach_units as int,
                    s,
                    mid as int,
                    min_t as int,
                    big_t,
                );
            }
            low = mid + 1;
        }
    }
    proof {
        lemma_first_meeting_is(attacker, target, reach_units as int, max_dt_ms as int, low as int);
    }
    Some(low)
}

/// Division truncating towards zero, as Rust's `/` does (`b != 0`).
pub open spec fn trunc_div(a: int, b: int) -> int {
    let q = abs_int(a) / abs_int(b);
    if (a >= 0) == (b >= 0) { q } else { -q }
}

pub(crate) proof fn lemma_trunc_div_matches(a: int, b: int, q: int, r: int)
    requires
        b != 0,
        q * b + r == a,
        abs_int(r) < abs_int(b),
        r == 0 || ((r > 0) == (a > 0)),
    ensures
        q == trunc_div(a, b),
{
    let aa = abs_int(a);
    let ab = abs_int(b);
    let aq = abs_int(q);
    let ar = abs_int(r);
    if a == 0 {
        assert(q == 0) by (nonlinear_arith)
            requires b != 0, q * b + r == 0, abs_int(r) < abs_int(b);
    }
    if q != 0 && a != 0 {
        assert(((q > 0) == ((a > 0) == (b > 0)))) by (nonlinear_arith)
            requires
                b != 0,
                q * b + r == a,
                abs_int(r) < abs_int(b),
                r == 0 || ((r > 0) == (a > 0)),
                q != 0,
                a != 0,
        ;
    }
    assert(aa == aq * ab + ar) by (nonlinear_arith)
        requires
            b != 0,
            q * b + r == a,
            r == 0 || ((r > 0) == (a > 0)),
            a == 0 ==> q == 0,
            (q != 0 && a != 0) ==> ((q > 0) == ((a > 0) == (b > 0))),
            aa == abs_int(a),
            ab == abs_int(b),
            aq == abs_int(q),
            ar == abs_int(r),
    ;
    lemma_div_unique(aa, ab, aq, ar);
}

/// Position of a projectile flying in a straight line from `start` to
/// `aim` in `total_ms`, `elapsed_ms` after launch, along one axis.
pub open spec fn projectile_axis_at(s: int, a: int, elapsed: int, total: int) -> int {
    clamp_i64(s + trunc_div(clamp_i128((a - s) * elapsed), total))
}

/// Where a projectile launched from `start` towards `aim` with flight time
/// `total_ms` is after `elapsed_ms`; from the end of the flight on (or for
/// an instant flight) it is at `aim`.
pub fn sample_projectile_position_at(
    start: ContinuousPosition,
    aim: ContinuousPosition,
    elapsed_ms: u64,
    total_ms: u64,
) -> (p: ContinuousPosition)
    ensures
        (total_ms == 0 || elapsed_ms >= total_ms) ==> p == aim,
        (total_ms > 0 && elapsed_ms < total_ms) ==> {
            &&& p.x_units == projectile_axis_at(start.x_units as int, aim.x_units as int, elapsed_ms as int, total_ms as int)
            &&& p.y_units == projectile_axis_at(start.y_units as int, aim.y_units as int, elapsed_ms as int, total_ms as int)
        },
{
    if total_ms == 0 || elapsed_ms >= total_ms {
        return aim;
    }
    let elapsed: i128 = elapsed_ms as i128;
    let total: i128 = total_ms as i128;
    let dx: i128 = aim.x_units as i128 - start.x_units as i128;
    let dy: i128 = aim.y_units as i128 - start.y_units as i128;
    let x = lerp_axis(start.x_units, dx, elapsed, total);
    let y = lerp_axis(start.y_units, dy, elapsed, total);
    ContinuousPosition::new(x, y)
}

fn lerp_axis(start: i64, delta: i128, elapsed: i128, total: i128) -> (r: i64)
    requires
        0 <= elapsed < total,
        total <= u64::MAX,
        -0x1_0000_0000_0000_0000 < delta < 0x1_0000_0000_0000_0000,
    ensures
        r == clamp_i64(start + trunc_div(clamp_i128(delta * elapsed), total as int)),
{
    let scaled = sat_mul_i128(delta, elapsed);
    let (q, rem) = trunc_div_rem_i128(scaled, total);
    proof {
        lemma_trunc_div_matches(scaled as int, total as int, q as int, rem as int);
        // |q| <= |scaled| / total < 2^127 / 1, and |start| < 2^63
        assert(abs_int(q as int) <= abs_int(scaled as int)) by (nonlinear_arith)
            requires
                total >= 1,
                q * total + rem == scaled,
                abs_int(rem as int) < total,
                rem == 0 || ((rem > 0) == (scaled > 0)),
        ;
        assert(abs_int(scaled as int) <= 0x1_0000_0000_0000_0000 * 0x1_0000_0000_0000_0000) by (nonlinear_arith)
            requires
                -0x1_0000_0000_0000_0000 < delta < 0x1_0000_0000_0000_0000,
                0 <= elapsed < 0x1_0000_0000_0000_0000,
                scaled == clamp_i128(delta * elapsed),
        ;
    }
    let v: i128 = sat_add_i128(start as i128, q);
    let c: i128 = if v < i64::MIN as i128 {
        i64::MIN as i128
    } else if v > i64::MAX as i128 {
        i64::MAX as i128
    } else {
        v
    };
    c as i64
}

/// One axis of a move towards `target` by at most `cap` units.
pub open spec fn step_toward(pos: int, target: int, cap: int) -> int {
    let d = target - pos;
    pos + if d >= 0 { min_int(d, cap) } else { max_int(d, -cap) }
}

/// How far a unit moving at `speed` (at least one) may travel in `elapsed`
/// milliseconds, saturated to `i64`.
pub open spec fn move_cap(speed: int, elapsed: int) -> int {
    clamp_i64(max_int(speed, 1) * elapsed)
}

/// The inputs of a motion update stay in range: the time since the last
/// update fits in `i64` and the offset to the step target fits in `i64`.
pub open spec fn motion_fits(pos_x: int, pos_y: int, state: MovementState, now_ms: int) -> bool {
    &&& now_ms - state.last_update_ms <= i64::MAX
    &&& offsets_fit_i64(pos_x, pos_y, state.target_x_units as int, state.target_y_units as int)
}

fn step_axis(pos: i64, target: i64, cap: i64) -> (r: i64)
    requires
        i64::MIN <= target - pos <= i64::MAX,
        cap >= 0,
    ensures
        r == step_toward(pos as int, target as int, cap as int),
{
    let d = sat_sub_i64(target, pos);
    let step = if d >= 0 {
        if d <= cap { d } else { cap }
    } else {
        if d >= -cap { d } else { -cap }
    };
    sat_add_i64(pos, step)
}

/// Milliseconds since the last update, at most `i64::MAX`.
fn elapsed_i64(now_ms: u64, last_ms: u64) -> (r: i64)
    requires
        now_ms - last_ms <= i64::MAX,
    ensures
        r == if now_ms >= last_ms { now_ms - last_ms } else { 0 },
{
    let e: u64 = now_ms.saturating_sub(last_ms);
    e as i64
}

/// Velocity along one axis of a unit still `remaining` units from its step
/// target.
pub open spec fn axis_velocity(remaining: int, speed: int) -> int {
    signum_int(remaining) * max_int(speed, 1)
}

/// When the sampled motion of a moving unit stops: at the step target,
/// or for a range-enter segment at its planned end if that comes sooner.
pub open spec fn moving_until_spec(
    state: MovementState,
    now_ms: int,
    boundary_until_ms: int,
) -> int {
    if state.step_end_kind == MovementSegmentEndKind::RangeEnter {
        min_int(max_int(state.step_ends_at_ms as int, now_ms), boundary_until_ms)
    } else {
        boundary_until_ms
    }
}

/// The sampled motion of a unit at `now_ms`: a moving unit is advanced
/// along its current step and keeps moving at full speed towards the step
/// target; any other unit stands still.
pub open spec fn sampled_motion_spec(unit: RuntimeUnit, now_ms: int) -> SampledMotionSegment {
    match unit.action_state {
        ActionState::Moving(state) => {
            let speed = max_int(unit.stats.move_speed_units_per_ms as int, 1);
            let elapsed = if now_ms >= state.last_update_ms { now_ms - state.last_update_ms } else { 0 };
            let cap = move_cap(speed, elapsed);
            let x = step_toward(unit.pos_x_units as int, state.target_x_units as int, cap);
            let y = step_toward(unit.pos_y_units as int, state.target_y_units as int, cap);
            let boundary = min_int(
                now_ms + time_to_reach_spec(x, y, state.target_x_units as int, state.target_y_units as int, speed),
                u64::MAX as int,
            );
            SampledMotionSegment {
                pos_x_units: x as i64,
                pos_y_units: y as i64,
                vel_x_units_per_ms: axis_velocity(state.target_x_units - x, speed) as i64,
                vel_y_units_per_ms: axis_velocity(state.target_y_units - y, speed) as i64,
                moving_until_ms: Some(moving_until_spec(state, now_ms, boundary) as u64),
            }
        },
        _ => SampledMotionSegment {
            pos_x_units: unit.pos_x_units,
            pos_y_units: unit.pos_y_units,
            vel_x_units_per_ms: 0,
            vel_y_units_per_ms: 0,
            moving_until_ms: None,
        },
    }
}

proof fn lemma_step_between(pos: int, target: int, cap: int)
    requires
        cap >= 0,
    ensures
        min_int(pos, target) <= step_toward(pos, target, cap) <= max_int(pos, target),
        abs_int(target - step_toward(pos, target, cap)) == abs_int(target - pos) - min_int(
            abs_int(target - pos),
            cap,
        ),
{
}

impl RuntimeUnit {
    /// Samples this unit's motion at `now_ms` (see `sampled_motion_spec`).
    pub fn sample_motion_segment(&self, now_ms: u64) -> (r: SampledMotionSegment)
        requires
            self.action_state matches ActionState::Moving(state) ==> motion_fits(
                self.pos_x_units as int,
                self.pos_y_units as int,
                state,
                now_ms as int,
            ),
        ensures
            r == sampled_motion_spec(*self, now_ms as int),
    {
        let mut pos_x_units = self.pos_x_units;
        let mut pos_y_units = self.pos_y_units;
        match &self.action_state {
            ActionState::Moving(state) => {
                let speed: u32 = if self.stats.move_speed_units_per_ms >= 1 { self.stats.move_speed_units_per_ms } else { 1 };
                let speed_units_per_ms: i64 = speed as i64;
                let elapsed = elapsed_i64(now_ms, state.last_update_ms);
                let cap = sat_mul_i64(speed_units_per_ms, elapsed);
                proof {
                    assert(cap >= 0) by (nonlinear_arith) requires cap == clamp_i64(speed_units_per_ms * elapsed), speed_units_per_ms >= 1, elapsed >= 0;
                    lemma_step_between(pos_x_units as int, state.target_x_units as int, cap as int);
                    lemma_step_between(pos_y_units as int, state.target_y_units as int, cap as int);
                }
                pos_x_units = step_axis(pos_x_units, state.target_x_units, cap);
                pos_y_units = step_axis(pos_y_units, state.target_y_units, cap);
                let remaining_dx = sat_sub_i64(state.target_x_units, pos_x_units);
                let remaining_dy = sat_sub_i64(state.target_y_units, pos_y_units);
                let boundary_until_ms = now_ms.saturating_add(
                    time_to_reach_target_ms(
                        pos_x_units,
                        pos_y_units,
                        state.target_x_units,
                        state.target_y_units,
                        speed,
                    ),
                );
                let sx: i64 = if remaining_dx > 0 { 1 } else if remaining_dx < 0 { -1 } else { 0 };
                let sy: i64 = if remaining_dy > 0 { 1 } else if remaining_dy < 0 { -1 } else { 0 };
                let moving_until_ms = if state.step_end_kind == MovementSegmentEndKind::RangeEnter {
                    let lower = if state.step_ends_at_ms >= now_ms { state.step_ends_at_ms } else { now_ms };
                    if lower <= boundary_until_ms { lower } else { boundary_until_ms }
                } else {
                    boundary_until_ms
                };
                let vx = sat_mul_i64(sx, speed_units_per_ms);
                let vy = sat_mul_i64(sy, speed_units_per_ms);
                proof {
                    let spd = max_int(self.stats.move_speed_units_per_ms as int, 1);
                    assert(spd == speed_units_per_ms);
                    assert(vx == axis_velocity(state.target_x_units - pos_x_units, spd)) by (nonlinear_arith)
                        requires vx == clamp_i64(sx * speed_units_per_ms), sx == signum_int(remaining_dx as int), remaining_dx == state.target_x_units - pos_x_units, spd == speed_units_per_ms, 1 <= spd <= u32::MAX;
                    assert(vy == axis_velocity(state.target_y_units - pos_y_units, spd)) by (nonlinear_arith)
                        requires vy == clamp_i64(sy * speed_units_per_ms), sy == signum_int(remaining_dy as int), remaining_dy == state.target_y_units - pos_y_units, spd == speed_units_per_ms, 1 <= spd <= u32::MAX;
                }
                let r = SampledMotionSegment {
                    pos_x_units,
                    pos_y_units,
                    vel_x_units_per_ms: vx,
                    vel_y_units_per_ms: vy,
                    moving_until_ms: Some(moving_until_ms),
                };
                r
            },
            _ => SampledMotionSegment {
                pos_x_units,
                pos_y_units,
                vel_x_units_per_ms: 0,
                vel_y_units_per_ms: 0,
                moving_until_ms: None,
            },
        }
    }

    /// Advances a moving unit along its current step up to `now_ms`, by at
    /// most speed times the elapsed time on each axis and never past the
    /// step target; other units, and calls at or before the last update,
    /// change nothing.
    pub fn update_move_position_to(&mut self, now_ms: u64)
        requires
            old(self).action_state matches ActionState::Moving(state) ==> motion_fits(
                old(self).pos_x_units as int,
                old(self).pos_y_units as int,
                state,
                now_ms as int,
            ),
        ensures
            *final(self) == advanced_unit(*old(self), now_ms),
    {
        let speed: u32 = if self.stats.move_speed_units_per_ms >= 1 { self.stats.move_speed_units_per_ms } else { 1 };
        match &mut self.action_state {
            ActionState::Moving(state) => {
                let last = state.last_update_ms;
                if now_ms <= last {
                    return;
                }
                let elapsed = elapsed_i64(now_ms, last);
                let cap = sat_mul_i64(speed as i64, elapsed);
                proof {
                    assert(cap >= 0) by (nonlinear_arith) requires cap == clamp_i64(speed * elapsed), speed >= 1, elapsed >= 0;
                }
                self.pos_x_units = step_axis(self.pos_x_units, state.target_x_units, cap);
                self.pos_y_units = step_axis(self.pos_y_units, state.target_y_units, cap);
                state.last_update_ms = now_ms;
            },
            _ => {},
        }
    }
}

/// The unit after its motion is brought up to `now_ms`: a moving unit
/// steps towards its step target by at most speed (at least one) times the
/// elapsed time on each axis; other units, and times at or before the last
/// update, are unchanged.
pub open spec fn advanced_unit(u: RuntimeUnit, now_ms: u64) -> RuntimeUnit {
    match u.action_state {
        ActionState::Moving(state) => if now_ms <= state.last_update_ms {
            u
        } else {
            let cap = move_cap(u.stats.move_speed_units_per_ms as int, now_ms - state.last_update_ms);
            RuntimeUnit {
                pos_x_units: step_toward(u.pos_x_units as int, state.target_x_units as int, cap) as i64,
                pos_y_units: step_toward(u.pos_y_units as int, state.target_y_units as int, cap) as i64,
                action_state: ActionState::Moving(MovementState { last_update_ms: now_ms, ..state }),
                ..u
            }
        },
        _ => u,
    }
}

/// `t` is the first whole millisecond at which the two sampled units are
/// within reach.
pub open spec fn meets_first_at(
    a: SampledMotionSegment,
    b: SampledMotionSegment,
    reach: int,
    t: int,
) -> bool {
    &&& 0 <= t
    &&& encounter_gap(a, b, reach, t) <= 0
    &&& forall|s: int| 0 <= s < t ==> #[trigger] encounter_gap(a, b, reach, s) > 0
}

/// The first millisecond in `[0, max_dt]` at which the units are within
/// reach, if the window is non-empty and they meet in it.
pub open spec fn first_meeting(
    a: SampledMotionSegment,
    b: SampledMotionSegment,
    reach: int,
    max_dt: int,
) -> Option<int> {
    if max_dt > 0 && exists|t: int| 0 <= t <= max_dt && #[trigger] encounter_gap(a, b, reach, t) <= 0 {
        Some(choose|t: int| meets_first_at(a, b, reach, t))
    } else {
        None
    }
}

pub open spec fn opt_u64_as_int(o: Option<u64>) -> Option<int> {
    match o {
        Some(v) => Some(v as int),
        None => None,
    }
}

proof fn lemma_first_meeting_is(
    a: SampledMotionSegment,
    b: SampledMotionSegment,
    reach: int,
    max_dt: int,
    t: int,
)
    requires
        0 <= t <= max_dt,
        max_dt > 0,
        meets_first_at(a, b, reach, t),
    ensures
        first_meeting(a, b, reach, max_dt) == Some(t),
{
    assert(encounter_gap(a, b, reach, t) <= 0);
    assert(exists|u: int| 0 <= u <= max_dt && #[trigger] encounter_gap(a, b, reach, u) <= 0);
    let c = choose|u: int| meets_first_at(a, b, reach, u);
    assert(meets_first_at(a, b, reach, c));
    if c < t {
        assert(encounter_gap(a, b, reach, c) > 0);
    }
    if t < c {
        assert(encounter_gap(a, b, reach, t) > 0);
    }
}

/// Time until a target's sampled motion stops, capped by the attacker's
/// own step time.
pub open spec fn valid_window(target: SampledMotionSegment, now_ms: int, boundary_dt_ms: int) -> int {
    match target.moving_until_ms {
        Some(until) => min_int(if until >= now_ms { until - now_ms } else { 0 }, boundary_dt_ms),
        None => boundary_dt_ms,
    }
}

/// The smaller of two optional times.
pub open spec fn min_opt(a: Option<int>, b: Option<int>) -> Option<int> {
    match (a, b) {
        (Some(x), Some(y)) => Some(min_int(x, y)),
        (Some(x), None) => Some(x),
        (None, _) => b,
    }
}

/// Earliest first meeting of the attacker with any of `targets`.
pub open spec fn earliest_meeting_among(
    attacker: SampledMotionSegment,
    targets: Seq<SampledMotionSegment>,
    now_ms: int,
    boundary_dt_ms: int,
    reach: int,
) -> Option<int>
    decreases targets.len(),
{
    if targets.len() == 0 {
        None
    } else {
        let last = targets.last();
        min_opt(
            earliest_meeting_among(attacker, targets.drop_last(), now_ms, boundary_dt_ms, reach),
            first_meeting(attacker, last, reach, valid_window(last, now_ms, boundary_dt_ms)),
        )
    }
}

fn window_for(target: &SampledMotionSegment, now_ms: u64, boundary_dt_ms: u64) -> (r: u64)
    ensures
        r == valid_window(*target, now_ms as int, boundary_dt_ms as int),
{
    let w = match target.moving_until_ms {
        Some(until_ms) => until_ms.saturating_sub(now_ms),
        None => boundary_dt_ms,
    };
    if w <= boundary_dt_ms { w } else { boundary_dt_ms }
}

/// The earliest millisecond, within the attacker's current step, at which a
/// moving melee attacker comes within `reach_units` of any of the (living,
/// hostile) `targets`, each target considered only while its own sampled
/// motion holds.
pub fn earliest_instant_range_enter_dt(
    attacker: SampledMotionSegment,
    targets: &Vec<SampledMotionSegment>,
    now_ms: u64,
    boundary_dt_ms: u64,
    reach_units: i64,
) -> (r: Option<u64>)
    requires
        forall|i: int|
            0 <= i < targets.len() ==> encounter_fits(
                attacker,
                #[trigger] targets@[i],
                valid_window(targets@[i], now_ms as int, boundary_dt_ms as int),
            ),
    ensures
        opt_u64_as_int(r) == earliest_meeting_among(
            attacker,
            targets@,
            now_ms as int,
            boundary_dt_ms as int,
            reach_units as int,
        ),
{
    let mut earliest: Option<u64> = None;
    let mut i: usize = 0;
    while i < targets.len()
        invariant
            0 <= i <= targets.len(),
            forall|j: int|
                0 <= j < targets.len() ==> encounter_fits(
                    attacker,
                    #[trigger] targets@[j],
                    valid_window(targets@[j], now_ms as int, boundary_dt_ms as int),
                ),
            opt_u64_as_int(earliest) == earliest_meeting_among(
                attacker,
                targets@.take(i as int),
                now_ms as int,
                boundary_dt_ms as int,
                reach_units as int,
            ),
        decreases targets.len() - i,
    {
        let target = targets[i];
        let valid_dt = window_for(&target, now_ms, boundary_dt_ms);
        let range = earliest_range_enter_dt_ms(attacker, target, reach_units, valid_dt);
        proof {
            let w = valid_dt as int;
            match range {
                Some(t) => {
                    lemma_first_meeting_is(attacker, target, reach_units as int, w, t as int);
                },
                None => {
                    if w > 0 {
                        assert(!(exists|t: int| 0 <= t <= w && #[trigger] encounter_gap(attacker, target, reach_units as int, t) <= 0));
                    }
                },
            }
            assert(targets@.take(i + 1).drop_last() =~= targets@.take(i as int));
            assert(targets@.take(i + 1).last() == target);
        }
        match range {
            Some(range_dt) => {
                earliest = Some(match earliest {
                    Some(best) => if best <= range_dt { best } else { range_dt },
                    None => range_dt,
                });
            },
            None => {},
        }
        i = i + 1;
    }
    assert(targets@.take(targets.len() as int) =~= targets@);
    earliest
}

/// Time for a moving unit to reach its step target from where it is sampled
/// at `now_ms`.
pub open spec fn step_boundary_dt(unit: RuntimeUnit, state: MovementState, now_ms: int) -> int {
    let sample = sampled_motion_spec(unit, now_ms);
    time_to_reach_spec(
        sample.pos_x_units as int,
        sample.pos_y_units as int,
        state.target_x_units as int,
        state.target_y_units as int,
        unit.stats.move_speed_units_per_ms as int,
    )
}

/// The earliest range entry strictly inside the step, if any.
pub open spec fn range_enter_inside(found: Option<int>, boundary_dt: int) -> Option<int> {
    match found {
        Some(dt) => if 0 < dt < boundary_dt { Some(dt) } else { None },
        None => None,
    }
}

impl RuntimeUnit {
    /// Schedules the end of a moving unit's current step. A melee unit that
    /// uses continuous range (`use_continuous_range`) and would come within
    /// `reach_units` of one of `enemies` strictly before reaching the step
    /// target ends its step there (a range-enter segment); otherwise the
    /// step ends at the target (a boundary segment). Returns the end time;
    /// a unit that is not moving is left as it is and gets `None`.
    pub fn schedule_current_move_step(
        &mut self,
        now_ms: u64,
        use_continuous_range: bool,
        enemies: &Vec<SampledMotionSegment>,
        reach_units: i64,
    ) -> (r: Option<u64>)
        requires
            old(self).action_state matches ActionState::Moving(state) ==> {
                &&& motion_fits(old(self).pos_x_units as int, old(self).pos_y_units as int, state, now_ms as int)
                &&& use_continuous_range ==> forall|i: int|
                    0 <= i < enemies.len() ==> encounter_fits(
                        sampled_motion_spec(*old(self), now_ms as int),
                        #[trigger] enemies@[i],
                        valid_window(enemies@[i], now_ms as int, step_boundary_dt(*old(self), state, now_ms as int)),
                    )
            },
        ensures
            match old(self).action_state {
                ActionState::Moving(state) => {
                    let boundary = step_boundary_dt(*old(self), state, now_ms as int);
                    let found = if use_continuous_range {
                        range_enter_inside(
                            earliest_meeting_among(
                                sampled_motion_spec(*old(self), now_ms as int),
                                enemies@,
                                now_ms as int,
                                boundary,
                                reach_units as int,
                            ),
                            boundary,
                        )
                    } else {
                        None
                    };
                    let (end, kind) = match found {
                        Some(dt) => (min_int(now_ms + dt, u64::MAX as int), MovementSegmentEndKind::RangeEnter),
                        None => (min_int(now_ms + boundary, u64::MAX as int), MovementSegmentEndKind::Boundary),
                    };
                    &&& r == Some(end as u64)
                    &&& final(self).action_state == ActionState::Moving(MovementState {
                        step_started_at_ms: now_ms,
                        step_ends_at_ms: end as u64,
                        step_end_kind: kind,
                        ..state
                    })
                    &&& final(self).pos_x_units == old(self).pos_x_units
                    &&& final(self).pos_y_units == old(self).pos_y_units
                    &&& final(self).stats == old(self).stats
                },
                _ => r is None && *final(self) == *old(self),
            },
    {
        let sample = self.sample_motion_segment(now_ms);
        let speed: u32 = if self.stats.move_speed_units_per_ms >= 1 { self.stats.move_speed_units_per_ms } else { 1 };
        let ghost old_self = *self;
        match &mut self.action_state {
            ActionState::Moving(state) => {
                proof {
                    lemma_step_between(old_self.pos_x_units as int, state.target_x_units as int, move_cap(old_self.stats.move_speed_units_per_ms as int, if now_ms >= state.last_update_ms { now_ms - state.last_update_ms } else { 0 }));
                    lemma_step_between(old_self.pos_y_units as int, state.target_y_units as int, move_cap(old_self.stats.move_speed_units_per_ms as int, if now_ms >= state.last_update_ms { now_ms - state.last_update_ms } else { 0 }));
                    assert(move_cap(old_self.stats.move_speed_units_per_ms as int, if now_ms >= state.last_update_ms { now_ms - state.last_update_ms } else { 0 }) >= 0) by (nonlinear_arith)
                        requires now_ms >= state.last_update_ms ==> now_ms - state.last_update_ms >= 0;
                }
                let boundary_dt_ms = time_to_reach_target_ms(
                    sample.pos_x_units,
                    sample.pos_y_units,
                    state.target_x_units,
                    state.target_y_units,
                    speed,
                );
                if use_continuous_range {
                    let found = earliest_instant_range_enter_dt(sample, enemies, now_ms, boundary_dt_ms, reach_units);
                    match found {
                        Some(range_dt_ms) => {
                            if range_dt_ms > 0 && range_dt_ms < boundary_dt_ms {
                                let end_ms = now_ms.saturating_add(range_dt_ms);
                                state.step_started_at_ms = now_ms;
                                state.step_ends_at_ms = end_ms;
                                state.step_end_kind = MovementSegmentEndKind::RangeEnter;
                                return Some(end_ms);
                            }
                        },
                        None => {},
                    }
                }
                let end_ms = now_ms.saturating_add(if boundary_dt_ms >= 1 { boundary_dt_ms } else { 1 });
                state.step_started_at_ms = now_ms;
                state.step_ends_at_ms = end_ms;
                state.step_end_kind = MovementSegmentEndKind::Boundary;
                Some(end_ms)
            },
            _ => None,
        }
    }
}

/// A projectile's flight time is the least whole number of milliseconds in
/// which it covers the distance: enough, and one millisecond less is not
/// (while the rounded-up numerator fits in `u64`).
pub proof fn lemma_flight_time_is_least_cover(distance_units: u64, speed_units_per_ms: u32)
    requires
        distance_units > 0,
        speed_units_per_ms > 0,
        distance_units + speed_units_per_ms - 1 <= u64::MAX,
    ensures
        projectile_flight_spec(distance_units as int, speed_units_per_ms as int) * speed_units_per_ms >= distance_units,
        (projectile_flight_spec(distance_units as int, speed_units_per_ms as int) - 1) * speed_units_per_ms < distance_units,
{
    let d = distance_units as int;
    let s = speed_units_per_ms as int;
    let f = projectile_flight_spec(d, s);
    assert(f == (d + s - 1) / s);
    vstd::arithmetic::div_mod::lemma_fundamental_div_mod(d + s - 1, s);
    let r = (d + s - 1) % s;
    assert(0 <= r < s) by {
        vstd::arithmetic::div_mod::lemma_mod_bound(d + s - 1, s);
    }
    assert(f * s >= d) by (nonlinear_arith)
        requires s * f + r == d + s - 1, r < s;
    assert((f - 1) * s < d) by (nonlinear_arith)
        requires s * f + r == d + s - 1, 0 <= r;
}

/// A projectile is at its launch point when it is launched.
pub proof fn lemma_projectile_starts_at_launch(start: int, aim: int, total: int)
    requires
        i64::MIN <= start <= i64::MAX,
        total > 0,
    ensures
        projectile_axis_at(start, aim, 0, total) == start,
{
    assert((aim - start) * 0 == 0);
    assert(trunc_div(0, total) == 0);
}

/// Bringing a moving unit's motion up to date never carries it past its
/// step target: on each axis it ends between where it was and the target,
/// and never farther from the target than before.
pub proof fn lemma_advance_never_overshoots(u: RuntimeUnit, now_ms: u64)
    requires
        u.action_state is Moving,
    ensures
        ({
            let state = u.action_state->Moving_0;
            let a = advanced_unit(u, now_ms);
            &&& min_int(u.pos_x_units as int, state.target_x_units as int) <= a.pos_x_units <= max_int(
                u.pos_x_units as int,
                state.target_x_units as int,
            )
            &&& min_int(u.pos_y_units as int, state.target_y_units as int) <= a.pos_y_units <= max_int(
                u.pos_y_units as int,
                state.target_y_units as int,
            )
            &&& abs_int(state.target_x_units - a.pos_x_units) <= abs_int(state.target_x_units - u.pos_x_units)
            &&& abs_int(state.target_y_units - a.pos_y_units) <= abs_int(state.target_y_units - u.pos_y_units)
        }),
{
    let state = u.action_state->Moving_0;
    if now_ms > state.last_update_ms {
        let cap = move_cap(u.stats.move_speed_units_per_ms as int, now_ms - state.last_update_ms);
        assert(cap >= 0) by (nonlinear_arith)
            requires
                cap == clamp_i64(max_int(u.stats.move_speed_units_per_ms as int, 1) * (now_ms - state.last_update_ms)),
                now_ms - state.last_update_ms > 0,
        ;
        lemma_step_between(u.pos_x_units as int, state.target_x_units as int, cap);
        lemma_step_between(u.pos_y_units as int, state.target_y_units as int, cap);
    }
}

} // verus!
