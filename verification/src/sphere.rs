//! Spheres, and where a ray meets one.
//!
//! A ray `origin + t * direction` meets the sphere where
//! `|origin + t * direction - center|^2 = radius^2`. The equation is solved
//! for the distance along the unit vector of the direction, where its
//! leading coefficient is one, in the form with half the linear
//! coefficient; the distance is then divided by the length of the
//! direction, which `unit_vector` knows to sixty bits whatever that length
//! is. Of the two roots the nearer one is taken if it lies in the interval
//! asked for, else the farther one if that does.
use crate::fixed::{
    clamp_raw, in_range, lemma_trunc_div_monotonic, magnitude, sat_add, sat_mul, sat_sqrt,
    sat_sub, trunc_div, Fixed, MAX_RAW, ONE_RAW,
};
use crate::hittable::{
    lemma_stored_normal_opposes_ray, with_face_normal, Hit, HitRecord, HitView,
};
use crate::material::{MaterialKind, MaterialView};
use crate::ray::{ray_at, Ray, RayView};
use crate::vec3::{
    dot_wide, lemma_unit_vector_length, max_magnitude, unit_length, unit_scale, v3_dot,
    v3_in_range, v3_length_squared, v3_neg, v3_sub, v3_unit, v3_zero, Vec3, V3,
};
use crate::Point3;
use core::ops::Neg;
use vstd::prelude::*;

verus! {

/// The raw integers of a sphere.
pub struct SphereView {
    pub center: V3,
    pub radius: int,
    pub material: MaterialView,
}

/// The equation `s^2 + 2 * half_b * s + c = 0` for the distance `s` along
/// the unit vector of `direction` at which a ray meets a sphere.
pub struct Quadratic {
    pub half_b: int,
    pub c: int,
    pub direction: V3,
}

/// The equation for the distances at which `ray` meets `sphere`.
pub open spec fn sphere_quadratic(sphere: SphereView, ray: RayView) -> Quadratic {
    let oc = v3_sub(ray.origin, sphere.center);
    Quadratic {
        half_b: v3_dot(oc, v3_unit(ray.direction)),
        c: sat_sub(v3_length_squared(oc), sat_mul(sphere.radius, sphere.radius)),
        direction: ray.direction,
    }
}

/// The discriminant: `half_b^2 - c`.
pub open spec fn discriminant(q: Quadratic) -> int {
    sat_sub(sat_mul(q.half_b, q.half_b), q.c)
}

/// The smaller distance: `-half_b - sqrt(discriminant)`.
pub open spec fn near_distance(q: Quadratic) -> int {
    sat_sub(-q.half_b, sat_sqrt(discriminant(q)))
}

/// The larger distance: `-half_b + sqrt(discriminant)`.
pub open spec fn far_distance(q: Quadratic) -> int {
    sat_add(-q.half_b, sat_sqrt(discriminant(q)))
}

/// The parameter of a ray along `direction` at the given distance from its
/// origin: the distance divided by the length of the direction, rounded
/// toward zero and saturated. The length is taken from the direction scaled
/// up as `unit_vector` scales it. For the zero direction it is zero.
pub open spec fn parameter_at(distance: int, direction: V3) -> int {
    clamp_raw(trunc_div(distance * (unit_scale(direction) * ONE_RAW), unit_length(direction)))
}

/// The smaller root: the parameter at the smaller distance.
pub open spec fn near_root(q: Quadratic) -> int {
    parameter_at(near_distance(q), q.direction)
}

/// The larger root: the parameter at the larger distance.
pub open spec fn far_root(q: Quadratic) -> int {
    parameter_at(far_distance(q), q.direction)
}

/// Whether `t` lies in the interval from `t_min` to `t_max`, ends included.
pub open spec fn within(t: int, t_min: int, t_max: int) -> bool {
    t_min <= t <= t_max
}

/// The root at which the ray is taken to meet the sphere: none where the
/// discriminant is negative; else the smaller root if it lies in the
/// interval, else the larger one if that does, else none.
pub open spec fn accepted_root(q: Quadratic, t_min: int, t_max: int) -> Option<int> {
    if discriminant(q) < 0 {
        None
    } else if within(near_root(q), t_min, t_max) {
        Some(near_root(q))
    } else if within(far_root(q), t_min, t_max) {
        Some(far_root(q))
    } else {
        None
    }
}

/// The outward normal of `sphere` at the point `p`: the unit vector from
/// the centre to `p`, which is `(p - center) / radius` for a point on the
/// sphere. A negative radius turns it inward.
pub open spec fn outward_normal(sphere: SphereView, p: V3) -> V3 {
    let away = v3_unit(v3_sub(p, sphere.center));
    if sphere.radius < 0 {
        v3_neg(away)
    } else {
        away
    }
}

/// The record of `ray` meeting `sphere` at the parameter `t`.
pub open spec fn hit_at(sphere: SphereView, ray: RayView, t: int) -> HitView {
    let p = ray_at(ray, t);
    with_face_normal(
        HitView {
            p,
            normal: v3_zero(),
            material: sphere.material,
            t,
            front_face: true,
        },
        ray,
        outward_normal(sphere, p),
    )
}

/// Where `ray` meets `sphere` within the interval, if it does. The
/// definition is hidden from proofs that do not reveal it.
#[verifier::opaque]
pub open spec fn sphere_hit(sphere: SphereView, ray: RayView, t_min: int, t_max: int) -> Option<
    HitView,
> {
    match accepted_root(sphere_quadratic(sphere, ray), t_min, t_max) {
        Some(t) => Some(hit_at(sphere, ray, t)),
        None => None,
    }
}

/// Whether `t` lies strictly between `t_min` and `t_max`.
pub open spec fn strictly_within(t: int, t_min: int, t_max: int) -> bool {
    t_min < t < t_max
}

/// A ray misses a sphere exactly where the discriminant is negative or both
/// roots lie outside the interval from `t_min` to `t_max`.
pub proof fn lemma_miss_condition(sphere: SphereView, ray: RayView, t_min: int, t_max: int)
    ensures
        sphere_hit(sphere, ray, t_min, t_max) is None <==> {
            let q = sphere_quadratic(sphere, ray);
            discriminant(q) < 0 || (!within(near_root(q), t_min, t_max) && !within(
                far_root(q),
                t_min,
                t_max,
            ))
        },
{
    reveal(sphere_hit);
}

/// Whether the ray meets the sphere only at an end of the interval: a root
/// is accepted, and neither root lies strictly within the interval.
pub open spec fn meets_only_at_an_end(q: Quadratic, t_min: int, t_max: int) -> bool {
    &&& discriminant(q) >= 0
    &&& within(near_root(q), t_min, t_max) || within(far_root(q), t_min, t_max)
    &&& !strictly_within(near_root(q), t_min, t_max)
    &&& !strictly_within(far_root(q), t_min, t_max)
}

/// Unless the ray meets the sphere only at an end of the interval, where it
/// is taken to meet it, a ray misses a sphere exactly where the
/// discriminant is negative or neither root lies strictly within the
/// interval.
pub proof fn lemma_miss_condition_strict(sphere: SphereView, ray: RayView, t_min: int, t_max: int)
    requires
        !meets_only_at_an_end(sphere_quadratic(sphere, ray), t_min, t_max),
    ensures
        sphere_hit(sphere, ray, t_min, t_max) is None <==> {
            let q = sphere_quadratic(sphere, ray);
            discriminant(q) < 0 || (!strictly_within(near_root(q), t_min, t_max)
                && !strictly_within(far_root(q), t_min, t_max))
        },
{
    reveal(sphere_hit);
}

/// A ray that meets a sphere meets it at an accepted root, at the point of
/// the ray there, and the stored normal does not point along the ray.
pub proof fn lemma_hit_properties(sphere: SphereView, ray: RayView, t_min: int, t_max: int)
    requires
        sphere_hit(sphere, ray, t_min, t_max) is Some,
    ensures
        ({
            let h = sphere_hit(sphere, ray, t_min, t_max)->Some_0;
            &&& within(h.t, t_min, t_max)
            &&& h.p == ray_at(ray, h.t)
            &&& h.material == sphere.material
            &&& v3_dot(ray.direction, h.normal) <= 0
        }),
{
    reveal(sphere_hit);
    let h = sphere_hit(sphere, ray, t_min, t_max)->Some_0;
    lemma_stored_normal_opposes_ray(ray.direction, outward_normal(sphere, h.p));
}

/// The parameter does not decrease when the distance grows.
pub proof fn lemma_parameter_monotonic(near: int, far: int, direction: V3)
    requires
        near <= far,
    ensures
        parameter_at(near, direction) <= parameter_at(far, direction),
{
    let factor = unit_scale(direction) * ONE_RAW;
    let len = unit_length(direction);
    crate::vec3::lemma_norm_scale_positive(max_magnitude(direction));
    let w = crate::vec3::scaled_up(direction);
    assert(w.x * w.x >= 0 && w.y * w.y >= 0 && w.z * w.z >= 0) by (nonlinear_arith);
    crate::fixed::lemma_floor_sqrt_exists(dot_wide(w, w));
    if len > 0 {
        assert(near * factor <= far * factor) by (nonlinear_arith)
            requires
                near <= far,
                factor > 0,
        ;
        lemma_trunc_div_monotonic(near * factor, far * factor, len);
    }
}

/// The smaller root is not larger than the larger root.
pub proof fn lemma_roots_ordered(q: Quadratic)
    ensures
        near_root(q) <= far_root(q),
{
    crate::fixed::lemma_sat_sqrt_monotonic(discriminant(q), discriminant(q));
    lemma_parameter_monotonic(near_distance(q), far_distance(q), q.direction);
}

/// The stored normal of a hit has length one, to within four raw units,
/// wherever the hit point is not the centre of the sphere.
pub proof fn lemma_hit_normal_length(sphere: SphereView, ray: RayView, t_min: int, t_max: int)
    requires
        sphere_hit(sphere, ray, t_min, t_max) is Some,
        max_magnitude(v3_sub(sphere_hit(sphere, ray, t_min, t_max)->Some_0.p, sphere.center)) > 0,
    ensures
        ({
            let n = sphere_hit(sphere, ray, t_min, t_max)->Some_0.normal;
            (ONE_RAW - 4) * (ONE_RAW - 4) <= dot_wide(n, n) <= (ONE_RAW + 1) * (ONE_RAW + 1)
        }),
{
    reveal(sphere_hit);
    let h = sphere_hit(sphere, ray, t_min, t_max)->Some_0;
    let away = v3_unit(v3_sub(h.p, sphere.center));
    lemma_unit_vector_length(v3_sub(h.p, sphere.center));
    assert(dot_wide(v3_neg(away), v3_neg(away)) == dot_wide(away, away)) by (nonlinear_arith)
        requires
            v3_neg(away).x == -away.x,
            v3_neg(away).y == -away.y,
            v3_neg(away).z == -away.z,
            dot_wide(v3_neg(away), v3_neg(away)) == v3_neg(away).x * v3_neg(away).x + v3_neg(
                away,
            ).y * v3_neg(away).y + v3_neg(away).z * v3_neg(away).z,
            dot_wide(away, away) == away.x * away.x + away.y * away.y + away.z * away.z,
    ;
}

/// What a narrower interval changes: a hit up to `limit` is also the hit up
/// to a larger `t_max`; and where there is none up to `limit`, a hit up to
/// `t_max` lies beyond `limit`.
pub proof fn lemma_hit_within_narrower(
    sphere: SphereView,
    ray: RayView,
    t_min: int,
    limit: int,
    t_max: int,
)
    requires
        limit <= t_max,
    ensures
        sphere_hit(sphere, ray, t_min, limit) is Some ==> sphere_hit(sphere, ray, t_min, t_max)
            == sphere_hit(sphere, ray, t_min, limit),
        sphere_hit(sphere, ray, t_min, limit) is None && sphere_hit(sphere, ray, t_min, t_max)
            is Some ==> sphere_hit(sphere, ray, t_min, t_max)->Some_0.t > limit,
{
    reveal(sphere_hit);
    lemma_roots_ordered(sphere_quadratic(sphere, ray));
}

/// The square of `base * a + s * u` is `base^2 * a^2 + 2 * base * s * (a * u)
/// + s^2 * u^2`.
proof fn lemma_square_of_sum(base: int, a: int, s: int, u: int)
    ensures
        (base * a + s * u) * (base * a + s * u) == (base * base) * (a * a) + (2 * (base * s)) * (a
            * u) + (s * s) * (u * u),
{
    let x = base * a;
    let y = s * u;
    assert((x + y) * (x + y) == x * x + 2 * (x * y) + y * y) by (nonlinear_arith);
    assert(x * x == (base * base) * (a * a)) by (nonlinear_arith)
        requires
            x == base * a,
    ;
    assert(y * y == (s * s) * (u * u)) by (nonlinear_arith)
        requires
            y == s * u,
    ;
    assert(x * y == (base * s) * (a * u)) by (nonlinear_arith)
        requires
            x == base * a,
            y == s * u,
    ;
    assert((2 * (base * s)) * (a * u) == 2 * ((base * s) * (a * u))) by (nonlinear_arith);
}

/// `k * (a + b + c)` is `k * a + k * b + k * c`.
proof fn lemma_spread(k: int, a: int, b: int, c: int)
    ensures
        k * (a + b + c) == k * a + k * b + k * c,
{
    assert(k * (a + b + c) == k * a + k * b + k * c) by (nonlinear_arith);
}

/// A product is no larger in magnitude than the product of bounds on the
/// magnitudes of its factors.
proof fn lemma_product_within(a: int, b: int, bound_a: int, bound_b: int)
    requires
        magnitude(a) <= bound_a,
        magnitude(b) <= bound_b,
    ensures
        -(bound_a * bound_b) <= a * b <= bound_a * bound_b,
{
    assert(-(bound_a * bound_b) <= a * b <= bound_a * bound_b) by (nonlinear_arith)
        requires
            -bound_a <= a <= bound_a,
            -bound_b <= b <= bound_b,
    ;
}

/// The point at the distance `s` along a unit vector lies on the sphere, to
/// within the roundings of the solution. With `q` the exact square of the
/// length of `oc`, `h` the exact dot product of `oc` with the unit vector,
/// `n` the exact square of the length of the unit vector and `r2` the exact
/// square of the radius, all in units of `base^2`, and with `s` a root found
/// from their rounded values, `base^2 * q + 2 * base * s * h + s^2 * n`, which
/// is the square of the length of `base * oc + s * unit`, differs from
/// `base^2 * r2` by no more than `base^2 * (2 * base + 2 * sq + 2 * |s|)
/// + 8 * base * s^2`.
proof fn lemma_root_solves(
    base: int,
    q: int,
    h: int,
    n: int,
    r2: int,
    half_b: int,
    oc2: int,
    rr: int,
    hb2: int,
    sq: int,
    s: int,
)
    requires
        base > 0,
        -base < h - half_b * base < base,
        0 <= q - oc2 * base < base,
        0 <= r2 - rr * base < base,
        0 <= half_b * half_b - hb2 * base < base,
        0 <= sq,
        sq * sq <= (hb2 - (oc2 - rr)) * base < (sq + 1) * (sq + 1),
        s == -half_b + sq || s == -half_b - sq,
        magnitude(n - base * base) <= 8 * base,
    ensures
        magnitude((base * base) * q + (2 * (base * s)) * h + (s * s) * n - (base * base) * r2) <= (
        base * base) * (2 * base + 2 * sq + 2 * magnitude(s)) + (8 * base) * (s * s),
{
    let bb = base * base;
    let e1 = h - half_b * base;
    let e2 = (hb2 - (oc2 - rr)) * base - sq * sq;
    let e3 = half_b * half_b - hb2 * base;
    let e4 = q - oc2 * base;
    let e5 = r2 - rr * base;
    let delta = n - bb;
    let ss = s * s;
    assert(e2 <= 2 * sq) by (nonlinear_arith)
        requires
            e2 == (hb2 - (oc2 - rr)) * base - sq * sq,
            (hb2 - (oc2 - rr)) * base < (sq + 1) * (sq + 1),
    ;
    // s^2 + 2 * s * half_b is sq^2 - half_b^2, for either root.
    assert(ss + 2 * (s * half_b) == sq * sq - half_b * half_b) by (nonlinear_arith)
        requires
            ss == s * s,
            s == -half_b + sq || s == -half_b - sq,
    ;
    assert((hb2 - (oc2 - rr)) * base == hb2 * base - oc2 * base + rr * base)
        by (nonlinear_arith);
    // So q + 2 * s * half_b + s^2 is r2 but for the roundings.
    let core = q + 2 * (s * half_b) + ss;
    assert(core == r2 + e4 - e3 - e5 - e2);
    let total = bb * q + (2 * (base * s)) * h + ss * n;
    assert((2 * (base * s)) * h == bb * (2 * (s * half_b)) + (2 * (base * s)) * e1)
        by (nonlinear_arith)
        requires
            h == half_b * base + e1,
            bb == base * base,
    ;
    assert(ss * n == bb * ss + ss * delta) by (nonlinear_arith)
        requires
            n == bb + delta,
    ;
    assert(bb * core == bb * q + bb * (2 * (s * half_b)) + bb * ss) by {
        lemma_spread(bb, q, 2 * (s * half_b), ss);
    }
    assert(total == bb * core + (2 * (base * s)) * e1 + ss * delta);
    let round = e4 - e3 - e5 - e2;
    assert(bb * core == bb * r2 + bb * round) by (nonlinear_arith)
        requires
            core == r2 + round,
    ;
    assert(magnitude(round) <= 2 * base + 2 * sq);
    assert(bb >= 0) by (nonlinear_arith)
        requires
            bb == base * base,
    ;
    lemma_product_within(bb, round, bb, 2 * base + 2 * sq);
    lemma_product_within(base, s, base, magnitude(s));
    lemma_product_within(2 * (base * s), e1, 2 * (base * magnitude(s)), base);
    assert((2 * (base * magnitude(s))) * base == bb * (2 * magnitude(s))) by (nonlinear_arith)
        requires
            bb == base * base,
    ;
    assert(ss >= 0) by (nonlinear_arith)
        requires
            ss == s * s,
    ;
    lemma_product_within(ss, delta, ss, 8 * base);
    assert(ss * (8 * base) == (8 * base) * ss) by (nonlinear_arith);
    assert(bb * (2 * base + 2 * sq + 2 * magnitude(s)) == bb * (2 * base + 2 * sq) + bb * (2
        * magnitude(s))) by (nonlinear_arith);
}

/// How far the point of a ray at the parameter `t` is from the point at
/// the distance `s` along the unit vector: where `t` is `s * f / len`, `u`
/// is `d * f / len` and `g` is `d * t / base`, each rounded toward zero,
/// `base * g` differs from `s * u` by at most `base + |d| + |s|`.
proof fn lemma_point_offset(base: int, len: int, f: int, d: int, s: int, t: int, u: int, g: int)
    requires
        base > 0,
        len > 0,
        -len < s * f - t * len < len,
        -len < d * f - u * len < len,
        -base < d * t - g * base < base,
    ensures
        magnitude(base * g - s * u) <= base + magnitude(d) + magnitude(s),
{
    let et = s * f - t * len;
    let eu = d * f - u * len;
    let gap = d * t - s * u;
    assert(gap * len == s * eu - d * et) by (nonlinear_arith)
        requires
            gap == d * t - s * u,
            et == s * f - t * len,
            eu == d * f - u * len,
    ;
    lemma_product_within(s, eu, magnitude(s), len);
    lemma_product_within(d, et, magnitude(d), len);
    let reach = magnitude(d) + magnitude(s);
    assert(magnitude(s) * len + magnitude(d) * len == reach * len) by (nonlinear_arith)
        requires
            reach == magnitude(d) + magnitude(s),
    ;
    assert(magnitude(gap) <= reach) by (nonlinear_arith)
        requires
            -(reach * len) <= gap * len <= reach * len,
            len > 0,
            reach >= 0,
            magnitude(gap) == gap || magnitude(gap) == -gap,
    ;
    assert(base * g == g * base) by (nonlinear_arith);
}

/// The rounding of a natural number toward zero is not above it.
proof fn lemma_floor_below(a: int, d: int)
    requires
        0 <= a,
        0 < d,
    ensures
        0 <= a - trunc_div(a, d) * d < d,
{
    crate::fixed::lemma_trunc_div_remainder(a, d);
    vstd::arithmetic::div_mod::lemma_div_pos_is_pos(a, d);
}

/// The distance at which the ray is taken to meet the sphere: the one that
/// belongs to the accepted root.
pub open spec fn accepted_distance(q: Quadratic, t_min: int, t_max: int) -> int {
    if within(near_root(q), t_min, t_max) {
        near_distance(q)
    } else {
        far_distance(q)
    }
}

/// The difference of two vectors, exactly.
pub open spec fn exact_difference(a: V3, b: V3) -> V3 {
    V3 { x: a.x - b.x, y: a.y - b.y, z: a.z - b.z }
}

/// Whether the component `d` of a direction and the component `o` of an
/// origin give a point at the parameter `t` without saturating.
pub open spec fn point_in_range(o: int, d: int, t: int) -> bool {
    in_range(trunc_div(d * t, ONE_RAW as int)) && in_range(o + trunc_div(d * t, ONE_RAW as int))
}

/// Whether no step saturates where `ray` is found to meet `sphere` at the
/// given distance along its unit direction, and the direction is not zero.
pub open spec fn meets_in_range(sphere: SphereView, ray: RayView, distance: int) -> bool {
    let one = ONE_RAW as int;
    let d = ray.direction;
    let oc = exact_difference(ray.origin, sphere.center);
    let half_b = trunc_div(dot_wide(oc, v3_unit(d)), one);
    let oc2 = trunc_div(dot_wide(oc, oc), one);
    let rr = trunc_div(sphere.radius * sphere.radius, one);
    let hb2 = trunc_div(half_b * half_b, one);
    let sq = sat_sqrt(hb2 - (oc2 - rr));
    let t = trunc_div(distance * (unit_scale(d) * one), unit_length(d));
    &&& v3_in_range(d) && max_magnitude(d) > 0
    &&& in_range(oc.x) && in_range(oc.y) && in_range(oc.z)
    &&& in_range(half_b) && in_range(oc2) && in_range(rr) && in_range(oc2 - rr)
    &&& in_range(hb2) && in_range(hb2 - (oc2 - rr))
    &&& in_range(-half_b - sq) && in_range(-half_b + sq)
    &&& in_range(t)
    &&& point_in_range(ray.origin.x, d.x, t)
    &&& point_in_range(ray.origin.y, d.y, t)
    &&& point_in_range(ray.origin.z, d.z, t)
}

/// How far the square of the distance of a hit point from the centre may
/// be from the square of the radius, in units of `2^-128`: a few steps of
/// `2^-32` for a scene of the size of one, and more as the distance, the
/// sphere and the direction grow.
pub open spec fn on_sphere_slack(distance: int, sq: int, direction: V3, from_center: V3) -> int {
    let one = ONE_RAW as int;
    let reach = one + max_magnitude(direction) + magnitude(distance);
    (one * one) * (2 * one + 2 * sq + 2 * magnitude(distance)) + (8 * one) * (distance * distance)
        + (2 * one) * (reach * crate::vec3::taxicab(from_center)) + 3 * (reach * reach)
}

/// A hit point lies on the sphere: the square of its distance from the
/// centre differs from the square of the radius by no more than the slack,
/// a few steps of `2^-32` for a scene of the size of one. This holds where
/// no step of the solution saturates and the direction is not zero,
/// whatever the length of the direction.
#[verifier::rlimit(60)]
pub proof fn lemma_hit_point_on_sphere(sphere: SphereView, ray: RayView, t_min: int, t_max: int)
    requires
        sphere_hit(sphere, ray, t_min, t_max) is Some,
        meets_in_range(
            sphere,
            ray,
            accepted_distance(sphere_quadratic(sphere, ray), t_min, t_max),
        ),
    ensures
        ({
            let h = sphere_hit(sphere, ray, t_min, t_max)->Some_0;
            let q = sphere_quadratic(sphere, ray);
            let from_center = exact_difference(h.p, sphere.center);
            magnitude(dot_wide(from_center, from_center) - sphere.radius * sphere.radius) * (
            ONE_RAW * ONE_RAW) <= on_sphere_slack(
                accepted_distance(q, t_min, t_max),
                sat_sqrt(discriminant(q)),
                ray.direction,
                from_center,
            )
        }),
{
    reveal(sphere_hit);
    let one = ONE_RAW as int;
    let h = sphere_hit(sphere, ray, t_min, t_max)->Some_0;
    let q = sphere_quadratic(sphere, ray);
    let d = ray.direction;
    let u = v3_unit(d);
    let oc = exact_difference(ray.origin, sphere.center);
    assert(v3_sub(ray.origin, sphere.center) == oc);
    let wide_h = dot_wide(oc, u);
    let wide_q = dot_wide(oc, oc);
    let wide_r = sphere.radius * sphere.radius;
    let wide_n = dot_wide(u, u);
    let half_b = trunc_div(wide_h, one);
    let oc2 = trunc_div(wide_q, one);
    let rr = trunc_div(wide_r, one);
    let hb2 = trunc_div(half_b * half_b, one);
    let disc = hb2 - (oc2 - rr);
    assert(q.half_b == half_b);
    assert(q.c == oc2 - rr);
    assert(discriminant(q) == disc);
    let sq = sat_sqrt(disc);
    let s = accepted_distance(q, t_min, t_max);
    assert(s == -half_b + sq || s == -half_b - sq);
    // The roundings of the coefficients.
    crate::fixed::lemma_trunc_div_remainder(wide_h, one);
    assert(oc.x * oc.x >= 0 && oc.y * oc.y >= 0 && oc.z * oc.z >= 0) by (nonlinear_arith);
    lemma_floor_below(wide_q, one);
    assert(wide_r >= 0) by (nonlinear_arith)
        requires
            wide_r == sphere.radius * sphere.radius,
    ;
    lemma_floor_below(wide_r, one);
    assert(half_b * half_b >= 0) by (nonlinear_arith);
    lemma_floor_below(half_b * half_b, one);
    if disc > 0 {
        assert(disc * one >= 0) by (nonlinear_arith)
            requires
                disc > 0,
                one > 0,
        ;
        crate::fixed::lemma_floor_sqrt_exists(disc * one);
        assert(crate::fixed::is_floor_sqrt(disc * one, sq));
    } else {
        assert(disc == 0);
        assert(sq == 0);
        assert(disc * one == 0) by (nonlinear_arith)
            requires
                disc == 0,
        ;
        assert((sq + 1) * (sq + 1) == 1) by (nonlinear_arith)
            requires
                sq == 0,
        ;
        assert(sq * sq == 0) by (nonlinear_arith)
            requires
                sq == 0,
        ;
    }
    assert(sq * sq <= disc * one < (sq + 1) * (sq + 1));
    lemma_unit_vector_length(d);
    lemma_root_solves(one, wide_q, wide_h, wide_n, wide_r, half_b, oc2, rr, hb2, sq, s);
    // The point at the distance along the unit vector.
    let along = V3 { x: one * oc.x + s * u.x, y: one * oc.y + s * u.y, z: one * oc.z + s * u.z };
    lemma_square_of_sum(one, oc.x, s, u.x);
    lemma_square_of_sum(one, oc.y, s, u.y);
    lemma_square_of_sum(one, oc.z, s, u.z);
    lemma_spread(one * one, oc.x * oc.x, oc.y * oc.y, oc.z * oc.z);
    lemma_spread(2 * (one * s), oc.x * u.x, oc.y * u.y, oc.z * u.z);
    lemma_spread(s * s, u.x * u.x, u.y * u.y, u.z * u.z);
    assert(dot_wide(along, along) == (one * one) * wide_q + (2 * (one * s)) * wide_h + (s * s)
        * wide_n);
    // The hit point itself.
    let scale = unit_scale(d);
    let len = unit_length(d);
    let f = scale * one;
    let t = trunc_div(s * f, len);
    assert(h.t == t);
    crate::vec3::lemma_norm_scale(max_magnitude(d));
    crate::vec3::lemma_scaled_length(d);
    crate::fixed::lemma_trunc_div_remainder(s * f, len);
    let gx = trunc_div(d.x * t, one);
    let gy = trunc_div(d.y * t, one);
    let gz = trunc_div(d.z * t, one);
    crate::fixed::lemma_trunc_div_remainder(d.x * t, one);
    crate::fixed::lemma_trunc_div_remainder(d.y * t, one);
    crate::fixed::lemma_trunc_div_remainder(d.z * t, one);
    assert(h.p == ray_at(ray, t));
    assert(h.p.x == ray.origin.x + gx && h.p.y == ray.origin.y + gy && h.p.z == ray.origin.z
        + gz);
    crate::fixed::lemma_trunc_div_remainder(d.x * f, len);
    crate::fixed::lemma_trunc_div_remainder(d.y * f, len);
    crate::fixed::lemma_trunc_div_remainder(d.z * f, len);
    assert((d.x * scale) * one == d.x * f && (d.y * scale) * one == d.y * f && (d.z * scale) * one
        == d.z * f) by (nonlinear_arith)
        requires
            f == scale * one,
    ;
    assert(u.x == trunc_div(d.x * f, len) && u.y == trunc_div(d.y * f, len) && u.z == trunc_div(
        d.z * f,
        len,
    ));
    lemma_point_offset(one, len, f, d.x, s, t, u.x, gx);
    lemma_point_offset(one, len, f, d.y, s, t, u.y, gy);
    lemma_point_offset(one, len, f, d.z, s, t, u.z, gz);
    let from_center = exact_difference(h.p, sphere.center);
    let reach = one + max_magnitude(d) + magnitude(s);
    assert(one * from_center.x - along.x == one * gx - s * u.x) by (nonlinear_arith)
        requires
            from_center.x == oc.x + gx,
            along.x == one * oc.x + s * u.x,
    ;
    assert(one * from_center.y - along.y == one * gy - s * u.y) by (nonlinear_arith)
        requires
            from_center.y == oc.y + gy,
            along.y == one * oc.y + s * u.y,
    ;
    assert(one * from_center.z - along.z == one * gz - s * u.z) by (nonlinear_arith)
        requires
            from_center.z == oc.z + gz,
            along.z == one * oc.z + s * u.z,
    ;
    crate::vec3::lemma_square_nearby(one, from_center.x, along.x, reach);
    crate::vec3::lemma_square_nearby(one, from_center.y, along.y, reach);
    crate::vec3::lemma_square_nearby(one, from_center.z, along.z, reach);
    lemma_spread(
        one * one,
        from_center.x * from_center.x,
        from_center.y * from_center.y,
        from_center.z * from_center.z,
    );
    lemma_spread(
        reach,
        magnitude(from_center.x),
        magnitude(from_center.y),
        magnitude(from_center.z),
    );
    lemma_spread(
        2 * one,
        reach * magnitude(from_center.x),
        reach * magnitude(from_center.y),
        reach * magnitude(from_center.z),
    );
    let square = dot_wide(from_center, from_center);
    assert(magnitude((one * one) * square - dot_wide(along, along)) <= (2 * one) * (reach
        * crate::vec3::taxicab(from_center)) + 3 * (reach * reach));
    assert((one * one) * (square - wide_r) == (one * one) * square - (one * one) * wide_r)
        by (nonlinear_arith);
    assert(magnitude(square - wide_r) * (one * one) == magnitude((one * one) * (square - wide_r)))
        by (nonlinear_arith)
        requires
            one * one > 0,
    ;
}

/// The raw integers of what a `hit` returned.
pub open spec fn hit_view(r: Option<HitRecord>) -> Option<HitView> {
    match r {
        Some(h) => Some(h@),
        None => None,
    }
}

/// A sphere. A negative radius keeps the surface and turns the normals
/// inward, which makes the inner surface of a hollow sphere.
#[derive(Clone, Copy, Debug)]
pub struct Sphere {
    pub center: Point3,
    pub radius: Fixed,
    pub material: MaterialKind,
}

impl View for Sphere {
    type V = SphereView;

    open spec fn view(&self) -> SphereView {
        SphereView { center: self.center@, radius: self.radius@, material: self.material@ }
    }
}

impl Sphere {
    /// The sphere with the given centre, radius and material.
    pub fn new(center: Point3, radius: Fixed, material: MaterialKind) -> (r: Self)
        ensures
            r@ == (SphereView { center: center@, radius: radius@, material: material@ }),
    {
        Self { center, radius, material }
    }

    /// The root at which `ray` meets the sphere within the interval.
    pub fn root(&self, ray: &Ray, t_min: Fixed, t_max: Fixed) -> (r: Option<Fixed>)
        ensures
            match r {
                Some(t) => accepted_root(sphere_quadratic(self@, ray@), t_min@, t_max@) == Some(
                    t@,
                ),
                None => accepted_root(sphere_quadratic(self@, ray@), t_min@, t_max@) is None,
            },
    {
        let unit: Vec3 = Vec3::unit_vector(*ray.direction());
        let (scale, len) = ray.direction().fine_length();
        let oc: Vec3 = *ray.origin() - self.center;
        let half_b: Fixed = Vec3::dot(&oc, &unit);
        let c: Fixed = oc.length_squared() - self.radius * self.radius;
        let discriminant: Fixed = half_b * half_b - c;
        if discriminant.lt(Fixed::zero()) {
            return None;
        }
        let sqrtd: Fixed = discriminant.sqrt();
        let mut root: Fixed = to_parameter(half_b.neg() - sqrtd, scale, len);
        if root.lt(t_min) || root.gt(t_max) {
            root = to_parameter(half_b.neg() + sqrtd, scale, len);
            if root.lt(t_min) || root.gt(t_max) {
                return None;
            }
        }
        Some(root)
    }
}

/// The distance divided by the length `len / (scale * 2^32)` of a direction.
fn to_parameter(distance: Fixed, scale: i128, len: u64) -> (r: Fixed)
    requires
        1 <= scale <= MAX_RAW,
        len < 0x8000_0000_0000_0000,
    ensures
        r@ == clamp_raw(trunc_div(distance@ * (scale * ONE_RAW), len as int)),
{
    if len == 0 {
        return Fixed::zero();
    }
    let raw: i64 = distance.raw();
    let m: u128 = if raw < 0 {
        (-(raw as i128)) as u128
    } else {
        raw as u128
    };
    let f: u128 = (scale as u128) * 0x1_0000_0000;
    let top: u128 = 0x4000_0000_0000_0000_0000_0000_0000_0000;
    let limit: u128 = top / f;
    let ghost wide = distance@ * (scale * ONE_RAW);
    proof {
        assert(magnitude(wide) == m * f) by (nonlinear_arith)
            requires
                wide == distance@ * (scale * ONE_RAW),
                f == scale * ONE_RAW,
                f > 0,
                m == magnitude(distance@),
        ;
        assert((wide < 0) == (raw < 0)) by (nonlinear_arith)
            requires
                wide == raw * f,
                f > 0,
        ;
        vstd::arithmetic::div_mod::lemma_fundamental_div_mod(top as int, f as int);
        vstd::arithmetic::div_mod::lemma_mod_bound(top as int, f as int);
    }
    if m > limit {
        proof {
            assert(m * f >= top) by (nonlinear_arith)
                requires
                    m >= limit + 1,
                    top == f * limit + (top as int) % (f as int),
                    0 <= (top as int) % (f as int) < f,
                    f > 0,
            ;
            let floor = len * 0x4000_0000_0000_0000int;
            assert(floor <= m * f) by (nonlinear_arith)
                requires
                    floor == len * 0x4000_0000_0000_0000int,
                    len < 0x8000_0000_0000_0000,
                    m * f >= 0x4000_0000_0000_0000_0000_0000_0000_0000,
            ;
            vstd::arithmetic::div_mod::lemma_div_is_ordered(floor, m * f, len as int);
            vstd::arithmetic::div_mod::lemma_div_multiples_vanish(
                0x4000_0000_0000_0000int,
                len as int,
            );
            assert(floor == (len as int) * 0x4000_0000_0000_0000int);
            assert((m * f) / (len as int) >= 0x4000_0000_0000_0000);
        }
        if raw < 0 {
            Fixed::max_value().neg()
        } else {
            Fixed::max_value()
        }
    } else {
        assert(m * f <= top) by (nonlinear_arith)
            requires
                m <= limit,
                top == f * limit + (top as int) % (f as int),
                0 <= (top as int) % (f as int),
                f > 0,
        ;
        let quotient: u128 = (m * f) / (len as u128);
        assert(quotient <= m * f) by {
            vstd::arithmetic::div_mod::lemma_div_is_ordered_by_denominator(
                (m * f) as int,
                1,
                len as int,
            );
        }
        if raw < 0 {
            Fixed::saturate(-(quotient as i128))
        } else {
            Fixed::saturate(quotient as i128)
        }
    }
}

impl Hit for Sphere {
    /// Where `ray` meets the sphere within the interval, if it does.
    fn hit(&self, ray: &Ray, t_min: Fixed, t_max: Fixed) -> (r: Option<HitRecord>)
        ensures
            hit_view(r) == sphere_hit(self@, ray@, t_min@, t_max@),
            r is None <==> {
                let q = sphere_quadratic(self@, ray@);
                discriminant(q) < 0 || (!within(near_root(q), t_min@, t_max@) && !within(
                    far_root(q),
                    t_min@,
                    t_max@,
                ))
            },
            r matches Some(h) ==> (max_magnitude(v3_sub(h@.p, self@.center)) > 0 ==> (ONE_RAW - 4)
                * (ONE_RAW - 4) <= dot_wide(h@.normal, h@.normal) <= (ONE_RAW + 1) * (ONE_RAW
                + 1)),
    {
        proof {
            reveal(sphere_hit);
            if sphere_hit(self@, ray@, t_min@, t_max@) is Some && max_magnitude(
                v3_sub(sphere_hit(self@, ray@, t_min@, t_max@)->Some_0.p, self@.center),
            ) > 0 {
                lemma_hit_normal_length(self@, ray@, t_min@, t_max@);
            }
        }
        match self.root(ray, t_min, t_max) {
            None => None,
            Some(root) => {
                let mut hit_record: HitRecord = HitRecord::new();
                hit_record.t = root;
                hit_record.p = ray.at(hit_record.t);
                let away: Vec3 = Vec3::unit_vector(hit_record.p - self.center);
                let outward_normal: Vec3 = if self.radius.lt(Fixed::zero()) {
                    away.neg()
                } else {
                    away
                };
                hit_record.set_face_normal(ray, &outward_normal);
                hit_record.material = self.material;
                Some(hit_record)
            },
        }
    }
}

} // verus!
