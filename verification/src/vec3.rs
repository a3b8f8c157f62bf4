//! Three-component vectors, used as directions, points and colours.
//!
//! The view of a [`Vec3`] is a [`V3`], the triple of its raw integers. Every
//! operation is stated as a function on such triples.
use crate::fixed::{
    clamp_raw, floor_sqrt, in_range, is_floor_sqrt, isqrt, lemma_floor_sqrt_is,
    lemma_product_bound, lemma_trunc_div_remainder, magnitude, quotient, sat_add, sat_div,
    sat_mul, sat_sub, trunc_div, Fixed, MAX_RAW, ONE_RAW,
};
use crate::rtweekend;
use core::ops::Neg;
use vstd::prelude::*;

verus! {

/// The raw integers of a vector.
pub struct V3 {
    pub x: int,
    pub y: int,
    pub z: int,
}

/// Whether the three integers are raw integers of fixed-point numbers.
pub open spec fn v3_in_range(a: V3) -> bool {
    in_range(a.x) && in_range(a.y) && in_range(a.z)
}

/// The sum, component by component.
pub open spec fn v3_add(a: V3, b: V3) -> V3 {
    V3 { x: sat_add(a.x, b.x), y: sat_add(a.y, b.y), z: sat_add(a.z, b.z) }
}

/// The difference, component by component.
pub open spec fn v3_sub(a: V3, b: V3) -> V3 {
    V3 { x: sat_sub(a.x, b.x), y: sat_sub(a.y, b.y), z: sat_sub(a.z, b.z) }
}

/// The product, component by component.
pub open spec fn v3_mul(a: V3, b: V3) -> V3 {
    V3 { x: sat_mul(a.x, b.x), y: sat_mul(a.y, b.y), z: sat_mul(a.z, b.z) }
}

/// The quotient, component by component.
pub open spec fn v3_div(a: V3, b: V3) -> V3 {
    V3 { x: sat_div(a.x, b.x), y: sat_div(a.y, b.y), z: sat_div(a.z, b.z) }
}

/// The opposite vector.
pub open spec fn v3_neg(a: V3) -> V3 {
    V3 { x: -a.x, y: -a.y, z: -a.z }
}

/// The vector with each component multiplied by `k`.
pub open spec fn v3_scale(a: V3, k: int) -> V3 {
    V3 { x: sat_mul(a.x, k), y: sat_mul(a.y, k), z: sat_mul(a.z, k) }
}

/// The vector with each component divided by `k`.
pub open spec fn v3_shrink(a: V3, k: int) -> V3 {
    V3 { x: sat_div(a.x, k), y: sat_div(a.y, k), z: sat_div(a.z, k) }
}

/// The exact dot product of the raw integers, `2^32` times too large to be a
/// raw integer itself.
pub open spec fn dot_wide(a: V3, b: V3) -> int {
    a.x * b.x + a.y * b.y + a.z * b.z
}

/// The dot product: the exact one, rounded once toward zero and saturated.
pub open spec fn v3_dot(a: V3, b: V3) -> int {
    clamp_raw(trunc_div(dot_wide(a, b), ONE_RAW as int))
}

/// The square of the length.
pub open spec fn v3_length_squared(a: V3) -> int {
    v3_dot(a, a)
}

/// The Euclidean length of the raw integers, rounded down and saturated.
pub open spec fn v3_length(a: V3) -> int {
    clamp_raw(floor_sqrt(dot_wide(a, a)))
}

/// One component of a cross product: `p * q - r * s`, rounded once toward zero.
pub open spec fn cross_term(p: int, q: int, r: int, s: int) -> int {
    clamp_raw(trunc_div(p * q - r * s, ONE_RAW as int))
}

/// The cross product.
pub open spec fn v3_cross(a: V3, b: V3) -> V3 {
    V3 {
        x: cross_term(a.y, b.z, a.z, b.y),
        y: cross_term(a.z, b.x, a.x, b.z),
        z: cross_term(a.x, b.y, a.y, b.x),
    }
}

/// The largest magnitude among the components.
pub open spec fn max_magnitude(a: V3) -> int {
    let mx = magnitude(a.x);
    let my = magnitude(a.y);
    let mz = magnitude(a.z);
    if mx >= my && mx >= mz {
        mx
    } else if my >= mz {
        my
    } else {
        mz
    }
}

/// The magnitude from which a vector is normalised without being scaled up.
pub const NORM_FLOOR: i128 = 0x1000_0000_0000_0000;

/// How far `m` is below `NORM_FLOOR`.
pub open spec fn headroom(m: int) -> nat {
    if m < NORM_FLOOR {
        (NORM_FLOOR - m) as nat
    } else {
        0
    }
}

/// The power of two by which a vector whose largest magnitude is `m` is
/// scaled up before it is normalised: the least that brings `m` to
/// `NORM_FLOOR` or above.
pub open spec fn norm_scale(m: int) -> int
    decreases headroom(m),
{
    if m <= 0 || m >= NORM_FLOOR {
        1
    } else {
        2 * norm_scale(2 * m)
    }
}

/// The power of two by which `a` is scaled up before it is normalised.
pub open spec fn unit_scale(a: V3) -> int {
    norm_scale(max_magnitude(a))
}

/// The vector `a` scaled up by `unit_scale`, exactly.
pub open spec fn scaled_up(a: V3) -> V3 {
    V3 { x: a.x * unit_scale(a), y: a.y * unit_scale(a), z: a.z * unit_scale(a) }
}

/// The length of the scaled vector, rounded down: the length of `a` in
/// units of `2^-32 / unit_scale(a)`.
pub open spec fn unit_length(a: V3) -> int {
    floor_sqrt(dot_wide(scaled_up(a), scaled_up(a)))
}

/// The vector of length one in the direction of `a`; the zero vector stays
/// the zero vector. The vector is first scaled up by `norm_scale`, exactly,
/// so that short vectors are normalised as precisely as long ones; then each
/// component is divided by the length, rounded toward zero.
pub open spec fn v3_unit(a: V3) -> V3 {
    let s = norm_scale(max_magnitude(a));
    let w = V3 { x: a.x * s, y: a.y * s, z: a.z * s };
    let len = floor_sqrt(dot_wide(w, w));
    V3 {
        x: trunc_div(w.x * ONE_RAW, len),
        y: trunc_div(w.y * ONE_RAW, len),
        z: trunc_div(w.z * ONE_RAW, len),
    }
}

/// The reflection of `v` on a surface with normal `n`: `v - 2 * dot(v, n) * n`.
pub open spec fn v3_reflect(v: V3, n: V3) -> V3 {
    v3_sub(v, v3_scale(n, sat_mul(2 * ONE_RAW, v3_dot(v, n))))
}

/// The cosine of the angle between `-uv` and `n`, at most one.
pub open spec fn refract_cos(uv: V3, n: V3) -> int {
    let d = v3_dot(v3_neg(uv), n);
    if d <= ONE_RAW {
        d
    } else {
        ONE_RAW as int
    }
}

/// The part of a refracted ray that is perpendicular to the normal.
pub open spec fn refract_perp(uv: V3, n: V3, etai_over_etat: int) -> V3 {
    v3_scale(v3_add(uv, v3_scale(n, refract_cos(uv, n))), etai_over_etat)
}

/// The part of a refracted ray that is parallel to the normal.
pub open spec fn refract_parallel(perp: V3, n: V3) -> V3 {
    v3_scale(
        n,
        -crate::fixed::sat_sqrt(magnitude(sat_sub(ONE_RAW as int, v3_length_squared(perp)))),
    )
}

/// The refraction of the unit vector `uv` through a surface with normal `n`
/// and ratio of refractive indices `etai_over_etat`, by Snell's law: the sum
/// of its parts perpendicular and parallel to the normal.
pub open spec fn v3_refract(uv: V3, n: V3, etai_over_etat: int) -> V3 {
    let perp = refract_perp(uv, n, etai_over_etat);
    v3_add(perp, refract_parallel(perp, n))
}

/// The zero vector.
pub open spec fn v3_zero() -> V3 {
    V3 { x: 0, y: 0, z: 0 }
}

/// Whether `p` can be drawn as a random point inside the unit sphere: it is
/// shorter than one.
pub open spec fn is_ball_draw(p: V3) -> bool {
    &&& v3_length_squared(p) < ONE_RAW
    &&& -ONE_RAW <= p.x < ONE_RAW
    &&& -ONE_RAW <= p.y < ONE_RAW
    &&& -ONE_RAW <= p.z < ONE_RAW
}

/// Whether each component of `p` is at least minus one and less than one:
/// whether `p` can be a candidate of a rejection sampler.
pub open spec fn in_cube(p: V3) -> bool {
    &&& -ONE_RAW <= p.x < ONE_RAW
    &&& -ONE_RAW <= p.y < ONE_RAW
    &&& -ONE_RAW <= p.z < ONE_RAW
}

/// The first of the candidates that is shorter than one, or the zero vector
/// where none is.
pub open spec fn first_inside(candidates: Seq<V3>) -> V3
    decreases candidates.len(),
{
    if candidates.len() == 0 {
        v3_zero()
    } else if v3_length_squared(candidates[0]) < ONE_RAW {
        candidates[0]
    } else {
        first_inside(candidates.drop_first())
    }
}

/// The raw integers of a list of vectors.
pub open spec fn vectors_view(vectors: Seq<Vec3>) -> Seq<V3> {
    vectors.map_values(|v: Vec3| v@)
}

/// Whether `r` is what a rejection sampler returns for some candidates that
/// the random source can give: the first that is shorter than one among at
/// most `MAX_DRAWS` candidates of the cube, which lie in the plane `z = 0`
/// where `flat` is set.
pub open spec fn is_first_inside(r: V3, flat: bool) -> bool {
    exists|candidates: Seq<V3>|
        {
            &&& r == #[trigger] first_inside(candidates)
            &&& candidates.len() <= MAX_DRAWS
            &&& forall|i: int|
                0 <= i < candidates.len() ==> in_cube(#[trigger] candidates[i]) && (flat
                    ==> candidates[i].z == 0)
        }
}

/// Whether `p` can be drawn as a random point inside the unit disk of the
/// plane `z = 0`.
pub open spec fn is_disk_draw(p: V3) -> bool {
    is_ball_draw(p) && p.z == 0
}

/// Whether `u` can be drawn as a random direction: it is a point inside the
/// unit sphere, normalised.
pub open spec fn is_unit_draw(u: V3) -> bool {
    exists|p: V3| #[trigger] is_ball_draw(p) && u == v3_unit(p)
}

/// Whether every component is smaller in magnitude than `10^-8`.
pub open spec fn v3_near_zero(a: V3) -> bool {
    &&& magnitude(a.x) * 100_000_000 < ONE_RAW
    &&& magnitude(a.y) * 100_000_000 < ONE_RAW
    &&& magnitude(a.z) * 100_000_000 < ONE_RAW
}

/// A vector of three fixed-point numbers.
#[derive(Clone, Copy, Debug, PartialEq, Eq, Structural)]
pub struct Vec3 {
    x: Fixed,
    y: Fixed,
    z: Fixed,
}

impl View for Vec3 {
    type V = V3;

    closed spec fn view(&self) -> V3 {
        V3 { x: self.x@, y: self.y@, z: self.z@ }
    }
}

/// `a * b - c * d` over the raw integers, as a number.
fn cross_component(a: Fixed, b: Fixed, c: Fixed, d: Fixed) -> (r: Fixed)
    ensures
        r@ == cross_term(a@, b@, c@, d@),
{
    Fixed::from_wide(a.wide_mul(b) - c.wide_mul(d))
}

/// The larger of two magnitudes.
fn larger(a: i128, b: i128) -> (r: i128)
    ensures
        r == if a >= b {
            a
        } else {
            b
        },
{
    if a >= b {
        a
    } else {
        b
    }
}

/// The magnitude of a raw integer.
fn raw_magnitude(a: Fixed) -> (r: i128)
    ensures
        r as int == magnitude(a@),
        0 <= r <= MAX_RAW,
{
    let raw: i64 = a.raw();
    if raw < 0 {
        -(raw as i128)
    } else {
        raw as i128
    }
}

/// The scale by which a vector of largest magnitude `m` is normalised.
fn scale_for(m: i128) -> (s: i128)
    requires
        0 < m <= MAX_RAW,
    ensures
        s as int == norm_scale(m as int),
        1 <= s <= MAX_RAW,
        NORM_FLOOR <= m * s <= MAX_RAW,
{
    let mut s: i128 = 1;
    let mut cur: i128 = m;
    while cur < NORM_FLOOR
        invariant
            0 < m,
            0 < cur <= MAX_RAW,
            1 <= s <= cur,
            cur == m * s,
            norm_scale(m as int) == s * norm_scale(cur as int),
        decreases headroom(cur as int),
    {
        assert(s * (2 * norm_scale(2 * cur)) == (2 * s) * norm_scale(2 * cur)) by (nonlinear_arith);
        assert(m * (2 * s) == 2 * (m * s)) by (nonlinear_arith);
        cur = cur * 2;
        s = s * 2;
    }
    assert(s * 1 == s);
    s
}

impl Vec3 {
    /// The vector whose raw integers are those of `m`, each brought into range.
    pub closed spec fn of(m: V3) -> Vec3 {
        Vec3 { x: Fixed::of_raw(m.x), y: Fixed::of_raw(m.y), z: Fixed::of_raw(m.z) }
    }

    /// The view of [`Vec3::of`] on raw integers that are in range.
    pub proof fn lemma_of(m: V3)
        requires
            v3_in_range(m),
        ensures
            Vec3::of(m)@ == m,
    {
        Fixed::lemma_of_raw(m.x);
        Fixed::lemma_of_raw(m.y);
        Fixed::lemma_of_raw(m.z);
    }

    /// Two vectors with the same raw integers are the same vector.
    pub proof fn lemma_view_injective(a: Vec3, b: Vec3)
        requires
            a@ == b@,
        ensures
            a == b,
    {
        Fixed::lemma_view_injective(a.x, b.x);
        Fixed::lemma_view_injective(a.y, b.y);
        Fixed::lemma_view_injective(a.z, b.z);
    }

    /// The vector with the given components.
    pub fn new(x: Fixed, y: Fixed, z: Fixed) -> (r: Self)
        ensures
            r@ == (V3 { x: x@, y: y@, z: z@ }),
    {
        Self { x, y, z }
    }

    /// The first component.
    pub fn x(&self) -> (r: Fixed)
        ensures
            r@ == self@.x,
    {
        self.x
    }

    /// The second component.
    pub fn y(&self) -> (r: Fixed)
        ensures
            r@ == self@.y,
    {
        self.y
    }

    /// The third component.
    pub fn z(&self) -> (r: Fixed)
        ensures
            r@ == self@.z,
    {
        self.z
    }

    /// The square of the length.
    pub fn length_squared(&self) -> (r: Fixed)
        ensures
            r@ == v3_length_squared(self@),
    {
        Vec3::dot(self, self)
    }

    /// The length.
    pub fn length(&self) -> (r: Fixed)
        ensures
            r@ == v3_length(self@),
    {
        let wide: i128 = self.x.wide_mul(self.x) + self.y.wide_mul(self.y) + self.z.wide_mul(
            self.z,
        );
        assert(self.x@ * self.x@ >= 0 && self.y@ * self.y@ >= 0 && self.z@ * self.z@ >= 0)
            by (nonlinear_arith);
        let root: u64 = isqrt(wide as u128);
        Fixed::saturate(root as i128)
    }

    /// The vector with each component multiplied by `coef`.
    pub fn multiply_coef(&self, coef: Fixed) -> (r: Self)
        ensures
            r@ == v3_scale(self@, coef@),
    {
        Self { x: self.x * coef, y: self.y * coef, z: self.z * coef }
    }

    /// The dot product.
    pub fn dot(u: &Vec3, v: &Vec3) -> (r: Fixed)
        ensures
            r@ == v3_dot(u@, v@),
    {
        Fixed::from_wide(u.x.wide_mul(v.x) + u.y.wide_mul(v.y) + u.z.wide_mul(v.z))
    }

    /// The cross product.
    pub fn cross(u: &Vec3, v: Vec3) -> (r: Self)
        ensures
            r@ == v3_cross(u@, v@),
    {
        Self {
            x: cross_component(u.y, v.z, u.z, v.y),
            y: cross_component(u.z, v.x, u.x, v.z),
            z: cross_component(u.x, v.y, u.y, v.x),
        }
    }

    /// The scale by which the vector is scaled up before it is normalised,
    /// and the length of the scaled vector, rounded down. The length of the
    /// zero vector is zero; any other is at least `NORM_FLOOR`.
    pub fn fine_length(&self) -> (r: (i128, u64))
        ensures
            r.0 as int == unit_scale(self@),
            r.1 as int == unit_length(self@),
            1 <= r.0 <= MAX_RAW,
            r.1 < 0x8000_0000_0000_0000,
            max_magnitude(self@) > 0 ==> r.1 >= NORM_FLOOR,
            max_magnitude(self@) == 0 ==> r.1 == 0,
    {
        let m: i128 = larger(
            larger(raw_magnitude(self.x), raw_magnitude(self.y)),
            raw_magnitude(self.z),
        );
        if m == 0 {
            proof {
                assert(norm_scale(0) == 1);
                assert(dot_wide(scaled_up(self@), scaled_up(self@)) == 0) by (nonlinear_arith)
                    requires
                        scaled_up(self@).x == 0 && scaled_up(self@).y == 0 && scaled_up(self@).z
                            == 0,
                        dot_wide(scaled_up(self@), scaled_up(self@)) == scaled_up(self@).x
                            * scaled_up(self@).x + scaled_up(self@).y * scaled_up(self@).y
                            + scaled_up(self@).z * scaled_up(self@).z,
                ;
                lemma_floor_sqrt_is(0, 0);
            }
            return (1, 0);
        }
        let s: i128 = scale_for(m);
        let ghost w = scaled_up(self@);
        proof {
            lemma_scaled_components(self@, s as int);
        }
        let wx: i128 = (self.x.raw() as i128) * s;
        let wy: i128 = (self.y.raw() as i128) * s;
        let wz: i128 = (self.z.raw() as i128) * s;
        proof {
            lemma_product_bound(wx as int, wx as int);
            lemma_product_bound(wy as int, wy as int);
            lemma_product_bound(wz as int, wz as int);
            assert(wx * wx >= 0 && wy * wy >= 0 && wz * wz >= 0) by (nonlinear_arith);
        }
        let wide: i128 = wx * wx + wy * wy + wz * wz;
        let len: u64 = isqrt(wide as u128);
        proof {
            lemma_square_le(magnitude(w.x), MAX_RAW as int);
            lemma_square_le(magnitude(w.y), MAX_RAW as int);
            lemma_square_le(magnitude(w.z), MAX_RAW as int);
            assert(len < 0x8000_0000_0000_0000) by (nonlinear_arith)
                requires
                    len * len <= wide,
                    wide <= 3 * (0x4000_0000_0000_0000 * 0x4000_0000_0000_0000),
            ;
            assert(magnitude(w.x) * magnitude(w.x) == w.x * w.x) by (nonlinear_arith)
                requires
                    magnitude(w.x) == w.x || magnitude(w.x) == -w.x,
            ;
            assert(magnitude(w.y) * magnitude(w.y) == w.y * w.y) by (nonlinear_arith)
                requires
                    magnitude(w.y) == w.y || magnitude(w.y) == -w.y,
            ;
            assert(magnitude(w.z) * magnitude(w.z) == w.z * w.z) by (nonlinear_arith)
                requires
                    magnitude(w.z) == w.z || magnitude(w.z) == -w.z,
            ;
            assert((m * s) * (m * s) <= wide);
            assert(len >= m * s) by {
                if len < m * s {
                    lemma_square_le(len + 1, m * s);
                }
            }
        }
        (s, len)
    }

    /// The vector of length one in the direction of `v3`; the zero vector
    /// where `v3` is the zero vector.
    pub fn unit_vector(v3: Vec3) -> (r: Self)
        ensures
            r@ == v3_unit(v3@),
            -ONE_RAW <= r@.x <= ONE_RAW,
            -ONE_RAW <= r@.y <= ONE_RAW,
            -ONE_RAW <= r@.z <= ONE_RAW,
            max_magnitude(v3@) > 0 ==> (ONE_RAW - 4) * (ONE_RAW - 4) <= dot_wide(r@, r@) <= (
            ONE_RAW + 1) * (ONE_RAW + 1),
    {
        let m: i128 = larger(
            larger(raw_magnitude(v3.x), raw_magnitude(v3.y)),
            raw_magnitude(v3.z),
        );
        if m == 0 {
            proof {
                lemma_unit_of_zero(v3@);
            }
            return v3;
        }
        proof {
            lemma_unit_vector_length(v3@);
        }
        let s: i128 = scale_for(m);
        let ghost w = V3 { x: v3@.x * s, y: v3@.y * s, z: v3@.z * s };
        proof {
            lemma_scaled_components(v3@, s as int);
        }
        let wx: i128 = (v3.x.raw() as i128) * s;
        let wy: i128 = (v3.y.raw() as i128) * s;
        let wz: i128 = (v3.z.raw() as i128) * s;
        proof {
            lemma_product_bound(wx as int, wx as int);
            lemma_product_bound(wy as int, wy as int);
            lemma_product_bound(wz as int, wz as int);
            assert(wx * wx >= 0 && wy * wy >= 0 && wz * wz >= 0) by (nonlinear_arith);
        }
        let wide: i128 = wx * wx + wy * wy + wz * wz;
        let len: u64 = isqrt(wide as u128);
        proof {
            lemma_component_within_length(w, len as int);
        }
        let ux: i128 = quotient(wx * (ONE_RAW as i128), len as i128);
        let uy: i128 = quotient(wy * (ONE_RAW as i128), len as i128);
        let uz: i128 = quotient(wz * (ONE_RAW as i128), len as i128);
        proof {
            lemma_unit_component(wx as int, len as int);
            lemma_unit_component(wy as int, len as int);
            lemma_unit_component(wz as int, len as int);
        }
        Self { x: Fixed::saturate(ux), y: Fixed::saturate(uy), z: Fixed::saturate(uz) }
    }

    /// The reflection of `v` on a surface with normal `n`.
    pub fn reflect(v: &Vec3, n: &Vec3) -> (r: Self)
        ensures
            r@ == v3_reflect(v@, n@),
    {
        let twice: Fixed = Fixed::from_int(2) * Vec3::dot(v, n);
        *v - n.multiply_coef(twice)
    }

    /// The refraction of the unit vector `uv` through a surface with normal
    /// `n` and ratio of refractive indices `etai_over_etat`.
    pub fn refract(uv: &Vec3, n: &Vec3, etai_over_etat: Fixed) -> (r: Self)
        ensures
            r@ == v3_refract(uv@, n@, etai_over_etat@),
    {
        let cos_theta: Fixed = Vec3::dot(&uv.neg(), n).min(Fixed::one());
        let perp: Vec3 = (*uv + n.multiply_coef(cos_theta)).multiply_coef(etai_over_etat);
        let rest: Fixed = (Fixed::one() - perp.length_squared()).abs().sqrt();
        let parallel: Vec3 = n.multiply_coef(rest.neg());
        perp + parallel
    }

    /// Whether every component is smaller in magnitude than `10^-8`.
    pub fn near_zero(&self) -> (r: bool)
        ensures
            r == v3_near_zero(self@),
    {
        let limit: i128 = ONE_RAW as i128;
        raw_magnitude(self.x) * 100_000_000 < limit && raw_magnitude(self.y) * 100_000_000 < limit
            && raw_magnitude(self.z) * 100_000_000 < limit
    }
}

/// How many candidates a rejection sampler draws before it gives up.
pub const MAX_DRAWS: u32 = 1000;

impl Vec3 {
    /// The zero vector.
    pub fn zero() -> (r: Self)
        ensures
            r@ == v3_zero(),
    {
        Vec3 { x: Fixed::zero(), y: Fixed::zero(), z: Fixed::zero() }
    }

    /// A vector whose components are random numbers of the half-open
    /// interval from `min` to `max`, drawn one after the other.
    pub fn random_vec3_in_range(min: Fixed, max: Fixed) -> (r: Self)
        requires
            min@ < max@,
        ensures
            min@ <= r@.x < max@,
            min@ <= r@.y < max@,
            min@ <= r@.z < max@,
    {
        let x: Fixed = rtweekend::random_in_range(min, max);
        let y: Fixed = rtweekend::random_in_range(min, max);
        let z: Fixed = rtweekend::random_in_range(min, max);
        Vec3::new(x, y, z)
    }

    /// A vector whose components are random numbers that are at least zero
    /// and less than one.
    pub fn random_vec3() -> (r: Self)
        ensures
            0 <= r@.x < ONE_RAW,
            0 <= r@.y < ONE_RAW,
            0 <= r@.z < ONE_RAW,
    {
        let x: Fixed = rtweekend::random();
        let y: Fixed = rtweekend::random();
        let z: Fixed = rtweekend::random();
        Vec3::new(x, y, z)
    }

    /// Whether the vector is shorter than one.
    pub fn in_unit_ball(&self) -> (r: bool)
        ensures
            r == (v3_length_squared(self@) < ONE_RAW),
    {
        self.length_squared().lt(Fixed::one())
    }

    /// The first of the candidates that is shorter than one, or the zero
    /// vector where none is.
    pub fn first_in_ball(candidates: &Vec<Vec3>) -> (r: Self)
        ensures
            r@ == first_inside(vectors_view(candidates@)),
    {
        let ghost all = vectors_view(candidates@);
        let mut i: usize = 0;
        assert(all.skip(0) =~= all);
        while i < candidates.len()
            invariant
                0 <= i <= candidates.len(),
                all == vectors_view(candidates@),
                first_inside(all) == first_inside(all.skip(i as int)),
            decreases candidates.len() - i,
        {
            proof {
                assert(all.skip(i as int)[0] == candidates@[i as int]@);
                assert(all.skip(i as int).drop_first() =~= all.skip(i + 1));
            }
            if candidates[i].in_unit_ball() {
                return candidates[i];
            }
            i = i + 1;
        }
        Vec3::zero()
    }

    /// A random point inside the unit sphere, by rejection: candidates are
    /// drawn from the cube around it until one is shorter than one. After
    /// `MAX_DRAWS` rejected candidates the centre is returned.
    pub fn random_in_unit_sphere() -> (r: Self)
        ensures
            is_ball_draw(r@),
            is_first_inside(r@, false),
    {
        let low: Fixed = Fixed::from_int(-1);
        let high: Fixed = Fixed::one();
        let ghost mut tried: Seq<V3> = Seq::empty();
        let mut left: u32 = MAX_DRAWS;
        while left > 0
            invariant
                low@ == -ONE_RAW,
                high@ == ONE_RAW,
                tried.len() == MAX_DRAWS - left,
                forall|i: int|
                    0 <= i < tried.len() ==> in_cube(#[trigger] tried[i]) && !(v3_length_squared(
                        tried[i],
                    ) < ONE_RAW),
            decreases left,
        {
            let p: Vec3 = Vec3::random_vec3_in_range(low, high);
            if p.in_unit_ball() {
                proof {
                    lemma_first_after_rejected(tried, seq![p@]);
                    assert(first_inside(seq![p@]) == p@);
                    let candidates = tried + seq![p@];
                    assert(p@ == first_inside(candidates) && candidates.len() <= MAX_DRAWS);
                }
                return p;
            }
            proof {
                tried = tried.push(p@);
            }
            left = left - 1;
        }
        proof {
            lemma_zero_draws();
            lemma_first_after_rejected(tried, Seq::empty());
            assert(tried + Seq::<V3>::empty() =~= tried);
            assert(v3_zero() == first_inside(tried));
        }
        Vec3::zero()
    }

    /// A random point inside the unit disk of the plane `z = 0`, by
    /// rejection as in [`Vec3::random_in_unit_sphere`].
    pub fn random_in_unit_disk() -> (r: Self)
        ensures
            is_disk_draw(r@),
            is_first_inside(r@, true),
    {
        let low: Fixed = Fixed::from_int(-1);
        let high: Fixed = Fixed::one();
        let ghost mut tried: Seq<V3> = Seq::empty();
        let mut left: u32 = MAX_DRAWS;
        while left > 0
            invariant
                low@ == -ONE_RAW,
                high@ == ONE_RAW,
                tried.len() == MAX_DRAWS - left,
                forall|i: int|
                    0 <= i < tried.len() ==> in_cube(#[trigger] tried[i]) && tried[i].z == 0 && !(
                    v3_length_squared(tried[i]) < ONE_RAW),
            decreases left,
        {
            let x: Fixed = rtweekend::random_in_range(low, high);
            let y: Fixed = rtweekend::random_in_range(low, high);
            let p: Vec3 = Vec3::new(x, y, Fixed::zero());
            if p.in_unit_ball() {
                proof {
                    lemma_first_after_rejected(tried, seq![p@]);
                    assert(first_inside(seq![p@]) == p@);
                    let candidates = tried + seq![p@];
                    assert(p@ == first_inside(candidates) && candidates.len() <= MAX_DRAWS);
                }
                return p;
            }
            proof {
                tried = tried.push(p@);
            }
            left = left - 1;
        }
        proof {
            lemma_zero_draws();
            lemma_first_after_rejected(tried, Seq::empty());
            assert(tried + Seq::<V3>::empty() =~= tried);
            assert(v3_zero() == first_inside(tried));
        }
        Vec3::zero()
    }

    /// A random direction: a random point inside the unit sphere, normalised.
    pub fn random_unit_vector() -> (r: Self)
        ensures
            is_unit_draw(r@),
    {
        let p: Vec3 = Self::random_in_unit_sphere();
        let r: Vec3 = Self::unit_vector(p);
        assert(is_ball_draw(p@) && r@ == v3_unit(p@));
        r
    }
}

impl vstd::std_specs::ops::AddSpecImpl for Vec3 {
    open spec fn obeys_add_spec() -> bool {
        true
    }

    open spec fn add_req(self, rhs: Vec3) -> bool {
        true
    }

    open spec fn add_spec(self, rhs: Vec3) -> Vec3 {
        Vec3::of(v3_add(self@, rhs@))
    }
}

impl core::ops::Add for Vec3 {
    type Output = Vec3;

    /// The sum, component by component.
    fn add(self, rhs: Vec3) -> (r: Vec3)
        ensures
            r@ == v3_add(self@, rhs@),
    {
        let r = Vec3 { x: self.x + rhs.x, y: self.y + rhs.y, z: self.z + rhs.z };
        proof {
            Vec3::lemma_of(v3_add(self@, rhs@));
            Vec3::lemma_view_injective(r, Vec3::of(v3_add(self@, rhs@)));
        }
        r
    }
}

impl vstd::std_specs::ops::SubSpecImpl for Vec3 {
    open spec fn obeys_sub_spec() -> bool {
        true
    }

    open spec fn sub_req(self, rhs: Vec3) -> bool {
        true
    }

    open spec fn sub_spec(self, rhs: Vec3) -> Vec3 {
        Vec3::of(v3_sub(self@, rhs@))
    }
}

impl core::ops::Sub for Vec3 {
    type Output = Vec3;

    /// The difference, component by component.
    fn sub(self, rhs: Vec3) -> (r: Vec3)
        ensures
            r@ == v3_sub(self@, rhs@),
    {
        let r = Vec3 { x: self.x - rhs.x, y: self.y - rhs.y, z: self.z - rhs.z };
        proof {
            Vec3::lemma_of(v3_sub(self@, rhs@));
            Vec3::lemma_view_injective(r, Vec3::of(v3_sub(self@, rhs@)));
        }
        r
    }
}

impl vstd::std_specs::ops::MulSpecImpl for Vec3 {
    open spec fn obeys_mul_spec() -> bool {
        true
    }

    open spec fn mul_req(self, rhs: Vec3) -> bool {
        true
    }

    open spec fn mul_spec(self, rhs: Vec3) -> Vec3 {
        Vec3::of(v3_mul(self@, rhs@))
    }
}

impl core::ops::Mul for Vec3 {
    type Output = Vec3;

    /// The product, component by component.
    fn mul(self, rhs: Vec3) -> (r: Vec3)
        ensures
            r@ == v3_mul(self@, rhs@),
    {
        let r = Vec3 { x: self.x * rhs.x, y: self.y * rhs.y, z: self.z * rhs.z };
        proof {
            Vec3::lemma_of(v3_mul(self@, rhs@));
            Vec3::lemma_view_injective(r, Vec3::of(v3_mul(self@, rhs@)));
        }
        r
    }
}

impl vstd::std_specs::ops::DivSpecImpl for Vec3 {
    open spec fn obeys_div_spec() -> bool {
        true
    }

    open spec fn div_req(self, rhs: Vec3) -> bool {
        true
    }

    open spec fn div_spec(self, rhs: Vec3) -> Vec3 {
        Vec3::of(v3_div(self@, rhs@))
    }
}

impl core::ops::Div for Vec3 {
    type Output = Vec3;

    /// The quotient, component by component.
    fn div(self, rhs: Vec3) -> (r: Vec3)
        ensures
            r@ == v3_div(self@, rhs@),
    {
        let r = Vec3 { x: self.x / rhs.x, y: self.y / rhs.y, z: self.z / rhs.z };
        proof {
            Vec3::lemma_of(v3_div(self@, rhs@));
            Vec3::lemma_view_injective(r, Vec3::of(v3_div(self@, rhs@)));
        }
        r
    }
}

impl vstd::std_specs::ops::NegSpecImpl for Vec3 {
    open spec fn obeys_neg_spec() -> bool {
        true
    }

    open spec fn neg_req(self) -> bool {
        true
    }

    open spec fn neg_spec(self) -> Vec3 {
        Vec3::of(v3_neg(self@))
    }
}

impl core::ops::Neg for Vec3 {
    type Output = Vec3;

    /// The opposite vector.
    fn neg(self) -> (r: Vec3)
        ensures
            r@ == v3_neg(self@),
    {
        let r = Vec3 { x: self.x.neg(), y: self.y.neg(), z: self.z.neg() };
        proof {
            Vec3::lemma_of(v3_neg(self@));
            Vec3::lemma_view_injective(r, Vec3::of(v3_neg(self@)));
        }
        r
    }
}

impl Vec3 {
    /// Adds `rhs` to the vector, component by component.
    pub fn add_assign(&mut self, rhs: Vec3)
        ensures
            final(self)@ == v3_add(old(self)@, rhs@),
    {
        *self = *self + rhs;
    }
}

impl vstd::std_specs::ops::MulSpecImpl<Fixed> for Vec3 {
    open spec fn obeys_mul_spec() -> bool {
        true
    }

    open spec fn mul_req(self, rhs: Fixed) -> bool {
        true
    }

    open spec fn mul_spec(self, rhs: Fixed) -> Vec3 {
        Vec3::of(v3_scale(self@, rhs@))
    }
}

impl core::ops::Mul<Fixed> for Vec3 {
    type Output = Vec3;

    /// The vector with each component multiplied by `rhs`.
    fn mul(self, rhs: Fixed) -> (r: Vec3)
        ensures
            r@ == v3_scale(self@, rhs@),
    {
        let r = self.multiply_coef(rhs);
        proof {
            Vec3::lemma_of(v3_scale(self@, rhs@));
            Vec3::lemma_view_injective(r, Vec3::of(v3_scale(self@, rhs@)));
        }
        r
    }
}

impl vstd::std_specs::ops::DivSpecImpl<Fixed> for Vec3 {
    open spec fn obeys_div_spec() -> bool {
        true
    }

    open spec fn div_req(self, rhs: Fixed) -> bool {
        true
    }

    open spec fn div_spec(self, rhs: Fixed) -> Vec3 {
        Vec3::of(v3_shrink(self@, rhs@))
    }
}

impl core::ops::Div<Fixed> for Vec3 {
    type Output = Vec3;

    /// The vector with each component divided by `rhs`.
    fn div(self, rhs: Fixed) -> (r: Vec3)
        ensures
            r@ == v3_shrink(self@, rhs@),
    {
        let r = Vec3 { x: self.x / rhs, y: self.y / rhs, z: self.z / rhs };
        proof {
            Vec3::lemma_of(v3_shrink(self@, rhs@));
            Vec3::lemma_view_injective(r, Vec3::of(v3_shrink(self@, rhs@)));
        }
        r
    }
}

/// The dot product with the opposite vector is the opposite dot product:
/// the rounding is toward zero, and the range is symmetric.
pub proof fn lemma_dot_with_opposite(a: V3, b: V3)
    ensures
        v3_dot(a, v3_neg(b)) == -v3_dot(a, b),
{
    assert(dot_wide(a, v3_neg(b)) == -dot_wide(a, b)) by (nonlinear_arith)
        requires
            v3_neg(b).x == -b.x,
            v3_neg(b).y == -b.y,
            v3_neg(b).z == -b.z,
            dot_wide(a, v3_neg(b)) == a.x * v3_neg(b).x + a.y * v3_neg(b).y + a.z * v3_neg(b).z,
            dot_wide(a, b) == a.x * b.x + a.y * b.y + a.z * b.z,
    ;
}

/// The scale of a vector brings its largest magnitude to `NORM_FLOOR` or
/// above, and keeps it in range.
pub proof fn lemma_norm_scale(m: int)
    requires
        0 < m <= MAX_RAW,
    ensures
        1 <= norm_scale(m),
        NORM_FLOOR <= m * norm_scale(m) <= MAX_RAW,
    decreases headroom(m),
{
    if m < NORM_FLOOR {
        lemma_norm_scale(2 * m);
        assert(m * (2 * norm_scale(2 * m)) == (2 * m) * norm_scale(2 * m)) by (nonlinear_arith);
    }
}

/// The scale of a vector is at least one, whatever its largest magnitude.
pub proof fn lemma_norm_scale_positive(m: int)
    ensures
        1 <= norm_scale(m),
    decreases headroom(m),
{
    if 0 < m < NORM_FLOOR {
        lemma_norm_scale_positive(2 * m);
    }
}

/// The length of a scaled vector that is not zero is positive, and is the
/// floor square root of the sum of the squares of its components.
pub proof fn lemma_scaled_length(a: V3)
    requires
        v3_in_range(a),
        max_magnitude(a) > 0,
    ensures
        unit_length(a) >= NORM_FLOOR,
        unit_scale(a) >= 1,
        is_floor_sqrt(dot_wide(scaled_up(a), scaled_up(a)), unit_length(a)),
{
    let m = max_magnitude(a);
    let s = norm_scale(m);
    lemma_norm_scale(m);
    let w = scaled_up(a);
    lemma_scaled_components(a, s);
    assert(w.x * w.x >= 0 && w.y * w.y >= 0 && w.z * w.z >= 0) by (nonlinear_arith);
    let total = dot_wide(w, w);
    crate::fixed::lemma_floor_sqrt_exists(total);
    let len = floor_sqrt(total);
    lemma_square_le(magnitude(w.x), m * s);
    lemma_square_le(magnitude(w.y), m * s);
    lemma_square_le(magnitude(w.z), m * s);
    assert(magnitude(w.x) * magnitude(w.x) == w.x * w.x) by (nonlinear_arith)
        requires
            magnitude(w.x) == w.x || magnitude(w.x) == -w.x,
    ;
    assert(magnitude(w.y) * magnitude(w.y) == w.y * w.y) by (nonlinear_arith)
        requires
            magnitude(w.y) == w.y || magnitude(w.y) == -w.y,
    ;
    assert(magnitude(w.z) * magnitude(w.z) == w.z * w.z) by (nonlinear_arith)
        requires
            magnitude(w.z) == w.z || magnitude(w.z) == -w.z,
    ;
    assert((m * s) * (m * s) <= total);
    if len < m * s {
        lemma_square_le(len + 1, m * s);
    }
}

/// Squares keep the order of natural numbers.
proof fn lemma_square_le(a: int, b: int)
    requires
        0 <= a <= b,
    ensures
        a * a <= b * b,
{
    assert(a * a <= b * b) by (nonlinear_arith)
        requires
            0 <= a <= b,
    ;
}

/// The square of a product is the product of the squares.
proof fn lemma_square_of_product(a: int, b: int)
    ensures
        (a * b) * (a * b) == (a * a) * (b * b),
{
    assert((a * b) * (a * b) == (a * a) * (b * b)) by (nonlinear_arith);
}

/// Squares keep the strict order of natural numbers.
proof fn lemma_square_lt(a: int, b: int)
    requires
        0 <= a < b,
    ensures
        a * a < b * b,
{
    assert(a * a < b * b) by (nonlinear_arith)
        requires
            0 <= a < b,
    ;
}

/// One component of a normalised vector: the magnitude `q` of the quotient
/// of `w * 2^32` by the length `len` has `q * len` at most, and
/// `(q + 1) * len` more than, the magnitude of `w * 2^32`; the same holds
/// of their squares.
proof fn lemma_unit_component_square(w: int, len: int)
    requires
        0 < len,
    ensures
        ({
            let u = trunc_div(w * ONE_RAW, len);
            let q = magnitude(u);
            &&& u * u == q * q
            &&& (q * q) * (len * len) <= (w * w) * (ONE_RAW * ONE_RAW)
            &&& ((q + 1) * (q + 1)) * (len * len) > (w * w) * (ONE_RAW * ONE_RAW)
        }),
{
    let u = trunc_div(w * ONE_RAW, len);
    let q = magnitude(u);
    let n = magnitude(w * ONE_RAW);
    assert(n == magnitude(w) * ONE_RAW);
    assert(q == n / len);
    vstd::arithmetic::div_mod::lemma_fundamental_div_mod(n, len);
    vstd::arithmetic::div_mod::lemma_mod_bound(n, len);
    vstd::arithmetic::div_mod::lemma_div_pos_is_pos(n, len);
    assert(q * len <= n < (q + 1) * len) by (nonlinear_arith)
        requires
            n == len * q + n % len,
            0 <= n % len < len,
    ;
    assert(0 <= q * len) by (nonlinear_arith)
        requires
            0 <= q,
            0 < len,
    ;
    lemma_square_le(q * len, n);
    lemma_square_lt(n, (q + 1) * len);
    assert(u * u == q * q) by (nonlinear_arith)
        requires
            q == u || q == -u,
    ;
    lemma_square_of_product(q, len);
    lemma_square_of_product(q + 1, len);
    assert(n * n == (w * w) * (ONE_RAW * ONE_RAW)) by (nonlinear_arith)
        requires
            n == magnitude(w) * ONE_RAW,
            magnitude(w) == w || magnitude(w) == -w,
    ;
}

/// A normalised vector has length one, to within four raw units, that is
/// to within `10^-9`: the sum of the squares of its raw integers lies
/// between the squares of `2^32 - 4` and of `2^32 + 1`. This holds of every
/// vector but the zero vector.
pub proof fn lemma_unit_vector_length(v: V3)
    requires
        v3_in_range(v),
        max_magnitude(v) > 0,
    ensures
        ({
            let u = v3_unit(v);
            (ONE_RAW - 4) * (ONE_RAW - 4) <= dot_wide(u, u) <= (ONE_RAW + 1) * (ONE_RAW + 1)
        }),
{
    let m = max_magnitude(v);
    let s = norm_scale(m);
    lemma_norm_scale(m);
    let w = V3 { x: v.x * s, y: v.y * s, z: v.z * s };
    lemma_scaled_components(v, s);
    let total = dot_wide(w, w);
    assert(w.x * w.x >= 0 && w.y * w.y >= 0 && w.z * w.z >= 0) by (nonlinear_arith);
    lemma_square_le(magnitude(w.x), m * s);
    lemma_square_le(magnitude(w.y), m * s);
    lemma_square_le(magnitude(w.z), m * s);
    assert(magnitude(w.x) * magnitude(w.x) == w.x * w.x) by (nonlinear_arith)
        requires
            magnitude(w.x) == w.x || magnitude(w.x) == -w.x,
    ;
    assert(magnitude(w.y) * magnitude(w.y) == w.y * w.y) by (nonlinear_arith)
        requires
            magnitude(w.y) == w.y || magnitude(w.y) == -w.y,
    ;
    assert(magnitude(w.z) * magnitude(w.z) == w.z * w.z) by (nonlinear_arith)
        requires
            magnitude(w.z) == w.z || magnitude(w.z) == -w.z,
    ;
    assert((m * s) * (m * s) <= total);
    crate::fixed::lemma_floor_sqrt_exists(total);
    let len = floor_sqrt(total);
    assert(m * s <= len) by {
        if len < m * s {
            lemma_square_le(len + 1, m * s);
        }
    }
    lemma_component_within_length(w, len);
    lemma_unit_component(w.x, len);
    lemma_unit_component(w.y, len);
    lemma_unit_component(w.z, len);
    lemma_unit_component_square(w.x, len);
    lemma_unit_component_square(w.y, len);
    lemma_unit_component_square(w.z, len);
    let u = v3_unit(v);
    let qx = magnitude(u.x);
    let qy = magnitude(u.y);
    let qz = magnitude(u.z);
    let one = ONE_RAW as int;
    let below = qx * qx + qy * qy + qz * qz;
    let above = (qx + 1) * (qx + 1) + (qy + 1) * (qy + 1) + (qz + 1) * (qz + 1);
    let ll = len * len;
    let oo = one * one;
    assert(ll > 0) by (nonlinear_arith)
        requires
            ll == len * len,
            len > 0,
    ;
    assert(dot_wide(u, u) == below);
    lemma_sum_times(qx * qx, qy * qy, qz * qz, ll);
    lemma_sum_times((qx + 1) * (qx + 1), (qy + 1) * (qy + 1), (qz + 1) * (qz + 1), ll);
    lemma_sum_times(w.x * w.x, w.y * w.y, w.z * w.z, oo);
    assert(below * ll <= total * oo);
    assert(above * ll > total * oo);
    // From above: the squares sum to less than the square of `2^32 + 1`.
    lemma_square_le(one * (len + 1), (one + 1) * len);
    lemma_square_of_product(one, len + 1);
    lemma_square_of_product(one + 1, len);
    assert(total * oo < oo * ((len + 1) * (len + 1))) by (nonlinear_arith)
        requires
            total < (len + 1) * (len + 1),
            oo > 0,
    ;
    assert(below < (one + 1) * (one + 1)) by (nonlinear_arith)
        requires
            below * ll < ((one + 1) * (one + 1)) * ll,
            ll > 0,
    ;
    // From below: the squares sum to more than the square of `2^32 - 4`.
    assert(total * oo >= ll * oo) by (nonlinear_arith)
        requires
            total >= ll,
            oo > 0,
    ;
    assert(above > oo) by (nonlinear_arith)
        requires
            above * ll > oo * ll,
            ll > 0,
    ;
    assert(above == below + 2 * (qx + qy + qz) + 3) by (nonlinear_arith)
        requires
            below == qx * qx + qy * qy + qz * qz,
            above == (qx + 1) * (qx + 1) + (qy + 1) * (qy + 1) + (qz + 1) * (qz + 1),
    ;
}

/// Whether no component is larger in magnitude than `bound`.
pub open spec fn components_at_most(a: V3, bound: int) -> bool {
    magnitude(a.x) <= bound && magnitude(a.y) <= bound && magnitude(a.z) <= bound
}

/// The sum of the magnitudes of the components.
pub open spec fn taxicab(a: V3) -> int {
    magnitude(a.x) + magnitude(a.y) + magnitude(a.z)
}

/// One component of the vector that a reflection subtracts, before it is
/// brought into range: `n * k`, rounded toward zero.
pub open spec fn reflect_part(n: int, k: int) -> int {
    trunc_div(n * k, ONE_RAW as int)
}

/// Whether no step of the reflection of `v` on `n` saturates: twice the dot
/// product, the vector that is subtracted and the difference are in range.
pub open spec fn reflects_in_range(v: V3, n: V3) -> bool {
    let k = 2 * trunc_div(dot_wide(v, n), ONE_RAW as int);
    &&& in_range(k)
    &&& in_range(reflect_part(n.x, k)) && in_range(v.x - reflect_part(n.x, k))
    &&& in_range(reflect_part(n.y, k)) && in_range(v.y - reflect_part(n.y, k))
    &&& in_range(reflect_part(n.z, k)) && in_range(v.z - reflect_part(n.z, k))
}

/// A vector whose components are at most this large in magnitude is
/// reflected on a normal whose components are at most one without any
/// step that saturates.
pub const REFLECT_SPAN: i64 = 0x0400_0000_0000_0000;

/// A product is no larger in magnitude than the product of bounds on the
/// magnitudes of its factors.
proof fn lemma_product_magnitude(a: int, b: int, bound_a: int, bound_b: int)
    requires
        magnitude(a) <= bound_a,
        magnitude(b) <= bound_b,
    ensures
        -(bound_a * bound_b) <= a * b <= bound_a * bound_b,
{
    assert(-(bound_a * bound_b) <= a * b <= bound_a * bound_b) by (nonlinear_arith)
        requires
            -bound_a <= a <= bound_a,
            -bound_b <= b <= bound_b,
    ;
}

/// A quotient is no larger in magnitude than `bound` where the dividend is
/// no larger than `bound` times the divisor.
proof fn lemma_trunc_div_bound(a: int, d: int, bound: int)
    requires
        0 < d,
        magnitude(a) <= bound * d,
    ensures
        magnitude(trunc_div(a, d)) <= bound,
{
    lemma_trunc_div_remainder(a, d);
    let q = trunc_div(a, d);
    assert(magnitude(q) <= bound) by (nonlinear_arith)
        requires
            magnitude(q) * d <= magnitude(a),
            magnitude(a) <= bound * d,
            d > 0,
    ;
}

/// Within the span no step of a reflection saturates.
pub proof fn lemma_reflects_in_range(v: V3, n: V3)
    requires
        components_at_most(v, REFLECT_SPAN as int),
        components_at_most(n, ONE_RAW as int),
    ensures
        reflects_in_range(v, n),
{
    let span = REFLECT_SPAN as int;
    let one = ONE_RAW as int;
    lemma_product_magnitude(v.x, n.x, span, one);
    lemma_product_magnitude(v.y, n.y, span, one);
    lemma_product_magnitude(v.z, n.z, span, one);
    let wide = dot_wide(v, n);
    assert(3 * (span * one) == (3 * span) * one) by (nonlinear_arith);
    lemma_trunc_div_bound(wide, one, 3 * span);
    let k = 2 * trunc_div(wide, one);
    lemma_product_magnitude(n.x, k, one, 6 * span);
    lemma_product_magnitude(n.y, k, one, 6 * span);
    lemma_product_magnitude(n.z, k, one, 6 * span);
    assert(one * (6 * span) == (6 * span) * one) by (nonlinear_arith);
    lemma_trunc_div_bound(n.x * k, one, 6 * span);
    lemma_trunc_div_bound(n.y * k, one, 6 * span);
    lemma_trunc_div_bound(n.z * k, one, 6 * span);
}

/// The steps of a reflection of which none saturates. With `d` the dot
/// product and `p` the vector that is subtracted, `2^32 * d` differs from
/// the exact dot product by less than `2^32`, and `2^32 * p` differs from
/// `2 * d * n` by less than `2^32` in each component.
proof fn lemma_reflect_steps(v: V3, n: V3)
    requires
        reflects_in_range(v, n),
    ensures
        ({
            let d = v3_dot(v, n);
            let r = v3_reflect(v, n);
            let p = V3 { x: v.x - r.x, y: v.y - r.y, z: v.z - r.z };
            &&& -ONE_RAW < dot_wide(v, n) - d * ONE_RAW < ONE_RAW
            &&& -ONE_RAW < n.x * (2 * d) - p.x * ONE_RAW < ONE_RAW
            &&& -ONE_RAW < n.y * (2 * d) - p.y * ONE_RAW < ONE_RAW
            &&& -ONE_RAW < n.z * (2 * d) - p.z * ONE_RAW < ONE_RAW
        }),
{
    let one = ONE_RAW as int;
    let wide = dot_wide(v, n);
    lemma_trunc_div_remainder(wide, one);
    let d = trunc_div(wide, one);
    assert(v3_dot(v, n) == d);
    let k = 2 * d;
    assert(sat_mul(2 * ONE_RAW, d) == k) by {
        assert((2 * one) * d == k * one) by (nonlinear_arith)
            requires
                k == 2 * d,
        ;
        vstd::arithmetic::div_mod::lemma_div_multiples_vanish(magnitude(k), one);
        assert(magnitude(k * one) == magnitude(k) * one) by (nonlinear_arith)
            requires
                one > 0,
        ;
        assert(magnitude(k) * one == one * magnitude(k)) by (nonlinear_arith);
    }
    lemma_trunc_div_remainder(n.x * k, one);
    lemma_trunc_div_remainder(n.y * k, one);
    lemma_trunc_div_remainder(n.z * k, one);
}

/// `(v - p) * t` is `v * t - p * t`.
proof fn lemma_difference_times(v: int, p: int, t: int)
    ensures
        (v - p) * t == v * t - p * t,
{
    assert((v - p) * t == v * t - p * t) by (nonlinear_arith);
}

/// `(a + b + c) * k` is `a * k + b * k + c * k`.
proof fn lemma_sum_times(a: int, b: int, c: int, k: int)
    ensures
        (a + b + c) * k == a * k + b * k + c * k,
{
    assert((a + b + c) * k == a * k + b * k + c * k) by (nonlinear_arith);
}

/// `k * (a + b + c)` is `k * a + k * b + k * c`.
proof fn lemma_times_sum(k: int, a: int, b: int, c: int)
    ensures
        k * (a + b + c) == k * a + k * b + k * c,
{
    assert(k * (a + b + c) == k * a + k * b + k * c) by (nonlinear_arith);
}

/// Where `p * one` is `n * k` less the rounding `e`, `(p * t) * one` is
/// `k * (n * t)` less `e * t`.
proof fn lemma_rounded_part(p: int, n: int, k: int, t: int, e: int, one: int)
    requires
        e == n * k - p * one,
    ensures
        (p * t) * one == k * (n * t) - e * t,
{
    assert((p * t) * one == k * (n * t) - (n * k - p * one) * t) by (nonlinear_arith);
}

/// A reflection leaves the component along a tangent unchanged, to within
/// one rounding step for each component of the tangent: for `t` at a right
/// angle to the normal `n`, the exact dot products of `t` with `v` and with
/// its reflection differ by at most the sum of the magnitudes of the
/// components of `t`. This holds where no step of the reflection saturates.
pub proof fn lemma_reflect_keeps_tangent(v: V3, n: V3, t: V3)
    requires
        reflects_in_range(v, n),
        dot_wide(n, t) == 0,
    ensures
        magnitude(dot_wide(v3_reflect(v, n), t) - dot_wide(v, t)) <= taxicab(t),
{
    lemma_reflect_steps(v, n);
    let one = ONE_RAW as int;
    let d = v3_dot(v, n);
    let k = 2 * d;
    let r = v3_reflect(v, n);
    let p = V3 { x: v.x - r.x, y: v.y - r.y, z: v.z - r.z };
    let ex = n.x * k - p.x * one;
    let ey = n.y * k - p.y * one;
    let ez = n.z * k - p.z * one;
    let diff = dot_wide(r, t) - dot_wide(v, t);
    lemma_difference_times(v.x, p.x, t.x);
    lemma_difference_times(v.y, p.y, t.y);
    lemma_difference_times(v.z, p.z, t.z);
    assert(diff == -(p.x * t.x + p.y * t.y + p.z * t.z));
    lemma_sum_times(p.x * t.x, p.y * t.y, p.z * t.z, one);
    lemma_rounded_part(p.x, n.x, k, t.x, ex, one);
    lemma_rounded_part(p.y, n.y, k, t.y, ey, one);
    lemma_rounded_part(p.z, n.z, k, t.z, ez, one);
    lemma_times_sum(k, n.x * t.x, n.y * t.y, n.z * t.z);
    assert(k * (n.x * t.x + n.y * t.y + n.z * t.z) == 0) by (nonlinear_arith)
        requires
            n.x * t.x + n.y * t.y + n.z * t.z == 0,
    ;
    assert(diff * one == -((p.x * t.x + p.y * t.y + p.z * t.z) * one)) by (nonlinear_arith)
        requires
            diff == -(p.x * t.x + p.y * t.y + p.z * t.z),
    ;
    assert(diff * one == ex * t.x + ey * t.y + ez * t.z);
    lemma_product_magnitude(ex, t.x, one, magnitude(t.x));
    lemma_product_magnitude(ey, t.y, one, magnitude(t.y));
    lemma_product_magnitude(ez, t.z, one, magnitude(t.z));
    assert(magnitude(diff) <= taxicab(t)) by (nonlinear_arith)
        requires
            -(one * magnitude(t.x) + one * magnitude(t.y) + one * magnitude(t.z)) <= diff * one
                <= one * magnitude(t.x) + one * magnitude(t.y) + one * magnitude(t.z),
            taxicab(t) == magnitude(t.x) + magnitude(t.y) + magnitude(t.z),
            one > 0,
            magnitude(diff) == diff || magnitude(diff) == -diff,
            magnitude(diff) >= 0,
    ;
}

/// `(p - q) * r` is `p * r - q * r`.
proof fn lemma_difference_by(p: int, q: int, r: int)
    ensures
        (p - q) * r == p * r - q * r,
{
    assert((p - q) * r == p * r - q * r) by (nonlinear_arith);
}

/// The order of three factors does not matter.
proof fn lemma_three_factors(a: int, b: int, c: int)
    ensures
        (a * b) * c == (b * c) * a,
        (a * b) * c == (a * c) * b,
        (a * b) * c == (c * a) * b,
        (a * b) * c == (b * a) * c,
{
    assert((a * b) * c == (b * c) * a) by (nonlinear_arith);
    assert((a * b) * c == (a * c) * b) by (nonlinear_arith);
    assert((a * b) * c == (c * a) * b) by (nonlinear_arith);
    assert((a * b) * c == (b * a) * c) by (nonlinear_arith);
}

/// The exact cross product of the raw integers, component by component.
pub open spec fn cross_wide(a: V3, b: V3) -> V3 {
    V3 { x: a.y * b.z - a.z * b.y, y: a.z * b.x - a.x * b.z, z: a.x * b.y - a.y * b.x }
}

/// The exact cross product is at a right angle to both of its factors.
pub proof fn lemma_cross_wide_perpendicular(a: V3, b: V3)
    ensures
        dot_wide(cross_wide(a, b), a) == 0,
        dot_wide(cross_wide(a, b), b) == 0,
{
    let c = cross_wide(a, b);
    lemma_difference_by(a.y * b.z, a.z * b.y, a.x);
    lemma_difference_by(a.z * b.x, a.x * b.z, a.y);
    lemma_difference_by(a.x * b.y, a.y * b.x, a.z);
    lemma_three_factors(a.y, b.z, a.x);
    lemma_three_factors(a.z, b.y, a.x);
    lemma_three_factors(a.z, b.x, a.y);
    lemma_three_factors(a.x, b.z, a.y);
    lemma_three_factors(a.x, b.y, a.z);
    lemma_three_factors(a.y, b.x, a.z);
    lemma_three_factors(a.x, a.y, b.z);
    lemma_three_factors(a.x, a.z, b.y);
    lemma_three_factors(a.y, a.z, b.x);
    assert(dot_wide(c, a) == 0);
    lemma_difference_by(a.y * b.z, a.z * b.y, b.x);
    lemma_difference_by(a.z * b.x, a.x * b.z, b.y);
    lemma_difference_by(a.x * b.y, a.y * b.x, b.z);
    lemma_three_factors(a.y, b.z, b.x);
    lemma_three_factors(a.z, b.y, b.x);
    lemma_three_factors(a.z, b.x, b.y);
    lemma_three_factors(a.x, b.z, b.y);
    lemma_three_factors(a.x, b.y, b.z);
    lemma_three_factors(a.y, b.x, b.z);
    lemma_three_factors(b.x, b.y, a.z);
    lemma_three_factors(b.x, b.z, a.y);
    lemma_three_factors(b.y, b.z, a.x);
    assert(dot_wide(c, b) == 0);
}

/// The square of `p * q - r * t` is `p^2 * q^2 + r^2 * t^2 - 2 * (p * t) * (r * q)`.
proof fn lemma_minor_square(p: int, q: int, r: int, t: int)
    ensures
        (p * q - r * t) * (p * q - r * t) == (p * p) * (q * q) + (r * r) * (t * t) - 2 * ((p * t)
            * (r * q)),
{
    let m = p * q;
    let n = r * t;
    assert((m - n) * (m - n) == m * m - 2 * (m * n) + n * n) by (nonlinear_arith);
    lemma_square_of_product(p, q);
    lemma_square_of_product(r, t);
    assert(m * n == (p * t) * (r * q)) by (nonlinear_arith)
        requires
            m == p * q,
            n == r * t,
    ;
}

/// The square of a sum of three is the sum of the squares and of twice the
/// products of each two.
proof fn lemma_square_of_three(a: int, b: int, c: int)
    ensures
        (a + b + c) * (a + b + c) == a * a + b * b + c * c + 2 * (a * b) + 2 * (a * c) + 2 * (b
            * c),
{
    assert((a + b + c) * (a + b + c) == a * a + b * b + c * c + 2 * (a * b) + 2 * (a * c) + 2
        * (b * c)) by (nonlinear_arith);
}

/// The product of two sums of three is the sum of the nine products.
proof fn lemma_product_of_sums(a: int, b: int, c: int, x: int, y: int, z: int)
    ensures
        (a + b + c) * (x + y + z) == a * x + a * y + a * z + b * x + b * y + b * z + c * x + c * y
            + c * z,
{
    lemma_sum_times(a, b, c, x + y + z);
    lemma_times_sum(a, x, y, z);
    lemma_times_sum(b, x, y, z);
    lemma_times_sum(c, x, y, z);
}

/// The square of the length of the exact cross product is the product of
/// the squares of the lengths of its factors, less the square of their dot
/// product.
pub proof fn lemma_cross_wide_length(a: V3, b: V3)
    ensures
        dot_wide(cross_wide(a, b), cross_wide(a, b)) == dot_wide(a, a) * dot_wide(b, b) - dot_wide(
            a,
            b,
        ) * dot_wide(a, b),
{
    lemma_minor_square(a.y, b.z, a.z, b.y);
    lemma_minor_square(a.z, b.x, a.x, b.z);
    lemma_minor_square(a.x, b.y, a.y, b.x);
    lemma_product_of_sums(a.x * a.x, a.y * a.y, a.z * a.z, b.x * b.x, b.y * b.y, b.z * b.z);
    lemma_square_of_three(a.x * b.x, a.y * b.y, a.z * b.z);
    lemma_square_of_product(a.x, b.x);
    lemma_square_of_product(a.y, b.y);
    lemma_square_of_product(a.z, b.z);
    // The mixed products, each in the order of the squares above.
    assert((a.y * b.y) * (a.z * b.z) == (a.y * b.y) * (a.z * b.z));
    assert((a.z * b.z) * (a.x * b.x) == (a.x * b.x) * (a.z * b.z)) by (nonlinear_arith);
    assert((a.x * b.x) * (a.y * b.y) == (a.x * b.x) * (a.y * b.y));
    assert((a.z * a.z) * (b.y * b.y) == (a.z * a.z) * (b.y * b.y));
}

/// The square of a number near `x` is near the square of `x`: where
/// `base * p` differs from `near` by at most `bound`, `base^2 * p^2` differs
/// from `near^2` by at most `2 * base * bound * |p| + bound^2`.
pub proof fn lemma_square_nearby(base: int, p: int, near: int, bound: int)
    requires
        base > 0,
        magnitude(base * p - near) <= bound,
    ensures
        magnitude((base * base) * (p * p) - near * near) <= (2 * base) * (bound * magnitude(p))
            + bound * bound,
{
    let x = base * p;
    let e = x - near;
    assert(near * near == x * x - 2 * (x * e) + e * e) by (nonlinear_arith)
        requires
            near == x - e,
    ;
    assert(x * x == (base * base) * (p * p)) by (nonlinear_arith)
        requires
            x == base * p,
    ;
    lemma_product_magnitude(base, p, base, magnitude(p));
    lemma_product_magnitude(x, e, base * magnitude(p), bound);
    lemma_product_magnitude(e, e, bound, bound);
    assert(e * e >= 0) by (nonlinear_arith);
    assert((base * magnitude(p)) * bound == base * (bound * magnitude(p))) by (nonlinear_arith);
    assert((2 * base) * (bound * magnitude(p)) == 2 * (base * (bound * magnitude(p))))
        by (nonlinear_arith);
}

/// The length of a cross product: `2^64` times the square of its length
/// differs from the square of the length of the exact cross product by at
/// most two rounding steps for each unit of its components, and three more.
pub proof fn lemma_cross_length(a: V3, b: V3)
    requires
        components_at_most(a, ONE_RAW as int),
        components_at_most(b, ONE_RAW as int),
    ensures
        ({
            let x = v3_cross(a, b);
            magnitude((ONE_RAW * ONE_RAW) * dot_wide(x, x) - (dot_wide(a, a) * dot_wide(b, b)
                - dot_wide(a, b) * dot_wide(a, b))) <= (2 * ONE_RAW) * (ONE_RAW * taxicab(x)) + 3
                * (ONE_RAW * ONE_RAW)
        }),
{
    let one = ONE_RAW as int;
    let c = cross_wide(a, b);
    let x = v3_cross(a, b);
    lemma_cross_wide_perpendicular(a, b);
    lemma_cross_nearly_perpendicular(a, b, a);
    lemma_cross_wide_length(a, b);
    lemma_trunc_div_remainder(c.x, one);
    lemma_trunc_div_remainder(c.y, one);
    lemma_trunc_div_remainder(c.z, one);
    assert(x.x == trunc_div(c.x, one) && x.y == trunc_div(c.y, one) && x.z == trunc_div(c.z, one));
    assert(one * x.x == x.x * one && one * x.y == x.y * one && one * x.z == x.z * one)
        by (nonlinear_arith);
    lemma_square_nearby(one, x.x, c.x, one);
    lemma_square_nearby(one, x.y, c.y, one);
    lemma_square_nearby(one, x.z, c.z, one);
    lemma_times_sum(one * one, x.x * x.x, x.y * x.y, x.z * x.z);
    lemma_times_sum(one, magnitude(x.x), magnitude(x.y), magnitude(x.z));
    lemma_times_sum(
        2 * one,
        one * magnitude(x.x),
        one * magnitude(x.y),
        one * magnitude(x.z),
    );
}

/// The cross product of two vectors whose components are at most one does
/// not saturate, and is at a right angle to `other` to within one rounding
/// step for each component of `other`, wherever the exact cross product is
/// at a right angle to `other`.
pub proof fn lemma_cross_nearly_perpendicular(a: V3, b: V3, other: V3)
    requires
        components_at_most(a, ONE_RAW as int),
        components_at_most(b, ONE_RAW as int),
        dot_wide(cross_wide(a, b), other) == 0,
    ensures
        components_at_most(v3_cross(a, b), 2 * ONE_RAW),
        magnitude(dot_wide(v3_cross(a, b), other)) <= taxicab(other),
{
    let one = ONE_RAW as int;
    let c = cross_wide(a, b);
    let x = v3_cross(a, b);
    lemma_product_magnitude(a.y, b.z, one, one);
    lemma_product_magnitude(a.z, b.y, one, one);
    lemma_product_magnitude(a.z, b.x, one, one);
    lemma_product_magnitude(a.x, b.z, one, one);
    lemma_product_magnitude(a.x, b.y, one, one);
    lemma_product_magnitude(a.y, b.x, one, one);
    assert(2 * (one * one) == (2 * one) * one) by (nonlinear_arith);
    lemma_trunc_div_bound(c.x, one, 2 * one);
    lemma_trunc_div_bound(c.y, one, 2 * one);
    lemma_trunc_div_bound(c.z, one, 2 * one);
    lemma_trunc_div_remainder(c.x, one);
    lemma_trunc_div_remainder(c.y, one);
    lemma_trunc_div_remainder(c.z, one);
    assert(x.x == trunc_div(c.x, one) && x.y == trunc_div(c.y, one) && x.z == trunc_div(c.z, one));
    let gx = c.x - x.x * one;
    let gy = c.y - x.y * one;
    let gz = c.z - x.z * one;
    let near = dot_wide(x, other);
    lemma_rounded_part(x.x, 1, c.x, other.x, gx, one);
    lemma_rounded_part(x.y, 1, c.y, other.y, gy, one);
    lemma_rounded_part(x.z, 1, c.z, other.z, gz, one);
    lemma_sum_times(x.x * other.x, x.y * other.y, x.z * other.z, one);
    assert(c.x * (1 * other.x) == c.x * other.x && c.y * (1 * other.y) == c.y * other.y && c.z * (
    1 * other.z) == c.z * other.z) by (nonlinear_arith);
    assert(near * one == -(gx * other.x + gy * other.y + gz * other.z));
    lemma_product_magnitude(gx, other.x, one, magnitude(other.x));
    lemma_product_magnitude(gy, other.y, one, magnitude(other.y));
    lemma_product_magnitude(gz, other.z, one, magnitude(other.z));
    lemma_times_sum(one, magnitude(other.x), magnitude(other.y), magnitude(other.z));
    assert(magnitude(near) <= taxicab(other)) by (nonlinear_arith)
        requires
            -(one * taxicab(other)) <= near * one <= one * taxicab(other),
            one > 0,
            magnitude(near) == near || magnitude(near) == -near,
    ;
}

/// A unit vector keeps the direction: each of its components, times the
/// length of the scaled vector, differs from the component of the scaled
/// vector, times `2^32`, by less than that length. So each component is the
/// exact one to within one step of `2^-32`.
pub proof fn lemma_unit_vector_direction(a: V3)
    requires
        v3_in_range(a),
        max_magnitude(a) > 0,
    ensures
        ({
            let u = v3_unit(a);
            let w = scaled_up(a);
            let len = unit_length(a);
            &&& magnitude(u.x * len - w.x * ONE_RAW) < len
            &&& magnitude(u.y * len - w.y * ONE_RAW) < len
            &&& magnitude(u.z * len - w.z * ONE_RAW) < len
        }),
{
    lemma_scaled_length(a);
    let w = scaled_up(a);
    let len = unit_length(a);
    lemma_trunc_div_remainder(w.x * ONE_RAW, len);
    lemma_trunc_div_remainder(w.y * ONE_RAW, len);
    lemma_trunc_div_remainder(w.z * ONE_RAW, len);
}

/// No component of a unit vector is larger in magnitude than one.
pub proof fn lemma_unit_components(a: V3)
    requires
        v3_in_range(a),
    ensures
        components_at_most(v3_unit(a), ONE_RAW as int),
{
    if max_magnitude(a) > 0 {
        lemma_scaled_length(a);
        let w = scaled_up(a);
        let len = unit_length(a);
        lemma_component_within_length(w, len);
        lemma_unit_component(w.x, len);
        lemma_unit_component(w.y, len);
        lemma_unit_component(w.z, len);
    } else {
        lemma_unit_of_zero(a);
    }
}

/// The unit vector of `x` is at a right angle to `other` as nearly as `x`
/// is: with `len` the length of the scaled `x` and `f` its scale times
/// `2^32`, `len` times the exact dot product of the unit vector with `other`
/// is at most `f * |x . other|`, plus `len` for each unit of the components
/// of `other`.
pub proof fn lemma_unit_keeps_right_angle(x: V3, other: V3, slack: int)
    requires
        v3_in_range(x),
        max_magnitude(x) > 0,
        magnitude(dot_wide(x, other)) <= slack,
    ensures
        magnitude(dot_wide(v3_unit(x), other)) * unit_length(x) <= (unit_scale(x) * ONE_RAW)
            * slack + unit_length(x) * taxicab(other),
{
    let one = ONE_RAW as int;
    let u = v3_unit(x);
    let scale = unit_scale(x);
    let len = unit_length(x);
    let f = scale * one;
    lemma_scaled_length(x);
    lemma_trunc_div_remainder(x.x * f, len);
    lemma_trunc_div_remainder(x.y * f, len);
    lemma_trunc_div_remainder(x.z * f, len);
    assert((x.x * scale) * one == x.x * f && (x.y * scale) * one == x.y * f && (x.z * scale) * one
        == x.z * f) by (nonlinear_arith)
        requires
            f == scale * one,
    ;
    assert(u.x == trunc_div(x.x * f, len) && u.y == trunc_div(x.y * f, len) && u.z == trunc_div(
        x.z * f,
        len,
    ));
    let ex = x.x * f - u.x * len;
    let ey = x.y * f - u.y * len;
    let ez = x.z * f - u.z * len;
    let near = dot_wide(u, other);
    lemma_rounded_part(u.x, x.x, f, other.x, ex, len);
    lemma_rounded_part(u.y, x.y, f, other.y, ey, len);
    lemma_rounded_part(u.z, x.z, f, other.z, ez, len);
    lemma_sum_times(u.x * other.x, u.y * other.y, u.z * other.z, len);
    lemma_times_sum(f, x.x * other.x, x.y * other.y, x.z * other.z);
    assert(near * len == f * dot_wide(x, other) - (ex * other.x + ey * other.y + ez * other.z));
    lemma_product_magnitude(f, dot_wide(x, other), f, slack);
    lemma_product_magnitude(ex, other.x, len, magnitude(other.x));
    lemma_product_magnitude(ey, other.y, len, magnitude(other.y));
    lemma_product_magnitude(ez, other.z, len, magnitude(other.z));
    lemma_times_sum(len, magnitude(other.x), magnitude(other.y), magnitude(other.z));
    let bound = f * slack + len * taxicab(other);
    assert(-bound <= near * len <= bound);
    assert(magnitude(near) * len <= bound) by (nonlinear_arith)
        requires
            -bound <= near * len <= bound,
            magnitude(near) == near || magnitude(near) == -near,
    ;
}

/// How far the square of the length of `n` is from one, in raw units of
/// the exact dot product.
pub open spec fn unit_defect(n: V3) -> int {
    dot_wide(n, n) - ONE_RAW * ONE_RAW
}

/// A reflection negates the component along the normal, to within a few
/// rounding steps: `2^32` times the sum of the exact dot products of `n`
/// with `v` and with its reflection is at most `2 * 2^64`, plus `2^32` for
/// each unit of the components of `n`, plus twice the dot product times
/// the defect of the normal. For a normal of length one exactly this is
/// less than five rounding steps. This holds where no step of the
/// reflection saturates.
pub proof fn lemma_reflect_negates_normal(v: V3, n: V3)
    requires
        reflects_in_range(v, n),
    ensures
        magnitude(dot_wide(v3_reflect(v, n), n) + dot_wide(v, n)) * ONE_RAW <= 2 * (ONE_RAW
            * ONE_RAW) + ONE_RAW * taxicab(n) + 2 * (magnitude(v3_dot(v, n)) * magnitude(
            unit_defect(n),
        )),
{
    lemma_reflect_steps(v, n);
    let one = ONE_RAW as int;
    let d = v3_dot(v, n);
    let k = 2 * d;
    let r = v3_reflect(v, n);
    let p = V3 { x: v.x - r.x, y: v.y - r.y, z: v.z - r.z };
    let ex = n.x * k - p.x * one;
    let ey = n.y * k - p.y * one;
    let ez = n.z * k - p.z * one;
    let rest = dot_wide(v, n) - d * one;
    let defect = unit_defect(n);
    let sum = dot_wide(r, n) + dot_wide(v, n);
    let wide = dot_wide(v, n);
    lemma_difference_times(v.x, p.x, n.x);
    lemma_difference_times(v.y, p.y, n.y);
    lemma_difference_times(v.z, p.z, n.z);
    assert(sum == 2 * wide - (p.x * n.x + p.y * n.y + p.z * n.z));
    lemma_sum_times(p.x * n.x, p.y * n.y, p.z * n.z, one);
    lemma_rounded_part(p.x, n.x, k, n.x, ex, one);
    lemma_rounded_part(p.y, n.y, k, n.y, ey, one);
    lemma_rounded_part(p.z, n.z, k, n.z, ez, one);
    lemma_times_sum(k, n.x * n.x, n.y * n.y, n.z * n.z);
    assert(k * dot_wide(n, n) == 2 * (d * (one * one)) + 2 * (d * defect)) by (nonlinear_arith)
        requires
            k == 2 * d,
            dot_wide(n, n) == one * one + defect,
    ;
    assert(wide * one == d * (one * one) + one * rest) by (nonlinear_arith)
        requires
            wide == d * one + rest,
    ;
    assert(sum * one == 2 * (wide * one) - (p.x * n.x + p.y * n.y + p.z * n.z) * one)
        by (nonlinear_arith)
        requires
            sum == 2 * wide - (p.x * n.x + p.y * n.y + p.z * n.z),
    ;
    assert(sum * one == 2 * (one * rest) - 2 * (d * defect) + (ex * n.x + ey * n.y + ez * n.z));
    lemma_product_magnitude(ex, n.x, one, magnitude(n.x));
    lemma_product_magnitude(ey, n.y, one, magnitude(n.y));
    lemma_product_magnitude(ez, n.z, one, magnitude(n.z));
    lemma_product_magnitude(one, rest, one, one);
    lemma_product_magnitude(d, defect, magnitude(d), magnitude(defect));
    lemma_times_sum(one, magnitude(n.x), magnitude(n.y), magnitude(n.z));
    let bound = 2 * (one * one) + one * taxicab(n) + 2 * (magnitude(d) * magnitude(defect));
    assert(-bound <= sum * one <= bound);
    assert(magnitude(sum) * one <= bound) by (nonlinear_arith)
        requires
            -bound <= sum * one <= bound,
            magnitude(sum) == sum || magnitude(sum) == -sum,
    ;
}

/// Candidates that are all rejected do not matter: the first that is
/// shorter than one is found among those that follow them.
pub proof fn lemma_first_after_rejected(rejected: Seq<V3>, rest: Seq<V3>)
    requires
        forall|i: int|
            0 <= i < rejected.len() ==> !(v3_length_squared(#[trigger] rejected[i]) < ONE_RAW),
    ensures
        first_inside(rejected + rest) == first_inside(rest),
    decreases rejected.len(),
{
    if rejected.len() == 0 {
        assert(rejected + rest =~= rest);
    } else {
        let all = rejected + rest;
        assert(all[0] == rejected[0]);
        assert(all.drop_first() =~= rejected.drop_first() + rest);
        assert forall|i: int| 0 <= i < rejected.drop_first().len() implies !(v3_length_squared(
            #[trigger] rejected.drop_first()[i],
        ) < ONE_RAW) by {
            assert(rejected.drop_first()[i] == rejected[i + 1]);
        }
        lemma_first_after_rejected(rejected.drop_first(), rest);
    }
}

/// The zero vector can be drawn as a point inside the unit sphere, and as a
/// direction: the samplers return it when they give up.
pub proof fn lemma_zero_draws()
    ensures
        is_ball_draw(v3_zero()),
        is_disk_draw(v3_zero()),
        is_unit_draw(v3_zero()),
{
    lemma_unit_of_zero(v3_zero());
    let zero = v3_zero();
    assert(zero.x * zero.x + zero.y * zero.y + zero.z * zero.z == 0) by (nonlinear_arith)
        requires
            zero.x == 0 && zero.y == 0 && zero.z == 0,
    ;
    assert(v3_length_squared(v3_zero()) == 0);
    assert(is_ball_draw(v3_zero()) && v3_zero() == v3_unit(v3_zero()));
}

/// The zero vector is normalised to itself.
pub proof fn lemma_unit_of_zero(a: V3)
    requires
        a.x == 0 && a.y == 0 && a.z == 0,
    ensures
        v3_unit(a) == a,
{
    assert(norm_scale(0) == 1);
    assert(dot_wide(a, a) == 0);
    lemma_floor_sqrt_is(0, 0);
}

/// Scaling by `s` keeps each component within the largest magnitude times `s`.
proof fn lemma_scaled_components(a: V3, s: int)
    requires
        s >= 1,
        max_magnitude(a) * s <= MAX_RAW,
    ensures
        in_range(a.x * s),
        in_range(a.y * s),
        in_range(a.z * s),
        magnitude(a.x * s) <= max_magnitude(a) * s,
        magnitude(a.y * s) <= max_magnitude(a) * s,
        magnitude(a.z * s) <= max_magnitude(a) * s,
        magnitude(a.x * s) == max_magnitude(a) * s || magnitude(a.y * s) == max_magnitude(a) * s
            || magnitude(a.z * s) == max_magnitude(a) * s,
{
    let m = max_magnitude(a);
    assert(magnitude(a.x * s) == magnitude(a.x) * s) by (nonlinear_arith)
        requires
            s >= 1,
    ;
    assert(magnitude(a.y * s) == magnitude(a.y) * s) by (nonlinear_arith)
        requires
            s >= 1,
    ;
    assert(magnitude(a.z * s) == magnitude(a.z) * s) by (nonlinear_arith)
        requires
            s >= 1,
    ;
    assert(magnitude(a.x) * s <= m * s) by (nonlinear_arith)
        requires
            magnitude(a.x) <= m,
            s >= 1,
    ;
    assert(magnitude(a.y) * s <= m * s) by (nonlinear_arith)
        requires
            magnitude(a.y) <= m,
            s >= 1,
    ;
    assert(magnitude(a.z) * s <= m * s) by (nonlinear_arith)
        requires
            magnitude(a.z) <= m,
            s >= 1,
    ;
}

/// No component of a vector is longer than the vector, rounded down.
proof fn lemma_component_within_length(w: V3, len: int)
    requires
        is_floor_sqrt(dot_wide(w, w), len),
    ensures
        magnitude(w.x) <= len,
        magnitude(w.y) <= len,
        magnitude(w.z) <= len,
{
    assert(magnitude(w.x) <= len) by (nonlinear_arith)
        requires
            0 <= len,
            w.x * w.x + w.y * w.y + w.z * w.z < (len + 1) * (len + 1),
    ;
    assert(magnitude(w.y) <= len) by (nonlinear_arith)
        requires
            0 <= len,
            w.x * w.x + w.y * w.y + w.z * w.z < (len + 1) * (len + 1),
    ;
    assert(magnitude(w.z) <= len) by (nonlinear_arith)
        requires
            0 <= len,
            w.x * w.x + w.y * w.y + w.z * w.z < (len + 1) * (len + 1),
    ;
}

/// A component divided by a length that is at least its magnitude is at most one.
proof fn lemma_unit_component(w: int, len: int)
    requires
        magnitude(w) <= len,
        0 < len,
    ensures
        -ONE_RAW <= trunc_div(w * ONE_RAW, len) <= ONE_RAW,
{
    let n = magnitude(w) * ONE_RAW;
    assert(magnitude(w * ONE_RAW) == n);
    assert(n <= len * ONE_RAW) by (nonlinear_arith)
        requires
            n == magnitude(w) * ONE_RAW,
            magnitude(w) <= len,
    ;
    vstd::arithmetic::div_mod::lemma_div_is_ordered(n, len * ONE_RAW, len);
    vstd::arithmetic::div_mod::lemma_div_multiples_vanish(ONE_RAW as int, len);
    assert(len * ONE_RAW == ONE_RAW * len) by (nonlinear_arith);
    vstd::arithmetic::div_mod::lemma_div_pos_is_pos(n, len);
}

} // verus!
