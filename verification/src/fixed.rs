//! Saturating signed fixed-point numbers.
//!
//! A [`Fixed`] stands for the real number `raw / 2^32`, where `raw` is a
//! signed integer of magnitude at most `2^62`. Every operation computes the
//! exact result over the integers, rounds it toward zero to a multiple of
//! `2^-32` and saturates it at the two ends of the range, so no operation
//! overflows, traps or fails. The range is symmetric: negation is exact.
//!
//! Contracts speak of the raw integer, which is the view of a `Fixed`.
use vstd::prelude::*;

verus! {

/// The raw integer that stands for the number one.
pub const ONE_RAW: i64 = 0x1_0000_0000;

/// The raw integer of one half.
pub const HALF_RAW: i64 = 0x8000_0000;

/// The largest raw integer; the smallest is its negation.
pub const MAX_RAW: i64 = 0x4000_0000_0000_0000;

/// The largest magnitude of the exact product of two raw integers.
pub const WIDE_MAX: i128 = 0x1000_0000_0000_0000_0000_0000_0000_0000;

/// `x` brought into the range of raw integers.
pub open spec fn clamp_raw(x: int) -> int {
    if x < -MAX_RAW {
        -(MAX_RAW as int)
    } else if x > MAX_RAW {
        MAX_RAW as int
    } else {
        x
    }
}

/// Whether `x` is the raw integer of some `Fixed`.
pub open spec fn in_range(x: int) -> bool {
    -MAX_RAW <= x <= MAX_RAW
}

/// The magnitude of `x`.
pub open spec fn magnitude(x: int) -> int {
    if x < 0 {
        -x
    } else {
        x
    }
}

/// The quotient of `a` by `b`, rounded toward zero; zero where `b` is zero.
pub open spec fn trunc_div(a: int, b: int) -> int {
    if b == 0 {
        0
    } else if (a < 0) == (b < 0) {
        magnitude(a) / magnitude(b)
    } else {
        -(magnitude(a) / magnitude(b))
    }
}

/// The raw sum.
pub open spec fn sat_add(a: int, b: int) -> int {
    clamp_raw(a + b)
}

/// The raw difference.
pub open spec fn sat_sub(a: int, b: int) -> int {
    clamp_raw(a - b)
}

/// The raw negation.
pub open spec fn sat_neg(a: int) -> int {
    clamp_raw(-a)
}

/// The raw product: the exact product of the two numbers, rounded toward zero.
pub open spec fn sat_mul(a: int, b: int) -> int {
    clamp_raw(trunc_div(a * b, ONE_RAW as int))
}

/// The raw quotient, rounded toward zero. A division by zero saturates with
/// the sign of the dividend, and zero by zero is zero.
pub open spec fn sat_div(a: int, b: int) -> int {
    if b == 0 {
        if a > 0 {
            MAX_RAW as int
        } else if a < 0 {
            -(MAX_RAW as int)
        } else {
            0
        }
    } else {
        clamp_raw(trunc_div(a * ONE_RAW, b))
    }
}

/// The raw integer of the fraction `num / den` of two whole numbers.
pub open spec fn ratio(num: int, den: int) -> int {
    sat_div(clamp_raw(num * ONE_RAW), clamp_raw(den * ONE_RAW))
}

/// Whether `r` is the integer square root of `n`, rounded down.
pub open spec fn is_floor_sqrt(n: int, r: int) -> bool {
    0 <= r && r * r <= n < (r + 1) * (r + 1)
}

/// The integer square root of `n`, rounded down.
pub open spec fn floor_sqrt(n: int) -> int {
    choose|r: int| is_floor_sqrt(n, r)
}

/// The raw square root, rounded down. That of a negative number is zero.
pub open spec fn sat_sqrt(a: int) -> int {
    if a <= 0 {
        0
    } else {
        floor_sqrt(a * ONE_RAW)
    }
}

/// The smaller of two raw integers.
pub open spec fn sat_min(a: int, b: int) -> int {
    if a <= b {
        a
    } else {
        b
    }
}

/// The whole part of a raw integer, rounded toward zero.
pub open spec fn whole_part(a: int) -> int {
    trunc_div(a, ONE_RAW as int)
}

/// Two integers whose squares enclose the same `n` as floor square roots are equal.
pub proof fn lemma_floor_sqrt_unique(n: int, r: int, s: int)
    requires
        is_floor_sqrt(n, r),
        is_floor_sqrt(n, s),
    ensures
        r == s,
{
    if r < s {
        assert((r + 1) * (r + 1) <= s * s) by (nonlinear_arith)
            requires
                0 <= r,
                r + 1 <= s,
        ;
    } else if s < r {
        assert((s + 1) * (s + 1) <= r * r) by (nonlinear_arith)
            requires
                0 <= s,
                s + 1 <= r,
        ;
    }
}

/// An integer that passes the test of a floor square root is the floor square root.
pub proof fn lemma_floor_sqrt_is(n: int, r: int)
    requires
        is_floor_sqrt(n, r),
    ensures
        floor_sqrt(n) == r,
{
    lemma_floor_sqrt_unique(n, r, floor_sqrt(n));
}

/// The floor square root does not decrease when its argument grows.
pub proof fn lemma_floor_sqrt_monotonic(m: int, r: int, n: int, s: int)
    requires
        is_floor_sqrt(m, r),
        is_floor_sqrt(n, s),
        m <= n,
    ensures
        r <= s,
{
    if s < r {
        assert((s + 1) * (s + 1) <= r * r) by (nonlinear_arith)
            requires
                0 <= s,
                s + 1 <= r,
        ;
    }
}

/// Every natural number has a floor square root.
pub proof fn lemma_floor_sqrt_exists(n: int)
    requires
        0 <= n,
    ensures
        is_floor_sqrt(n, floor_sqrt(n)),
    decreases n,
{
    if n == 0 {
        assert(is_floor_sqrt(0, 0));
    } else {
        lemma_floor_sqrt_exists(n - 1);
        let r = floor_sqrt(n - 1);
        if (r + 1) * (r + 1) <= n {
            assert((r + 1) * (r + 1) < (r + 2) * (r + 2)) by (nonlinear_arith)
                requires
                    0 <= r,
            ;
            assert(is_floor_sqrt(n, r + 1));
        } else {
            assert(is_floor_sqrt(n, r));
        }
    }
}

/// The quotient rounded toward zero does not decrease when the dividend
/// grows, for a positive divisor.
pub proof fn lemma_trunc_div_monotonic(a: int, b: int, d: int)
    requires
        a <= b,
        0 < d,
    ensures
        trunc_div(a, d) <= trunc_div(b, d),
{
    if a >= 0 {
        vstd::arithmetic::div_mod::lemma_div_is_ordered(a, b, d);
    } else if b < 0 {
        vstd::arithmetic::div_mod::lemma_div_is_ordered(-b, -a, d);
    } else {
        vstd::arithmetic::div_mod::lemma_div_pos_is_pos(-a, d);
        vstd::arithmetic::div_mod::lemma_div_pos_is_pos(b, d);
    }
}

/// The quotient does not decrease when the dividend grows, for a divisor
/// that is not negative.
pub proof fn lemma_sat_div_monotonic(a: int, b: int, d: int)
    requires
        a <= b,
        0 <= d,
    ensures
        sat_div(a, d) <= sat_div(b, d),
{
    if d > 0 {
        assert(a * ONE_RAW <= b * ONE_RAW) by (nonlinear_arith)
            requires
                a <= b,
        ;
        lemma_trunc_div_monotonic(a * ONE_RAW, b * ONE_RAW, d);
    }
}

/// The product does not decrease when one factor grows, for another factor
/// that is not negative.
pub proof fn lemma_sat_mul_monotonic(k: int, a: int, b: int)
    requires
        a <= b,
        0 <= k,
    ensures
        sat_mul(k, a) <= sat_mul(k, b),
{
    assert(k * a <= k * b) by (nonlinear_arith)
        requires
            a <= b,
            0 <= k,
    ;
    lemma_trunc_div_monotonic(k * a, k * b, ONE_RAW as int);
}

/// The square root does not decrease when its argument grows.
pub proof fn lemma_sat_sqrt_monotonic(a: int, b: int)
    requires
        a <= b,
    ensures
        0 <= sat_sqrt(a) <= sat_sqrt(b),
{
    if b > 0 {
        assert(0 <= b * ONE_RAW) by (nonlinear_arith)
            requires
                0 < b,
        ;
        lemma_floor_sqrt_exists(b * ONE_RAW);
        if a > 0 {
            assert(0 <= a * ONE_RAW <= b * ONE_RAW) by (nonlinear_arith)
                requires
                    0 < a <= b,
            ;
            lemma_floor_sqrt_exists(a * ONE_RAW);
            lemma_floor_sqrt_monotonic(
                a * ONE_RAW,
                floor_sqrt(a * ONE_RAW),
                b * ONE_RAW,
                floor_sqrt(b * ONE_RAW),
            );
        }
    }
}

/// What the rounding toward zero leaves: the quotient times the divisor
/// differs from the dividend by less than the divisor, and is no larger in
/// magnitude.
pub proof fn lemma_trunc_div_remainder(a: int, d: int)
    requires
        0 < d,
    ensures
        ({
            let q = trunc_div(a, d);
            &&& -d < a - q * d < d
            &&& magnitude(q) * d <= magnitude(a)
        }),
{
    let n = magnitude(a);
    vstd::arithmetic::div_mod::lemma_fundamental_div_mod(n, d);
    vstd::arithmetic::div_mod::lemma_mod_bound(n, d);
    vstd::arithmetic::div_mod::lemma_div_pos_is_pos(n, d);
    let q = trunc_div(a, d);
    assert(magnitude(q) == n / d);
    assert(magnitude(q) * d == d * (n / d)) by (nonlinear_arith)
        requires
            magnitude(q) == n / d,
    ;
    if a < 0 {
        assert(q * d == -(d * (n / d))) by (nonlinear_arith)
            requires
                q == -(n / d),
        ;
    } else {
        assert(q * d == d * (n / d)) by (nonlinear_arith)
            requires
                q == n / d,
        ;
    }
}

/// The square root of a natural number below `2^128`, rounded down.
pub fn isqrt(n: u128) -> (r: u64)
    ensures
        is_floor_sqrt(n as int, r as int),
        r as int == floor_sqrt(n as int),
{
    let mut lo: u128 = 0;
    let mut hi: u128 = 0x1_0000_0000_0000_0000;
    assert(0x1_0000_0000_0000_0000int * 0x1_0000_0000_0000_0000int > u128::MAX) by (nonlinear_arith);
    while hi - lo > 1
        invariant
            lo < hi <= 0x1_0000_0000_0000_0000,
            lo * lo <= n,
            n < hi * hi,
        decreases hi - lo,
    {
        let mid: u128 = lo + (hi - lo) / 2;
        assert(mid * mid <= 0xffff_ffff_ffff_ffffint * 0xffff_ffff_ffff_ffffint) by (nonlinear_arith)
            requires
                0 <= mid <= 0xffff_ffff_ffff_ffff,
        ;
        assert(0xffff_ffff_ffff_ffffint * 0xffff_ffff_ffff_ffffint < u128::MAX) by (nonlinear_arith);
        if mid * mid <= n {
            lo = mid;
        } else {
            hi = mid;
        }
    }
    proof {
        assert(hi == lo + 1);
        lemma_floor_sqrt_is(n as int, lo as int);
    }
    lo as u64
}

/// A fixed-point number: the real number `self@ / 2^32`.
#[derive(Clone, Copy, Debug, PartialEq, Eq, Structural)]
pub struct Fixed {
    raw: i64,
}

impl View for Fixed {
    type V = int;

    closed spec fn view(&self) -> int {
        self.raw as int
    }
}

/// The magnitude of a signed integer.
fn magnitude_of(x: i128) -> (m: u128)
    requires
        x > i128::MIN,
    ensures
        m as int == magnitude(x as int),
{
    if x < 0 {
        (-x) as u128
    } else {
        x as u128
    }
}

/// The product of two raw integers stays far inside the 128-bit range.
pub proof fn lemma_product_bound(a: int, b: int)
    requires
        in_range(a),
        in_range(b),
    ensures
        -WIDE_MAX <= a * b <= WIDE_MAX,
{
    assert(-0x1000_0000_0000_0000_0000_0000_0000_0000 <= a * b
        <= 0x1000_0000_0000_0000_0000_0000_0000_0000) by (nonlinear_arith)
        requires
            -0x4000_0000_0000_0000 <= a <= 0x4000_0000_0000_0000,
            -0x4000_0000_0000_0000 <= b <= 0x4000_0000_0000_0000,
    ;
}

/// The quotient of two signed integers, rounded toward zero.
pub fn quotient(a: i128, b: i128) -> (q: i128)
    requires
        a > i128::MIN,
        b > i128::MIN,
        b != 0,
    ensures
        q as int == trunc_div(a as int, b as int),
{
    let ma: u128 = magnitude_of(a);
    let mb: u128 = magnitude_of(b);
    let mq: u128 = ma / mb;
    assert(mq <= ma) by {
        vstd::arithmetic::div_mod::lemma_div_is_ordered_by_denominator(ma as int, 1, mb as int);
    }
    if (a < 0) == (b < 0) {
        mq as i128
    } else {
        -(mq as i128)
    }
}

impl Fixed {
    #[verifier::type_invariant]
    spec fn inv(self) -> bool {
        -MAX_RAW <= self.raw <= MAX_RAW
    }

    /// The number whose raw integer is `x`, brought into range.
    pub closed spec fn of_raw(x: int) -> Fixed {
        Fixed { raw: clamp_raw(x) as i64 }
    }

    /// The view of [`Fixed::of_raw`].
    pub proof fn lemma_of_raw(x: int)
        ensures
            Fixed::of_raw(x)@ == clamp_raw(x),
    {
    }

    /// Two numbers with the same raw integer are the same number.
    pub proof fn lemma_view_injective(a: Fixed, b: Fixed)
        requires
            a@ == b@,
        ensures
            a == b,
    {
    }

    /// The number with the given raw integer, saturated.
    pub fn from_raw(raw: i64) -> (r: Self)
        ensures
            r@ == clamp_raw(raw as int),
    {
        if raw < -MAX_RAW {
            Fixed { raw: -MAX_RAW }
        } else if raw > MAX_RAW {
            Fixed { raw: MAX_RAW }
        } else {
            Fixed { raw }
        }
    }

    /// The number with the given wide raw integer, saturated.
    pub fn saturate(wide: i128) -> (r: Self)
        ensures
            r@ == clamp_raw(wide as int),
    {
        if wide < -(MAX_RAW as i128) {
            Fixed { raw: -MAX_RAW }
        } else if wide > MAX_RAW as i128 {
            Fixed { raw: MAX_RAW }
        } else {
            Fixed { raw: wide as i64 }
        }
    }

    /// The raw integer.
    pub fn raw(self) -> (r: i64)
        ensures
            r as int == self@,
            in_range(r as int),
    {
        proof {
            use_type_invariant(&self);
        }
        self.raw
    }

    /// The whole number `n`, saturated.
    pub fn from_int(n: i64) -> (r: Self)
        ensures
            r@ == clamp_raw(n * ONE_RAW),
    {
        Fixed::saturate((n as i128) * (ONE_RAW as i128))
    }

    /// The fraction `num / den`, rounded toward zero and saturated.
    pub fn from_ratio(num: i64, den: i64) -> (r: Self)
        ensures
            r@ == ratio(num as int, den as int),
    {
        Fixed::from_int(num) / Fixed::from_int(den)
    }

    /// Zero.
    pub fn zero() -> (r: Self)
        ensures
            r@ == 0,
    {
        Fixed { raw: 0 }
    }

    /// One.
    pub fn one() -> (r: Self)
        ensures
            r@ == ONE_RAW,
    {
        Fixed { raw: ONE_RAW }
    }

    /// The largest number, which stands in for infinity.
    pub fn max_value() -> (r: Self)
        ensures
            r@ == MAX_RAW,
    {
        Fixed { raw: MAX_RAW }
    }

    /// Whether `self` is less than `other`.
    pub fn lt(self, other: Fixed) -> (r: bool)
        ensures
            r == (self@ < other@),
    {
        self.raw < other.raw
    }

    /// Whether `self` is at most `other`.
    pub fn le(self, other: Fixed) -> (r: bool)
        ensures
            r == (self@ <= other@),
    {
        self.raw <= other.raw
    }

    /// Whether `self` is greater than `other`.
    pub fn gt(self, other: Fixed) -> (r: bool)
        ensures
            r == (self@ > other@),
    {
        self.raw > other.raw
    }

    /// Whether `self` is at least `other`.
    pub fn ge(self, other: Fixed) -> (r: bool)
        ensures
            r == (self@ >= other@),
    {
        self.raw >= other.raw
    }

    /// The smaller of the two.
    pub fn min(self, other: Fixed) -> (r: Self)
        ensures
            r@ == sat_min(self@, other@),
    {
        if self.raw <= other.raw {
            self
        } else {
            other
        }
    }

    /// The magnitude.
    pub fn abs(self) -> (r: Self)
        ensures
            r@ == magnitude(self@),
    {
        proof {
            use_type_invariant(&self);
        }
        if self.raw < 0 {
            Fixed { raw: -self.raw }
        } else {
            self
        }
    }

    /// The square root, rounded down; zero for a negative number.
    pub fn sqrt(self) -> (r: Self)
        ensures
            r@ == sat_sqrt(self@),
            self@ > 0 ==> is_floor_sqrt(self@ * ONE_RAW, r@),
            0 <= r@ <= 0x8000_0000_0000,
    {
        proof {
            use_type_invariant(&self);
        }
        if self.raw <= 0 {
            Fixed { raw: 0 }
        } else {
            let wide: u128 = (self.raw as u128) * (ONE_RAW as u128);
            let root: u64 = isqrt(wide);
            assert(root <= 0x8000_0000_0000) by (nonlinear_arith)
                requires
                    root * root <= wide,
                    wide <= 0x4000_0000_0000_0000 * 0x1_0000_0000,
            ;
            Fixed { raw: root as i64 }
        }
    }

    /// The exact product of the two raw integers.
    pub fn wide_mul(self, other: Fixed) -> (p: i128)
        ensures
            p as int == self@ * other@,
            -WIDE_MAX <= p <= WIDE_MAX,
    {
        proof {
            use_type_invariant(&self);
            use_type_invariant(&other);
            lemma_product_bound(self@, other@);
        }
        (self.raw as i128) * (other.raw as i128)
    }

    /// The number that an exact product stands for: `wide / 2^32`, rounded
    /// toward zero and saturated.
    pub fn from_wide(wide: i128) -> (r: Self)
        requires
            wide > i128::MIN,
        ensures
            r@ == clamp_raw(trunc_div(wide as int, ONE_RAW as int)),
    {
        Fixed::saturate(quotient(wide, ONE_RAW as i128))
    }

    /// The whole part, rounded toward zero.
    pub fn trunc(self) -> (r: i64)
        ensures
            r as int == whole_part(self@),
            -0x4000_0000 <= r <= 0x4000_0000,
    {
        proof {
            use_type_invariant(&self);
        }
        let q: i128 = quotient(self.raw as i128, ONE_RAW as i128);
        assert(magnitude(self@) / 0x1_0000_0000 <= 0x4000_0000);
        q as i64
    }
}

impl vstd::std_specs::ops::AddSpecImpl for Fixed {
    open spec fn obeys_add_spec() -> bool {
        true
    }

    open spec fn add_req(self, rhs: Fixed) -> bool {
        true
    }

    open spec fn add_spec(self, rhs: Fixed) -> Fixed {
        Fixed::of_raw(self@ + rhs@)
    }
}

impl core::ops::Add for Fixed {
    type Output = Fixed;

    /// The sum, saturated.
    fn add(self, rhs: Fixed) -> (r: Fixed)
        ensures
            r@ == sat_add(self@, rhs@),
    {
        proof {
            use_type_invariant(&self);
            use_type_invariant(&rhs);
        }
        let r = Fixed::saturate(self.raw as i128 + rhs.raw as i128);
        proof {
            Fixed::lemma_view_injective(r, Fixed::of_raw(self@ + rhs@));
        }
        r
    }
}

impl vstd::std_specs::ops::SubSpecImpl for Fixed {
    open spec fn obeys_sub_spec() -> bool {
        true
    }

    open spec fn sub_req(self, rhs: Fixed) -> bool {
        true
    }

    open spec fn sub_spec(self, rhs: Fixed) -> Fixed {
        Fixed::of_raw(self@ - rhs@)
    }
}

impl core::ops::Sub for Fixed {
    type Output = Fixed;

    /// The difference, saturated.
    fn sub(self, rhs: Fixed) -> (r: Fixed)
        ensures
            r@ == sat_sub(self@, rhs@),
    {
        proof {
            use_type_invariant(&self);
            use_type_invariant(&rhs);
        }
        let r = Fixed::saturate(self.raw as i128 - rhs.raw as i128);
        proof {
            Fixed::lemma_view_injective(r, Fixed::of_raw(self@ - rhs@));
        }
        r
    }
}

impl vstd::std_specs::ops::NegSpecImpl for Fixed {
    open spec fn obeys_neg_spec() -> bool {
        true
    }

    open spec fn neg_req(self) -> bool {
        true
    }

    open spec fn neg_spec(self) -> Fixed {
        Fixed::of_raw(-self@)
    }
}

impl core::ops::Neg for Fixed {
    type Output = Fixed;

    /// The negation, which is exact.
    fn neg(self) -> (r: Fixed)
        ensures
            r@ == -self@,
            r@ == sat_neg(self@),
    {
        proof {
            use_type_invariant(&self);
        }
        let r = Fixed { raw: -self.raw };
        proof {
            Fixed::lemma_view_injective(r, Fixed::of_raw(-self@));
        }
        r
    }
}

impl vstd::std_specs::ops::MulSpecImpl for Fixed {
    open spec fn obeys_mul_spec() -> bool {
        true
    }

    open spec fn mul_req(self, rhs: Fixed) -> bool {
        true
    }

    open spec fn mul_spec(self, rhs: Fixed) -> Fixed {
        Fixed::of_raw(trunc_div(self@ * rhs@, ONE_RAW as int))
    }
}

impl core::ops::Mul for Fixed {
    type Output = Fixed;

    /// The product, rounded toward zero and saturated.
    fn mul(self, rhs: Fixed) -> (r: Fixed)
        ensures
            r@ == sat_mul(self@, rhs@),
    {
        let r = Fixed::from_wide(self.wide_mul(rhs));
        proof {
            Fixed::lemma_view_injective(r, Fixed::of_raw(trunc_div(self@ * rhs@, ONE_RAW as int)));
        }
        r
    }
}

impl vstd::std_specs::ops::DivSpecImpl for Fixed {
    open spec fn obeys_div_spec() -> bool {
        true
    }

    open spec fn div_req(self, rhs: Fixed) -> bool {
        true
    }

    open spec fn div_spec(self, rhs: Fixed) -> Fixed {
        Fixed::of_raw(sat_div(self@, rhs@))
    }
}

impl core::ops::Div for Fixed {
    type Output = Fixed;

    /// The quotient, rounded toward zero and saturated; a division by zero
    /// saturates with the sign of the dividend.
    fn div(self, rhs: Fixed) -> (r: Fixed)
        ensures
            r@ == sat_div(self@, rhs@),
    {
        proof {
            use_type_invariant(&self);
            use_type_invariant(&rhs);
        }
        let r = if rhs.raw == 0 {
            if self.raw > 0 {
                Fixed { raw: MAX_RAW }
            } else if self.raw < 0 {
                Fixed { raw: -MAX_RAW }
            } else {
                Fixed { raw: 0 }
            }
        } else {
            let a: i128 = self.raw as i128;
            assert(-0x4000_0000_0000_0000 <= a <= 0x4000_0000_0000_0000);
            Fixed::saturate(quotient(a * 0x1_0000_0000, rhs.raw as i128))
        };
        proof {
            Fixed::lemma_view_injective(r, Fixed::of_raw(sat_div(self@, rhs@)));
        }
        r
    }
}

} // verus!
