//! The random source and a clamp.
use crate::fixed::{Fixed, ONE_RAW};
use vstd::prelude::*;

verus! {

/// Calls `rand::thread_rng()` and `rand::Rng::gen_range` on the half-open
/// range `low..high` of `i64`. Nothing is proved of it. The contract states
/// what the uniform integer sampler returns whatever was drawn: a value of
/// the range. `gen_range` panics on an empty range, which the precondition
/// leaves out. The generator panics where the operating system gives it no
/// random bytes, when it is first used and each time it reseeds itself,
/// whatever the arguments.
#[verifier::external_body]
fn draw(low: i64, high: i64) -> (r: i64)
    requires
        low < high,
    ensures
        low <= r < high,
{
    rand::Rng::gen_range(&mut rand::thread_rng(), low..high)
}

/// A random number of the half-open interval from `min` to `max`.
pub fn random_in_range(min: Fixed, max: Fixed) -> (r: Fixed)
    requires
        min@ < max@,
    ensures
        min@ <= r@ < max@,
{
    Fixed::from_raw(draw(min.raw(), max.raw()))
}

/// A random number that is at least zero and less than one.
pub fn random() -> (r: Fixed)
    ensures
        0 <= r@ < ONE_RAW,
{
    random_in_range(Fixed::zero(), Fixed::one())
}

/// `x` brought into the interval from `min` to `max`: `min` where `x` is
/// below it, else `max` where `x` is above it, else `x`.
pub open spec fn clamped(x: int, min: int, max: int) -> int {
    if x < min {
        min
    } else if x > max {
        max
    } else {
        x
    }
}

/// `x` brought into the interval from `min` to `max`.
pub fn clamp(x: Fixed, min: Fixed, max: Fixed) -> (r: Fixed)
    ensures
        r@ == clamped(x@, min@, max@),
{
    if x.lt(min) {
        min
    } else if x.gt(max) {
        max
    } else {
        x
    }
}

} // verus!
