//! Rays: half-lines from an origin along a direction.
use crate::vec3::{v3_add, v3_scale, Vec3, V3};
use crate::fixed::Fixed;
use crate::Point3;
use vstd::prelude::*;

verus! {

/// The raw integers of a ray.
pub struct RayView {
    pub origin: V3,
    pub direction: V3,
}

/// The point of a ray at the parameter `t`: `origin + t * direction`.
pub open spec fn ray_at(ray: RayView, t: int) -> V3 {
    v3_add(ray.origin, v3_scale(ray.direction, t))
}

/// A ray. Its direction need not have length one.
#[derive(Clone, Copy, Debug, PartialEq, Eq, Structural)]
pub struct Ray {
    orig: Point3,
    dir: Vec3,
}

impl View for Ray {
    type V = RayView;

    closed spec fn view(&self) -> RayView {
        RayView { origin: self.orig@, direction: self.dir@ }
    }
}

impl Ray {
    /// The ray from `origin` along `direction`.
    pub fn new(origin: Point3, direction: Vec3) -> (r: Self)
        ensures
            r@ == (RayView { origin: origin@, direction: direction@ }),
    {
        Self { orig: origin, dir: direction }
    }

    /// The origin.
    pub fn origin(&self) -> (r: &Point3)
        ensures
            r@ == self@.origin,
    {
        &self.orig
    }

    /// The direction.
    pub fn direction(&self) -> (r: &Vec3)
        ensures
            r@ == self@.direction,
    {
        &self.dir
    }

    /// The point at the parameter `t`.
    pub fn at(&self, t: Fixed) -> (r: Point3)
        ensures
            r@ == ray_at(self@, t@),
    {
        self.orig + self.dir * t
    }
}

} // verus!
