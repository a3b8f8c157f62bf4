//! What a ray learns where it meets a surface, and the capability of being met.
use crate::fixed::Fixed;
use crate::material::{Lambertian, MaterialKind, MaterialView};
use crate::ray::{Ray, RayView};
use crate::vec3::{lemma_dot_with_opposite, v3_dot, v3_neg, v3_zero, Vec3, V3};
use crate::{Color3, Point3};
use core::ops::Neg;
use vstd::prelude::*;

verus! {

/// The raw integers of a hit record.
pub struct HitView {
    pub p: V3,
    pub normal: V3,
    pub material: MaterialView,
    pub t: int,
    pub front_face: bool,
}

/// Whether a ray along `direction` meets a surface with outward normal
/// `outward` from the outside: their dot product is negative.
pub open spec fn faces_front(direction: V3, outward: V3) -> bool {
    v3_dot(direction, outward) < 0
}

/// The normal that is stored for a ray along `direction`: the outward normal
/// where the ray comes from outside, else its opposite.
pub open spec fn stored_normal(direction: V3, outward: V3) -> V3 {
    if faces_front(direction, outward) {
        outward
    } else {
        v3_neg(outward)
    }
}

/// The record `h` after its normal has been set from the outward normal.
pub open spec fn with_face_normal(h: HitView, ray: RayView, outward: V3) -> HitView {
    HitView {
        front_face: faces_front(ray.direction, outward),
        normal: stored_normal(ray.direction, outward),
        ..h
    }
}

/// The record that [`HitRecord::new`] returns.
pub open spec fn blank_hit() -> HitView {
    HitView {
        p: v3_zero(),
        normal: v3_zero(),
        material: MaterialView::Lambertian { albedo: v3_zero() },
        t: 0,
        front_face: true,
    }
}

/// The stored normal never points along the ray: its dot product with the
/// direction of the ray is at most zero, whatever the outward normal.
pub proof fn lemma_stored_normal_opposes_ray(direction: V3, outward: V3)
    ensures
        v3_dot(direction, stored_normal(direction, outward)) <= 0,
{
    lemma_dot_with_opposite(direction, outward);
}

/// Something that a ray can meet.
pub trait Hit {
    /// The intersection of `ray` with `self` whose parameter lies between
    /// `t_min` and `t_max`, if there is one.
    fn hit(&self, ray: &Ray, t_min: Fixed, t_max: Fixed) -> (r: Option<HitRecord>)
        ensures
            r matches Some(h) ==> t_min@ <= h@.t <= t_max@ && v3_dot(ray@.direction, h@.normal)
                <= 0,
    ;
}

/// Where a ray met a surface: the point, the normal turned against the ray,
/// the material, the ray's parameter, and whether the ray came from outside.
#[derive(Clone, Copy, Debug)]
pub struct HitRecord {
    pub p: Point3,
    pub normal: Vec3,
    pub material: MaterialKind,
    pub t: Fixed,
    pub front_face: bool,
}

impl View for HitRecord {
    type V = HitView;

    open spec fn view(&self) -> HitView {
        HitView {
            p: self.p@,
            normal: self.normal@,
            material: self.material@,
            t: self.t@,
            front_face: self.front_face,
        }
    }
}

impl HitRecord {
    /// A record at the origin with a black diffuse material.
    pub fn new() -> (r: Self)
        ensures
            r@ == blank_hit(),
    {
        Self {
            p: Point3::zero(),
            normal: Vec3::zero(),
            material: MaterialKind::Lambertian(Lambertian::new(Color3::zero())),
            t: Fixed::zero(),
            front_face: true,
        }
    }

    /// Sets the flag and the normal from the outward normal, so that the
    /// stored normal points against the ray.
    pub fn set_face_normal(&mut self, ray: &Ray, outward_normal: &Vec3)
        ensures
            final(self)@ == with_face_normal(old(self)@, ray@, outward_normal@),
            v3_dot(ray@.direction, final(self)@.normal) <= 0,
    {
        proof {
            lemma_stored_normal_opposes_ray(ray@.direction, outward_normal@);
        }
        self.front_face = Vec3::dot(ray.direction(), outward_normal).lt(Fixed::zero());
        self.normal = if self.front_face {
            *outward_normal
        } else {
            outward_normal.neg()
        }
    }
}

} // verus!
