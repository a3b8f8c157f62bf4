//! The scene: a list of spheres, and the nearest of them that a ray meets.
use crate::fixed::Fixed;
use crate::hittable::{Hit, HitRecord, HitView};
use crate::ray::{Ray, RayView};
use crate::sphere::{hit_view, sphere_hit, Sphere, SphereView};
use vstd::prelude::*;

verus! {

/// The bound below which a later sphere must be met to replace the hit
/// found so far: the parameter of that hit, or `t_max` where there is none.
pub open spec fn closest_so_far(before: Option<HitView>, t_max: int) -> int {
    match before {
        Some(h) => h.t,
        None => t_max,
    }
}

/// The nearest hit of `ray` among the spheres of `world`, within the
/// interval from `t_min` to `t_max`: the spheres are gone through in order,
/// and each is asked for a hit that is no farther than the nearest so far.
/// Of two spheres met at the same parameter, the later one is returned.
pub open spec fn closest_hit(world: Seq<SphereView>, ray: RayView, t_min: int, t_max: int) -> Option<
    HitView,
>
    decreases world.len(),
{
    if world.len() == 0 {
        None
    } else {
        let before = closest_hit(world.drop_last(), ray, t_min, t_max);
        match sphere_hit(world.last(), ray, t_min, closest_so_far(before, t_max)) {
            Some(h) => Some(h),
            None => before,
        }
    }
}

/// Whether no sphere of `world` is met by `ray` nearer than at `t`.
pub open spec fn none_nearer(world: Seq<SphereView>, ray: RayView, t_min: int, t_max: int, t: int) -> bool {
    forall|i: int|
        0 <= i < world.len() ==> match #[trigger] sphere_hit(world[i], ray, t_min, t_max) {
            Some(other) => t <= other.t,
            None => true,
        }
}

/// Whether `h` is the hit of `ray` with one of the spheres of `world`.
pub open spec fn is_hit_of_one(
    world: Seq<SphereView>,
    ray: RayView,
    t_min: int,
    t_max: int,
    h: HitView,
) -> bool {
    exists|i: int| 0 <= i < world.len() && #[trigger] sphere_hit(world[i], ray, t_min, t_max) == Some(h)
}

/// Whether `ray` meets no sphere of `world`.
pub open spec fn all_missed(world: Seq<SphereView>, ray: RayView, t_min: int, t_max: int) -> bool {
    forall|i: int| 0 <= i < world.len() ==> #[trigger] sphere_hit(world[i], ray, t_min, t_max) is None
}

/// The nearest hit is the nearest: it is the hit of one of the spheres, and
/// no sphere is met nearer. There is none exactly where every sphere is
/// missed.
pub proof fn lemma_closest_hit_is_nearest(
    world: Seq<SphereView>,
    ray: RayView,
    t_min: int,
    t_max: int,
)
    ensures
        match closest_hit(world, ray, t_min, t_max) {
            Some(h) => is_hit_of_one(world, ray, t_min, t_max, h) && none_nearer(
                world,
                ray,
                t_min,
                t_max,
                h.t,
            ),
            None => all_missed(world, ray, t_min, t_max),
        },
    decreases world.len(),
{
    if world.len() > 0 {
        let rest = world.drop_last();
        let last = world.last();
        lemma_closest_hit_is_nearest(rest, ray, t_min, t_max);
        let before = closest_hit(rest, ray, t_min, t_max);
        let limit = closest_so_far(before, t_max);
        assert forall|i: int| 0 <= i < rest.len() implies rest[i] == world[i] by {}
        if let Some(found) = before {
            let k = choose|i: int|
                0 <= i < rest.len() && #[trigger] sphere_hit(rest[i], ray, t_min, t_max) == Some(
                    found,
                );
            crate::sphere::lemma_hit_properties(rest[k], ray, t_min, t_max);
            assert(sphere_hit(world[k], ray, t_min, t_max) == Some(found));
        }
        assert(limit <= t_max);
        crate::sphere::lemma_hit_within_narrower(last, ray, t_min, limit, t_max);
        match sphere_hit(last, ray, t_min, limit) {
            Some(h) => {
                crate::sphere::lemma_hit_properties(last, ray, t_min, limit);
                assert(sphere_hit(world[world.len() - 1], ray, t_min, t_max) == Some(h));
                assert forall|i: int| 0 <= i < world.len() implies match #[trigger] sphere_hit(
                    world[i],
                    ray,
                    t_min,
                    t_max,
                ) {
                    Some(other) => h.t <= other.t,
                    None => true,
                } by {
                    if i < rest.len() {
                        assert(sphere_hit(rest[i], ray, t_min, t_max) == sphere_hit(
                            world[i],
                            ray,
                            t_min,
                            t_max,
                        ));
                    }
                }
            },
            None => {
                assert forall|i: int| 0 <= i < world.len() implies match #[trigger] sphere_hit(
                    world[i],
                    ray,
                    t_min,
                    t_max,
                ) {
                    Some(other) => before is Some && before->Some_0.t <= other.t,
                    None => true,
                } by {
                    if i < rest.len() {
                        assert(sphere_hit(rest[i], ray, t_min, t_max) == sphere_hit(
                            world[i],
                            ray,
                            t_min,
                            t_max,
                        ));
                    }
                }
            },
        }
    }
}

/// The raw integers of a list of spheres.
pub open spec fn spheres_view(spheres: Seq<Sphere>) -> Seq<SphereView> {
    spheres.map_values(|s: Sphere| s@)
}

/// A list of spheres, in the order in which they were added.
pub struct HittableList {
    pub hittables_vec: Vec<Sphere>,
}

impl View for HittableList {
    type V = Seq<SphereView>;

    open spec fn view(&self) -> Seq<SphereView> {
        spheres_view(self.hittables_vec@)
    }
}

impl HittableList {
    /// The empty list.
    pub fn new() -> (r: Self)
        ensures
            r@ == Seq::<SphereView>::empty(),
    {
        let r = Self { hittables_vec: Vec::new() };
        assert(r@ =~= Seq::<SphereView>::empty());
        r
    }

    /// Appends `item`.
    pub fn add(&mut self, item: Sphere)
        ensures
            final(self)@ == old(self)@.push(item@),
    {
        self.hittables_vec.push(item);
        assert(self@ =~= old(self)@.push(item@));
    }

    /// Removes the sphere that was added last and returns it, if there is one.
    pub fn del(&mut self) -> (r: Option<Sphere>)
        ensures
            match r {
                Some(item) => old(self)@.len() > 0 && item@ == old(self)@.last() && final(self)@
                    == old(self)@.drop_last(),
                None => old(self)@.len() == 0 && final(self)@ == old(self)@,
            },
    {
        if let Some(item) = self.hittables_vec.pop() {
            assert(self@ =~= old(self)@.drop_last());
            Some(item)
        } else {
            None
        }
    }

    /// The nearest hit of `ray` among the spheres, within the interval from
    /// `t_min` to `t_max`, if there is one.
    pub fn is_hit(&self, ray: &Ray, t_min: Fixed, t_max: Fixed) -> (r: Option<HitRecord>)
        ensures
            hit_view(r) == closest_hit(self@, ray@, t_min@, t_max@),
            match r {
                Some(h) => is_hit_of_one(self@, ray@, t_min@, t_max@, h@) && none_nearer(
                    self@,
                    ray@,
                    t_min@,
                    t_max@,
                    h@.t,
                ),
                None => all_missed(self@, ray@, t_min@, t_max@),
            },
    {
        proof {
            lemma_closest_hit_is_nearest(self@, ray@, t_min@, t_max@);
        }
        let mut hit_record: HitRecord = HitRecord::new();
        let mut closest: Fixed = t_max;
        let mut hit_anything: bool = false;
        let mut i: usize = 0;
        assert(self@.take(0) =~= Seq::<SphereView>::empty());
        while i < self.hittables_vec.len()
            invariant
                0 <= i <= self.hittables_vec.len(),
                self@.len() == self.hittables_vec.len(),
                closest_hit(self@.take(i as int), ray@, t_min@, t_max@) == if hit_anything {
                    Some(hit_record@)
                } else {
                    None
                },
                closest@ == closest_so_far(
                    closest_hit(self@.take(i as int), ray@, t_min@, t_max@),
                    t_max@,
                ),
            decreases self.hittables_vec.len() - i,
        {
            proof {
                let next = self@.take(i + 1);
                assert(next.drop_last() =~= self@.take(i as int));
                assert(next.last() == self.hittables_vec@[i as int]@);
            }
            if let Some(hit_rec) = self.hittables_vec[i].hit(ray, t_min, closest) {
                hit_anything = true;
                closest = hit_rec.t;
                hit_record = hit_rec;
            }
            i = i + 1;
        }
        assert(self@.take(i as int) =~= self@);
        if hit_anything {
            Some(hit_record)
        } else {
            None
        }
    }
}

} // verus!
