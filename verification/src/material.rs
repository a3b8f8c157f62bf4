//! Materials: how a surface turns an incoming ray into an outgoing one.
//!
//! Each material has a `scatter`, which draws what it needs from the random
//! source, and a `scatter_with`, which takes what was drawn and is a function
//! of its arguments.
use crate::fixed::{sat_add, sat_div, sat_min, sat_mul, sat_sqrt, sat_sub, Fixed, ONE_RAW};
use crate::hittable::{HitRecord, HitView};
use crate::ray::{Ray, RayView};
use crate::rtweekend;
use crate::rtweekend::clamped;
use crate::vec3::{
    is_ball_draw, is_unit_draw, lemma_zero_draws, v3_add, v3_dot, v3_near_zero, v3_neg,
    v3_reflect, v3_refract, v3_scale, v3_unit, v3_zero, Vec3, V3,
};
use crate::Color3;
use core::ops::Neg;
use vstd::prelude::*;

verus! {

/// The raw integers of a material.
pub enum MaterialView {
    Lambertian { albedo: V3 },
    Metal { albedo: V3, fuzz: int },
    Dielectric { ir: int },
}

/// What a scattering returns, in raw integers: nothing where the ray is
/// absorbed, else the attenuation and the outgoing ray.
pub type Scattered = Option<(V3, RayView)>;

/// The raw integers of what a `scatter` returned.
pub open spec fn scattered_view(r: Option<(Color3, Ray)>) -> Scattered {
    match r {
        Some((attenuation, ray)) => Some((attenuation@, ray@)),
        None => None,
    }
}

/// The direction in which a diffuse surface scatters: the normal plus the
/// random unit vector, or the normal itself where that sum is near zero.
pub open spec fn lambertian_direction(hit: HitView, unit: V3) -> V3 {
    let sum = v3_add(hit.normal, unit);
    if v3_near_zero(sum) {
        hit.normal
    } else {
        sum
    }
}

/// A diffuse surface always scatters, from the hit point, and attenuates by
/// its albedo.
pub open spec fn lambertian_scatter(albedo: V3, hit: HitView, unit: V3) -> Scattered {
    Some((albedo, RayView { origin: hit.p, direction: lambertian_direction(hit, unit) }))
}

/// The direction in which a metal reflects: the mirror image of the incoming
/// unit direction, plus `fuzz` times the random point of the unit sphere.
pub open spec fn metal_direction(fuzz: int, ray_in: RayView, hit: HitView, jitter: V3) -> V3 {
    v3_add(v3_reflect(v3_unit(ray_in.direction), hit.normal), v3_scale(jitter, fuzz))
}

/// A metal without fuzz reflects as a mirror: the direction is the
/// reflection of the incoming unit direction, whatever was drawn. What is
/// proved of `v3_reflect` holds of it.
pub proof fn lemma_polished_metal_mirrors(ray_in: RayView, hit: HitView, jitter: V3)
    ensures
        metal_direction(0, ray_in, hit, jitter) == v3_reflect(
            v3_unit(ray_in.direction),
            hit.normal,
        ),
{
}

/// A metal scatters where the fuzzed reflection leaves the surface, that is
/// where its dot product with the normal is positive, and absorbs otherwise.
pub open spec fn metal_scatter(
    albedo: V3,
    fuzz: int,
    ray_in: RayView,
    hit: HitView,
    jitter: V3,
) -> Scattered {
    let direction = metal_direction(fuzz, ray_in, hit, jitter);
    if v3_dot(direction, hit.normal) > 0 {
        Some((albedo, RayView { origin: hit.p, direction }))
    } else {
        None
    }
}

/// The fifth power.
pub open spec fn pow5(x: int) -> int {
    let x2 = sat_mul(x, x);
    sat_mul(sat_mul(x2, x2), x)
}

/// Schlick's approximation of the reflectance of glass:
/// `r0 + (1 - r0) * (1 - cosine)^5` with `r0 = ((1 - ref_idx) / (1 + ref_idx))^2`.
pub open spec fn schlick(cosine: int, ref_idx: int) -> int {
    let r = sat_div(sat_sub(ONE_RAW as int, ref_idx), sat_add(ONE_RAW as int, ref_idx));
    let r0 = sat_mul(r, r);
    sat_add(r0, sat_mul(pow5(sat_sub(ONE_RAW as int, cosine)), sat_sub(ONE_RAW as int, r0)))
}

/// The ratio of refractive indices that a ray meets: `1 / ir` where it
/// enters the glass, `ir` where it leaves.
pub open spec fn refraction_ratio(ir: int, front_face: bool) -> int {
    if front_face {
        sat_div(ONE_RAW as int, ir)
    } else {
        ir
    }
}

/// The cosine of the angle of incidence, at most one.
pub open spec fn incidence_cos(unit: V3, normal: V3) -> int {
    sat_min(v3_dot(v3_neg(unit), normal), ONE_RAW as int)
}

/// The sine that belongs to a cosine.
pub open spec fn incidence_sin(cos_theta: int) -> int {
    sat_sqrt(sat_sub(ONE_RAW as int, sat_mul(cos_theta, cos_theta)))
}

/// Whether glass reflects instead of refracting: where Snell's law has no
/// solution, or where the random number `draw` is below the reflectance.
pub open spec fn dielectric_reflects(ir: int, ray_in: RayView, hit: HitView, draw: int) -> bool {
    let ratio = refraction_ratio(ir, hit.front_face);
    let cos_theta = incidence_cos(v3_unit(ray_in.direction), hit.normal);
    sat_mul(ratio, incidence_sin(cos_theta)) > ONE_RAW || schlick(cos_theta, ir) > draw
}

/// The direction in which glass sends a ray on.
pub open spec fn dielectric_direction(ir: int, ray_in: RayView, hit: HitView, draw: int) -> V3 {
    let unit = v3_unit(ray_in.direction);
    if dielectric_reflects(ir, ray_in, hit, draw) {
        v3_reflect(unit, hit.normal)
    } else {
        v3_refract(unit, hit.normal, refraction_ratio(ir, hit.front_face))
    }
}

/// The colour white: glass does not attenuate.
pub open spec fn white() -> V3 {
    V3 { x: ONE_RAW as int, y: ONE_RAW as int, z: ONE_RAW as int }
}

/// Glass always scatters, from the hit point, without attenuation.
pub open spec fn dielectric_scatter(ir: int, ray_in: RayView, hit: HitView, draw: int) -> Scattered {
    Some((white(), RayView { origin: hit.p, direction: dielectric_direction(ir, ray_in, hit, draw) }))
}

/// What is drawn from the random source for one scattering: a random unit
/// vector, a random point inside the unit sphere, and a random number that
/// is at least zero and less than one. A material uses the one it needs.
pub struct SampleView {
    pub unit: V3,
    pub jitter: V3,
    pub draw: int,
}

/// Whether `sample` can come from the random source.
pub open spec fn valid_sample(sample: SampleView) -> bool {
    &&& is_unit_draw(sample.unit)
    &&& is_ball_draw(sample.jitter)
    &&& 0 <= sample.draw < ONE_RAW
}

/// What a material scatters when the random source gave `sample`.
pub open spec fn material_scatter(
    material: MaterialView,
    ray_in: RayView,
    hit: HitView,
    sample: SampleView,
) -> Scattered {
    match material {
        MaterialView::Lambertian { albedo } => lambertian_scatter(albedo, hit, sample.unit),
        MaterialView::Metal { albedo, fuzz } => metal_scatter(
            albedo,
            fuzz,
            ray_in,
            hit,
            sample.jitter,
        ),
        MaterialView::Dielectric { ir } => dielectric_scatter(ir, ray_in, hit, sample.draw),
    }
}

/// A surface that scatters or absorbs the rays that meet it.
pub trait Material {
    /// The attenuation and the outgoing ray, or nothing where the ray is
    /// absorbed. An outgoing ray starts at the hit point.
    fn scatter(&self, ray_in: &Ray, hit_record: &HitRecord) -> (r: Option<(Color3, Ray)>)
        ensures
            r matches Some(out) ==> out.1@.origin == hit_record@.p,
    ;
}

/// What was drawn from the random source for one scattering.
#[derive(Clone, Copy, Debug)]
pub struct Sample {
    pub unit: Vec3,
    pub jitter: Vec3,
    pub draw: Fixed,
}

impl View for Sample {
    type V = SampleView;

    open spec fn view(&self) -> SampleView {
        SampleView { unit: self.unit@, jitter: self.jitter@, draw: self.draw@ }
    }
}

/// A diffuse material.
#[derive(Clone, Copy, Debug)]
pub struct Lambertian {
    pub albedo: Color3,
}

impl View for Lambertian {
    type V = MaterialView;

    open spec fn view(&self) -> MaterialView {
        MaterialView::Lambertian { albedo: self.albedo@ }
    }
}

impl Lambertian {
    /// The diffuse material with the given albedo.
    pub fn new(albedo: Color3) -> (r: Self)
        ensures
            r@ == (MaterialView::Lambertian { albedo: albedo@ }),
    {
        Self { albedo }
    }

    /// The scattering for the random unit vector `unit`.
    pub fn scatter_with(&self, hit_record: &HitRecord, unit: Vec3) -> (r: Option<(Color3, Ray)>)
        ensures
            scattered_view(r) == lambertian_scatter(self.albedo@, hit_record@, unit@),
            r is Some,
    {
        let mut scatter_direction: Vec3 = hit_record.normal + unit;
        if scatter_direction.near_zero() {
            scatter_direction = hit_record.normal;
        }
        Some((self.albedo, Ray::new(hit_record.p, scatter_direction)))
    }
}

impl Material for Lambertian {
    /// Scatters along the normal plus a random unit vector. Never absorbs.
    fn scatter(&self, _ray_in: &Ray, hit_record: &HitRecord) -> (r: Option<(Color3, Ray)>)
        ensures
            r is Some,
            exists|unit: V3|
                is_unit_draw(unit) && scattered_view(r) == lambertian_scatter(
                    self.albedo@,
                    hit_record@,
                    unit,
                ),
    {
        let unit: Vec3 = Vec3::random_unit_vector();
        self.scatter_with(hit_record, unit)
    }
}

/// A reflective material.
#[derive(Clone, Copy, Debug)]
pub struct Metal {
    pub albedo: Color3,
    pub fuzz: Fixed,
}

impl View for Metal {
    type V = MaterialView;

    open spec fn view(&self) -> MaterialView {
        MaterialView::Metal { albedo: self.albedo@, fuzz: self.fuzz@ }
    }
}

impl Metal {
    /// Whether the fuzz lies in the interval from zero to one.
    pub open spec fn well_formed(&self) -> bool {
        0 <= self.fuzz@ <= ONE_RAW
    }

    /// The metal with the given albedo and with `fuzz` brought into the
    /// interval from zero to one.
    pub fn new(albedo: Color3, fuzz: Fixed) -> (r: Self)
        ensures
            r@ == (MaterialView::Metal {
                albedo: albedo@,
                fuzz: clamped(fuzz@, 0, ONE_RAW as int),
            }),
            r.well_formed(),
    {
        Self { albedo, fuzz: rtweekend::clamp(fuzz, Fixed::zero(), Fixed::one()) }
    }

    /// The scattering for the random point `jitter` of the unit sphere.
    pub fn scatter_with(&self, ray_in: &Ray, hit_record: &HitRecord, jitter: Vec3) -> (r: Option<
        (Color3, Ray),
    >)
        ensures
            scattered_view(r) == metal_scatter(
                self.albedo@,
                self.fuzz@,
                ray_in@,
                hit_record@,
                jitter@,
            ),
            r is None <==> v3_dot(
                metal_direction(self.fuzz@, ray_in@, hit_record@, jitter@),
                hit_record@.normal,
            ) <= 0,
    {
        let reflected: Vec3 = Vec3::reflect(
            &Vec3::unit_vector(*ray_in.direction()),
            &hit_record.normal,
        );
        let scattered: Ray = Ray::new(hit_record.p, reflected + jitter * self.fuzz);
        let attenuation: Color3 = self.albedo;
        if Vec3::dot(scattered.direction(), &hit_record.normal).gt(Fixed::zero()) {
            Some((attenuation, scattered))
        } else {
            None
        }
    }
}

impl Material for Metal {
    /// Reflects with a random perturbation; absorbs where the perturbed
    /// reflection points into the surface.
    fn scatter(&self, ray_in: &Ray, hit_record: &HitRecord) -> (r: Option<(Color3, Ray)>)
        ensures
            exists|jitter: V3|
                is_ball_draw(jitter) && scattered_view(r) == metal_scatter(
                    self.albedo@,
                    self.fuzz@,
                    ray_in@,
                    hit_record@,
                    jitter,
                ),
    {
        let jitter: Vec3 = Vec3::random_in_unit_sphere();
        self.scatter_with(ray_in, hit_record, jitter)
    }
}

/// A transparent, refractive material.
#[derive(Clone, Copy, Debug)]
pub struct Dielectric {
    pub ir: Fixed,
}

impl View for Dielectric {
    type V = MaterialView;

    open spec fn view(&self) -> MaterialView {
        MaterialView::Dielectric { ir: self.ir@ }
    }
}

impl Dielectric {
    /// The glass with the given index of refraction.
    pub fn new(index_of_refraction: Fixed) -> (r: Self)
        ensures
            r@ == (MaterialView::Dielectric { ir: index_of_refraction@ }),
    {
        Self { ir: index_of_refraction }
    }

    /// Schlick's approximation of the reflectance.
    pub fn reflectance(cosine: Fixed, ref_idx: Fixed) -> (r: Fixed)
        ensures
            r@ == schlick(cosine@, ref_idx@),
    {
        let one: Fixed = Fixed::one();
        let r: Fixed = (one - ref_idx) / (one + ref_idx);
        let r0: Fixed = r * r;
        let x: Fixed = one - cosine;
        let x2: Fixed = x * x;
        r0 + x2 * x2 * x * (one - r0)
    }

    /// The scattering for the random number `draw`.
    pub fn scatter_with(&self, ray_in: &Ray, hit_record: &HitRecord, draw: Fixed) -> (r: Option<
        (Color3, Ray),
    >)
        ensures
            scattered_view(r) == dielectric_scatter(self.ir@, ray_in@, hit_record@, draw@),
            r is Some,
    {
        let one: Fixed = Fixed::one();
        let refraction_ratio: Fixed = if hit_record.front_face {
            one / self.ir
        } else {
            self.ir
        };
        let unit_direction: Vec3 = Vec3::unit_vector(*ray_in.direction());
        let cos_theta: Fixed = Vec3::dot(&unit_direction.neg(), &hit_record.normal).min(one);
        let sin_theta: Fixed = (one - cos_theta * cos_theta).sqrt();
        let cannot_refract: bool = (refraction_ratio * sin_theta).gt(one);
        let direction: Vec3 = if cannot_refract || Self::reflectance(cos_theta, self.ir).gt(draw) {
            Vec3::reflect(&unit_direction, &hit_record.normal)
        } else {
            Vec3::refract(&unit_direction, &hit_record.normal, refraction_ratio)
        };
        Some((Color3::new(one, one, one), Ray::new(hit_record.p, direction)))
    }
}

impl Material for Dielectric {
    /// Reflects or refracts, by a random draw against the reflectance.
    /// Never absorbs.
    fn scatter(&self, ray_in: &Ray, hit_record: &HitRecord) -> (r: Option<(Color3, Ray)>)
        ensures
            r is Some,
            exists|draw: int|
                0 <= draw < ONE_RAW && scattered_view(r) == dielectric_scatter(
                    self.ir@,
                    ray_in@,
                    hit_record@,
                    draw,
                ),
    {
        let draw: Fixed = rtweekend::random();
        self.scatter_with(ray_in, hit_record, draw)
    }
}

/// One of the three materials.
#[derive(Clone, Copy, Debug)]
pub enum MaterialKind {
    Lambertian(Lambertian),
    Metal(Metal),
    Dielectric(Dielectric),
}

impl View for MaterialKind {
    type V = MaterialView;

    open spec fn view(&self) -> MaterialView {
        match self {
            MaterialKind::Lambertian(m) => m@,
            MaterialKind::Metal(m) => m@,
            MaterialKind::Dielectric(m) => m@,
        }
    }
}

impl MaterialKind {
    /// The scattering when the random source gave `sample`.
    pub fn scatter_with(&self, ray_in: &Ray, hit_record: &HitRecord, sample: &Sample) -> (r: Option<
        (Color3, Ray),
    >)
        ensures
            scattered_view(r) == material_scatter(self@, ray_in@, hit_record@, sample@),
    {
        match self {
            MaterialKind::Lambertian(m) => m.scatter_with(hit_record, sample.unit),
            MaterialKind::Metal(m) => m.scatter_with(ray_in, hit_record, sample.jitter),
            MaterialKind::Dielectric(m) => m.scatter_with(ray_in, hit_record, sample.draw),
        }
    }
}

impl Material for MaterialKind {
    /// The scattering of the material that `self` holds.
    fn scatter(&self, ray_in: &Ray, hit_record: &HitRecord) -> (r: Option<(Color3, Ray)>)
        ensures
            exists|sample: SampleView|
                valid_sample(sample) && scattered_view(r) == material_scatter(
                    self@,
                    ray_in@,
                    hit_record@,
                    sample,
                ),
            !(self@ is Metal) ==> r is Some,
    {
        match self {
            MaterialKind::Lambertian(m) => {
                let r = m.scatter(ray_in, hit_record);
                proof {
                    let unit = choose|unit: V3|
                        is_unit_draw(unit) && scattered_view(r) == lambertian_scatter(
                            m.albedo@,
                            hit_record@,
                            unit,
                        );
                    let sample = SampleView { unit, jitter: v3_zero(), draw: 0 };
                    lemma_zero_draws();
                    assert(valid_sample(sample) && scattered_view(r) == material_scatter(
                        self@,
                        ray_in@,
                        hit_record@,
                        sample,
                    ));
                }
                r
            },
            MaterialKind::Metal(m) => {
                let r = m.scatter(ray_in, hit_record);
                proof {
                    let jitter = choose|jitter: V3|
                        is_ball_draw(jitter) && scattered_view(r) == metal_scatter(
                            m.albedo@,
                            m.fuzz@,
                            ray_in@,
                            hit_record@,
                            jitter,
                        );
                    let sample = SampleView { unit: v3_zero(), jitter, draw: 0 };
                    lemma_zero_draws();
                    assert(valid_sample(sample) && scattered_view(r) == material_scatter(
                        self@,
                        ray_in@,
                        hit_record@,
                        sample,
                    ));
                }
                r
            },
            MaterialKind::Dielectric(m) => {
                let r = m.scatter(ray_in, hit_record);
                proof {
                    let draw = choose|draw: int|
                        0 <= draw < ONE_RAW && scattered_view(r) == dielectric_scatter(
                            m.ir@,
                            ray_in@,
                            hit_record@,
                            draw,
                        );
                    let sample = SampleView { unit: v3_zero(), jitter: v3_zero(), draw };
                    lemma_zero_draws();
                    assert(valid_sample(sample) && scattered_view(r) == material_scatter(
                        self@,
                        ray_in@,
                        hit_record@,
                        sample,
                    ));
                }
                r
            },
        }
    }
}

} // verus!
