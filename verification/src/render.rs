//! The radiance estimator: the colour that a ray brings back from the scene.
//!
//! A ray that meets nothing brings the colour of the sky. A ray that meets
//! a sphere is scattered by its material, and brings what the scattered ray
//! brings, attenuated; an absorbed ray brings black. Each scattering uses up
//! one sample of the random source, and a ray that has none left brings
//! black.
use crate::camera::{camera_ray, Camera, CameraView};
use crate::fixed::{
    clamp_raw, sat_add, sat_div, sat_mul, sat_sub, Fixed, HALF_RAW, MAX_RAW, ONE_RAW,
};
use crate::hittable::HitRecord;
use crate::hittable_list::{closest_hit, HittableList};
use crate::material::{
    material_scatter, scattered_view, valid_sample, white, Material, Sample, SampleView,
};
use crate::ray::{Ray, RayView};
use crate::rtweekend;
use crate::sphere::SphereView;
use crate::vec3::{
    is_disk_draw, lemma_zero_draws, v3_add, v3_mul, v3_scale, v3_unit, v3_zero, Vec3, V3,
};
use crate::Color3;
use vstd::prelude::*;

verus! {

/// The raw integer of `0.001`, rounded down: the least parameter at which a
/// scattered ray may meet a surface. It keeps the ray from meeting the
/// surface it left.
pub const SHADOW_ACNE_RAW: i64 = 4_294_967;

/// The raw integer of `0.7`, rounded down: the green of the sky.
pub const SKY_GREEN_RAW: i64 = 3_006_477_107;

/// The colour black.
pub open spec fn black() -> V3 {
    v3_zero()
}

/// The blue of the sky at the zenith: `(0.5, 0.7, 1.0)`.
pub open spec fn sky_blue() -> V3 {
    V3 { x: HALF_RAW as int, y: SKY_GREEN_RAW as int, z: ONE_RAW as int }
}

/// How far up a ray points, from zero to one: `0.5 * (y + 1)` for the second
/// component `y` of its unit direction.
pub open spec fn sky_blend(ray: RayView) -> int {
    sat_mul(HALF_RAW as int, sat_add(v3_unit(ray.direction).y, ONE_RAW as int))
}

/// The colour of the sky along a ray: white and blue, blended by how far
/// up the ray points. Straight up it is the blue of the zenith, straight
/// down it is white.
pub open spec fn sky(ray: RayView) -> V3 {
    let t = sky_blend(ray);
    v3_add(v3_scale(white(), sat_sub(ONE_RAW as int, t)), v3_scale(sky_blue(), t))
}

/// The colour that `ray` brings back from `world` when the random source
/// gives `samples`, one for each scattering.
pub open spec fn radiance(ray: RayView, world: Seq<SphereView>, samples: Seq<SampleView>) -> V3
    decreases samples.len(),
{
    if samples.len() == 0 {
        black()
    } else {
        match closest_hit(world, ray, SHADOW_ACNE_RAW as int, MAX_RAW as int) {
            Some(hit) => match material_scatter(hit.material, ray, hit, samples.first()) {
                Some((attenuation, scattered)) => v3_mul(
                    attenuation,
                    radiance(scattered, world, samples.drop_first()),
                ),
                None => black(),
            },
            None => sky(ray),
        }
    }
}

/// The raw integers of a list of samples.
pub open spec fn samples_view(samples: Seq<Sample>) -> Seq<SampleView> {
    samples.map_values(|s: Sample| s@)
}

/// Whether each of the samples can come from the random source.
pub open spec fn all_valid(samples: Seq<SampleView>) -> bool {
    forall|i: int| 0 <= i < samples.len() ==> valid_sample(#[trigger] samples[i])
}

/// Whether `color` is what `ray` brings back for some `depth` samples that
/// the random source can give.
pub open spec fn can_be_radiance(
    color: V3,
    ray: RayView,
    world: Seq<SphereView>,
    depth: int,
) -> bool {
    exists|samples: Seq<SampleView>|
        #[trigger] all_valid(samples) && samples.len() == depth && color == radiance(
            ray,
            world,
            samples,
        )
}

/// The number of scatterings that a depth allows: none where it is negative.
pub open spec fn bounces(depth: int) -> int {
    if depth > 0 {
        depth
    } else {
        0
    }
}

/// The sample that the samplers give when they give up.
pub open spec fn zero_sample() -> SampleView {
    SampleView { unit: v3_zero(), jitter: v3_zero(), draw: 0 }
}

/// `n` samples, each the one of [`zero_sample`].
pub open spec fn filler(n: int) -> Seq<SampleView> {
    Seq::new(n as nat, |i: int| zero_sample())
}

/// The samples of [`filler`] can come from the random source.
proof fn lemma_filler_valid(n: int)
    requires
        0 <= n,
    ensures
        all_valid(filler(n)),
        filler(n).len() == n,
{
    lemma_zero_draws();
}

/// Putting a valid sample before valid samples gives valid samples.
proof fn lemma_prepend_valid(first: SampleView, rest: Seq<SampleView>)
    requires
        valid_sample(first),
        all_valid(rest),
    ensures
        all_valid(seq![first] + rest),
        (seq![first] + rest).first() == first,
        (seq![first] + rest).drop_first() == rest,
        (seq![first] + rest).len() == rest.len() + 1,
{
    let all = seq![first] + rest;
    assert(all.drop_first() =~= rest);
    assert forall|i: int| 0 <= i < all.len() implies valid_sample(#[trigger] all[i]) by {
        if i > 0 {
            assert(all[i] == rest[i - 1]);
        }
    }
}

/// The colour of the sky along `ray`.
pub fn sky_color(ray: &Ray) -> (r: Color3)
    ensures
        r@ == sky(ray@),
{
    let one: Fixed = Fixed::one();
    let unit_direction: Vec3 = Vec3::unit_vector(*ray.direction());
    let t: Fixed = Fixed::from_raw(HALF_RAW) * (unit_direction.y() + one);
    Color3::new(one, one, one) * (one - t) + Color3::new(
        Fixed::from_raw(HALF_RAW),
        Fixed::from_raw(SKY_GREEN_RAW),
        one,
    ) * t
}

/// The colour that `ray` brings back when the samples from `next` on are
/// what the random source gives.
fn radiance_from(ray: &Ray, world: &HittableList, samples: &Vec<Sample>, next: usize) -> (r: Color3)
    requires
        next <= samples.len(),
    ensures
        r@ == radiance(ray@, world@, samples_view(samples@).skip(next as int)),
    decreases samples.len() - next,
{
    let ghost rest = samples_view(samples@).skip(next as int);
    if next == samples.len() {
        return Color3::zero();
    }
    proof {
        assert(rest.first() == samples@[next as int]@);
        assert(rest.drop_first() =~= samples_view(samples@).skip(next + 1));
    }
    if let Some(hit_rec) = world.is_hit(
        ray,
        Fixed::from_raw(SHADOW_ACNE_RAW),
        Fixed::max_value(),
    ) {
        if let Some((attenuation, scattered)) = hit_rec.material.scatter_with(
            ray,
            &hit_rec,
            &samples[next],
        ) {
            return attenuation * radiance_from(&scattered, world, samples, next + 1);
        } else {
            return Color3::zero();
        }
    }
    sky_color(ray)
}

/// The colour that `ray` brings back from `world` when the random source
/// gives `samples`: as many scatterings are followed as there are samples.
pub fn ray_color_with(ray: &Ray, world: &HittableList, samples: &Vec<Sample>) -> (r: Color3)
    ensures
        r@ == radiance(ray@, world@, samples_view(samples@)),
{
    assert(samples_view(samples@).skip(0) =~= samples_view(samples@));
    radiance_from(ray, world, samples, 0)
}

/// The colour that `ray` brings back from `world`, following at most
/// `depth` scatterings. With no scattering left it is black.
pub fn ray_color(ray: &Ray, world: &HittableList, depth: i32) -> (r: Color3)
    ensures
        depth <= 0 ==> r@ == black(),
        can_be_radiance(r@, ray@, world@, bounces(depth as int)),
    decreases depth,
{
    if depth <= 0 {
        let r: Color3 = Color3::zero();
        proof {
            let samples = Seq::<SampleView>::empty();
            assert(all_valid(samples) && samples.len() == 0 && r@ == radiance(
                ray@,
                world@,
                samples,
            ));
        }
        return r;
    }
    let found: Option<HitRecord> = world.is_hit(
        ray,
        Fixed::from_raw(SHADOW_ACNE_RAW),
        Fixed::max_value(),
    );
    if let Some(hit_rec) = found {
        let out = hit_rec.material.scatter(ray, &hit_rec);
        let ghost first = choose|sample: SampleView|
            valid_sample(sample) && scattered_view(out) == material_scatter(
                hit_rec.material@,
                ray@,
                hit_rec@,
                sample,
            );
        if let Some((attenuation, scattered)) = out {
            let inner: Color3 = ray_color(&scattered, world, depth - 1);
            let r: Color3 = attenuation * inner;
            proof {
                let rest = choose|samples: Seq<SampleView>|
                    #[trigger] all_valid(samples) && samples.len() == depth - 1 && inner@
                        == radiance(scattered@, world@, samples);
                assert(inner@ == radiance(scattered@, world@, rest));
                lemma_prepend_valid(first, rest);
                let samples = seq![first] + rest;
                assert(all_valid(samples) && samples.len() == depth && r@ == radiance(
                    ray@,
                    world@,
                    samples,
                ));
            }
            return r;
        } else {
            let r: Color3 = Color3::zero();
            proof {
                lemma_filler_valid(depth - 1);
                lemma_prepend_valid(first, filler(depth - 1));
                let samples = seq![first] + filler(depth - 1);
                assert(all_valid(samples) && samples.len() == depth && r@ == radiance(
                    ray@,
                    world@,
                    samples,
                ));
            }
            return r;
        }
    }
    let r: Color3 = sky_color(ray);
    proof {
        lemma_filler_valid(depth as int);
        let samples = filler(depth as int);
        assert(all_valid(samples) && samples.len() == depth && r@ == radiance(
            ray@,
            world@,
            samples,
        ));
    }
    r
}

/// A pixel: its column `i`, counted from the left, and its row `j`, counted
/// from the bottom, in an image of the given width and height.
#[derive(Clone, Copy, Debug, PartialEq, Eq, Structural)]
pub struct Pixel {
    pub i: u32,
    pub j: u32,
    pub width: u32,
    pub height: u32,
}

/// What is drawn from the random source for one sample of a pixel, in raw
/// integers: the place within the pixel, the point of the lens and the
/// samples of the scatterings.
pub struct PixelDrawView {
    pub du: int,
    pub dv: int,
    pub disk: V3,
    pub samples: Seq<SampleView>,
}

/// What is drawn from the random source for one sample of a pixel.
pub struct PixelDraw {
    pub du: Fixed,
    pub dv: Fixed,
    pub disk: Vec3,
    pub samples: Vec<Sample>,
}

impl View for PixelDraw {
    type V = PixelDrawView;

    open spec fn view(&self) -> PixelDrawView {
        PixelDrawView {
            du: self.du@,
            dv: self.dv@,
            disk: self.disk@,
            samples: samples_view(self.samples@),
        }
    }
}

/// The raw integers of a list of draws.
pub open spec fn draws_view(draws: Seq<PixelDraw>) -> Seq<PixelDrawView> {
    draws.map_values(|d: PixelDraw| d@)
}

/// The position on the viewport, from zero to one, of the place `jitter`
/// within the pixel of the given index, in an image of `extent` pixels:
/// `(index + jitter) / (extent - 1)`.
pub open spec fn image_position(index: int, jitter: int, extent: int) -> int {
    sat_div(sat_add(clamp_raw(index * ONE_RAW), jitter), clamp_raw((extent - 1) * ONE_RAW))
}

/// The ray of one sample of a pixel.
pub open spec fn sample_ray(camera: CameraView, pixel: Pixel, draw: PixelDrawView) -> RayView {
    camera_ray(
        camera,
        image_position(pixel.i as int, draw.du, pixel.width as int),
        image_position(pixel.j as int, draw.dv, pixel.height as int),
        draw.disk,
    )
}

/// The colour of one sample of a pixel.
pub open spec fn sample_color(
    camera: CameraView,
    world: Seq<SphereView>,
    pixel: Pixel,
    draw: PixelDrawView,
) -> V3 {
    radiance(sample_ray(camera, pixel, draw), world, draw.samples)
}

/// The sum of the colours of the samples of a pixel, added one after the
/// other in their order.
pub open spec fn pixel_sum(
    camera: CameraView,
    world: Seq<SphereView>,
    pixel: Pixel,
    draws: Seq<PixelDrawView>,
) -> V3
    decreases draws.len(),
{
    if draws.len() == 0 {
        black()
    } else {
        v3_add(
            pixel_sum(camera, world, pixel, draws.drop_last()),
            sample_color(camera, world, pixel, draws.last()),
        )
    }
}

/// Whether `draw` can come from the random source for a ray that is
/// followed through `depth` scatterings.
pub open spec fn valid_draw(draw: PixelDrawView, depth: int) -> bool {
    &&& 0 <= draw.du < ONE_RAW
    &&& 0 <= draw.dv < ONE_RAW
    &&& is_disk_draw(draw.disk)
    &&& all_valid(draw.samples)
    &&& draw.samples.len() == depth
}

/// Whether `color` is the sum of `count` samples of a pixel for some draws
/// that the random source can give.
pub open spec fn can_be_pixel_sum(
    color: V3,
    camera: CameraView,
    world: Seq<SphereView>,
    pixel: Pixel,
    count: int,
    depth: int,
) -> bool {
    exists|draws: Seq<PixelDrawView>|
        {
            &&& draws.len() == count
            &&& forall|k: int| 0 <= k < draws.len() ==> valid_draw(#[trigger] draws[k], depth)
            &&& color == #[trigger] pixel_sum(camera, world, pixel, draws)
        }
}

/// The position on the viewport of the place `jitter` within the pixel of
/// the given index, in an image of `extent` pixels.
pub fn image_coordinate(index: u32, jitter: Fixed, extent: u32) -> (r: Fixed)
    ensures
        r@ == image_position(index as int, jitter@, extent as int),
{
    (Fixed::from_int(index as i64) + jitter) / Fixed::from_int(extent as i64 - 1)
}

/// The sum of the colours of the samples of `pixel` when the random source
/// gives `draws`, one for each sample.
pub fn pixel_color_with(
    camera: &Camera,
    world: &HittableList,
    pixel: &Pixel,
    draws: &Vec<PixelDraw>,
) -> (r: Color3)
    ensures
        r@ == pixel_sum(camera@, world@, *pixel, draws_view(draws@)),
{
    let mut pixel_color: Color3 = Color3::zero();
    let mut k: usize = 0;
    while k < draws.len()
        invariant
            0 <= k <= draws.len(),
            pixel_color@ == pixel_sum(camera@, world@, *pixel, draws_view(draws@).take(k as int)),
        decreases draws.len() - k,
    {
        proof {
            let next = draws_view(draws@).take(k + 1);
            assert(next.drop_last() =~= draws_view(draws@).take(k as int));
            assert(next.last() == draws@[k as int]@);
        }
        let draw: &PixelDraw = &draws[k];
        let u: Fixed = image_coordinate(pixel.i, draw.du, pixel.width);
        let v: Fixed = image_coordinate(pixel.j, draw.dv, pixel.height);
        let ray: Ray = camera.get_ray_with(u, v, draw.disk);
        pixel_color.add_assign(ray_color_with(&ray, world, &draw.samples));
        k = k + 1;
    }
    assert(draws_view(draws@).take(k as int) =~= draws_view(draws@));
    pixel_color
}

/// The sum of the colours of `samples_per_pixel` random samples of `pixel`,
/// each followed through at most `max_depth` scatterings.
pub fn pixel_color(
    camera: &Camera,
    world: &HittableList,
    pixel: &Pixel,
    samples_per_pixel: u32,
    max_depth: i32,
) -> (r: Color3)
    ensures
        samples_per_pixel == 0 ==> r@ == black(),
        can_be_pixel_sum(
            r@,
            camera@,
            world@,
            *pixel,
            samples_per_pixel as int,
            bounces(max_depth as int),
        ),
{
    let mut pixel_color: Color3 = Color3::zero();
    let ghost mut draws: Seq<PixelDrawView> = Seq::empty();
    let mut k: u32 = 0;
    while k < samples_per_pixel
        invariant
            0 <= k <= samples_per_pixel,
            draws.len() == k,
            forall|n: int|
                0 <= n < draws.len() ==> valid_draw(#[trigger] draws[n], bounces(max_depth as int)),
            pixel_color@ == pixel_sum(camera@, world@, *pixel, draws),
        decreases samples_per_pixel - k,
    {
        let du: Fixed = rtweekend::random();
        let dv: Fixed = rtweekend::random();
        let u: Fixed = image_coordinate(pixel.i, du, pixel.width);
        let v: Fixed = image_coordinate(pixel.j, dv, pixel.height);
        let ray: Ray = camera.get_ray(u, v);
        let color: Color3 = ray_color(&ray, world, max_depth);
        proof {
            let disk = choose|disk: V3|
                is_disk_draw(disk) && ray@ == camera_ray(camera@, u@, v@, disk);
            let samples = choose|samples: Seq<SampleView>|
                #[trigger] all_valid(samples) && samples.len() == bounces(max_depth as int)
                    && color@ == radiance(ray@, world@, samples);
            let draw = PixelDrawView { du: du@, dv: dv@, disk, samples };
            let before = draws;
            draws = draws.push(draw);
            assert(draws.drop_last() =~= before);
            assert(draws.last() == draw);
            assert(sample_color(camera@, world@, *pixel, draw) == color@);
        }
        pixel_color.add_assign(color);
        k = k + 1;
    }
    pixel_color
}

} // verus!
