//! The camera: from a position on the image plane to a ray.
use crate::fixed::{magnitude, sat_div, sat_mul, Fixed, HALF_RAW, ONE_RAW};
use crate::ray::{Ray, RayView};
use crate::vec3::{
    dot_wide, is_disk_draw, lemma_cross_length, lemma_cross_nearly_perpendicular,
    lemma_cross_wide_perpendicular,
    lemma_unit_components, lemma_unit_keeps_right_angle, lemma_unit_vector_length, max_magnitude,
    taxicab, unit_length, unit_scale, v3_add, v3_cross, v3_in_range, v3_scale, v3_sub, v3_unit,
    Vec3, V3,
};
use crate::Point3;
use vstd::prelude::*;

verus! {

/// The raw integers of a camera.
pub struct CameraView {
    pub origin: V3,
    pub lower_left_corner: V3,
    pub horizontal: V3,
    pub vertical: V3,
    pub u: V3,
    pub v: V3,
    pub w: V3,
    pub lens_radius: int,
}

/// The raw integers of what a camera is made from.
pub struct CameraSetup {
    pub lookfrom: V3,
    pub lookat: V3,
    pub vup: V3,
    pub half_height: int,
    pub aspect_ratio: int,
    pub aperture: int,
    pub focus_dist: int,
}

/// The height of the viewport at distance one: twice `half_height`.
pub open spec fn viewport_height(setup: CameraSetup) -> int {
    sat_mul(2 * ONE_RAW, setup.half_height)
}

/// The width of the viewport at distance one.
pub open spec fn viewport_width(setup: CameraSetup) -> int {
    sat_mul(setup.aspect_ratio, viewport_height(setup))
}

/// The unit vector from the point looked at to the camera.
pub open spec fn basis_w(setup: CameraSetup) -> V3 {
    v3_unit(v3_sub(setup.lookfrom, setup.lookat))
}

/// The unit vector to the right of the camera: the unit vector of the
/// cross product of the unit vector of the up hint with `w`. The up hint is
/// normalised first, so that its length does not matter.
pub open spec fn basis_u(setup: CameraSetup) -> V3 {
    v3_unit(v3_cross(v3_unit(setup.vup), basis_w(setup)))
}

/// The unit vector upward from the camera.
pub open spec fn basis_v(setup: CameraSetup) -> V3 {
    v3_cross(basis_w(setup), basis_u(setup))
}

/// The camera that `setup` describes: an orthonormal basis `u`, `v`, `w`,
/// the viewport on the plane of focus, spanned by `horizontal` and
/// `vertical` from `lower_left_corner`, and a lens of half the aperture.
pub open spec fn camera_of(setup: CameraSetup) -> CameraView {
    let horizontal = v3_scale(basis_u(setup), sat_mul(viewport_width(setup), setup.focus_dist));
    let vertical = v3_scale(basis_v(setup), sat_mul(viewport_height(setup), setup.focus_dist));
    let half = HALF_RAW as int;
    CameraView {
        origin: setup.lookfrom,
        lower_left_corner: v3_sub(
            v3_sub(v3_sub(setup.lookfrom, v3_scale(horizontal, half)), v3_scale(vertical, half)),
            v3_scale(basis_w(setup), setup.focus_dist),
        ),
        horizontal,
        vertical,
        u: basis_u(setup),
        v: basis_v(setup),
        w: basis_w(setup),
        lens_radius: sat_div(setup.aperture, 2 * ONE_RAW),
    }
}

/// Whether `setup` gives a basis: the camera is not where it looks, the up
/// hint is not zero, and the up hint does not point along the view.
pub open spec fn has_basis(setup: CameraSetup) -> bool {
    &&& v3_in_range(setup.lookfrom) && v3_in_range(setup.lookat) && v3_in_range(setup.vup)
    &&& max_magnitude(v3_sub(setup.lookfrom, setup.lookat)) > 0
    &&& max_magnitude(setup.vup) > 0
    &&& max_magnitude(v3_cross(v3_unit(setup.vup), basis_w(setup))) > 0
}

/// Whether the vector has length one, to within four raw units.
pub open spec fn has_unit_length(a: V3) -> bool {
    (ONE_RAW - 4) * (ONE_RAW - 4) <= dot_wide(a, a) <= (ONE_RAW + 1) * (ONE_RAW + 1)
}

/// The basis of a camera is orthonormal, to within roundings: `w` and `u`
/// have length one to within four raw units; the exact dot products of `v`
/// with `w` and with `u` are at most one rounding step for each unit of
/// their components; that of `u` with `w` is at most that much, once more
/// for the cross product of the up hint with `w`, divided by the length of
/// that cross product; and the square of the length of `v` is the product
/// of those of `w` and `u` less the square of their dot product, to within
/// two rounding steps for each unit of the components of `v`. For an up
/// hint at a right angle to the view the dot product of `u` with `w` is at
/// most seven steps of `2^-32`, whatever the length of the hint.
pub proof fn lemma_camera_basis(setup: CameraSetup)
    requires
        has_basis(setup),
    ensures
        ({
            let w = basis_w(setup);
            let u = basis_u(setup);
            let v = basis_v(setup);
            let across = v3_cross(v3_unit(setup.vup), w);
            &&& has_unit_length(w)
            &&& has_unit_length(u)
            &&& magnitude(dot_wide(u, w)) * unit_length(across) <= (unit_scale(across) * ONE_RAW
                + unit_length(across)) * taxicab(w)
            &&& magnitude(dot_wide(v, w)) <= taxicab(w)
            &&& magnitude(dot_wide(v, u)) <= taxicab(u)
            &&& magnitude((ONE_RAW * ONE_RAW) * dot_wide(v, v) - (dot_wide(w, w) * dot_wide(u, u)
                - dot_wide(w, u) * dot_wide(w, u))) <= (2 * ONE_RAW) * (ONE_RAW * taxicab(v)) + 3
                * (ONE_RAW * ONE_RAW)
        }),
{
    let toward = v3_sub(setup.lookfrom, setup.lookat);
    let w = basis_w(setup);
    let up = v3_unit(setup.vup);
    let across = v3_cross(up, w);
    let u = basis_u(setup);
    lemma_unit_vector_length(toward);
    lemma_unit_components(toward);
    lemma_unit_components(setup.vup);
    lemma_cross_wide_perpendicular(up, w);
    lemma_cross_nearly_perpendicular(up, w, w);
    lemma_unit_vector_length(across);
    lemma_unit_components(across);
    lemma_unit_keeps_right_angle(across, w, taxicab(w));
    assert((unit_scale(across) * ONE_RAW + unit_length(across)) * taxicab(w) == (unit_scale(across)
        * ONE_RAW) * taxicab(w) + unit_length(across) * taxicab(w)) by (nonlinear_arith);
    lemma_cross_wide_perpendicular(w, u);
    lemma_cross_nearly_perpendicular(w, u, w);
    lemma_cross_nearly_perpendicular(w, u, u);
    lemma_cross_length(w, u);
}

/// The offset of a ray's origin on the lens, for the point `disk` of the
/// unit disk.
pub open spec fn lens_offset(camera: CameraView, disk: V3) -> V3 {
    let rd = v3_scale(disk, camera.lens_radius);
    v3_add(v3_scale(camera.u, rd.x), v3_scale(camera.v, rd.y))
}

/// The ray through the point `(s, t)` of the viewport, from the point of
/// the lens that `disk` gives.
pub open spec fn camera_ray(camera: CameraView, s: int, t: int, disk: V3) -> RayView {
    let offset = lens_offset(camera, disk);
    RayView {
        origin: v3_add(camera.origin, offset),
        direction: v3_sub(
            v3_sub(
                v3_add(
                    v3_add(camera.lower_left_corner, v3_scale(camera.horizontal, s)),
                    v3_scale(camera.vertical, t),
                ),
                camera.origin,
            ),
            offset,
        ),
    }
}

/// A camera with a thin lens.
#[derive(Clone, Copy, Debug)]
pub struct Camera {
    pub origin: Point3,
    pub lower_left_corner: Point3,
    pub horizontal: Vec3,
    pub vertical: Vec3,
    pub u: Vec3,
    pub v: Vec3,
    pub w: Vec3,
    pub lens_radius: Fixed,
}

impl View for Camera {
    type V = CameraView;

    open spec fn view(&self) -> CameraView {
        CameraView {
            origin: self.origin@,
            lower_left_corner: self.lower_left_corner@,
            horizontal: self.horizontal@,
            vertical: self.vertical@,
            u: self.u@,
            v: self.v@,
            w: self.w@,
            lens_radius: self.lens_radius@,
        }
    }
}

impl Camera {
    /// The camera at `lookfrom` that looks at `lookat`, with `vup` upward.
    /// `half_height` is the tangent of half the vertical field of view,
    /// `aspect_ratio` the width of the image by its height, `aperture` the
    /// diameter of the lens, and `focus_dist` the distance of the plane that
    /// is in focus.
    pub fn new(
        lookfrom: Point3,
        lookat: Point3,
        vup: Vec3,
        half_height: Fixed,
        aspect_ratio: Fixed,
        aperture: Fixed,
        focus_dist: Fixed,
    ) -> (r: Self)
        ensures
            r@ == camera_of(
                CameraSetup {
                    lookfrom: lookfrom@,
                    lookat: lookat@,
                    vup: vup@,
                    half_height: half_height@,
                    aspect_ratio: aspect_ratio@,
                    aperture: aperture@,
                    focus_dist: focus_dist@,
                },
            ),
    {
        let two: Fixed = Fixed::from_int(2);
        let half: Fixed = Fixed::from_raw(HALF_RAW);
        let viewport_height: Fixed = two * half_height;
        let viewport_width: Fixed = aspect_ratio * viewport_height;
        let w: Vec3 = Vec3::unit_vector(lookfrom - lookat);
        let u: Vec3 = Vec3::unit_vector(Vec3::cross(&Vec3::unit_vector(vup), w));
        let v: Vec3 = Vec3::cross(&w, u);
        let origin: Point3 = lookfrom;
        let horizontal: Vec3 = u.multiply_coef(viewport_width * focus_dist);
        let vertical: Vec3 = v.multiply_coef(viewport_height * focus_dist);
        let lower_left_corner: Point3 = origin - horizontal.multiply_coef(half)
            - vertical.multiply_coef(half) - w.multiply_coef(focus_dist);
        let lens_radius: Fixed = aperture / two;
        Self { origin, lower_left_corner, horizontal, vertical, u, v, w, lens_radius }
    }

    /// The ray through the point `(s, t)` of the viewport, from the point of
    /// the lens that the point `disk` of the unit disk gives.
    pub fn get_ray_with(&self, s: Fixed, t: Fixed, disk: Vec3) -> (r: Ray)
        ensures
            r@ == camera_ray(self@, s@, t@, disk@),
    {
        let rd: Vec3 = disk.multiply_coef(self.lens_radius);
        let offset: Vec3 = self.u.multiply_coef(rd.x()) + self.v.multiply_coef(rd.y());
        Ray::new(
            self.origin + offset,
            self.lower_left_corner + self.horizontal.multiply_coef(s) + self.vertical.multiply_coef(
                t,
            ) - self.origin - offset,
        )
    }

    /// The ray through the point `(s, t)` of the viewport, from a random
    /// point of the lens.
    pub fn get_ray(&self, s: Fixed, t: Fixed) -> (r: Ray)
        ensures
            exists|disk: V3| is_disk_draw(disk) && r@ == camera_ray(self@, s@, t@, disk),
    {
        let disk: Vec3 = Vec3::random_in_unit_disk();
        self.get_ray_with(s, t, disk)
    }
}

} // verus!
