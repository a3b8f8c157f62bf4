use create_image::camera::Camera;
use create_image::fixed::{Fixed, HALF_RAW, ONE_RAW};
use create_image::render::image_coordinate;
use create_image::vec3::Vec3;

fn fx(x: f64) -> Fixed {
    Fixed::from_raw((x * 4294967296.0).round() as i64)
}

fn v(x: f64, y: f64, z: f64) -> Vec3 {
    Vec3::new(fx(x), fx(y), fx(z))
}

fn raws(a: Vec3) -> (i64, i64, i64) {
    (a.x().raw(), a.y().raw(), a.z().raw())
}

/// The camera at the origin that looks down the negative z axis, with a
/// field of view of ninety degrees and a pinhole.
fn plain_camera() -> Camera {
    Camera::new(
        v(0.0, 0.0, 0.0),
        v(0.0, 0.0, -1.0),
        v(0.0, 1.0, 0.0),
        fx(1.0),
        fx(16.0 / 9.0),
        fx(0.0),
        fx(1.0),
    )
}

/// The camera of the large scene: a field of view of twenty degrees, whose
/// half has the tangent 0.17632698, and a lens of diameter 0.1.
fn lens_camera() -> Camera {
    Camera::new(
        v(13.0, 2.0, 3.0),
        v(0.0, 0.0, 0.0),
        v(0.0, 1.0, 0.0),
        Fixed::from_raw(757318616),
        fx(1.5),
        fx(0.1),
        fx(10.0),
    )
}

#[test]
fn plain_camera_has_the_axes_as_its_basis() {
    let camera = plain_camera();
    assert_eq!(camera.origin, Vec3::zero());
    assert_eq!(camera.u, v(1.0, 0.0, 0.0));
    assert_eq!(camera.v, v(0.0, 1.0, 0.0));
    assert_eq!(camera.w, v(0.0, 0.0, 1.0));
    assert_eq!(camera.lens_radius, Fixed::zero());
    assert_eq!(raws(camera.horizontal), (15270994830, 0, 0));
    assert_eq!(raws(camera.vertical), (0, 2 * ONE_RAW, 0));
    assert_eq!(raws(camera.lower_left_corner), (-7635497415, -ONE_RAW, -ONE_RAW));
}

#[test]
fn plain_camera_looks_through_the_viewport() {
    let camera = plain_camera();
    let half = Fixed::from_raw(HALF_RAW);
    let centre = camera.get_ray_with(half, half, Vec3::zero());
    assert_eq!(*centre.origin(), Vec3::zero());
    assert_eq!(*centre.direction(), v(0.0, 0.0, -1.0));
    let corner = camera.get_ray_with(Fixed::zero(), Fixed::zero(), Vec3::zero());
    assert_eq!(raws(*corner.direction()), (-7635497415, -ONE_RAW, -ONE_RAW));
    let opposite = camera.get_ray_with(Fixed::one(), Fixed::one(), Vec3::zero());
    assert_eq!(raws(*opposite.direction()), (7635497415, ONE_RAW, -ONE_RAW));
    // A pinhole has no lens to start from elsewhere.
    let offset = camera.get_ray_with(half, half, v(0.5, -0.25, 0.0));
    assert_eq!(offset, centre);
    for _ in 0..50 {
        assert_eq!(camera.get_ray(half, half), centre);
    }
}

#[test]
fn lens_camera_is_built_from_its_setup() {
    let camera = lens_camera();
    assert_eq!(camera.origin, v(13.0, 2.0, 3.0));
    assert_eq!(raws(camera.w), (4138734045, 636728314, 955092471));
    assert_eq!(raws(camera.u), (965764226, 0, -4184978319));
    assert_eq!(raws(camera.v), (-620422463, 4247507636, -143174414));
    assert_eq!(raws(camera.horizontal), (5108708704, 0, -22137737752));
    assert_eq!(raws(camera.vertical), (-2187944394, 14979003948, -504910243));
    assert_eq!(raws(camera.lower_left_corner), (12986852243, -5266850522, 14655301175));
    assert_eq!(camera.lens_radius.raw(), 214748365);
}

#[test]
fn lens_camera_starts_its_rays_on_the_lens() {
    let camera = lens_camera();
    let ray = camera.get_ray_with(fx(0.25), fx(0.75), v(0.5, -0.25, 0.0));
    assert_eq!(raws(*ray.origin()), (55866474233, 8536840747, 12782067111));
    assert_eq!(raws(*ray.direction()), (-43243403109, -2569438308, -4039883056));
    // Every ray through one point of the viewport aims at the same point
    // of the plane in focus.
    let through = camera.get_ray_with(fx(0.25), fx(0.75), Vec3::zero());
    let target = *through.origin() + *through.direction();
    let mut moved = false;
    for _ in 0..100 {
        let ray = camera.get_ray(fx(0.25), fx(0.75));
        let aim = *ray.origin() + *ray.direction();
        let (dx, dy, dz) = raws(aim - target);
        assert!(dx.abs() <= 4 && dy.abs() <= 4 && dz.abs() <= 4);
        let (ox, oy, oz) = raws(*ray.origin() - camera.origin);
        let reach = camera.lens_radius.raw() + 4;
        assert!(ox.abs() <= reach && oy.abs() <= reach && oz.abs() <= reach);
        moved = moved || *ray.origin() != camera.origin;
    }
    assert!(moved);
}

#[test]
fn camera_basis_is_orthonormal() {
    let camera = lens_camera();
    let slack = Fixed::from_raw(8);
    for (a, b) in [(camera.u, camera.v), (camera.v, camera.w), (camera.w, camera.u)] {
        assert!(Vec3::dot(&a, &b).abs().le(slack));
    }
    for a in [camera.u, camera.v, camera.w] {
        assert!((a.length() - Fixed::one()).abs().le(slack));
    }
}

#[test]
fn image_coordinate_divides_by_the_last_index() {
    assert_eq!(image_coordinate(0, Fixed::zero(), 400), Fixed::zero());
    assert_eq!(image_coordinate(399, Fixed::zero(), 400), Fixed::one());
    assert_eq!(image_coordinate(100, Fixed::zero(), 401), fx(0.25));
    assert_eq!(image_coordinate(100, Fixed::from_raw(HALF_RAW), 202).raw(), HALF_RAW);
    assert_eq!(image_coordinate(1, Fixed::from_raw(HALF_RAW), 4).raw(), HALF_RAW);
    assert_eq!(image_coordinate(7, Fixed::from_raw(ONE_RAW - 1), 4).raw(), 11453246122);
    // An image of one pixel has no last index to divide by.
    assert_eq!(image_coordinate(0, Fixed::zero(), 1), Fixed::zero());
    assert_eq!(image_coordinate(0, Fixed::from_raw(1), 1), Fixed::max_value());
    assert_eq!(image_coordinate(0, Fixed::from_raw(HALF_RAW), 0).raw(), -HALF_RAW);
}

#[test]
fn length_of_the_up_hint_does_not_matter() {
    let look = |vup: Vec3| {
        Camera::new(v(1.0, 1.0, 1.0), v(0.0, 0.0, 0.0), vup, fx(1.0), fx(1.5), fx(0.0), fx(1.0))
    };
    let plain = look(v(0.0, 1.0, 0.0));
    assert_eq!(raws(plain.w), (2479700524, 2479700524, 2479700524));
    assert_eq!(raws(plain.u), (3037000499, 0, -3037000499));
    assert_eq!(raws(plain.v), (-1753413055, 3506826110, -1753413055));
    for vup in [v(0.0, 0.001, 0.0), v(0.0, 1000.0, 0.0), Vec3::new(fx(0.0), Fixed::from_raw(1), fx(0.0))] {
        let camera = look(vup);
        assert_eq!(camera.u, plain.u);
        assert_eq!(camera.v, plain.v);
        assert_eq!(camera.w, plain.w);
    }
    // An up hint of one and two raw units.
    let tiny = look(Vec3::new(Fixed::from_raw(1), Fixed::from_raw(2), fx(0.0)));
    assert_eq!(raws(tiny.u), (3506826112, -1753413055, -1753413056));
    assert_eq!(raws(tiny.v), (0, 3037000499, -3037000498));
    for camera in [plain, tiny] {
        for (a, b) in [(camera.u, camera.v), (camera.v, camera.w), (camera.w, camera.u)] {
            assert!(Vec3::dot(&a, &b).abs().le(Fixed::from_raw(8)));
        }
        for a in [camera.u, camera.v, camera.w] {
            assert!((a.length() - Fixed::one()).abs().le(Fixed::from_raw(8)));
        }
    }
}

#[test]
fn camera_basis_is_within_the_stated_bounds() {
    let one = ONE_RAW as i128;
    let wide = |a: Vec3, b: Vec3| -> i128 {
        let (ax, ay, az) = raws(a);
        let (bx, by, bz) = raws(b);
        (ax as i128) * (bx as i128) + (ay as i128) * (by as i128) + (az as i128) * (bz as i128)
    };
    let taxicab = |a: Vec3| -> i128 {
        let (x, y, z) = raws(a);
        (x.abs() + y.abs() + z.abs()) as i128
    };
    let setups = [
        (v(13.0, 2.0, 3.0), v(0.0, 0.0, 0.0), v(0.0, 1.0, 0.0)),
        (v(1.0, 1.0, 1.0), v(0.0, 0.0, 0.0), Vec3::new(Fixed::from_raw(1), Fixed::from_raw(2), fx(0.0))),
        (v(-2.0, 2.0, 1.0), v(0.0, 0.0, -1.0), v(0.0, 0.001, 0.0)),
        (v(0.0, 0.0, 0.0), v(0.3, -5.0, 0.2), v(1000.0, 1.0, 1.0)),
        (v(0.0, 0.0, 0.0), v(0.0, 1.0, 0.001), v(0.0, 1.0, 0.0)),
    ];
    for (lookfrom, lookat, vup) in setups {
        let camera = Camera::new(lookfrom, lookat, vup, fx(0.5), fx(1.5), fx(0.1), fx(2.0));
        let (u, v, w) = (camera.u, camera.v, camera.w);
        let low = (one - 4) * (one - 4);
        let high = (one + 1) * (one + 1);
        for a in [u, w] {
            assert!(low <= wide(a, a) && wide(a, a) <= high);
        }
        let across = Vec3::cross(&Vec3::unit_vector(vup), w);
        let (scale, length) = across.fine_length();
        // Divided by the length to keep the numbers small.
        let bound = (scale * one / length as i128 + 2) * taxicab(w);
        assert!(wide(u, w).abs() <= bound, "{:?}", camera);
        assert!(wide(v, w).abs() <= taxicab(w));
        assert!(wide(v, u).abs() <= taxicab(u));
        let exact = (wide(w, w) as f64) * (wide(u, u) as f64) - (wide(w, u) as f64).powi(2);
        let rounded = (one as f64).powi(2) * wide(v, v) as f64;
        let slack = 2.0 * (one as f64).powi(2) * taxicab(v) as f64 + 3.0 * (one as f64).powi(2);
        assert!((rounded - exact).abs() <= slack * 1.000001);
    }
}
