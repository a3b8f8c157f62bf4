use create_image::camera::Camera;
use create_image::fixed::{Fixed, ONE_RAW};
use create_image::hittable_list::HittableList;
use create_image::material::{Dielectric, Lambertian, MaterialKind, Metal, Sample};
use create_image::ray::Ray;
use create_image::render::{
    pixel_color, pixel_color_with, ray_color, ray_color_with, sky_color, Pixel, PixelDraw,
};
use create_image::sphere::Sphere;
use create_image::vec3::Vec3;

fn fx(x: f64) -> Fixed {
    Fixed::from_raw((x * 4294967296.0).round() as i64)
}

fn v(x: f64, y: f64, z: f64) -> Vec3 {
    Vec3::new(fx(x), fx(y), fx(z))
}

fn raws(a: Vec3) -> (i64, i64, i64) {
    (a.x().raw(), a.y().raw(), a.z().raw())
}

fn black() -> Vec3 {
    Vec3::zero()
}

fn from_origin(x: f64, y: f64, z: f64) -> Ray {
    Ray::new(Vec3::zero(), v(x, y, z))
}

/// A small blue sphere in front of the camera, on a large yellow one.
fn two_spheres() -> HittableList {
    let mut world = HittableList::new();
    world.add(Sphere::new(
        v(0.0, -100.5, -1.0),
        fx(100.0),
        MaterialKind::Lambertian(Lambertian::new(v(0.8, 0.8, 0.0))),
    ));
    world.add(Sphere::new(
        v(0.0, 0.0, -1.0),
        fx(0.5),
        MaterialKind::Lambertian(Lambertian::new(v(0.1, 0.2, 0.5))),
    ));
    world
}

fn sample(unit: Vec3) -> Sample {
    Sample { unit, jitter: Vec3::zero(), draw: Fixed::zero() }
}

fn three_samples() -> Vec<Sample> {
    vec![sample(v(0.0, 1.0, 0.0)), sample(v(1.0, 0.0, 0.0)), sample(v(0.0, 0.0, 1.0))]
}

fn plain_camera() -> Camera {
    Camera::new(
        v(0.0, 0.0, 0.0),
        v(0.0, 0.0, -1.0),
        v(0.0, 1.0, 0.0),
        fx(1.0),
        fx(16.0 / 9.0),
        fx(0.0),
        fx(1.0),
    )
}

#[test]
fn sky_is_white_below_and_blue_above() {
    assert_eq!(raws(sky_color(&from_origin(0.0, 1.0, 0.0))), (2147483648, 3006477107, 4294967296));
    assert_eq!(sky_color(&from_origin(0.0, -1.0, 0.0)), v(1.0, 1.0, 1.0));
    assert_eq!(raws(sky_color(&from_origin(1.0, 0.0, 0.0))), (3221225472, 3650722201, 4294967296));
    assert_eq!(raws(sky_color(&from_origin(1.0, 2.0, -2.0))), (2505397589, 3221225471, 4294967296));
    // The length of the direction does not matter.
    assert_eq!(sky_color(&from_origin(0.0, 0.001, 0.0)), sky_color(&from_origin(0.0, 1000.0, 0.0)));
}

#[test]
fn ray_without_depth_is_black() {
    let world = two_spheres();
    let empty = HittableList::new();
    for depth in [0, -1, i32::MIN] {
        for ray in [from_origin(0.0, 0.0, -1.0), from_origin(0.0, 1.0, 0.0), from_origin(0.0, 0.0, 0.0)] {
            assert_eq!(ray_color(&ray, &world, depth), black());
            assert_eq!(ray_color(&ray, &empty, depth), black());
        }
    }
    for _ in 0..50 {
        let ray = Ray::new(
            Vec3::random_vec3_in_range(fx(-3.0), fx(3.0)),
            Vec3::random_vec3_in_range(fx(-3.0), fx(3.0)),
        );
        assert_eq!(ray_color(&ray, &world, 0), black());
        assert_eq!(ray_color_with(&ray, &world, &Vec::new()), black());
    }
}

#[test]
fn ray_that_meets_nothing_brings_the_sky() {
    let world = two_spheres();
    let up = from_origin(0.0, 1.0, -1.0);
    for depth in [1, 2, 50] {
        assert_eq!(ray_color(&up, &world, depth), sky_color(&up));
        assert_eq!(ray_color(&up, &HittableList::new(), depth), sky_color(&up));
    }
    assert_eq!(raws(ray_color(&up, &world, 1)), (2461975347, 3195172126, 4294967296));
    assert_eq!(ray_color_with(&up, &world, &three_samples()), sky_color(&up));
}

#[test]
fn radiance_follows_the_given_samples() {
    let world = two_spheres();
    let samples = three_samples();
    let ahead = from_origin(0.0, 0.0, -1.0);
    let down = from_origin(0.0, -1.0, -1.0);
    assert_eq!(ray_color_with(&ahead, &world, &samples[..0].to_vec()), black());
    // With one sample the scattered ray has no sample left.
    assert_eq!(ray_color_with(&ahead, &world, &samples[..1].to_vec()), black());
    assert_eq!(
        raws(ray_color_with(&ahead, &world, &samples[..2].to_vec())),
        (246197534, 639034425, 2147483648)
    );
    assert_eq!(
        raws(ray_color_with(&ahead, &world, &samples)),
        (246197534, 639034425, 2147483648)
    );
    assert_eq!(raws(ray_color_with(&down, &world, &samples)), (1717989589, 2405183288, 0));
}

#[test]
fn radiance_is_the_attenuated_radiance_of_the_scattered_ray() {
    let world = two_spheres();
    let ahead = from_origin(0.0, 0.0, -1.0);
    // The ray meets the small sphere at (0, 0, -0.5) and leaves along the
    // normal plus the unit vector of the sample, into the sky.
    let scattered = Ray::new(v(0.0, 0.0, -0.5), v(0.0, 1.0, 1.0));
    let expected = v(0.1, 0.2, 0.5) * sky_color(&scattered);
    assert_eq!(ray_color_with(&ahead, &world, &three_samples()), expected);
}

#[test]
fn same_samples_give_the_same_colour() {
    let world = two_spheres();
    for _ in 0..50 {
        let ray = Ray::new(Vec3::zero(), Vec3::random_vec3_in_range(fx(-1.0), fx(1.0)));
        let samples: Vec<Sample> = (0..5)
            .map(|_| Sample {
                unit: Vec3::random_unit_vector(),
                jitter: Vec3::random_in_unit_sphere(),
                draw: create_image::rtweekend::random(),
            })
            .collect();
        let first = ray_color_with(&ray, &world, &samples);
        let second = ray_color_with(&ray, &world, &samples);
        assert_eq!(first, second);
    }
}

#[test]
fn absorbed_ray_is_black() {
    let mut world = HittableList::new();
    world.add(Sphere::new(
        v(0.0, 0.0, -1.0),
        fx(0.5),
        MaterialKind::Metal(Metal::new(v(0.8, 0.6, 0.2), fx(1.0))),
    ));
    let ahead = from_origin(0.0, 0.0, -1.0);
    let into = Sample { unit: Vec3::zero(), jitter: v(0.0, 0.0, -0.999), draw: Fixed::zero() };
    let away = Sample { unit: Vec3::zero(), jitter: Vec3::zero(), draw: Fixed::zero() };
    assert_eq!(ray_color_with(&ahead, &world, &vec![away, away]), v(0.8, 0.6, 0.2) * sky_color(&from_origin(0.0, 0.0, 1.0)));
    // The reflection is (0, 0, 1); less 0.999 it still leaves the surface.
    assert_ne!(ray_color_with(&ahead, &world, &vec![into, away]), black());
    let deeper = Sample { unit: Vec3::zero(), jitter: v(0.0, 0.0, -1.0), draw: Fixed::zero() };
    assert_eq!(ray_color_with(&ahead, &world, &vec![deeper, away]), black());
}

#[test]
fn metal_mirrors_the_sky() {
    let mut world = HittableList::new();
    world.add(Sphere::new(
        v(0.0, 0.0, -1.0),
        fx(0.5),
        MaterialKind::Metal(Metal::new(v(0.8, 0.6, 0.2), fx(0.0))),
    ));
    let ray = from_origin(0.0, 0.3, -1.0);
    assert_eq!(raws(ray_color_with(&ray, &world, &three_samples())), (1886852544, 1879875795, 858993459));
    for _ in 0..20 {
        assert_eq!(raws(ray_color(&ray, &world, 50)), (1886852544, 1879875795, 858993459));
    }
}

#[test]
fn random_radiance_stays_within_the_light_of_the_sky() {
    let world = two_spheres();
    for _ in 0..200 {
        let ray = Ray::new(Vec3::zero(), Vec3::random_vec3_in_range(fx(-1.0), fx(1.0)));
        let (r, g, b) = raws(ray_color(&ray, &world, 50));
        for c in [r, g, b] {
            assert!(0 <= c && c <= ONE_RAW);
        }
    }
}

#[test]
fn pixel_sum_adds_the_samples() {
    let world = two_spheres();
    let camera = plain_camera();
    let pixel = Pixel { i: 200, j: 112, width: 401, height: 225 };
    let draw = |du: f64, dv: f64| PixelDraw {
        du: fx(du),
        dv: fx(dv),
        disk: Vec3::zero(),
        samples: three_samples(),
    };
    assert_eq!(pixel_color_with(&camera, &world, &pixel, &Vec::new()), black());
    // The middle of the image looks straight ahead.
    let one = pixel_color_with(&camera, &world, &pixel, &vec![draw(0.0, 0.0)]);
    assert_eq!(one, ray_color_with(&from_origin(0.0, 0.0, -1.0), &world, &three_samples()));
    assert_eq!(raws(one), (246197534, 639034425, 2147483648));
    let three = pixel_color_with(&camera, &world, &pixel, &vec![draw(0.0, 0.0), draw(0.0, 0.0), draw(0.0, 0.0)]);
    assert_eq!(raws(three), (3 * 246197534, 3 * 639034425, 3 * 2147483648));
    // The top row looks at the sky.
    let top = Pixel { i: 200, j: 224, width: 401, height: 225 };
    let sum = pixel_color_with(&camera, &world, &top, &vec![draw(0.0, 0.0), draw(0.5, 0.0)]);
    let first = camera.get_ray_with(fx(0.5), fx(1.0), Vec3::zero());
    let second = camera.get_ray_with(fx(200.5 / 400.0), fx(1.0), Vec3::zero());
    assert_eq!(*first.direction(), v(0.0, 1.0, -1.0));
    let near = sky_color(&first) + sky_color(&second);
    let (sr, sg, sb) = raws(sum);
    let (nr, ng, nb) = raws(near);
    assert!((sr - nr).abs() < 100 && (sg - ng).abs() < 100 && (sb - nb).abs() < 100);
}

#[test]
fn pixel_without_samples_is_black() {
    let world = two_spheres();
    let camera = plain_camera();
    let pixel = Pixel { i: 3, j: 4, width: 400, height: 225 };
    assert_eq!(pixel_color(&camera, &world, &pixel, 0, 50), black());
    assert_eq!(pixel_color(&camera, &world, &pixel, 10, 0), black());
    assert_ne!(pixel_color(&camera, &world, &pixel, 10, 50), black());
}

#[test]
fn glass_keeps_the_light() {
    let mut world = HittableList::new();
    world.add(Sphere::new(
        v(0.0, 0.0, -1.0),
        fx(0.5),
        MaterialKind::Dielectric(Dielectric::new(fx(1.5))),
    ));
    let never = Sample { unit: Vec3::zero(), jitter: Vec3::zero(), draw: Fixed::from_raw(ONE_RAW - 1) };
    let ahead = from_origin(0.0, 0.0, -1.0);
    // Straight through the middle: in, out, and on into the sky.
    assert_eq!(ray_color_with(&ahead, &world, &vec![never; 2]), black());
    assert_eq!(ray_color_with(&ahead, &world, &vec![never; 3]), sky_color(&ahead));
}

#[test]
fn scattered_ray_does_not_meet_the_surface_it_leaves() {
    let mut world = HittableList::new();
    world.add(Sphere::new(
        v(0.0, 0.0, -1.0),
        fx(0.5),
        MaterialKind::Lambertian(Lambertian::new(v(0.1, 0.2, 0.5))),
    ));
    // A ray that starts on the sphere and leaves it has a root at zero.
    let leaving = Ray::new(v(0.0, 0.0, -0.5), v(0.0, 0.0, 1.0));
    let at_start = world.is_hit(&leaving, Fixed::zero(), Fixed::max_value()).unwrap();
    assert_eq!(at_start.t, Fixed::zero());
    assert!(world.is_hit(&leaving, Fixed::from_ratio(1, 1000), Fixed::max_value()).is_none());
    assert_eq!(ray_color(&leaving, &world, 50), sky_color(&leaving));
    assert_eq!(ray_color_with(&leaving, &world, &three_samples()), sky_color(&leaving));
}

/// A small generator of numbers without any chance in it.
struct Stream(u64);

impl Stream {
    fn next(&mut self) -> u64 {
        self.0 = self.0.wrapping_mul(6364136223846793005).wrapping_add(1442695040888963407);
        self.0 >> 32
    }

    /// A number that is at least `low` and less than `low + 1`.
    fn number(&mut self, low: i64) -> Fixed {
        Fixed::from_raw(low * ONE_RAW + self.next() as i64)
    }

    fn point_in_ball(&mut self, flat: bool) -> Vec3 {
        loop {
            let x = if self.next() % 2 == 0 { self.number(0) } else { self.number(-1) };
            let y = if self.next() % 2 == 0 { self.number(0) } else { self.number(-1) };
            let z = if flat {
                Fixed::zero()
            } else if self.next() % 2 == 0 {
                self.number(0)
            } else {
                self.number(-1)
            };
            let p = Vec3::new(x, y, z);
            if p.in_unit_ball() {
                return p;
            }
        }
    }

    fn draw(&mut self, depth: usize) -> PixelDraw {
        PixelDraw {
            du: self.number(0),
            dv: self.number(0),
            disk: self.point_in_ball(true),
            samples: (0..depth)
                .map(|_| Sample {
                    unit: Vec3::unit_vector(self.point_in_ball(false)),
                    jitter: self.point_in_ball(false),
                    draw: self.number(0),
                })
                .collect(),
        }
    }
}

/// The text of a small image of a metal, a glass and a diffuse sphere,
/// rendered with the draws of the stream that starts at `seed`.
fn rendered(seed: u64) -> Vec<u8> {
    let mut world = two_spheres();
    world.add(Sphere::new(
        v(-1.0, 0.0, -1.0),
        fx(0.5),
        MaterialKind::Dielectric(Dielectric::new(fx(1.5))),
    ));
    world.add(Sphere::new(
        v(1.0, 0.0, -1.0),
        fx(0.5),
        MaterialKind::Metal(Metal::new(v(0.8, 0.6, 0.2), fx(0.3))),
    ));
    let camera = Camera::new(
        v(-2.0, 2.0, 1.0),
        v(0.0, 0.0, -1.0),
        v(0.0, 1.0, 0.0),
        fx(0.36),
        fx(1.5),
        fx(0.2),
        fx(3.4),
    );
    let mut stream = Stream(seed);
    let (width, height, samples) = (12u32, 8u32, 4u32);
    let mut out = create_image::color::ppm_header(width, height);
    for j in (0..height).rev() {
        for i in 0..width {
            let draws: Vec<PixelDraw> = (0..samples).map(|_| stream.draw(6)).collect();
            let sum = pixel_color_with(&camera, &world, &Pixel { i, j, width, height }, &draws);
            out.push(b'\n');
            out.extend(create_image::color::write_color(sum, samples));
        }
    }
    out
}

#[test]
fn same_stream_renders_the_same_bytes() {
    let first = rendered(2024);
    let second = rendered(2024);
    assert_eq!(first, second);
    assert!(first.starts_with(b"P3\n12 8\n255\n"));
    assert_eq!(first.iter().filter(|b| **b == b'\n').count(), 2 + 12 * 8);
    // Another stream gives another picture.
    assert_ne!(first, rendered(2025));
}
