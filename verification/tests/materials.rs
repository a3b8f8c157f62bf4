use create_image::fixed::{Fixed, HALF_RAW, ONE_RAW};
use create_image::hittable::HitRecord;
use create_image::material::{Dielectric, Lambertian, Material, MaterialKind, Metal, Sample};
use create_image::ray::Ray;
use create_image::vec3::Vec3;

fn fx(x: f64) -> Fixed {
    Fixed::from_raw((x * 4294967296.0).round() as i64)
}

fn v(x: f64, y: f64, z: f64) -> Vec3 {
    Vec3::new(fx(x), fx(y), fx(z))
}

fn raw(x: i64, y: i64, z: i64) -> Vec3 {
    Vec3::new(Fixed::from_raw(x), Fixed::from_raw(y), Fixed::from_raw(z))
}

fn raws(a: Vec3) -> (i64, i64, i64) {
    (a.x().raw(), a.y().raw(), a.z().raw())
}

/// A hit at `p` with the stored normal `normal`.
fn hit_at(p: Vec3, normal: Vec3, front_face: bool) -> HitRecord {
    let mut h = HitRecord::new();
    h.p = p;
    h.normal = normal;
    h.front_face = front_face;
    h
}

fn floor_hit() -> HitRecord {
    hit_at(v(2.0, 0.0, 0.0), v(0.0, 1.0, 0.0), true)
}

fn wall_hit(front_face: bool) -> HitRecord {
    hit_at(v(0.0, 0.0, -0.5), v(0.0, 0.0, 1.0), front_face)
}

fn white() -> Vec3 {
    v(1.0, 1.0, 1.0)
}

#[test]
fn lambertian_scatters_along_normal_plus_unit_vector() {
    let m = Lambertian::new(v(0.1, 0.2, 0.5));
    assert_eq!(m.albedo, v(0.1, 0.2, 0.5));
    let (attenuation, out) = m.scatter_with(&wall_hit(true), v(1.0, 0.0, 0.0)).unwrap();
    assert_eq!(attenuation, v(0.1, 0.2, 0.5));
    assert_eq!(*out.origin(), v(0.0, 0.0, -0.5));
    assert_eq!(*out.direction(), v(1.0, 0.0, 1.0));
}

#[test]
fn lambertian_falls_back_to_the_normal_when_the_sum_vanishes() {
    let m = Lambertian::new(v(0.1, 0.2, 0.5));
    let (_, out) = m.scatter_with(&wall_hit(true), v(0.0, 0.0, -1.0)).unwrap();
    assert_eq!(*out.direction(), v(0.0, 0.0, 1.0));
    // 42 raw units count as zero, 43 do not.
    let (_, out) = m.scatter_with(&wall_hit(true), raw(10, -20, 42 - ONE_RAW)).unwrap();
    assert_eq!(*out.direction(), v(0.0, 0.0, 1.0));
    let (_, out) = m.scatter_with(&wall_hit(true), raw(43, 0, -ONE_RAW)).unwrap();
    assert_eq!(raws(*out.direction()), (43, 0, 0));
}

#[test]
fn lambertian_always_scatters() {
    let m = Lambertian::new(v(0.1, 0.2, 0.5));
    let incoming = Ray::new(Vec3::zero(), v(0.0, 0.0, -1.0));
    for _ in 0..300 {
        let (attenuation, out) = m.scatter(&incoming, &wall_hit(true)).unwrap();
        assert_eq!(attenuation, v(0.1, 0.2, 0.5));
        assert_eq!(*out.origin(), v(0.0, 0.0, -0.5));
        assert!(!out.direction().near_zero());
    }
}

#[test]
fn metal_fuzz_is_brought_between_zero_and_one() {
    assert_eq!(Metal::new(white(), fx(0.3)).fuzz, fx(0.3));
    assert_eq!(Metal::new(white(), fx(7.0)).fuzz, fx(1.0));
    assert_eq!(Metal::new(white(), fx(-0.3)).fuzz, fx(0.0));
    assert_eq!(Metal::new(white(), fx(1.0)).fuzz, fx(1.0));
    assert_eq!(Metal::new(white(), fx(0.0)).fuzz, fx(0.0));
    assert_eq!(Metal::new(v(0.8, 0.6, 0.2), fx(0.5)).albedo, v(0.8, 0.6, 0.2));
}

#[test]
fn metal_reflects_the_unit_direction() {
    let incoming = Ray::new(Vec3::zero(), v(1.0, -1.0, 0.0));
    let polished = Metal::new(v(0.8, 0.6, 0.2), fx(0.0));
    let (attenuation, out) = polished.scatter_with(&incoming, &floor_hit(), v(0.3, 0.2, 0.1)).unwrap();
    assert_eq!(attenuation, v(0.8, 0.6, 0.2));
    assert_eq!(*out.origin(), v(2.0, 0.0, 0.0));
    assert_eq!(raws(*out.direction()), (3037000499, 3037000499, 0));
    let rough = Metal::new(v(0.8, 0.6, 0.2), fx(1.0));
    let (_, out) = rough.scatter_with(&incoming, &floor_hit(), v(0.3, 0.2, 0.1)).unwrap();
    assert_eq!(raws(*out.direction()), (4325490688, 3895993958, 429496730));
    let between = Metal::new(v(0.8, 0.6, 0.2), Fixed::from_raw(HALF_RAW));
    let (_, out) = between.scatter_with(&incoming, &floor_hit(), v(0.0, -0.9, 0.1)).unwrap();
    assert_eq!(raws(*out.direction()), (3037000499, 1104265216, 214748365));
}

#[test]
fn metal_absorbs_what_points_into_the_surface() {
    let incoming = Ray::new(Vec3::zero(), v(1.0, -1.0, 0.0));
    let rough = Metal::new(v(0.8, 0.6, 0.2), fx(1.0));
    assert!(rough.scatter_with(&incoming, &floor_hit(), v(0.0, -0.9, 0.0)).is_none());
    // A ray along the surface is reflected along the surface: the dot
    // product is zero, which is not positive.
    let grazing = Ray::new(Vec3::zero(), v(1.0, 0.0, 0.0));
    assert!(rough.scatter_with(&grazing, &floor_hit(), Vec3::zero()).is_none());
    assert!(rough.scatter_with(&grazing, &floor_hit(), raw(0, 1, 0)).is_some());
}

#[test]
fn metal_scatters_exactly_when_the_fuzzed_reflection_leaves_the_surface() {
    let rough = Metal::new(v(0.8, 0.6, 0.2), fx(1.0));
    let h = floor_hit();
    let mut scattered = 0;
    let mut absorbed = 0;
    for _ in 0..400 {
        let incoming = Ray::new(Vec3::zero(), Vec3::random_vec3_in_range(fx(-1.0), fx(1.0)));
        let jitter = Vec3::random_in_unit_sphere();
        let reflected = Vec3::reflect(&Vec3::unit_vector(*incoming.direction()), &h.normal);
        let direction = reflected + jitter * rough.fuzz;
        let leaves = Vec3::dot(&direction, &h.normal).gt(Fixed::zero());
        match rough.scatter_with(&incoming, &h, jitter) {
            Some((attenuation, out)) => {
                assert!(leaves);
                assert_eq!(attenuation, rough.albedo);
                assert_eq!(*out.direction(), direction);
                assert_eq!(*out.origin(), h.p);
                scattered += 1;
            }
            None => {
                assert!(!leaves);
                absorbed += 1;
            }
        }
        if let Some((_, out)) = rough.scatter(&incoming, &h) {
            assert!(Vec3::dot(out.direction(), &h.normal).gt(Fixed::zero()));
        }
    }
    assert!(scattered > 0 && absorbed > 0);
}

#[test]
fn reflectance_follows_schlick() {
    assert_eq!(Dielectric::reflectance(fx(1.0), fx(1.5)).raw(), 171798691);
    assert_eq!(Dielectric::reflectance(fx(0.5), fx(1.5)).raw(), 300647709);
    assert_eq!(Dielectric::reflectance(fx(0.0), fx(1.5)).raw(), ONE_RAW);
    // Without a change of index nothing is reflected head-on.
    assert_eq!(Dielectric::reflectance(fx(1.0), fx(1.0)).raw(), 0);
}

#[test]
fn glass_refracts_or_reflects_by_the_draw() {
    let glass = Dielectric::new(fx(1.5));
    assert_eq!(glass.ir, fx(1.5));
    let head_on = Ray::new(Vec3::zero(), v(0.0, 0.0, -1.0));
    let (attenuation, out) = glass.scatter_with(&head_on, &wall_hit(true), fx(0.5)).unwrap();
    assert_eq!(attenuation, white());
    assert_eq!(*out.origin(), v(0.0, 0.0, -0.5));
    assert_eq!(*out.direction(), v(0.0, 0.0, -1.0));
    let (attenuation, out) = glass.scatter_with(&head_on, &wall_hit(true), fx(0.0)).unwrap();
    assert_eq!(attenuation, white());
    assert_eq!(*out.direction(), v(0.0, 0.0, 1.0));
    // The reflectance is 171798691 raw units: a draw of that much refracts,
    // one below it reflects.
    let (_, out) = glass.scatter_with(&head_on, &wall_hit(true), Fixed::from_raw(171798691)).unwrap();
    assert_eq!(*out.direction(), v(0.0, 0.0, -1.0));
    let (_, out) = glass.scatter_with(&head_on, &wall_hit(true), Fixed::from_raw(171798690)).unwrap();
    assert_eq!(*out.direction(), v(0.0, 0.0, 1.0));
}

#[test]
fn glass_bends_a_slanted_ray() {
    let glass = Dielectric::new(fx(1.5));
    let slanted = Ray::new(Vec3::zero(), v(1.0, 0.0, -1.0));
    let never = Fixed::from_raw(ONE_RAW - 1);
    let (_, out) = glass.scatter_with(&slanted, &wall_hit(true), never).unwrap();
    assert_eq!(raws(*out.direction()), (2024666998, 0, -3787805119));
    let (_, out) = glass.scatter_with(&slanted, &wall_hit(true), fx(0.0)).unwrap();
    assert_eq!(raws(*out.direction()), (3037000499, 0, 3037000499));
    // Leaving the glass, the ray bends away from the normal.
    let steep = Ray::new(Vec3::zero(), v(0.2, 0.0, -1.0));
    let (_, out) = glass.scatter_with(&steep, &wall_hit(false), never).unwrap();
    assert_eq!(raws(*out.direction()), (1263468579, 0, -4104922803));
}

#[test]
fn glass_reflects_all_beyond_the_critical_angle() {
    let glass = Dielectric::new(fx(1.5));
    let shallow = Ray::new(Vec3::zero(), v(1.0, 0.0, -0.1));
    for draw in [Fixed::from_raw(ONE_RAW - 1), fx(0.5), fx(0.0)] {
        let (attenuation, out) = glass.scatter_with(&shallow, &wall_hit(false), draw).unwrap();
        assert_eq!(attenuation, white());
        assert_eq!(raws(*out.direction()), (4273652190, 0, 427365219));
    }
}

#[test]
fn glass_always_scatters() {
    let glass = Dielectric::new(fx(1.5));
    for _ in 0..300 {
        let incoming = Ray::new(Vec3::zero(), Vec3::random_vec3_in_range(fx(-1.0), fx(1.0)));
        for front_face in [true, false] {
            let (attenuation, out) = glass.scatter(&incoming, &wall_hit(front_face)).unwrap();
            assert_eq!(attenuation, white());
            assert_eq!(*out.origin(), v(0.0, 0.0, -0.5));
        }
    }
}

#[test]
fn material_kind_scatters_as_the_material_it_holds() {
    let incoming = Ray::new(Vec3::zero(), v(1.0, -1.0, 0.0));
    let h = floor_hit();
    let sample = Sample { unit: v(0.0, 0.0, 1.0), jitter: v(0.3, 0.2, 0.1), draw: fx(0.5) };
    let diffuse = Lambertian::new(v(0.1, 0.2, 0.5));
    let metal = Metal::new(v(0.8, 0.6, 0.2), fx(1.0));
    let glass = Dielectric::new(fx(1.5));
    assert_eq!(
        MaterialKind::Lambertian(diffuse).scatter_with(&incoming, &h, &sample),
        diffuse.scatter_with(&h, sample.unit)
    );
    assert_eq!(
        MaterialKind::Metal(metal).scatter_with(&incoming, &h, &sample),
        metal.scatter_with(&incoming, &h, sample.jitter)
    );
    assert_eq!(
        MaterialKind::Dielectric(glass).scatter_with(&incoming, &h, &sample),
        glass.scatter_with(&incoming, &h, sample.draw)
    );
    let absorbing = Sample { unit: v(0.0, 0.0, 1.0), jitter: v(0.0, -0.9, 0.0), draw: fx(0.5) };
    assert!(MaterialKind::Metal(metal).scatter_with(&incoming, &h, &absorbing).is_none());
    for kind in [MaterialKind::Lambertian(diffuse), MaterialKind::Dielectric(glass)] {
        for _ in 0..50 {
            let (_, out) = kind.scatter(&incoming, &h).unwrap();
            assert_eq!(*out.origin(), h.p);
        }
    }
}
