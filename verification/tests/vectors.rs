use create_image::fixed::{Fixed, MAX_RAW, ONE_RAW};
use create_image::ray::Ray;
use create_image::vec3::Vec3;

fn fx(x: f64) -> Fixed {
    Fixed::from_raw((x * 4294967296.0).round() as i64)
}

fn v(x: f64, y: f64, z: f64) -> Vec3 {
    Vec3::new(fx(x), fx(y), fx(z))
}

fn raw(x: i64, y: i64, z: i64) -> Vec3 {
    Vec3::new(Fixed::from_raw(x), Fixed::from_raw(y), Fixed::from_raw(z))
}

fn raws(a: Vec3) -> (i64, i64, i64) {
    (a.x().raw(), a.y().raw(), a.z().raw())
}

/// The exact sum of the squares of the raw integers.
fn square_sum(a: Vec3) -> i128 {
    let (x, y, z) = raws(a);
    (x as i128) * (x as i128) + (y as i128) * (y as i128) + (z as i128) * (z as i128)
}

#[test]
fn components_are_kept() {
    let a = v(1.0, -2.0, 3.5);
    assert_eq!(a.x(), fx(1.0));
    assert_eq!(a.y(), fx(-2.0));
    assert_eq!(a.z(), fx(3.5));
    assert_eq!(raws(Vec3::zero()), (0, 0, 0));
}

#[test]
fn vector_arithmetic_is_component_wise() {
    let a = v(1.0, -2.0, 3.0);
    let b = v(0.5, 4.0, -2.0);
    assert_eq!(a + b, v(1.5, 2.0, 1.0));
    assert_eq!(a - b, v(0.5, -6.0, 5.0));
    assert_eq!(a * b, v(0.5, -8.0, -6.0));
    assert_eq!(a / b, v(2.0, -0.5, -1.5));
    assert_eq!(-a, v(-1.0, 2.0, -3.0));
    assert_eq!(a * fx(2.0), v(2.0, -4.0, 6.0));
    assert_eq!(a / fx(2.0), v(0.5, -1.0, 1.5));
    assert_eq!(a.multiply_coef(fx(-0.5)), v(-0.5, 1.0, -1.5));
    let mut c = a;
    c.add_assign(b);
    c.add_assign(b);
    assert_eq!(c, v(2.0, 6.0, -1.0));
}

#[test]
fn vector_arithmetic_saturates() {
    let big = raw(MAX_RAW, -MAX_RAW, 0);
    assert_eq!(big + big, big);
    assert_eq!(big - (-big), big);
    assert_eq!(big * v(2.0, 2.0, 2.0), big);
    assert_eq!(big / Fixed::zero(), big);
    assert_eq!(v(1.0, -1.0, 0.0) / Vec3::zero(), big);
}

#[test]
fn dot_product_is_rounded_once() {
    assert_eq!(Vec3::dot(&v(1.0, 2.0, 3.0), &v(4.0, 5.0, 6.0)), fx(32.0));
    assert_eq!(Vec3::dot(&v(1.0, 0.0, 0.0), &v(0.0, 1.0, 0.0)), fx(0.0));
    // Three products of half a raw unit each add up to one raw unit.
    let half = raw(1 << 31, 1 << 31, 1 << 31);
    assert_eq!(Vec3::dot(&raw(1, 1, 1), &half).raw(), 1);
    assert_eq!(Vec3::dot(&raw(-1, -1, -1), &half).raw(), -1);
    assert_eq!(Vec3::dot(&raw(1, 1, 0), &half).raw(), 1);
    assert_eq!(Vec3::dot(&raw(1, 0, 0), &half).raw(), 0);
    let big = raw(MAX_RAW, MAX_RAW, MAX_RAW);
    assert_eq!(Vec3::dot(&big, &big).raw(), MAX_RAW);
    assert_eq!(Vec3::dot(&big, &-big).raw(), -MAX_RAW);
}

#[test]
fn length_is_the_rounded_square_root() {
    assert_eq!(v(3.0, 4.0, 0.0).length(), fx(5.0));
    assert_eq!(v(3.0, 4.0, 0.0).length_squared(), fx(25.0));
    assert_eq!(v(1.0, 1.0, 1.0).length().raw(), 7439101573);
    assert_eq!(v(1.0, 1.0, 1.0).length_squared(), fx(3.0));
    assert_eq!(Vec3::zero().length().raw(), 0);
    assert_eq!(raw(3, 4, 0).length().raw(), 5);
    assert_eq!(raw(1, 1, 0).length().raw(), 1);
    assert_eq!(raw(MAX_RAW, MAX_RAW, MAX_RAW).length().raw(), MAX_RAW);
    assert_eq!(raw(MAX_RAW / 2, 0, 0).length().raw(), MAX_RAW / 2);
}

#[test]
fn cross_product_follows_the_right_hand() {
    assert_eq!(Vec3::cross(&v(1.0, 0.0, 0.0), v(0.0, 1.0, 0.0)), v(0.0, 0.0, 1.0));
    assert_eq!(Vec3::cross(&v(0.0, 1.0, 0.0), v(1.0, 0.0, 0.0)), v(0.0, 0.0, -1.0));
    assert_eq!(Vec3::cross(&v(1.0, 2.0, 3.0), v(4.0, 5.0, 6.0)), v(-3.0, 6.0, -3.0));
    assert_eq!(Vec3::cross(&v(1.0, 2.0, 3.0), v(2.0, 4.0, 6.0)), v(0.0, 0.0, 0.0));
}

#[test]
fn unit_vector_of_known_vectors() {
    assert_eq!(raws(Vec3::unit_vector(v(3.0, 4.0, 0.0))), (2576980377, 3435973836, 0));
    assert_eq!(raws(Vec3::unit_vector(v(0.0, 0.0, -7.0))), (0, 0, -ONE_RAW));
    assert_eq!(raws(Vec3::unit_vector(v(1.0, -1.0, 0.0))), (3037000499, -3037000499, 0));
    assert_eq!(raws(Vec3::unit_vector(raw(3, -4, 12))), (991146299, -1321528398, 3964585196));
    assert_eq!(raws(Vec3::unit_vector(raw(1, 1, 0))), (3037000499, 3037000499, 0));
    assert_eq!(raws(Vec3::unit_vector(raw(0, -1, 0))), (0, -ONE_RAW, 0));
    assert_eq!(raws(Vec3::unit_vector(raw(MAX_RAW, 0, 0))), (ONE_RAW, 0, 0));
}

#[test]
fn unit_vector_of_the_zero_vector_is_the_zero_vector() {
    assert_eq!(Vec3::unit_vector(Vec3::zero()), Vec3::zero());
}

#[test]
fn unit_vector_has_length_one() {
    let low = ((ONE_RAW - 4) as i128) * ((ONE_RAW - 4) as i128);
    let high = ((ONE_RAW + 1) as i128) * ((ONE_RAW + 1) as i128);
    let samples = [
        raw(1, 0, 0),
        raw(1, 1, 1),
        raw(-1, 2, -3),
        raw(1, 1_000_000_007, -5),
        raw(MAX_RAW, MAX_RAW, MAX_RAW),
        raw(-MAX_RAW, 1, MAX_RAW),
        raw(MAX_RAW, -1, 0),
        v(0.001, 0.002, -0.003),
        v(1000.0, -2000.0, 3000.0),
        v(13.0, 2.0, 3.0),
        v(1e-9, 1e-9, 1e-9),
        v(123456.789, -0.000001, 42.0),
    ];
    for a in samples {
        let u = Vec3::unit_vector(a);
        let s = square_sum(u);
        assert!(low <= s && s <= high, "{:?} -> {:?}", a, u);
        // Within one part in a thousand million of one.
        let length = (s as f64).sqrt() / 4294967296.0;
        assert!((length - 1.0).abs() <= 1e-9, "{:?} has length {}", u, length);
    }
    for _ in 0..500 {
        let a = Vec3::random_vec3_in_range(fx(-5.0), fx(5.0));
        if a != Vec3::zero() {
            let s = square_sum(Vec3::unit_vector(a));
            assert!(low <= s && s <= high);
        }
    }
}

#[test]
fn reflection_mirrors_on_the_surface() {
    assert_eq!(Vec3::reflect(&v(1.0, -1.0, 0.0), &v(0.0, 1.0, 0.0)), v(1.0, 1.0, 0.0));
    assert_eq!(Vec3::reflect(&v(0.0, 0.0, -2.0), &v(0.0, 0.0, 1.0)), v(0.0, 0.0, 2.0));
    assert_eq!(Vec3::reflect(&v(3.0, 4.0, 5.0), &v(1.0, 0.0, 0.0)), v(-3.0, 4.0, 5.0));
    // A vector along the surface stays as it is.
    assert_eq!(Vec3::reflect(&v(3.0, 0.0, -5.0), &v(0.0, 1.0, 0.0)), v(3.0, 0.0, -5.0));
    let unit = Vec3::unit_vector(v(1.0, -1.0, 0.0));
    assert_eq!(raws(Vec3::reflect(&unit, &v(0.0, 1.0, 0.0))), (3037000499, 3037000499, 0));
}

#[test]
fn reflection_negates_the_normal_part_and_keeps_the_tangent_part() {
    let one = ONE_RAW as i128;
    let wide = |a: Vec3, b: Vec3| -> i128 {
        let (ax, ay, az) = raws(a);
        let (bx, by, bz) = raws(b);
        (ax as i128) * (bx as i128) + (ay as i128) * (by as i128) + (az as i128) * (bz as i128)
    };
    let normal = Vec3::unit_vector(v(1.0, 2.0, -2.0));
    let defect = (wide(normal, normal) - one * one).abs();
    // Three tangents: at right angles to the normal, exactly.
    let (nx, ny, nz) = raws(normal);
    let tangents = [raw(ny, -nx, 0), raw(0, nz, -ny), raw(-nz, 0, nx)];
    for tangent in tangents {
        assert_eq!(wide(normal, tangent), 0);
    }
    let vectors = [v(0.3, -0.7, 0.2), v(5.0, 1.0, -9.0), v(-100.0, 250.0, 0.001), v(0.0, 0.0, 0.0)];
    for a in vectors {
        let r = Vec3::reflect(&a, &normal);
        let d = Vec3::dot(&a, &normal).raw().abs() as i128;
        let sum = (wide(r, normal) + wide(a, normal)).abs();
        let taxicab = (nx.abs() + ny.abs() + nz.abs()) as i128;
        assert!(sum * one <= 2 * one * one + one * taxicab + 2 * d * defect);
        for tangent in tangents {
            let (tx, ty, tz) = raws(tangent);
            let slack = (tx.abs() + ty.abs() + tz.abs()) as i128;
            assert!((wide(r, tangent) - wide(a, tangent)).abs() <= slack);
        }
    }
}

#[test]
fn refraction_bends_toward_the_normal() {
    let ratio = Fixed::one() / fx(1.5);
    assert_eq!(Vec3::refract(&v(0.0, 0.0, -1.0), &v(0.0, 0.0, 1.0), ratio), v(0.0, 0.0, -1.0));
    let slanted = Vec3::unit_vector(v(1.0, 0.0, -1.0));
    let bent = Vec3::refract(&slanted, &v(0.0, 0.0, 1.0), ratio);
    assert_eq!(raws(bent), (2024666998, 0, -3787805119));
    // With equal indices the ray goes straight on, up to rounding.
    let straight = Vec3::refract(&slanted, &v(0.0, 0.0, 1.0), Fixed::one());
    let (sx, sy, sz) = raws(straight);
    let (ux, uy, uz) = raws(slanted);
    assert!((sx - ux).abs() <= 2 && sy == uy && (sz - uz).abs() <= 70000);
}

#[test]
fn near_zero_is_below_a_hundred_millionth() {
    // 42 raw units are below 10^-8, 43 are not.
    assert!(raw(42, -42, 42).near_zero());
    assert!(raw(0, 0, 0).near_zero());
    assert!(!raw(43, 0, 0).near_zero());
    assert!(!raw(0, -43, 0).near_zero());
    assert!(!raw(0, 0, 43).near_zero());
    assert!(!v(1.0, 0.0, 0.0).near_zero());
    assert!(!raw(MAX_RAW, 0, 0).near_zero());
}

#[test]
fn random_vectors_lie_in_their_cube() {
    let mut seen = Vec::new();
    for _ in 0..200 {
        let a = Vec3::random_vec3();
        let (x, y, z) = raws(a);
        assert!(0 <= x && x < ONE_RAW && 0 <= y && y < ONE_RAW && 0 <= z && z < ONE_RAW);
        let b = Vec3::random_vec3_in_range(fx(-2.0), fx(-1.0));
        let (x, y, z) = raws(b);
        for c in [x, y, z] {
            assert!(fx(-2.0).raw() <= c && c < fx(-1.0).raw());
        }
        seen.push(a);
    }
    assert!(seen.iter().any(|a| *a != seen[0]));
    assert!(seen.iter().any(|a| a.x() != a.y()));
}

#[test]
fn random_points_lie_in_the_unit_sphere() {
    let mut off_axis = false;
    for _ in 0..500 {
        let p = Vec3::random_in_unit_sphere();
        assert!(p.in_unit_ball());
        assert!(p.length_squared().lt(Fixed::one()));
        assert!(square_sum(p) < ((ONE_RAW as i128) + 1) * (ONE_RAW as i128));
        off_axis = off_axis || (p.x().raw() != 0 && p.z().raw() != 0);
        let d = Vec3::random_in_unit_disk();
        assert!(d.in_unit_ball());
        assert_eq!(d.z().raw(), 0);
    }
    assert!(off_axis);
}

#[test]
fn random_directions_have_length_one() {
    let low = ((ONE_RAW - 4) as i128) * ((ONE_RAW - 4) as i128);
    let high = ((ONE_RAW + 1) as i128) * ((ONE_RAW + 1) as i128);
    for _ in 0..300 {
        let u = Vec3::random_unit_vector();
        let s = square_sum(u);
        assert!(u == Vec3::zero() || (low <= s && s <= high));
    }
}

#[test]
fn in_unit_ball_is_strict() {
    assert!(!v(1.0, 0.0, 0.0).in_unit_ball());
    assert!(raw(ONE_RAW - 1, 0, 0).in_unit_ball());
    assert!(v(0.5, 0.5, 0.5).in_unit_ball());
    assert!(!v(0.6, 0.6, 0.6).in_unit_ball());
}

#[test]
fn ray_points_are_origin_plus_multiples_of_the_direction() {
    let ray = Ray::new(v(1.0, 2.0, 3.0), v(0.5, -1.0, 0.0));
    assert_eq!(*ray.origin(), v(1.0, 2.0, 3.0));
    assert_eq!(*ray.direction(), v(0.5, -1.0, 0.0));
    assert_eq!(ray.at(fx(0.0)), v(1.0, 2.0, 3.0));
    assert_eq!(ray.at(fx(2.0)), v(2.0, 0.0, 3.0));
    assert_eq!(ray.at(fx(-4.0)), v(-1.0, 6.0, 3.0));
    assert_eq!(
        raws(ray.at(Fixed::max_value())),
        (MAX_RAW / 2 + ONE_RAW, 2 * ONE_RAW - MAX_RAW, 3 * ONE_RAW)
    );
    let far = Ray::new(v(1.0, -2.0, 3.0), v(4.0, -4.0, 0.0));
    assert_eq!(raws(far.at(Fixed::max_value())), (MAX_RAW, -MAX_RAW, 3 * ONE_RAW));
}

#[test]
fn first_candidate_inside_the_ball_is_taken() {
    let outside = v(0.9, 0.9, 0.9);
    let inside = v(0.1, -0.2, 0.3);
    let other = v(0.5, 0.0, 0.0);
    assert_eq!(Vec3::first_in_ball(&vec![inside, other]), inside);
    assert_eq!(Vec3::first_in_ball(&vec![outside, inside, other]), inside);
    assert_eq!(Vec3::first_in_ball(&vec![outside, outside, other, inside]), other);
    assert_eq!(Vec3::first_in_ball(&vec![outside, v(1.0, 0.0, 0.0)]), Vec3::zero());
    assert_eq!(Vec3::first_in_ball(&Vec::new()), Vec3::zero());
    assert_eq!(Vec3::first_in_ball(&vec![v(1.0, 0.0, 0.0), raw(ONE_RAW - 1, 0, 0)]), raw(ONE_RAW - 1, 0, 0));
}

#[test]
fn fine_length_knows_short_vectors() {
    assert_eq!(Vec3::zero().fine_length(), (1, 0));
    assert_eq!(raw(0, 0, -100000).fine_length(), (1 << 44, 100000 << 44));
    assert_eq!(raw(3, -4, 0).fine_length(), (1 << 58, 5 << 58));
    assert_eq!(raw(MAX_RAW, 0, 0).fine_length(), (1, MAX_RAW as u64));
    assert_eq!(v(1.0, 1.0, 1.0).fine_length(), (1 << 28, 1996918623117814387));
}
