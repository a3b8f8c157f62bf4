//! An offline Monte Carlo path tracer.
//!
//! A scene is a list of spheres with materials. A camera turns a place on
//! the image into a ray; the radiance estimator follows the ray from sphere
//! to sphere, scattering it by the material of each sphere it meets, until
//! it escapes into the sky, is absorbed, or has used up its depth; the
//! colours of many such rays are averaged into a pixel.
//!
//! All numbers are saturating fixed-point numbers ([`fixed::Fixed`]), so
//! every operation is total and is stated exactly over the integers. Each
//! function that draws from the random source has a companion, named with
//! `_with`, that takes what was drawn as arguments and is a function of
//! them.
use vstd::prelude::*;

pub mod camera;
pub mod color;
pub mod fixed;
pub mod hittable;
pub mod hittable_list;
pub mod image;
pub mod material;
pub mod ray;
pub mod render;
pub mod rtweekend;
pub mod scene;
pub mod sphere;
pub mod vec3;

verus! {

/// A point in space.
pub type Point3 = vec3::Vec3;

/// A colour: red, green and blue.
pub type Color3 = vec3::Vec3;

} // verus!
