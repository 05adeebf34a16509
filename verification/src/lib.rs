use vstd::prelude::*;

pub mod rat;
pub mod vec3;
pub mod ray;
pub mod aabb;
pub mod color;
pub mod texture;
pub mod material;
pub mod hittable;
pub mod sphere;
pub mod rect;
pub mod instances;
pub mod bvh;
pub mod rng;
pub mod utility;
pub mod pdf;
pub mod integrator;
pub mod volumes;
pub mod perlin;

verus! {

} // verus!
