pub mod fx;
pub mod vec3;
pub mod interval;
pub mod ray;
pub mod aabb;
pub mod hittable;
pub mod sphere;
pub mod quad;
pub mod hittable_list;
pub mod constant_medium;
pub mod bvh;
pub mod rng;
pub mod trig;
pub mod color;
pub mod perlin;
pub mod image;
pub mod texture;
pub mod material;
pub mod camera;
pub mod timer;

use vstd::prelude::*;

verus! {

} // verus!
