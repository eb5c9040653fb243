pub mod fixed;
pub mod rng;
pub mod vec3;
pub mod ray;
pub mod interval;
pub mod hittable;
pub mod sphere;
pub mod hittable_list;
pub mod color;
pub mod camera;
