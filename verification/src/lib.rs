//! The core of a small path tracer for scenes of spheres: the records that
//! travel between a ray, a surface and its material, the search for the
//! nearest surface along a ray, the walk of a light path from bounce to
//! bounce, and the bookkeeping of an image that is rendered pixel by pixel in
//! shuffled order.
//!
//! The library is generic in its number type and never computes with it: it
//! carries numbers and vectors, and takes the outcome of each comparison as a
//! `bool`.
pub mod frame;
pub mod hit_table;
pub mod integrator;
pub mod material;
pub mod pixel;
pub mod random;
pub mod ray;
pub mod schedule;
pub mod sphere;
pub mod window;
pub mod world;

pub use hit_table::{HitRecord, HitTable, HitTableList};
pub use material::{Dielectric, Lambertian, Material, Metal};
pub use pixel::Pixel;
pub use ray::Ray;
pub use sphere::Sphere;
pub use window::IsWindow;
