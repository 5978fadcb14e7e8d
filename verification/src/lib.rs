//! Core of an offline ray tracer: exact-arithmetic geometric primitives
//! (vector, axis-aligned box, ray, sphere), a bounding volume hierarchy
//! with a verified nearest-hit traversal, a work queue of pixel ranges for
//! multi-threaded rendering, and the supporting pieces (RNG, processor
//! topology filtering, render-pass bookkeeping).
//!
//! All geometry is carried by integer coordinates and exact rational ray
//! parameters, so every intersection predicate is a precise mathematical
//! statement rather than a floating-point approximation.

pub mod aabb;
pub mod bvh;
pub mod coverage;
pub mod parallel_renderer;
pub mod processors;
pub mod nearest;
pub mod ray;
pub mod rng;
pub mod scalar;
pub mod scene;
pub mod sphere;
pub mod stats;
pub mod threading;
pub mod vec3;

pub use aabb::AABB;
pub use ray::Ray;
pub use scalar::Scalar;
pub use scene::Scene;
pub use sphere::{HitRecord, MaterialHandle, Sphere};
pub use vec3::Vec3;
