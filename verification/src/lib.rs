//! Ray casting: where does a ray first strike a shape?
//!
//! The crate holds the intersection part of a ray tracer. A [`Ray`] is cast
//! against a shape, anything with the capability [`Hit`]; the answer is a
//! [`RayHit`], the record of the nearest strike within two bounds on the
//! distance, or none. [`Sphere`] is the one shape built in; [`Objects`] holds
//! many shapes and is a shape itself, so that one query finds the nearest hit of
//! a whole scene.
//!
//! Everything is generic over the scalar type, a [`Scalar`]: a number with the
//! arithmetic operators and the comparison of `core::ops` and `core::cmp`, a
//! zero and a square root. What a function returns is stated over the
//! specifications of those operations, so a contract holds for every scalar that
//! obeys them, and holds exactly.
//!
//! One such scalar is part of the crate: `i64`, with arithmetic that is defined
//! where it does not overflow, truncating division and the integer square root.
//! For it the modules go on to state what the contracts amount to over the
//! integers: that a point at distance `t` along a ray is that far away, that the
//! normal of a hit opposes the ray, that a sphere reports the nearer of its two
//! roots and a collection the nearest hit of all its shapes, and when a query is
//! sure to be defined.
//!
//! A scalar with rounding, such as a float behind a type of the caller's own,
//! takes part by implementing the operators and [`Scalar`]. It runs through the
//! same code; the contracts make no statement about it.

// Each module builds on those declared before it, and Verus proves the
// operators of `vec3` only where their users come later: keep this order.
pub mod arith;
pub mod scalar;
pub mod vec3;
pub mod ray;
pub mod sphere;
pub mod objects;

pub use objects::Objects;
pub use ray::{Hit, Point, Ray, RayHit};
pub use scalar::Scalar;
pub use sphere::Sphere;
pub use vec3::Vec3;
