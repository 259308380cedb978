//! A verified geometry kernel for a ray tracer: a vector/point algebra
//! layer, a parametric ray type, affine transforms, and a ray-sphere
//! intersection routine.
//!
//! Every quantity is a fixed-point scalar (a signed count of millionths),
//! so all of the arithmetic is exact integer arithmetic with truncation
//! toward zero, and every operation carries a contract that pins its
//! result down over that model.

pub mod fixed;
pub mod linalg;
pub mod shapes;
pub mod sphere;
pub mod transform;
