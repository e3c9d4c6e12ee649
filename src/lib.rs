//! Decision logic of a stochastic ray tracer: which root of a sphere is hit,
//! whether a triangle is hit, which object is closest, how a material scatters,
//! when a traced path ends, and how a pixel's value is clamped and placed.
pub mod order;
pub mod intersect;
pub mod scatter;
pub mod integrator;
pub mod raster;
