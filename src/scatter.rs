//! The decisions that a material takes when a ray meets it.
use vstd::prelude::*;
use crate::order::{lt, less, ZERO_BITS, ONE_BITS};

verus! {

/// A metal surface keeps the ray only where the reflected direction leaves the
/// surface: `reflected · normal > 0`. Otherwise the ray is absorbed.
pub fn metal_scatters(reflected_dot_normal: u64) -> (r: bool)
    ensures
        r == lt(ZERO_BITS, reflected_dot_normal),
{
    less(ZERO_BITS, reflected_dot_normal)
}

/// On which side of a dielectric's boundary a ray arrives.
#[derive(Clone, Copy, Debug, PartialEq, Eq, Structural)]
pub enum Side {
    /// The ray comes from outside: the outward normal is the surface normal and
    /// the index ratio is `1 / refraction_index`.
    Entering,
    /// The ray leaves the medium: the outward normal is the negated surface
    /// normal and the index ratio is `refraction_index`.
    Exiting,
}

/// A ray exits the medium when `direction · normal > 0`.
pub fn dielectric_side(direction_dot_normal: u64) -> (r: Side)
    ensures
        r == (if lt(ZERO_BITS, direction_dot_normal) { Side::Exiting } else { Side::Entering }),
{
    if less(ZERO_BITS, direction_dot_normal) {
        Side::Exiting
    } else {
        Side::Entering
    }
}

/// Refraction is possible only where its discriminant
/// `1 - n^2 (1 - dt^2)` is positive; otherwise the ray is totally reflected.
pub fn refraction_possible(discriminant: u64) -> (r: bool)
    ensures
        r == lt(ZERO_BITS, discriminant),
{
    less(ZERO_BITS, discriminant)
}

/// Whether a dielectric reflects: always when refraction is impossible, and
/// otherwise when the uniform draw in `[0, 1)` falls below the Schlick
/// reflectance.
pub fn dielectric_reflects(refracts: bool, draw: u64, reflectance: u64) -> (r: bool)
    ensures
        r == (!refracts || lt(draw, reflectance)),
{
    !refracts || less(draw, reflectance)
}

/// Rejection sampling keeps a point drawn from the cube `[-1, 1)^3` only when
/// it lies strictly inside the unit ball: `|p|^2 < 1`.
pub fn inside_unit_ball(length_squared: u64) -> (r: bool)
    ensures
        r == lt(length_squared, ONE_BITS),
{
    less(length_squared, ONE_BITS)
}

/// A direction sampled on the sphere is kept as it is when it points into the
/// normal's hemisphere (`p · normal > 0`) and is negated otherwise.
pub fn in_normal_hemisphere(p_dot_normal: u64) -> (r: bool)
    ensures
        r == lt(ZERO_BITS, p_dot_normal),
{
    less(ZERO_BITS, p_dot_normal)
}

} // verus!
