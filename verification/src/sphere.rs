//! The radius that a sphere may have, and which of the two intersections of
//! a ray with a sphere counts.
//!
//! A ray that meets a sphere meets it at a nearer and at a farther parameter.
//! The nearer one counts when it lies within the bounds that the caller asked
//! for; otherwise the farther one, when that lies within them. So a ray that
//! starts inside a sphere still finds the sphere's far side.

use vstd::prelude::*;
use crate::double::{at_most, is_number, scaled_value, spec_at_most};

verus! {

/// The radius that a sphere gets when `radius` is asked for: `radius` itself
/// where it is zero or more, and zero where it is less or not a number.
pub open spec fn spec_clamp_radius(radius: u64) -> u64 {
    if spec_at_most(0, radius) {
        radius
    } else {
        0
    }
}

/// Limits the radius of a sphere, a double-precision number given by its
/// bits, to zero from below. The result is a number and is not negative.
pub fn clamp_radius(radius: u64) -> (clamped: u64)
    ensures
        clamped == spec_clamp_radius(radius),
        is_number(clamped),
        scaled_value(clamped) >= 0,
{
    if at_most(0, radius) {
        radius
    } else {
        0
    }
}

/// One of the two intersections of a ray with a sphere.
#[derive(Clone, Copy, Debug, PartialEq, Eq, Structural)]
pub enum Root {
    /// The intersection with the smaller ray parameter.
    Near,
    /// The intersection with the larger ray parameter.
    Far,
}

/// Picks the intersection to report, given for each of the two whether its
/// parameter lies within the bounds: the nearer one if it does, else the
/// farther one if that does, else none.
pub fn choose_root(near_within: bool, far_within: bool) -> (root: Option<Root>)
    ensures
        near_within ==> root == Some(Root::Near),
        !near_within && far_within ==> root == Some(Root::Far),
        !near_within && !far_within ==> root is None,
{
    if near_within {
        Some(Root::Near)
    } else if far_within {
        Some(Root::Far)
    } else {
        None
    }
}

} // verus!
