//! Rays: an origin and a direction.

use vstd::prelude::*;

verus! {

/// Three double-precision components, each given by its bits.
pub type Triple = (u64, u64, u64);

/// A ray from `origin` along `direction`. The direction need not have unit
/// length.
#[derive(Clone, Copy, Debug)]
pub struct Ray {
    origin: Triple,
    direction: Triple,
}

impl Ray {
    /// The point that the ray starts from.
    pub closed spec fn spec_origin(&self) -> Triple {
        self.origin
    }

    /// The direction that the ray takes.
    pub closed spec fn spec_direction(&self) -> Triple {
        self.direction
    }

    /// The ray from `origin` along `direction`.
    pub fn new(origin: Triple, direction: Triple) -> (ray: Ray)
        ensures
            ray.spec_origin() == origin,
            ray.spec_direction() == direction,
    {
        Ray { origin, direction }
    }

    /// The point that the ray starts from.
    pub fn origin(&self) -> (origin: &Triple)
        ensures
            *origin == self.spec_origin(),
    {
        &self.origin
    }

    /// The direction that the ray takes.
    pub fn direction(&self) -> (direction: &Triple)
        ensures
            *direction == self.spec_direction(),
    {
        &self.direction
    }
}

} // verus!
