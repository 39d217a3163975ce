//! The depth budget of a light path.
//!
//! A ray that hits a surface scatters, and the scattered ray is followed with
//! one unit less of depth and half the weight. A depth of zero ends the path
//! in black; a ray that hits nothing ends it in the sky's colour.

use vstd::prelude::*;

verus! {

/// What becomes of a ray.
#[derive(Clone, Copy, Debug, PartialEq, Eq, Structural)]
pub enum Shade {
    /// The depth budget is spent: the ray contributes black.
    Black,
    /// The ray hit a surface: follow one diffuse bounce with `depth` left and
    /// halve what it contributes.
    Scatter { depth: i16 },
    /// The ray left the scene: it contributes the background gradient.
    Sky,
}

/// The rule of one ray: black at depth zero whatever the ray meets, else a
/// bounce with one less depth on a hit and the sky on a miss.
pub open spec fn spec_ray_color(depth: int, hit: bool) -> Shade {
    if depth == 0 {
        Shade::Black
    } else if hit {
        Shade::Scatter { depth: (depth - 1) as i16 }
    } else {
        Shade::Sky
    }
}

/// A whole path that starts with `depth` and whose successive rays hit or
/// miss as `hits` says (a ray beyond the end of `hits` misses): the number of
/// bounces, and whether the path ends in black or in the sky.
pub open spec fn spec_path(depth: nat, hits: Seq<bool>) -> (nat, Shade)
    decreases depth,
{
    if depth == 0 {
        (0, Shade::Black)
    } else if hits.len() > 0 && hits[0] {
        let rest = spec_path((depth - 1) as nat, hits.drop_first());
        (rest.0 + 1, rest.1)
    } else {
        (0, Shade::Sky)
    }
}

/// Decides what becomes of a ray with `depth` left, given whether it hit a
/// surface. With `depth` zero the answer does not depend on `hit`, so the
/// caller need not have traced the ray. A negative depth is never spent: such
/// a path ends at its first miss only.
pub fn ray_color(depth: i16, hit: bool) -> (shade: Shade)
    requires
        hit ==> depth > i16::MIN,
    ensures
        shade == spec_ray_color(depth as int, hit),
{
    if depth == 0 {
        Shade::Black
    } else if hit {
        Shade::Scatter { depth: depth - 1 }
    } else {
        Shade::Sky
    }
}

/// A path never bounces more often than its depth allows. It bounces once
/// for each hit until the first miss or until the depth is spent, ends in
/// black exactly when the depth is spent, and in the sky otherwise.
pub proof fn lemma_path_within_budget(depth: nat, hits: Seq<bool>)
    ensures
        spec_path(depth, hits).0 <= depth,
        spec_path(depth, hits).0 <= hits.len(),
        forall|i: int| 0 <= i < spec_path(depth, hits).0 ==> hits[i],
        spec_path(depth, hits).1 == Shade::Black <==> spec_path(depth, hits).0 == depth,
        spec_path(depth, hits).1 == Shade::Sky <==> spec_path(depth, hits).0 < depth,
        spec_path(depth, hits).0 < depth && spec_path(depth, hits).0 < hits.len() ==> !hits[spec_path(
            depth,
            hits,
        ).0 as int],
    decreases depth,
{
    if depth > 0 && hits.len() > 0 && hits[0] {
        let tail = hits.drop_first();
        lemma_path_within_budget((depth - 1) as nat, tail);
        let n = spec_path((depth - 1) as nat, tail).0;
        assert forall|i: int| 0 <= i < n + 1 implies hits[i] by {
            if i > 0 {
                assert(hits[i] == tail[i - 1]);
            }
        }
        if n < depth - 1 && n + 1 < hits.len() {
            assert(hits[n as int + 1] == tail[n as int]);
        }
    }
}

} // verus!
