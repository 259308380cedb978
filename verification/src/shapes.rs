//! The intersection protocol: the hit record every primitive returns,
//! and the capability traits a traversal layer relies on.

use vstd::prelude::*;
use crate::fixed::Scalar;
use crate::linalg::{vraws, Point3, Ray3, Vec3};
use crate::transform::Transform;

verus! {

/// The outcome of a hit test. `did_hit` is authoritative: when it is
/// false, `point` and `t` carry the sentinel values and must not be
/// consumed. The sentinel `t` is the infinity stand-in, so a caller
/// selecting the nearest hit can take a plain minimum over `t` after
/// checking `did_hit`.
#[derive(Clone, Copy, Debug, PartialEq, Eq, Structural)]
pub struct IntersectionInfo {
    pub did_hit: bool,
    pub point: Point3,
    pub t: Scalar,
}

impl IntersectionInfo {
    /// The record is the no-intersection sentinel.
    pub open spec fn is_no_intersection(self) -> bool {
        &&& self.did_hit == false
        &&& vraws(self.point) == (0int, 0int, 0int)
        &&& self.t.raw == i64::MAX
    }

    /// The no-intersection sentinel.
    pub fn no_intersection() -> (r: IntersectionInfo)
        ensures
            r.is_no_intersection(),
    {
        IntersectionInfo {
            did_hit: false,
            point: Vec3 { x: Scalar { raw: 0 }, y: Scalar { raw: 0 }, z: Scalar { raw: 0 } },
            t: Scalar { raw: i64::MAX },
        }
    }
}

impl Default for IntersectionInfo {
    /// The no-intersection sentinel.
    fn default() -> (r: IntersectionInfo)
        ensures
            r.is_no_intersection(),
    {
        IntersectionInfo::no_intersection()
    }
}

/// A primitive that can be hit-tested against a world-space ray.
pub trait Intersectable {
    /// The inputs on which the primitive's hit test is defined.
    spec fn intersect_ok(&self, ray: Ray3) -> bool;

    /// The record the hit test returns, so that callers through the
    /// trait still get the full result pinned down.
    spec fn intersect_spec(&self, ray: Ray3) -> IntersectionInfo;

    /// Hit-test against a world-space ray.
    fn intersect(&self, ray: &Ray3) -> (r: IntersectionInfo)
        requires
            self.intersect_ok(*ray),
        ensures
            r == self.intersect_spec(*ray),
    ;
}

/// A primitive that keeps track of a placement transform.
pub trait Transformable {
    /// The transform the implementor keeps.
    spec fn transform_of(&self) -> Transform;

    /// The primitive's placement in world space.
    fn get_transform(&self) -> (t: Transform)
        ensures
            t == self.transform_of(),
    ;
}

/// A primitive that supports both hit-testing and placement queries.
pub trait SurfaceLike: Intersectable + Transformable {

}

} // verus!
