//! Placement of shapes: a forward matrix paired with its inverse.

use vstd::prelude::*;
use crate::fixed::{in_mag, lemma_mul_raw_one, lemma_mul_raw_zero, Scalar, EPSILON};
use crate::linalg::{is_translation, tp_raw, tv_raw, vraws, Matrix4, Vec3};

verus! {

/// A placement: a forward matrix mapping local space to world space and
/// its inverse mapping back. The two are supplied together and the
/// caller is responsible for their consistency; the constructors here
/// build consistent pairs.
#[derive(Clone, Copy, Debug, PartialEq, Eq, Structural)]
pub struct Transform {
    pub forward: Matrix4,
    pub inverse: Matrix4,
}

impl Transform {
    /// Mapping the point `p` forward and then back through the inverse
    /// lands within the comparison tolerance of where it began.
    pub open spec fn point_round_trip_close(self, p: (int, int, int)) -> bool {
        let q = tp_raw(self.inverse, tp_raw(self.forward, p));
        in_mag(q.0 - p.0, (EPSILON - 1) as int) && in_mag(q.1 - p.1, (EPSILON - 1) as int)
            && in_mag(q.2 - p.2, (EPSILON - 1) as int)
    }

    /// Mapping the free vector `u` forward and back under the
    /// linear-only rule lands within the comparison tolerance.
    pub open spec fn vector_round_trip_close(self, u: (int, int, int)) -> bool {
        let w = tv_raw(self.inverse, tv_raw(self.forward, u));
        in_mag(w.0 - u.0, (EPSILON - 1) as int) && in_mag(w.1 - u.1, (EPSILON - 1) as int)
            && in_mag(w.2 - u.2, (EPSILON - 1) as int)
    }

    /// The pair's invariant: forward and inverse are consistent, that
    /// is, every point and every free vector survives the round trip
    /// within the comparison tolerance. The constructors here establish
    /// it; a pair given to `new` is the caller's responsibility.
    pub open spec fn consistent(self) -> bool {
        &&& forall|p: (int, int, int)| #[trigger] self.point_round_trip_close(p)
        &&& forall|u: (int, int, int)| #[trigger] self.vector_round_trip_close(u)
    }

    /// A transform from an explicit pair of matrices. The caller is
    /// responsible for the pair being consistent (see `consistent`).
    pub fn new(forward: Matrix4, inverse: Matrix4) -> (r: Transform)
        ensures
            r.forward == forward,
            r.inverse == inverse,
    {
        Transform { forward, inverse }
    }

    /// The identity placement.
    pub fn identity() -> (r: Transform)
        ensures
            r.forward == Matrix4::identity_spec(),
            r.inverse == Matrix4::identity_spec(),
            r.consistent(),
    {
        let t = Transform { forward: Matrix4::identity(), inverse: Matrix4::identity() };
        proof {
            assert(is_translation(t.forward, (0int, 0int, 0int)));
            assert(is_translation(t.inverse, (-0int, -0int, -0int)));
            assert forall|p: (int, int, int)| #[trigger] t.point_round_trip_close(p) by {
                lemma_translation_round_trip(t.forward, t.inverse, (0int, 0int, 0int), p);
            }
            assert forall|u: (int, int, int)| #[trigger] t.vector_round_trip_close(u) by {
                lemma_translation_ignores_vectors(t.forward, (0int, 0int, 0int), u);
                lemma_translation_ignores_vectors(t.inverse, (0int, 0int, 0int), u);
            }
        }
        t
    }

    /// A translation by `v`; the inverse translates back by `-v`.
    pub fn translation(v: &Vec3) -> (r: Transform)
        requires
            v.x.raw > i64::MIN,
            v.y.raw > i64::MIN,
            v.z.raw > i64::MIN,
        ensures
            is_translation(r.forward, vraws(*v)),
            is_translation(
                r.inverse,
                (-(v.x.raw as int), -(v.y.raw as int), -(v.z.raw as int)),
            ),
            r.consistent(),
    {
        let back = Vec3 {
            x: Scalar { raw: -v.x.raw },
            y: Scalar { raw: -v.y.raw },
            z: Scalar { raw: -v.z.raw },
        };
        let t = Transform { forward: Matrix4::translation(v), inverse: Matrix4::translation(&back) };
        proof {
            assert forall|p: (int, int, int)| #[trigger] t.point_round_trip_close(p) by {
                lemma_translation_round_trip(t.forward, t.inverse, vraws(*v), p);
            }
            assert forall|u: (int, int, int)| #[trigger] t.vector_round_trip_close(u) by {
                lemma_translation_ignores_vectors(t.forward, vraws(*v), u);
                lemma_translation_ignores_vectors(
                    t.inverse,
                    (-(v.x.raw as int), -(v.y.raw as int), -(v.z.raw as int)),
                    u,
                );
            }
        }
        t
    }
}

/// For any consistent transform, the round trip through the pair lands
/// within the comparison tolerance, for every point and every free
/// vector.
pub proof fn lemma_consistent_round_trip(t: Transform, p: (int, int, int), u: (int, int, int))
    requires
        t.consistent(),
    ensures
        t.point_round_trip_close(p),
        t.vector_round_trip_close(u),
{
}

/// Translating a point and then translating it back returns the point
/// exactly: the round trip through a translation pair loses nothing.
pub proof fn lemma_translation_round_trip(fwd: Matrix4, inv: Matrix4, t: (int, int, int), p: (
    int,
    int,
    int,
))
    requires
        is_translation(fwd, t),
        is_translation(inv, (-t.0, -t.1, -t.2)),
    ensures
        tp_raw(inv, tp_raw(fwd, p)) == p,
{
    lemma_mul_raw_one(p.0);
    lemma_mul_raw_one(p.1);
    lemma_mul_raw_one(p.2);
    lemma_mul_raw_zero(p.0);
    lemma_mul_raw_zero(p.1);
    lemma_mul_raw_zero(p.2);
    let q = tp_raw(fwd, p);
    lemma_mul_raw_one(q.0);
    lemma_mul_raw_one(q.1);
    lemma_mul_raw_one(q.2);
    lemma_mul_raw_zero(q.0);
    lemma_mul_raw_zero(q.1);
    lemma_mul_raw_zero(q.2);
}

/// The translation part of a transform does not act on free vectors:
/// under the linear-only rule a translation matrix leaves every vector
/// unchanged.
pub proof fn lemma_translation_ignores_vectors(m: Matrix4, t: (int, int, int), u: (int, int, int))
    requires
        is_translation(m, t),
    ensures
        tv_raw(m, u) == u,
{
    lemma_mul_raw_one(u.0);
    lemma_mul_raw_one(u.1);
    lemma_mul_raw_one(u.2);
    lemma_mul_raw_zero(u.0);
    lemma_mul_raw_zero(u.1);
    lemma_mul_raw_zero(u.2);
}

} // verus!
