//! The unit sphere, placed in the world by a transform, with its
//! ray-intersection routine solved in local space.

use vstd::prelude::*;
use crate::fixed::{
    div_raw, in_mag, isqrt_u128, lemma_is_sqrt_unique, lemma_mul_mag_bound,
    lemma_mul_raw_in_mag, lemma_sqrt_exists, lemma_tdiv_monotone, lemma_tdiv_quotient_mag,
    mul_raw, sqrt_raw, tdiv_i128, Scalar, COORD_LIMIT, SCALE,
};
use crate::linalg::{
    dot3, eval_comps, is_affine, mat_in_mag, tp_raw, tv_raw, vraws, Matrix4, Ray3, Vec3,
};
use crate::shapes::{Intersectable, IntersectionInfo, SurfaceLike, Transformable};
use crate::transform::Transform;

verus! {

/// Largest raw magnitude (a hundred units) accepted for ray components
/// and placement matrix entries by the intersection routine, chosen so
/// that the quadratic solve stays representable.
pub const PLACE_LIMIT: i64 = 100_000_000;

/// Raw components of the ray origin mapped into the sphere's local space.
pub open spec fn local_origin(s: Sphere, ray: Ray3) -> (int, int, int) {
    tp_raw(s.transform.inverse, vraws(ray.origin))
}

/// Raw components of the ray direction mapped into the sphere's local
/// space (linear part only).
pub open spec fn local_direction(s: Sphere, ray: Ray3) -> (int, int, int) {
    tv_raw(s.transform.inverse, vraws(ray.direction))
}

/// Leading coefficient of the local intersection quadratic: `|D|^2`.
pub open spec fn quad_a(s: Sphere, ray: Ray3) -> int {
    dot3(local_direction(s, ray), local_direction(s, ray))
}

/// Middle coefficient of the local intersection quadratic: `2 O.D`.
pub open spec fn quad_b(s: Sphere, ray: Ray3) -> int {
    2 * dot3(local_origin(s, ray), local_direction(s, ray))
}

/// Constant coefficient of the local intersection quadratic:
/// `|O|^2 - 1` (the sphere has unit radius in local space).
pub open spec fn quad_c(s: Sphere, ray: Ray3) -> int {
    dot3(local_origin(s, ray), local_origin(s, ray)) - SCALE
}

/// The discriminant `b^2 - 4ac`; its sign decides hit or miss.
pub open spec fn discriminant(s: Sphere, ray: Ray3) -> int {
    mul_raw(quad_b(s, ray), quad_b(s, ray)) - 4 * mul_raw(quad_a(s, ray), quad_c(s, ray))
}

/// The nearer root `(-b - sqrt(disc)) / 2a` of the quadratic.
pub open spec fn near_root(s: Sphere, ray: Ray3) -> int {
    div_raw(-quad_b(s, ray) - sqrt_raw(discriminant(s, ray)), 2 * quad_a(s, ray))
}

/// The farther root `(-b + sqrt(disc)) / 2a` of the quadratic.
pub open spec fn far_root(s: Sphere, ray: Ray3) -> int {
    div_raw(-quad_b(s, ray) + sqrt_raw(discriminant(s, ray)), 2 * quad_a(s, ray))
}

/// A root is accepted when it lies strictly inside the ray's interval
/// and the root and its local hit point stay within the coordinate
/// limit.
pub open spec fn root_ok(min_t: int, max_t: int, lo: (int, int, int), ld: (int, int, int), t: int)
    -> bool {
    &&& min_t < t < max_t
    &&& in_mag(t, COORD_LIMIT as int)
    &&& in_mag(eval_comps(lo, ld, t).0, COORD_LIMIT as int)
    &&& in_mag(eval_comps(lo, ld, t).1, COORD_LIMIT as int)
    &&& in_mag(eval_comps(lo, ld, t).2, COORD_LIMIT as int)
}

/// Whether the given root of the quadratic is accepted for this ray.
pub open spec fn root_accepted(s: Sphere, ray: Ray3, t: int) -> bool {
    root_ok(ray.min_t.raw as int, ray.max_t.raw as int, local_origin(s, ray), local_direction(s, ray), t)
}

/// The ray hits the sphere: the direction is not degenerate, the
/// discriminant is nonnegative, and an in-range root exists. When both
/// roots are in range the nearer one is reported.
pub open spec fn does_hit(s: Sphere, ray: Ray3) -> bool {
    &&& quad_a(s, ray) > 0
    &&& discriminant(s, ray) >= 0
    &&& (root_accepted(s, ray, near_root(s, ray)) || root_accepted(s, ray, far_root(s, ray)))
}

/// The reported ray parameter: the nearer accepted root.
pub open spec fn hit_param(s: Sphere, ray: Ray3) -> int {
    if root_accepted(s, ray, near_root(s, ray)) {
        near_root(s, ray)
    } else {
        far_root(s, ray)
    }
}

/// Raw components of the world-space hit point: the local hit point
/// mapped back through the forward transform.
pub open spec fn hit_point(s: Sphere, ray: Ray3) -> (int, int, int) {
    tp_raw(
        s.transform.forward,
        eval_comps(local_origin(s, ray), local_direction(s, ray), hit_param(s, ray)),
    )
}

/// Every component of the ray lies within the placement limit.
pub open spec fn ray_in_place(ray: Ray3) -> bool {
    &&& in_mag(ray.origin.x.raw as int, PLACE_LIMIT as int)
    &&& in_mag(ray.origin.y.raw as int, PLACE_LIMIT as int)
    &&& in_mag(ray.origin.z.raw as int, PLACE_LIMIT as int)
    &&& in_mag(ray.direction.x.raw as int, PLACE_LIMIT as int)
    &&& in_mag(ray.direction.y.raw as int, PLACE_LIMIT as int)
    &&& in_mag(ray.direction.z.raw as int, PLACE_LIMIT as int)
}

/// A unit sphere in local space, placed in the world by its transform.
#[derive(Clone, Copy, Debug, PartialEq, Eq, Structural)]
pub struct Sphere {
    pub transform: Transform,
}

/// The affine action of a matrix on placement-bounded inputs stays
/// within forty times the placement limit, component by component.
proof fn lemma_local_bounds(m: Matrix4, p: (int, int, int))
    requires
        mat_in_mag(m, PLACE_LIMIT as int),
        in_mag(p.0, PLACE_LIMIT as int),
        in_mag(p.1, PLACE_LIMIT as int),
        in_mag(p.2, PLACE_LIMIT as int),
    ensures
        in_mag(tp_raw(m, p).0, 40_000_000_000int),
        in_mag(tp_raw(m, p).1, 40_000_000_000int),
        in_mag(tp_raw(m, p).2, 40_000_000_000int),
        in_mag(tv_raw(m, p).0, 40_000_000_000int),
        in_mag(tv_raw(m, p).1, 40_000_000_000int),
        in_mag(tv_raw(m, p).2, 40_000_000_000int),
{
    let b = PLACE_LIMIT as int;
    lemma_mul_raw_in_mag(m.m00.raw as int, p.0, b, b);
    lemma_mul_raw_in_mag(m.m01.raw as int, p.1, b, b);
    lemma_mul_raw_in_mag(m.m02.raw as int, p.2, b, b);
    lemma_mul_raw_in_mag(m.m10.raw as int, p.0, b, b);
    lemma_mul_raw_in_mag(m.m11.raw as int, p.1, b, b);
    lemma_mul_raw_in_mag(m.m12.raw as int, p.2, b, b);
    lemma_mul_raw_in_mag(m.m20.raw as int, p.0, b, b);
    lemma_mul_raw_in_mag(m.m21.raw as int, p.1, b, b);
    lemma_mul_raw_in_mag(m.m22.raw as int, p.2, b, b);
}

/// Fixed-point dot product on wide integers, for the local-space
/// quadratic.
fn dot_wide(ax: i128, ay: i128, az: i128, bx: i128, by: i128, bz: i128) -> (r: i128)
    requires
        in_mag(ax as int, 40_000_000_000int),
        in_mag(ay as int, 40_000_000_000int),
        in_mag(az as int, 40_000_000_000int),
        in_mag(bx as int, 40_000_000_000int),
        in_mag(by as int, 40_000_000_000int),
        in_mag(bz as int, 40_000_000_000int),
    ensures
        r as int == dot3((ax as int, ay as int, az as int), (bx as int, by as int, bz as int)),
        in_mag(r as int, 4_800_000_000_000_000int),
{
    proof {
        lemma_mul_mag_bound(ax as int, bx as int, 40_000_000_000int, 40_000_000_000int);
        lemma_mul_mag_bound(ay as int, by as int, 40_000_000_000int, 40_000_000_000int);
        lemma_mul_mag_bound(az as int, bz as int, 40_000_000_000int, 40_000_000_000int);
        lemma_tdiv_quotient_mag(
            (ax as int) * (bx as int),
            SCALE as int,
            1_600_000_000_000_000_000_000int,
        );
        lemma_tdiv_quotient_mag(
            (ay as int) * (by as int),
            SCALE as int,
            1_600_000_000_000_000_000_000int,
        );
        lemma_tdiv_quotient_mag(
            (az as int) * (bz as int),
            SCALE as int,
            1_600_000_000_000_000_000_000int,
        );
    }
    let px: i128 = tdiv_i128(ax * bx, SCALE as i128);
    let py: i128 = tdiv_i128(ay * by, SCALE as i128);
    let pz: i128 = tdiv_i128(az * bz, SCALE as i128);
    px + py + pz
}

/// Test one root of the quadratic: range check, size guards, and the
/// local hit point; yields the root and local hit point when accepted.
fn check_root(
    min_t: i64,
    max_t: i64,
    lox: i128,
    loy: i128,
    loz: i128,
    ldx: i128,
    ldy: i128,
    ldz: i128,
    t: i128,
) -> (r: Option<(i64, i64, i64, i64)>)
    requires
        in_mag(lox as int, 40_000_000_000int),
        in_mag(loy as int, 40_000_000_000int),
        in_mag(loz as int, 40_000_000_000int),
        in_mag(ldx as int, 40_000_000_000int),
        in_mag(ldy as int, 40_000_000_000int),
        in_mag(ldz as int, 40_000_000_000int),
    ensures
        r.is_some() == root_ok(
            min_t as int,
            max_t as int,
            (lox as int, loy as int, loz as int),
            (ldx as int, ldy as int, ldz as int),
            t as int,
        ),
        r matches Some(v) ==> v.0 as int == t as int && (v.1 as int, v.2 as int, v.3 as int)
            == eval_comps(
            (lox as int, loy as int, loz as int),
            (ldx as int, ldy as int, ldz as int),
            t as int,
        ),
{
    if t <= min_t as i128 || t >= max_t as i128 {
        return None;
    }
    let lim: i128 = COORD_LIMIT as i128;
    if t < -lim || t > lim {
        return None;
    }
    proof {
        lemma_mul_mag_bound(t as int, ldx as int, COORD_LIMIT as int, 40_000_000_000int);
        lemma_mul_mag_bound(t as int, ldy as int, COORD_LIMIT as int, 40_000_000_000int);
        lemma_mul_mag_bound(t as int, ldz as int, COORD_LIMIT as int, 40_000_000_000int);
        lemma_tdiv_quotient_mag(
            (t as int) * (ldx as int),
            SCALE as int,
            40_000_000_000_000_000_000_000int,
        );
        lemma_tdiv_quotient_mag(
            (t as int) * (ldy as int),
            SCALE as int,
            40_000_000_000_000_000_000_000int,
        );
        lemma_tdiv_quotient_mag(
            (t as int) * (ldz as int),
            SCALE as int,
            40_000_000_000_000_000_000_000int,
        );
    }
    let hx: i128 = lox + tdiv_i128(t * ldx, SCALE as i128);
    let hy: i128 = loy + tdiv_i128(t * ldy, SCALE as i128);
    let hz: i128 = loz + tdiv_i128(t * ldz, SCALE as i128);
    if hx < -lim || hx > lim {
        return None;
    }
    if hy < -lim || hy > lim {
        return None;
    }
    if hz < -lim || hz > lim {
        return None;
    }
    Some((t as i64, hx as i64, hy as i64, hz as i64))
}

impl Sphere {
    /// Placement matrices that the intersection routine accepts: both
    /// affine, with every entry within the placement limit.
    pub open spec fn placed(self) -> bool {
        &&& mat_in_mag(self.transform.forward, PLACE_LIMIT as int)
        &&& mat_in_mag(self.transform.inverse, PLACE_LIMIT as int)
        &&& is_affine(self.transform.forward)
        &&& is_affine(self.transform.inverse)
    }

    /// A unit sphere with the given placement.
    pub fn new(transform: Transform) -> (r: Sphere)
        ensures
            r.transform == transform,
    {
        Sphere { transform }
    }

    /// Hit-test a world-space ray against the sphere: map the ray into
    /// local space through the inverse transform, solve the quadratic
    /// `|O + tD|^2 = 1`, accept the nearest root strictly inside the
    /// ray's interval, and map the hit point back to world space.
    ///
    /// As a machine limit, a root whose parameter or local hit point
    /// falls outside the coordinate limit (a million units) is not
    /// representable and reports a miss; the contract states this in
    /// `root_ok`. The transform pair is expected to be consistent (see
    /// `Transform::consistent`): with an inconsistent pair the result
    /// is still as the contract computes it, but has no geometric
    /// meaning.
    pub fn intersect(&self, ray: &Ray3) -> (r: IntersectionInfo)
        requires
            self.placed(),
            ray_in_place(*ray),
        ensures
            r.did_hit == does_hit(*self, *ray),
            does_hit(*self, *ray) ==> r.t.raw as int == hit_param(*self, *ray) && vraws(r.point)
                == hit_point(*self, *ray),
            !does_hit(*self, *ray) ==> r.is_no_intersection(),
    {
        proof {
            lemma_local_bounds(self.transform.inverse, vraws(ray.origin));
            lemma_local_bounds(self.transform.inverse, vraws(ray.direction));
        }
        let lo = self.transform.inverse.transform_point(&ray.origin);
        let ld = self.transform.inverse.transform_vector(&ray.direction);
        let lox: i128 = lo.x.raw as i128;
        let loy: i128 = lo.y.raw as i128;
        let loz: i128 = lo.z.raw as i128;
        let ldx: i128 = ld.x.raw as i128;
        let ldy: i128 = ld.y.raw as i128;
        let ldz: i128 = ld.z.raw as i128;
        let qa: i128 = dot_wide(ldx, ldy, ldz, ldx, ldy, ldz);
        let qb: i128 = 2 * dot_wide(lox, loy, loz, ldx, ldy, ldz);
        let qc: i128 = dot_wide(lox, loy, loz, lox, loy, loz) - SCALE as i128;
        proof {
            assert(qa as int == quad_a(*self, *ray));
            assert(qb as int == quad_b(*self, *ray));
            assert(qc as int == quad_c(*self, *ray));
        }
        if qa <= 0 {
            return IntersectionInfo::no_intersection();
        }
        proof {
            lemma_mul_mag_bound(
                qb as int,
                qb as int,
                9_600_000_000_000_000int,
                9_600_000_000_000_000int,
            );
            lemma_mul_mag_bound(
                qa as int,
                qc as int,
                4_800_000_000_000_000int,
                5_000_000_000_000_000int,
            );
            lemma_tdiv_quotient_mag(
                (qb as int) * (qb as int),
                SCALE as int,
                92_160_000_000_000_000_000_000_000_000_000int,
            );
            lemma_tdiv_quotient_mag(
                (qa as int) * (qc as int),
                SCALE as int,
                24_000_000_000_000_000_000_000_000_000_000int,
            );
        }
        let bb: i128 = tdiv_i128(qb * qb, SCALE as i128);
        let ac: i128 = tdiv_i128(qa * qc, SCALE as i128);
        let disc: i128 = bb - 4 * ac;
        proof {
            assert(disc as int == discriminant(*self, *ray));
        }
        if disc < 0 {
            return IntersectionInfo::no_intersection();
        }
        proof {
            lemma_mul_mag_bound(
                disc as int,
                SCALE as int,
                200_000_000_000_000_000_000_000_000int,
                SCALE as int,
            );
        }
        let n: u128 = (disc as u128) * (SCALE as u128);
        let sqv: u128 = isqrt_u128(n);
        proof {
            lemma_is_sqrt_unique(n as int, sqv as int);
            assert(sqv as int == sqrt_raw(disc as int));
            assert((sqv as int) <= 20_000_000_000_000_000int) by (nonlinear_arith)
                requires
                    0 <= sqv as int,
                    (sqv as int) * (sqv as int) <= n as int,
                    n as int <= 200_000_000_000_000_000_000_000_000_000_000int;
        }
        let denom: i128 = 2 * qa;
        let num1: i128 = -qb - (sqv as i128);
        let num2: i128 = -qb + (sqv as i128);
        proof {
            lemma_mul_mag_bound(
                num1 as int,
                SCALE as int,
                30_000_000_000_000_000int,
                SCALE as int,
            );
            lemma_mul_mag_bound(
                num2 as int,
                SCALE as int,
                30_000_000_000_000_000int,
                SCALE as int,
            );
            lemma_tdiv_quotient_mag(
                (num1 as int) * (SCALE as int),
                denom as int,
                30_000_000_000_000_000_000_000int,
            );
            lemma_tdiv_quotient_mag(
                (num2 as int) * (SCALE as int),
                denom as int,
                30_000_000_000_000_000_000_000int,
            );
        }
        let t1: i128 = tdiv_i128(num1 * (SCALE as i128), denom);
        let t2: i128 = tdiv_i128(num2 * (SCALE as i128), denom);
        proof {
            assert(t1 as int == near_root(*self, *ray));
            assert(t2 as int == far_root(*self, *ray));
        }
        let near = check_root(ray.min_t.raw, ray.max_t.raw, lox, loy, loz, ldx, ldy, ldz, t1);
        match near {
            Some((tv, hx, hy, hz)) => {
                let hit = Vec3 {
                    x: Scalar { raw: hx },
                    y: Scalar { raw: hy },
                    z: Scalar { raw: hz },
                };
                let world = self.transform.forward.transform_point(&hit);
                IntersectionInfo { did_hit: true, point: world, t: Scalar { raw: tv } }
            },
            None => {
                let far = check_root(
                    ray.min_t.raw,
                    ray.max_t.raw,
                    lox,
                    loy,
                    loz,
                    ldx,
                    ldy,
                    ldz,
                    t2,
                );
                match far {
                    Some((tv, hx, hy, hz)) => {
                        let hit = Vec3 {
                            x: Scalar { raw: hx },
                            y: Scalar { raw: hy },
                            z: Scalar { raw: hz },
                        };
                        let world = self.transform.forward.transform_point(&hit);
                        IntersectionInfo { did_hit: true, point: world, t: Scalar { raw: tv } }
                    },
                    None => IntersectionInfo::no_intersection(),
                }
            },
        }
    }
}

/// When the ray hits, the reported parameter lies strictly inside the
/// ray's interval; and when both roots are accepted, the nearer (the
/// smaller) of the two is the one reported.
pub proof fn lemma_hit_is_nearest_in_range(s: Sphere, ray: Ray3)
    requires
        does_hit(s, ray),
    ensures
        ray.in_range_raw(hit_param(s, ray)),
        root_accepted(s, ray, near_root(s, ray)) && root_accepted(s, ray, far_root(s, ray))
            ==> hit_param(s, ray) == near_root(s, ray) && near_root(s, ray) <= far_root(
            s,
            ray,
        ),
{
    let qb = quad_b(s, ray);
    let qa = quad_a(s, ray);
    let d = discriminant(s, ray);
    let s1 = SCALE as int;
    assert(0 <= d * s1) by (nonlinear_arith)
        requires
            0 <= d,
            0 < s1;
    lemma_sqrt_exists(d * s1);
    let sq = sqrt_raw(d);
    assert(0 <= sq);
    assert((-qb - sq) * s1 <= (-qb + sq) * s1) by (nonlinear_arith)
        requires
            0 <= sq,
            0 < s1;
    lemma_tdiv_monotone((-qb - sq) * s1, (-qb + sq) * s1, 2 * qa);
}

impl Intersectable for Sphere {
    /// The sphere's hit test is defined for placement-bounded inputs.
    open spec fn intersect_ok(&self, ray: Ray3) -> bool {
        self.placed() && ray_in_place(ray)
    }

    /// On a hit, the record carries the nearer accepted root and the
    /// world-space hit point; on a miss, the sentinel.
    open spec fn intersect_spec(&self, ray: Ray3) -> IntersectionInfo {
        if does_hit(*self, ray) {
            IntersectionInfo {
                did_hit: true,
                point: Vec3 {
                    x: Scalar { raw: hit_point(*self, ray).0 as i64 },
                    y: Scalar { raw: hit_point(*self, ray).1 as i64 },
                    z: Scalar { raw: hit_point(*self, ray).2 as i64 },
                },
                t: Scalar { raw: hit_param(*self, ray) as i64 },
            }
        } else {
            IntersectionInfo {
                did_hit: false,
                point: Vec3 { x: Scalar { raw: 0 }, y: Scalar { raw: 0 }, z: Scalar { raw: 0 } },
                t: Scalar { raw: i64::MAX },
            }
        }
    }

    fn intersect(&self, ray: &Ray3) -> (r: IntersectionInfo) {
        let r = Sphere::intersect(self, ray);
        proof {
            if does_hit(*self, *ray) {
                assert(r.t.raw as int == hit_param(*self, *ray));
                assert(vraws(r.point) == hit_point(*self, *ray));
                assert(r.point.x.raw == hit_point(*self, *ray).0 as i64);
                assert(r.point.y.raw == hit_point(*self, *ray).1 as i64);
                assert(r.point.z.raw == hit_point(*self, *ray).2 as i64);
                assert(r == self.intersect_spec(*ray));
            } else {
                assert(r.is_no_intersection());
                assert(r == self.intersect_spec(*ray));
            }
        }
        r
    }
}

impl Transformable for Sphere {
    /// The transform the sphere was placed with.
    open spec fn transform_of(&self) -> Transform {
        self.transform
    }

    fn get_transform(&self) -> Transform {
        self.transform
    }
}

impl SurfaceLike for Sphere {

}

} // verus!
