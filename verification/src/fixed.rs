//! Fixed-point scalar arithmetic: the numeric ground layer of the kernel.
//!
//! A `Scalar` stores a signed count of millionths in an `i64`. Products
//! and quotients round toward zero; square roots round down. The spec
//! functions of this module are the model that every contract of the
//! crate speaks of.

use vstd::prelude::*;
use vstd::arithmetic::div_mod::{
    lemma_basic_div, lemma_div_is_ordered, lemma_div_multiples_vanish,
    lemma_div_non_zero, lemma_div_nonincreasing, lemma_div_pos_is_pos,
    lemma_fundamental_div_mod, lemma_mod_bound,
};

verus! {

/// Raw units per 1.0: a `Scalar` whose `raw` equals `SCALE` has value one.
pub const SCALE: i64 = 1_000_000;

/// Tolerance, in raw units, of the approximate comparisons (0.0001).
pub const EPSILON: i64 = 100;

/// Largest raw magnitude (a million units) accepted by the vector and
/// matrix operations, chosen so that their products stay representable.
pub const COORD_LIMIT: i64 = 1_000_000_000_000;

/// `x` lies within `[-m, m]`.
pub open spec fn in_mag(x: int, m: int) -> bool {
    -m <= x <= m
}

/// `x` is representable as an `i64`.
pub open spec fn fits_i64(x: int) -> bool {
    i64::MIN <= x <= i64::MAX
}

/// Absolute value.
pub open spec fn mag_int(a: int) -> int {
    if a >= 0 {
        a
    } else {
        -a
    }
}

/// Quotient of `a` by `b` rounded toward zero: the rounding used by every
/// executable quotient here, as opposed to the Euclidean `/` of specs.
pub open spec fn tdiv(a: int, b: int) -> int {
    if (a >= 0) == (b >= 0) {
        mag_int(a) / mag_int(b)
    } else {
        -(mag_int(a) / mag_int(b))
    }
}

/// Raw value of the fixed-point product of raw values `a` and `b`.
pub open spec fn mul_raw(a: int, b: int) -> int {
    tdiv(a * b, SCALE as int)
}

/// Raw value of the fixed-point quotient of raw values `a` and `b`.
pub open spec fn div_raw(a: int, b: int) -> int {
    tdiv(a * (SCALE as int), b)
}

/// `r` is the integer square root of `n`, rounded down.
pub open spec fn is_sqrt(n: int, r: int) -> bool {
    0 <= r && r * r <= n && n < (r + 1) * (r + 1)
}

/// The integer square root of `n`, for `n >= 0`.
pub open spec fn sqrt_int(n: int) -> int {
    choose|r: int| is_sqrt(n, r)
}

/// Raw value of the fixed-point square root of the raw value `a`.
pub open spec fn sqrt_raw(a: int) -> int {
    sqrt_int(a * (SCALE as int))
}

/// The magnitude of a truncating quotient is bounded by the quotient of
/// the magnitude bound.
pub proof fn lemma_tdiv_quotient_mag(a: int, b: int, m: int)
    requires
        1 <= b,
        0 <= m,
        in_mag(a, m),
    ensures
        in_mag(tdiv(a, b), m / b),
{
    if a >= 0 {
        lemma_div_pos_is_pos(a, b);
        lemma_div_is_ordered(a, m, b);
        lemma_div_pos_is_pos(m, b);
    } else {
        lemma_div_pos_is_pos(-a, b);
        lemma_div_is_ordered(-a, m, b);
        lemma_div_pos_is_pos(m, b);
    }
}

/// The fixed-point square of a raw value is nonnegative, and is zero
/// exactly when the value's magnitude is below a thousand raw units:
/// truncation cannot distinguish such sub-quantum values from zero.
pub proof fn lemma_mul_raw_square(x: int)
    ensures
        0 <= mul_raw(x, x),
        mul_raw(x, x) == 0 <==> in_mag(x, 999),
{
    let s = SCALE as int;
    assert(0 <= x * x) by (nonlinear_arith);
    lemma_div_pos_is_pos(x * x, s);
    if in_mag(x, 999) {
        lemma_mul_mag_bound(x, x, 999, 999);
        lemma_basic_div(x * x, s);
    } else {
        assert(x * x >= 1_000_000) by (nonlinear_arith)
            requires
                x >= 1000 || x <= -1000;
        lemma_div_non_zero(x * x, s);
    }
}

/// Fixed-point multiplication distributes over addition within two raw
/// units: the only deviation is the three roundings.
pub proof fn lemma_mul_raw_distributes(s: int, a: int, b: int)
    ensures
        in_mag(mul_raw(s, a + b) - (mul_raw(s, a) + mul_raw(s, b)), 2),
{
    let sc = SCALE as int;
    let l = tdiv(s * (a + b), sc);
    let p = tdiv(s * a, sc);
    let q = tdiv(s * b, sc);
    lemma_tdiv_remainder(s * (a + b), sc);
    lemma_tdiv_remainder(s * a, sc);
    lemma_tdiv_remainder(s * b, sc);
    assert(s * (a + b) == s * a + s * b) by (nonlinear_arith);
    assert((l - p - q) * sc == l * sc - p * sc - q * sc) by (nonlinear_arith);
    assert(in_mag((l - p - q) * sc, 3 * sc - 3));
    assert(in_mag(l - p - q, 2)) by (nonlinear_arith)
        requires
            in_mag((l - p - q) * sc, 3 * sc - 3),
            sc == 1_000_000;
}

/// The two associations of a fixed-point triple product differ, after
/// scaling by `SCALE`, by at most twice `SCALE` plus the magnitudes of
/// the two outer operands.
pub proof fn lemma_mul_raw_compose(s: int, u: int, a: int)
    ensures
        in_mag(
            (mul_raw(mul_raw(s, u), a) - mul_raw(s, mul_raw(u, a))) * (SCALE as int),
            2 * (SCALE as int) + mag_int(s) + mag_int(a),
        ),
{
    let sc = SCALE as int;
    let t1 = tdiv(s * u, sc);
    let l = tdiv(t1 * a, sc);
    let t2 = tdiv(u * a, sc);
    let rr = tdiv(s * t2, sc);
    lemma_tdiv_remainder(s * u, sc);
    lemma_tdiv_remainder(t1 * a, sc);
    lemma_tdiv_remainder(u * a, sc);
    lemma_tdiv_remainder(s * t2, sc);
    let e1 = s * u - t1 * sc;
    let e2 = t1 * a - l * sc;
    let e3 = u * a - t2 * sc;
    let e4 = s * t2 - rr * sc;
    assert((t1 * a - e2) * sc == (t1 * a) * sc - e2 * sc) by (nonlinear_arith);
    assert((t1 * a) * sc == (t1 * sc) * a) by (nonlinear_arith);
    assert((t1 * sc) * a == (s * u) * a - e1 * a) by (nonlinear_arith)
        requires
            t1 * sc == s * u - e1;
    assert((l * sc) * sc == (t1 * a - e2) * sc);
    assert((s * t2 - e4) * sc == (s * t2) * sc - e4 * sc) by (nonlinear_arith);
    assert((s * t2) * sc == s * (t2 * sc)) by (nonlinear_arith);
    assert(s * (t2 * sc) == s * (u * a) - s * e3) by (nonlinear_arith)
        requires
            t2 * sc == u * a - e3;
    assert((rr * sc) * sc == (s * t2 - e4) * sc);
    assert((s * u) * a == s * (u * a)) by (nonlinear_arith);
    assert(((l - rr) * sc) * sc == (l * sc) * sc - (rr * sc) * sc) by (nonlinear_arith);
    assert(((l - rr) * sc) * sc == s * e3 - e1 * a + e4 * sc - e2 * sc);
    let ms = mag_int(s);
    let ma = mag_int(a);
    lemma_mul_mag_bound(s, e3, ms, sc);
    lemma_mul_mag_bound(e1, a, sc, ma);
    assert(in_mag(((l - rr) * sc) * sc, ms * sc + sc * ma + 2 * (sc * sc)));
    assert((2 * sc + ms + ma) * sc == 2 * (sc * sc) + ms * sc + sc * ma) by (nonlinear_arith);
    assert(in_mag((l - rr) * sc, 2 * sc + ms + ma)) by (nonlinear_arith)
        requires
            in_mag(((l - rr) * sc) * sc, (2 * sc + ms + ma) * sc),
            1 <= sc,
            0 <= 2 * sc + ms + ma;
}

/// Truncating division is monotone in the dividend.
pub proof fn lemma_tdiv_monotone(a1: int, a2: int, b: int)
    requires
        1 <= b,
        a1 <= a2,
    ensures
        tdiv(a1, b) <= tdiv(a2, b),
{
    if 0 <= a1 {
        lemma_div_is_ordered(a1, a2, b);
    } else if a2 < 0 {
        lemma_div_is_ordered(-a2, -a1, b);
    } else {
        lemma_div_pos_is_pos(-a1, b);
        lemma_div_pos_is_pos(a2, b);
    }
}

/// A fixed-point product of bounded factors is bounded.
pub proof fn lemma_mul_raw_in_mag(a: int, b: int, ma: int, mb: int)
    requires
        in_mag(a, ma),
        in_mag(b, mb),
        0 <= ma,
        0 <= mb,
    ensures
        in_mag(mul_raw(a, b), (ma * mb) / (SCALE as int)),
{
    lemma_mul_mag_bound(a, b, ma, mb);
    assert(0 <= ma * mb) by (nonlinear_arith)
        requires
            0 <= ma,
            0 <= mb;
    lemma_tdiv_quotient_mag(a * b, SCALE as int, ma * mb);
}

/// Multiplying a whole-number raw value (a multiple of `SCALE`) is exact.
pub proof fn lemma_mul_raw_whole(k: int, d: int)
    ensures
        mul_raw(k * (SCALE as int), d) == k * d,
{
    let s = SCALE as int;
    assert((k * s) * d == s * (k * d)) by (nonlinear_arith);
    lemma_mul_raw_one(k * d);
}

/// Multiplying a raw value by one (raw `SCALE`) is exact.
pub proof fn lemma_mul_raw_one(q: int)
    ensures
        mul_raw(SCALE as int, q) == q,
        mul_raw(q, SCALE as int) == q,
{
    let s = SCALE as int;
    if q >= 0 {
        assert(s * q >= 0) by (nonlinear_arith)
            requires
                s >= 0,
                q >= 0;
        assert(q * s == s * q);
        lemma_div_multiples_vanish(q, s);
    } else {
        assert(s * q < 0) by (nonlinear_arith)
            requires
                s > 0,
                q < 0;
        assert(-(s * q) == s * (-q)) by (nonlinear_arith);
        assert(q * s == s * q);
        lemma_div_multiples_vanish(-q, s);
    }
}

/// Multiplying a raw value by zero gives zero.
pub proof fn lemma_mul_raw_zero(q: int)
    ensures
        mul_raw(0, q) == 0,
        mul_raw(q, 0) == 0,
{
    let s = SCALE as int;
    lemma_div_multiples_vanish(0, s);
}

/// The integer square root is unique, so a witness pins `sqrt_int` down.
pub proof fn lemma_is_sqrt_unique(n: int, r: int)
    requires
        is_sqrt(n, r),
    ensures
        sqrt_int(n) == r,
{
    assert(exists|x: int| is_sqrt(n, x));
    let c = sqrt_int(n);
    assert(is_sqrt(n, c));
    if c < r {
        assert((c + 1) * (c + 1) <= r * r) by (nonlinear_arith)
            requires
                0 <= c + 1 <= r;
    }
    if r < c {
        assert((r + 1) * (r + 1) <= c * c) by (nonlinear_arith)
            requires
                0 <= r + 1 <= c;
    }
}

/// The integer square root exists for every nonnegative integer, so
/// `sqrt_int` satisfies its characterization.
pub proof fn lemma_sqrt_exists(n: int)
    requires
        0 <= n,
    ensures
        is_sqrt(n, sqrt_int(n)),
    decreases n,
{
    if n == 0 {
        assert(is_sqrt(0, 0));
        assert(exists|x: int| is_sqrt(n, x));
    } else {
        lemma_sqrt_exists(n - 1);
        let r = sqrt_int(n - 1);
        if (r + 1) * (r + 1) <= n {
            assert(n == (r + 1) * (r + 1));
            assert((r + 1) * (r + 1) < (r + 2) * (r + 2)) by (nonlinear_arith)
                requires
                    0 <= r;
            assert(is_sqrt(n, r + 1));
        } else {
            assert(is_sqrt(n, r));
        }
        assert(exists|x: int| is_sqrt(n, x));
    }
}

/// Truncating division leaves a remainder smaller than the divisor, on
/// the side of zero: `tdiv(a, b) * b` is within `b` of `a`.
pub proof fn lemma_tdiv_remainder(a: int, b: int)
    requires
        1 <= b,
    ensures
        mag_int(a - tdiv(a, b) * b) < b,
        a >= 0 ==> 0 <= a - tdiv(a, b) * b,
        a < 0 ==> a - tdiv(a, b) * b <= 0,
{
    if a >= 0 {
        lemma_fundamental_div_mod(a, b);
        lemma_mod_bound(a, b);
        assert(b * (a / b) == (a / b) * b) by (nonlinear_arith);
    } else {
        lemma_fundamental_div_mod(-a, b);
        lemma_mod_bound(-a, b);
        assert(b * ((-a) / b) == ((-a) / b) * b) by (nonlinear_arith);
        assert(tdiv(a, b) == -((-a) / b));
        assert((-((-a) / b)) * b == -(((-a) / b) * b)) by (nonlinear_arith);
    }
}

/// The magnitude of a product is bounded by the product of the bounds.
pub proof fn lemma_mul_mag_bound(a: int, b: int, ma: int, mb: int)
    requires
        in_mag(a, ma),
        in_mag(b, mb),
    ensures
        in_mag(a * b, ma * mb),
{
    assert(-(ma * mb) <= a * b <= ma * mb) by (nonlinear_arith)
        requires
            -ma <= a <= ma,
            -mb <= b <= mb;
}

/// Truncating division on wide integers: the executable form of `tdiv`.
pub(crate) fn tdiv_i128(a: i128, b: i128) -> (r: i128)
    requires
        b != 0,
        i128::MIN < a,
        i128::MIN < b,
    ensures
        r as int == tdiv(a as int, b as int),
{
    let na: u128 = if a >= 0 {
        a as u128
    } else {
        (-a) as u128
    };
    let nb: u128 = if b >= 0 {
        b as u128
    } else {
        (-b) as u128
    };
    let q: u128 = na / nb;
    proof {
        assert(na as int == mag_int(a as int));
        assert(nb as int == mag_int(b as int));
        lemma_div_pos_is_pos(na as int, nb as int);
        lemma_div_nonincreasing(na as int, nb as int);
    }
    if (a >= 0) == (b >= 0) {
        q as i128
    } else {
        -(q as i128)
    }
}

/// Fixed-point product of two raw values.
pub fn fx_mul(a: i64, b: i64) -> (r: i64)
    requires
        fits_i64(mul_raw(a as int, b as int)),
    ensures
        r as int == mul_raw(a as int, b as int),
{
    proof {
        lemma_mul_mag_bound(a as int, b as int, 0x8000_0000_0000_0000, 0x8000_0000_0000_0000);
    }
    let p: i128 = (a as i128) * (b as i128);
    let q: i128 = tdiv_i128(p, SCALE as i128);
    q as i64
}

/// Fixed-point quotient of two raw values.
pub fn fx_div(a: i64, b: i64) -> (r: i64)
    requires
        b != 0,
        fits_i64(div_raw(a as int, b as int)),
    ensures
        r as int == div_raw(a as int, b as int),
{
    proof {
        lemma_mul_mag_bound(a as int, SCALE as int, 0x8000_0000_0000_0000, SCALE as int);
    }
    let p: i128 = (a as i128) * (SCALE as i128);
    let q: i128 = tdiv_i128(p, b as i128);
    q as i64
}

/// Integer square root by bisection.
pub(crate) fn isqrt_u128(n: u128) -> (r: u128)
    ensures
        is_sqrt(n as int, r as int),
{
    if n == 0 {
        return 0;
    }
    let mut lo: u128 = 0;
    let mut hi: u128 = 0x1_0000_0000_0000_0000;
    proof {
        assert((hi as int) * (hi as int) == 0x1_0000_0000_0000_0000_0000_0000_0000_0000int)
            by (nonlinear_arith)
            requires
                hi == 0x1_0000_0000_0000_0000u128;
    }
    while hi - lo > 1
        invariant
            lo < hi,
            hi <= 0x1_0000_0000_0000_0000u128,
            (lo as int) * (lo as int) <= n as int,
            (n as int) < (hi as int) * (hi as int),
        decreases hi - lo,
    {
        let mid: u128 = lo + (hi - lo) / 2;
        proof {
            assert(lo < mid < hi);
            assert((mid as int) * (mid as int) < 0x1_0000_0000_0000_0000_0000_0000_0000_0000int)
                by (nonlinear_arith)
                requires
                    0 <= (mid as int),
                    (mid as int) < 0x1_0000_0000_0000_0000int;
        }
        if mid * mid <= n {
            lo = mid;
        } else {
            hi = mid;
        }
    }
    lo
}

/// Fixed-point square root of a nonnegative raw value.
pub fn fx_sqrt(a: i64) -> (r: i64)
    requires
        0 <= a,
    ensures
        r as int == sqrt_raw(a as int),
        0 <= r,
{
    proof {
        lemma_mul_mag_bound(a as int, SCALE as int, 0x8000_0000_0000_0000, SCALE as int);
    }
    let n: u128 = (a as u128) * (SCALE as u128);
    let r: u128 = isqrt_u128(n);
    proof {
        lemma_is_sqrt_unique(n as int, r as int);
        assert(r as int <= 4_000_000_000_000int) by (nonlinear_arith)
            requires
                0 <= r as int,
                (r as int) * (r as int) <= n as int,
                n as int <= 0x8000_0000_0000_0000int * 1_000_000int;
    }
    r as i64
}

/// A fixed-point scalar: `raw` counts millionths of a unit.
#[derive(Clone, Copy, Debug, PartialEq, Eq, Structural)]
pub struct Scalar {
    pub raw: i64,
}

impl Scalar {
    /// The scalar with the given raw count of millionths.
    pub fn from_raw(raw: i64) -> (r: Scalar)
        ensures
            r.raw == raw,
    {
        Scalar { raw }
    }

    /// The scalar with the given whole value.
    pub fn from_int(n: i64) -> (r: Scalar)
        requires
            in_mag(n as int, 9_000_000_000_000int),
        ensures
            r.raw == n * SCALE,
    {
        Scalar { raw: n * SCALE }
    }

    /// Zero.
    pub fn zero() -> (r: Scalar)
        ensures
            r.raw == 0,
    {
        Scalar { raw: 0 }
    }

    /// One.
    pub fn one() -> (r: Scalar)
        ensures
            r.raw == SCALE,
    {
        Scalar { raw: SCALE }
    }

    /// The largest representable scalar; it stands in for plus infinity
    /// in ray bounds and in the no-intersection sentinel.
    pub fn infinity() -> (r: Scalar)
        ensures
            r.raw == i64::MAX,
    {
        Scalar { raw: i64::MAX }
    }

    /// Sum of two scalars.
    pub fn add(self, rhs: Scalar) -> (r: Scalar)
        requires
            fits_i64(self.raw + rhs.raw),
        ensures
            r.raw == self.raw + rhs.raw,
    {
        Scalar { raw: self.raw + rhs.raw }
    }

    /// Difference of two scalars.
    pub fn sub(self, rhs: Scalar) -> (r: Scalar)
        requires
            fits_i64(self.raw - rhs.raw),
        ensures
            r.raw == self.raw - rhs.raw,
    {
        Scalar { raw: self.raw - rhs.raw }
    }

    /// Negation.
    pub fn neg(self) -> (r: Scalar)
        requires
            self.raw > i64::MIN,
        ensures
            r.raw == -self.raw,
    {
        Scalar { raw: -self.raw }
    }

    /// Whether the scalar is within the comparison tolerance of zero.
    pub fn is_zero(&self) -> (r: bool)
        ensures
            r == (-(EPSILON as int) < self.raw < EPSILON as int),
    {
        self.raw > -EPSILON && self.raw < EPSILON
    }

    /// Strict order on scalars.
    pub fn lt(self, rhs: Scalar) -> (r: bool)
        ensures
            r == (self.raw < rhs.raw),
    {
        self.raw < rhs.raw
    }
}

} // verus!
