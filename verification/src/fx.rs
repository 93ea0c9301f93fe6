//! Fixed-point scalar arithmetic.
//!
//! A real quantity is represented as an `i64` holding its value scaled by
//! `ONE` (2^16).  Every operation saturates at `FX_MAX` in magnitude and
//! rounds quotients toward zero; the spec functions `fx_add`, `fx_mul`,
//! `fx_div` and friends state the exact integer value of each result.
use vstd::prelude::*;
use vstd::arithmetic::div_mod::lemma_fundamental_div_mod;
use vstd::arithmetic::div_mod::lemma_div_is_ordered;

verus! {

/// The unit of the fixed-point scale: raw value `ONE` stands for 1.0.
pub const ONE: i64 = 65536;

/// Saturation bound (2^46): every scalar the library produces stays within
/// `[-FX_MAX, FX_MAX]`.
pub const FX_MAX: i64 = 70368744177664;

/// Tolerance (in raw units) by which bounding boxes are padded when a hit
/// point is tested against them.
pub const PAD: i64 = 32;

/// Largest raw magnitude accepted for scene coordinates and ray data, chosen
/// so that sums of a few such values never reach the saturation bound.
pub const COORD_MAX: i64 = 17592186044416;

pub open spec fn fx_ok(x: int) -> bool {
    -FX_MAX <= x <= FX_MAX
}

pub open spec fn coord_ok(x: int) -> bool {
    -COORD_MAX <= x <= COORD_MAX
}

/// Saturate an unbounded integer into the representable range.
pub open spec fn clip(x: int) -> int {
    if x > FX_MAX as int {
        FX_MAX as int
    } else if x < -(FX_MAX as int) {
        -(FX_MAX as int)
    } else {
        x
    }
}

pub open spec fn sabs(x: int) -> int {
    if x < 0 {
        -x
    } else {
        x
    }
}

/// Division rounding toward zero, the rounding the executable code uses.
pub open spec fn tdiv(a: int, b: int) -> int {
    if (a < 0) == (b < 0) {
        sabs(a) / sabs(b)
    } else {
        -(sabs(a) / sabs(b))
    }
}

/// Saturating sum.
pub open spec fn fx_add(a: int, b: int) -> int {
    clip(a + b)
}

/// Saturating difference.
pub open spec fn fx_sub(a: int, b: int) -> int {
    clip(a - b)
}

/// Saturating negation.
pub open spec fn fx_neg(a: int) -> int {
    clip(-a)
}

/// Fixed-point product: `a * b` descaled by `ONE`, rounded toward zero.
pub open spec fn fx_mul(a: int, b: int) -> int {
    clip(tdiv(a * b, ONE as int))
}

/// Fixed-point quotient: `a / b` rescaled by `ONE`, rounded toward zero.
pub open spec fn fx_div(a: int, b: int) -> int {
    clip(tdiv(a * (ONE as int), b))
}

/// `r` is the integer square root of `n`.
pub open spec fn is_isqrt(n: int, r: int) -> bool {
    0 <= r && r * r <= n && n < (r + 1) * (r + 1)
}

pub open spec fn isqrt(n: int) -> int {
    choose|r: int| #[trigger] is_isqrt(n, r)
}

/// Fixed-point square root: the scale works out because
/// `sqrt(x * ONE^2) = sqrt(x) * ONE`.
pub open spec fn fx_sqrt(a: int) -> int {
    isqrt(a * (ONE as int))
}

/// Floor of a fixed-point value, as a plain integer (lattice coordinate).
pub open spec fn fx_floor(a: int) -> int {
    a / (ONE as int)
}

proof fn lemma_isqrt_exists_rec(n: int)
    requires
        n >= 0,
    ensures
        exists|r: int| #[trigger] is_isqrt(n, r),
    decreases n,
{
    if n == 0 {
        assert(is_isqrt(0, 0)) by (nonlinear_arith);
    } else {
        lemma_isqrt_exists_rec(n - 1);
        let r = choose|r: int| #[trigger] is_isqrt(n - 1, r);
        if (r + 1) * (r + 1) <= n {
            assert(n - 1 < (r + 1) * (r + 1));
            assert(n < (r + 2) * (r + 2)) by (nonlinear_arith)
                requires
                    n <= (r + 1) * (r + 1),
                    r >= 0,
            ;
            assert(is_isqrt(n, r + 1));
        } else {
            assert(is_isqrt(n, r));
        }
    }
}

pub proof fn lemma_isqrt_exists(n: int)
    requires
        n >= 0,
    ensures
        is_isqrt(n, isqrt(n)),
{
    lemma_isqrt_exists_rec(n);
}

pub proof fn lemma_isqrt_is(n: int, r: int)
    requires
        n >= 0,
        is_isqrt(n, r),
    ensures
        isqrt(n) == r,
{
    lemma_isqrt_exists_rec(n);
    let q = isqrt(n);
    assert(is_isqrt(n, q));
    assert(q == r) by (nonlinear_arith)
        requires
            0 <= q,
            q * q <= n,
            n < (q + 1) * (q + 1),
            0 <= r,
            r * r <= n,
            n < (r + 1) * (r + 1),
    ;
}

/// The quotient rounded toward zero stays within one divisor of the exact
/// ratio, on the zero side of it.
pub proof fn lemma_tdiv_bound(x: int, d: int)
    requires
        d > 0,
    ensures
        x >= 0 ==> x - d < d * tdiv(x, d) <= x,
        x < 0 ==> x <= d * tdiv(x, d) < x + d,
{
    if x >= 0 {
        lemma_fundamental_div_mod(x, d);
        assert(x == d * (x / d) + x % d);
    } else {
        lemma_fundamental_div_mod(-x, d);
        assert(-x == d * ((-x) / d) + (-x) % d);
        assert(d * tdiv(x, d) == d * (-((-x) / d)));
        assert(d * (-((-x) / d)) == -(d * ((-x) / d))) by (nonlinear_arith);
    }
}

pub proof fn lemma_tdiv_mono(x: int, y: int, d: int)
    requires
        d > 0,
        x <= y,
    ensures
        tdiv(x, d) <= tdiv(y, d),
{
    if x >= 0 {
        lemma_div_is_ordered(x, y, d);
    } else if y >= 0 {
        assert(tdiv(x, d) == -((-x) / d));
        assert((-x) / d >= 0) by {
            lemma_fundamental_div_mod(-x, d);
            assert((-x) == d * ((-x) / d) + (-x) % d);
            if (-x) / d < 0 {
                assert(d * ((-x) / d) <= -d) by (nonlinear_arith)
                    requires
                        d > 0,
                        (-x) / d <= -1,
                ;
            }
        }
        assert(tdiv(y, d) == y / d);
        assert(y / d >= 0) by {
            lemma_fundamental_div_mod(y, d);
            if y / d < 0 {
                assert(d * (y / d) <= -d) by (nonlinear_arith)
                    requires
                        d > 0,
                        y / d <= -1,
                ;
            }
        }
    } else {
        lemma_div_is_ordered(-y, -x, d);
    }
}

pub proof fn lemma_clip_mono(x: int, y: int)
    requires
        x <= y,
    ensures
        clip(x) <= clip(y),
{
}

/// The Euclidean quotient and remainder of a bounded value by `ONE`: the
/// remainder is a fractional offset in `[0, ONE)` and the quotient is a
/// lattice coordinate of bounded size.
pub proof fn lemma_frac_range(x: int)
    requires
        fx_ok(x),
    ensures
        0 <= x - (x / (ONE as int)) * (ONE as int) < ONE as int,
        -0x8000_0000 <= x / (ONE as int) <= 0x8000_0000,
{
    lemma_fundamental_div_mod(x, ONE as int);
    vstd::arithmetic::div_mod::lemma_mod_bound(x, ONE as int);
    let q = x / (ONE as int);
    assert((ONE as int) * q == x - x % (ONE as int));
    assert(q * (ONE as int) == (ONE as int) * q) by (nonlinear_arith);
    if q > 0x8000_0000 {
        assert((ONE as int) * q > 0x8000_0000_0000int) by (nonlinear_arith)
            requires
                q > 0x8000_0000,
                ONE == 65536i64,
        ;
    }
    if q < -0x8000_0000 {
        assert((ONE as int) * q < -(0x8000_0000_0000int)) by (nonlinear_arith)
            requires
                q < -0x8000_0000,
                ONE == 65536i64,
        ;
    }
}

/// Multiplying by the unit scale is the identity on representable values.
pub proof fn lemma_fx_mul_one(x: int)
    requires
        fx_ok(x),
    ensures
        fx_mul(x, ONE as int) == x,
{
    if x >= 0 {
        vstd::arithmetic::div_mod::lemma_div_multiples_vanish(x, ONE as int);
        assert(x * (ONE as int) == (ONE as int) * x) by (nonlinear_arith);
    } else {
        assert(x * (ONE as int) < 0) by (nonlinear_arith)
            requires
                x < 0,
                ONE == 65536i64,
        ;
        assert(sabs(x * (ONE as int)) == (-x) * (ONE as int)) by (nonlinear_arith)
            requires
                x < 0,
        ;
        vstd::arithmetic::div_mod::lemma_div_multiples_vanish(-x, ONE as int);
    }
}

/// Zero divided by anything positive is zero, under truncation.
pub proof fn lemma_tdiv_zero(d: int)
    requires
        d > 0,
    ensures
        tdiv(0, d) == 0,
{
    lemma_fundamental_div_mod(0, d);
    vstd::arithmetic::div_mod::lemma_mod_bound(0, d);
    let q = 0int / d;
    assert(d * q == 0 - 0int % d);
    if q != 0 {
        assert(d * q <= -d || d * q >= d) by (nonlinear_arith)
            requires
                d > 0,
                q != 0,
        ;
    }
}

/// Scaling by zero yields zero exactly.
pub proof fn lemma_fx_mul_zero()
    ensures
        forall|a: int| #[trigger] fx_mul(a, 0) == 0,
{
    assert forall|a: int| #[trigger] fx_mul(a, 0) == 0 by {
        assert(a * 0 == 0) by (nonlinear_arith);
        lemma_tdiv_zero(ONE as int);
    }
}

/// Truncating division is exact on multiples of the divisor.
pub proof fn lemma_tdiv_exact(k: int, d: int)
    requires
        d > 0,
    ensures
        tdiv(k * d, d) == k,
{
    if k >= 0 {
        vstd::arithmetic::div_mod::lemma_div_multiples_vanish(k, d);
        assert(k * d == d * k) by (nonlinear_arith);
        assert(k * d >= 0) by (nonlinear_arith)
            requires
                k >= 0,
                d > 0,
        ;
    } else {
        assert(k * d < 0) by (nonlinear_arith)
            requires
                k < 0,
                d > 0,
        ;
        assert(-(k * d) == (-k) * d) by (nonlinear_arith);
        assert(sabs(k * d) == (-k) * d);
        vstd::arithmetic::div_mod::lemma_div_multiples_vanish(-k, d);
        assert((-k) * d == d * (-k)) by (nonlinear_arith);
    }
}

/// Magnitude bound of a product from magnitude bounds of its factors.
pub proof fn lemma_mul_bound(a: int, b: int, ba: int, bb: int)
    requires
        0 <= ba,
        0 <= bb,
        -ba <= a <= ba,
        -bb <= b <= bb,
    ensures
        -(ba * bb) <= a * b <= ba * bb,
{
    assert(-(ba * bb) <= a * b <= ba * bb) by (nonlinear_arith)
        requires
            0 <= ba,
            0 <= bb,
            -ba <= a <= ba,
            -bb <= b <= bb,
    ;
}

/// Saturate an `i128` into the fixed-point range.
pub fn clip_e(x: i128) -> (r: i64)
    ensures
        r as int == clip(x as int),
{
    if x > FX_MAX as i128 {
        FX_MAX
    } else if x < -(FX_MAX as i128) {
        -FX_MAX
    } else {
        x as i64
    }
}

/// Truncating division on `i128`, defined for any divisor of smaller
/// magnitude than the extremes.
pub fn tdiv_e(a: i128, b: i128) -> (r: i128)
    requires
        b != 0,
        a > i128::MIN,
        b > i128::MIN,
    ensures
        r as int == tdiv(a as int, b as int),
{
    if a >= 0 {
        if b > 0 {
            a / b
        } else {
            -((a) / (-b))
        }
    } else {
        if b > 0 {
            -((-a) / b)
        } else {
            (-a) / (-b)
        }
    }
}

pub fn fadd(a: i64, b: i64) -> (r: i64)
    ensures
        r as int == fx_add(a as int, b as int),
{
    clip_e(a as i128 + b as i128)
}

pub fn fsub(a: i64, b: i64) -> (r: i64)
    ensures
        r as int == fx_sub(a as int, b as int),
{
    clip_e(a as i128 - b as i128)
}

pub fn fneg(a: i64) -> (r: i64)
    ensures
        r as int == fx_neg(a as int),
{
    clip_e(-(a as i128))
}

pub fn fmul(a: i64, b: i64) -> (r: i64)
    ensures
        r as int == fx_mul(a as int, b as int),
{
    proof {
        assert((0 - 0x4000_0000_0000_0000_0000_0000_0000_0000int) <= (a as int) * (b as int)
            <= 0x4000_0000_0000_0000_0000_0000_0000_0000int) by (nonlinear_arith)
            requires
                (0 - 0x8000_0000_0000_0000int) <= (a as int) < 0x8000_0000_0000_0000int,
                (0 - 0x8000_0000_0000_0000int) <= (b as int) < 0x8000_0000_0000_0000int,
        ;
    }
    let p: i128 = (a as i128) * (b as i128);
    let q: i128 = tdiv_e(p, ONE as i128);
    clip_e(q)
}

pub fn fdiv(a: i64, b: i64) -> (r: i64)
    requires
        b != 0,
    ensures
        r as int == fx_div(a as int, b as int),
{
    proof {
        assert((0 - 0x1_0000_0000_0000_0000_0000int) < (a as int) * (ONE as int)
            < 0x1_0000_0000_0000_0000_0000int) by (nonlinear_arith)
            requires
                (0 - 0x8000_0000_0000_0000int) <= (a as int) < 0x8000_0000_0000_0000int,
                ONE == 65536,
        ;
    }
    let p: i128 = (a as i128) * (ONE as i128);
    let q: i128 = tdiv_e(p, b as i128);
    clip_e(q)
}

/// Integer square root by bisection.
pub fn isqrt_e(n: u128) -> (r: u64)
    requires
        n < 0x4000_0000_0000_0000_0000_0000_0000_0000u128,
    ensures
        is_isqrt(n as int, r as int),
        r as int == isqrt(n as int),
{
    let mut lo: u64 = 0;
    let mut hi: u64 = 0x8000_0000_0000_0000;
    proof {
        assert((hi as int) * (hi as int) > n as int) by (nonlinear_arith)
            requires
                hi == 0x8000_0000_0000_0000u64,
                n < 0x4000_0000_0000_0000_0000_0000_0000_0000u128,
        ;
    }
    while lo + 1 < hi
        invariant
            lo < hi,
            hi <= 0x8000_0000_0000_0000u64,
            (lo as int) * (lo as int) <= n as int,
            (hi as int) * (hi as int) > n as int,
        decreases hi - lo,
    {
        let mid: u64 = lo + (hi - lo) / 2;
        proof {
            assert((mid as int) * (mid as int) < 0x1_0000_0000_0000_0000_0000_0000_0000_0000int)
                by (nonlinear_arith)
                requires
                    mid <= 0x8000_0000_0000_0000u64,
            ;
        }
        if (mid as u128) * (mid as u128) <= n {
            lo = mid;
        } else {
            hi = mid;
        }
    }
    proof {
        lemma_isqrt_is(n as int, lo as int);
    }
    lo
}

/// Fixed-point square root of a non-negative value.
pub fn fsqrt(a: i64) -> (r: i64)
    requires
        a >= 0,
    ensures
        r as int == fx_sqrt(a as int),
        r >= 0,
        fx_ok(r as int),
{
    proof {
        assert((a as int) * (ONE as int) < 0x1_0000_0000_0000_0000_0000int) by (nonlinear_arith)
            requires
                0 <= (a as int) < 0x8000_0000_0000_0000int,
                ONE == 65536,
        ;
    }
    let n: u128 = (a as u128) * (ONE as u128);
    let r: u64 = isqrt_e(n);
    proof {
        assert((r as int) * (r as int) <= n as int);
        assert(r < 0x100_0000_0000u64) by (nonlinear_arith)
            requires
                (r as int) * (r as int) <= n as int,
                (n as int) < 0x1_0000_0000_0000_0000_0000int,
        ;
    }
    r as i64
}

/// Floor of a fixed-point value as a plain lattice integer.
pub fn ffloor(a: i64) -> (r: i64)
    requires
        fx_ok(a as int),
    ensures
        r as int == fx_floor(a as int),
{
    if a >= 0 {
        a / ONE
    } else {
        let m: i64 = -a;
        let qm: i64 = m / ONE;
        let rm: i64 = m % ONE;
        proof {
            lemma_fundamental_div_mod(m as int, ONE as int);
            assert((-(qm as int)) * (ONE as int) == -((qm as int) * (ONE as int)))
                by (nonlinear_arith);
            if rm as int == 0 {
                vstd::arithmetic::div_mod::lemma_fundamental_div_mod_converse_div(
                    a as int,
                    ONE as int,
                    -(qm as int),
                    0,
                );
            } else {
                assert((-(qm as int) - 1) * (ONE as int) == -((qm as int) * (ONE as int)) - (
                ONE as int)) by (nonlinear_arith);
                vstd::arithmetic::div_mod::lemma_fundamental_div_mod_converse_div(
                    a as int,
                    ONE as int,
                    -(qm as int) - 1,
                    ONE as int - rm as int,
                );
            }
        }
        if rm == 0 {
            -qm
        } else {
            -qm - 1
        }
    }
}

/// Clamp a value into `[x_min, x_max]`.
pub fn clamp(x: i64, x_min: i64, x_max: i64) -> (r: i64)
    ensures
        r as int == (if (x as int) < x_min as int {
            x_min as int
        } else if (x as int) > x_max as int {
            x_max as int
        } else {
            x as int
        }),
{
    if x < x_min {
        return x_min;
    }
    if x > x_max {
        return x_max;
    }
    x
}

} // verus!
