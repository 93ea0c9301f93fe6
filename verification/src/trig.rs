//! Fixed-point trigonometric and logarithmic approximations.
//!
//! These routines serve the procedural textures, the camera's field-of-view
//! setup, the rotation wrapper and the participating-medium sampler.  Their
//! contracts state ranges and the handful of exact values the rest of the
//! library depends on; the curve between those points is an approximation.
use vstd::prelude::*;
use crate::fx;
use crate::fx::{ONE, FX_MAX, fx_ok, tdiv, clip, fx_mul, fx_sub, fx_div, fx_neg, fx_sqrt, fx_add};
use crate::texture::iclamp;

verus! {

/// Pi at the fixed-point scale.
pub const PI_FX: i64 = 205887;

/// Pi/2 at the fixed-point scale.
pub const HALF_PI_FX: i64 = 102944;

/// 2*Pi at the fixed-point scale.
pub const TWO_PI_FX: i64 = 411775;

/// Pi/4 at the fixed-point scale.
pub const QUARTER_PI_FX: i64 = 51472;

/// ln(2) at the fixed-point scale.
pub const LN2_FX: i64 = 45426;

/// Mirror of `dtr`.
pub open spec fn s_dtr(degree: int) -> int {
    fx::fx_div(fx::fx_mul(degree, PI_FX as int), 180 * (ONE as int))
}

/// Degrees to radians: `x * PI / 180`.
pub fn dtr(degree: i64) -> (r: i64)
    ensures
        r as int == s_dtr(degree as int),
{
    let p: i64 = fx::fmul(degree, PI_FX);
    fx::fdiv(p, 180 * ONE)
}

/// Mirror of `sin_half`.
pub open spec fn s_sin_half(theta: int) -> int {
    let t = theta * (PI_FX as int - theta);
    (16 * t * (ONE as int)) / (5 * (PI_FX as int) * (PI_FX as int) - 4 * t)
}

/// Mirror of `fsin`: reduce into one period, fold onto the half period.
pub open spec fn s_fsin(x: int) -> int {
    let m0 = x - tdiv(x, TWO_PI_FX as int) * (TWO_PI_FX as int);
    let m = if m0 < 0 {
        m0 + TWO_PI_FX as int
    } else {
        m0
    };
    if m < PI_FX as int {
        s_sin_half(m)
    } else {
        let th0 = m - PI_FX as int;
        let th = if th0 > PI_FX as int {
            PI_FX as int
        } else {
            th0
        };
        -s_sin_half(th)
    }
}

/// Mirror of `fcos`.
pub open spec fn s_fcos(x: int) -> int {
    s_fsin(fx_add(x, HALF_PI_FX as int))
}

/// Mirror of `ftan`.
pub open spec fn s_ftan(x: int) -> int {
    let sv = s_fsin(x);
    let cv = s_fcos(x);
    if cv == 0 {
        if sv >= 0 {
            FX_MAX as int
        } else {
            -(FX_MAX as int)
        }
    } else {
        fx_div(sv, cv)
    }
}

/// Mirror of `atan_unit`.
pub open spec fn s_atan_unit(z: int) -> int {
    let corr = (17891 * z * ((ONE as int) - z)) / ((ONE as int) * (ONE as int));
    let raw = ((QUARTER_PI_FX as int) * z + corr * (ONE as int)) / (ONE as int);
    iclamp(clip(raw), 0, QUARTER_PI_FX as int)
}

/// Mirror of `fatan2`.
pub open spec fn s_fatan2(y: int, x: int) -> int {
    let ay = if y < 0 {
        -y
    } else {
        y
    };
    let ax = if x < 0 {
        -x
    } else {
        x
    };
    if ax == 0 && ay == 0 {
        0
    } else {
        let base = if ax >= ay {
            let d = if ax == 0 {
                1
            } else {
                ax
            };
            s_atan_unit(iclamp(fx_div(ay, d), 0, ONE as int))
        } else {
            HALF_PI_FX as int - s_atan_unit(iclamp(fx_div(ax, ay), 0, ONE as int))
        };
        let mag0 = if x >= 0 {
            base
        } else {
            PI_FX as int - base
        };
        let mag = iclamp(mag0, 0, PI_FX as int);
        if y < 0 {
            -mag
        } else {
            mag
        }
    }
}

/// Mirror of `facos`.
pub open spec fn s_facos(x: int) -> int {
    let x2 = fx_mul(x, x);
    let k0 = fx_sub(ONE as int, x2);
    let k = if k0 < 0 {
        0
    } else {
        k0
    };
    s_fatan2(fx_sqrt(k), x)
}

/// The doubling normalization of `fln_unit`: bring the mantissa into the
/// upper half of the unit, counting the doublings.
pub open spec fn s_ln_norm(m: int, k: int) -> (int, int)
    decreases 16 - k,
{
    if m >= 32768 || k >= 16 {
        (m, k)
    } else {
        s_ln_norm(2 * m, k + 1)
    }
}

/// Mirror of `fln_unit`.
pub open spec fn s_fln_unit(x: int) -> int {
    let nk = s_ln_norm(x, 0);
    let m = if nk.0 < 32768 {
        32768
    } else {
        nk.0
    };
    let y = (ONE as int) - m;
    let y2 = (y * y) / (2 * (ONE as int));
    let y3 = (y * y * y) / (3 * (ONE as int) * (ONE as int));
    let series = if y == 0 {
        0
    } else {
        y + y2 + y3
    };
    -(series + nk.1 * (LN2_FX as int))
}

/// Sine on `[0, PI]` by the rational approximation
/// `16 t / (5 PI^2 - 4 t)` with `t = theta (PI - theta)`; exact at 0, PI/2
/// and PI, inside [0, 1] everywhere.
fn sin_half(theta: i64) -> (r: i64)
    requires
        0 <= theta <= PI_FX,
    ensures
        r as int == s_sin_half(theta as int),
        0 <= r <= ONE,
        theta == 0 ==> r == 0,
{
    proof {
        assert((theta as int) * ((PI_FX - theta) as int) >= 0) by (nonlinear_arith)
            requires
                0 <= theta as int,
                theta as int <= PI_FX as int,
        ;
        assert(4 * ((theta as int) * ((PI_FX - theta) as int)) <= (PI_FX as int) * (PI_FX as int))
            by (nonlinear_arith)
            requires
                0 <= theta as int <= PI_FX as int,
        ;
        assert((theta as int) * ((PI_FX - theta) as int) <= 0x4000_0000_0000int)
            by (nonlinear_arith)
            requires
                0 <= theta as int <= PI_FX as int,
                PI_FX == 205887i64,
        ;
    }
    let t: i128 = (theta as i128) * ((PI_FX - theta) as i128);
    let num: i128 = 16 * t * (ONE as i128);
    let den: i128 = 5 * (PI_FX as i128) * (PI_FX as i128) - 4 * t;
    let s: i128 = num / den;
    proof {
        assert(num as int <= (ONE as int) * (den as int)) by (nonlinear_arith)
            requires
                num as int == 16 * (t as int) * 65536,
                den as int == 5 * (PI_FX as int) * (PI_FX as int) - 4 * (t as int),
                4 * (t as int) <= (PI_FX as int) * (PI_FX as int),
                ONE == 65536i64,
                PI_FX == 205887i64,
        ;
        assert((num as int) / (den as int) <= ONE as int) by {
            vstd::arithmetic::div_mod::lemma_div_multiples_vanish(ONE as int, den as int);
            vstd::arithmetic::div_mod::lemma_div_is_ordered(
                num as int,
                (ONE as int) * (den as int),
                den as int,
            );
        }
        assert((num as int) / (den as int) >= 0) by (nonlinear_arith)
            requires
                num as int >= 0,
                den as int > 0,
        ;
    }
    s as i64
}

/// Sine; the result always lies in `[-ONE, ONE]`, and `fsin(0) == 0`.
pub fn fsin(x: i64) -> (r: i64)
    ensures
        r as int == s_fsin(x as int),
        -ONE <= r <= ONE,
        x == 0 ==> r == 0,
{
    let q: i128 = fx::tdiv_e(x as i128, TWO_PI_FX as i128);
    proof {
        fx::lemma_tdiv_bound(x as int, TWO_PI_FX as int);
    }
    let m0: i64 = ((x as i128) - q * (TWO_PI_FX as i128)) as i64;
    let m: i64 = if m0 < 0 {
        m0 + TWO_PI_FX
    } else {
        m0
    };
    if m < PI_FX {
        sin_half(m)
    } else {
        let theta: i64 = m - PI_FX;
        let theta: i64 = if theta > PI_FX {
            PI_FX
        } else {
            theta
        };
        let s: i64 = sin_half(theta);
        -s
    }
}

/// Cosine via the quarter-turn shift; the result lies in `[-ONE, ONE]`.
pub fn fcos(x: i64) -> (r: i64)
    ensures
        r as int == s_fcos(x as int),
        -ONE <= r <= ONE,
{
    let shifted: i64 = fx::fadd(x, HALF_PI_FX);
    fsin(shifted)
}

/// Tangent as the quotient of the two approximations; saturates where the
/// cosine approximation vanishes.
pub fn ftan(x: i64) -> (r: i64)
    ensures
        r as int == s_ftan(x as int),
        fx_ok(r as int),
{
    let s: i64 = fsin(x);
    let c: i64 = fcos(x);
    if c == 0 {
        if s >= 0 {
            FX_MAX
        } else {
            -FX_MAX
        }
    } else {
        fx::fdiv(s, c)
    }
}

/// Arctangent on `[0, ONE]`, clamped into `[0, QUARTER_PI_FX]`.
fn atan_unit(z: i64) -> (r: i64)
    requires
        0 <= z <= ONE,
    ensures
        r as int == s_atan_unit(z as int),
        0 <= r <= QUARTER_PI_FX,
{
    proof {
        assert(0 <= 17891 * (z as int) * ((ONE - z) as int) <= 0x8000_0000_0000_0000int)
            by (nonlinear_arith)
            requires
                0 <= z as int <= 65536,
                ONE == 65536i64,
        ;
        assert(0 <= (QUARTER_PI_FX as int) * (z as int) <= 0x8000_0000_0000_0000int)
            by (nonlinear_arith)
            requires
                0 <= z as int <= 65536,
                QUARTER_PI_FX == 51472i64,
        ;
    }
    let corr: i128 = 17891 * (z as i128) * ((ONE - z) as i128) / ((ONE as i128) * (ONE as i128));
    proof {
        assert(corr >= 0) by {
            assert(17891 * (z as int) * ((ONE - z) as int) >= 0);
        }
        assert(corr as int <= 17891 * (z as int) * ((ONE - z) as int)) by {
            vstd::arithmetic::div_mod::lemma_div_is_ordered_by_denominator(
                17891 * (z as int) * ((ONE - z) as int),
                1,
                (ONE as int) * (ONE as int),
            );
        }
    }
    let raw: i128 = ((QUARTER_PI_FX as i128) * (z as i128) + corr * (ONE as i128)) / (
    ONE as i128);
    let v: i64 = fx::clip_e(raw);
    fx::clamp(v, 0, QUARTER_PI_FX)
}

/// Two-argument arctangent; the result lies in `[-PI_FX, PI_FX]`, and is
/// non-negative whenever `y` is.
pub fn fatan2(y: i64, x: i64) -> (r: i64)
    requires
        fx_ok(y as int),
        fx_ok(x as int),
    ensures
        r as int == s_fatan2(y as int, x as int),
        -PI_FX <= r <= PI_FX,
        y >= 0 ==> r >= 0,
{
    let ay: i64 = if y < 0 {
        -y
    } else {
        y
    };
    let ax: i64 = if x < 0 {
        -x
    } else {
        x
    };
    if ax == 0 && ay == 0 {
        return 0;
    }
    let base: i64 = if ax >= ay {
        let d: i64 = if ax == 0 {
            1
        } else {
            ax
        };
        atan_unit(fx::clamp(fx::fdiv(ay, d), 0, ONE))
    } else {
        HALF_PI_FX - atan_unit(fx::clamp(fx::fdiv(ax, ay), 0, ONE))
    };
    let mag: i64 = if x >= 0 {
        base
    } else {
        PI_FX - base
    };
    let mag: i64 = fx::clamp(mag, 0, PI_FX);
    if y < 0 {
        -mag
    } else {
        mag
    }
}

/// Arccosine of a clamped cosine value; the result lies in `[0, PI_FX]`.
pub fn facos(x: i64) -> (r: i64)
    requires
        -ONE <= x <= ONE,
    ensures
        r as int == s_facos(x as int),
        0 <= r <= PI_FX,
{
    let x2: i64 = fx::fmul(x, x);
    let k: i64 = fx::fsub(ONE, x2);
    let k: i64 = if k < 0 {
        0
    } else {
        k
    };
    let s: i64 = fx::fsqrt(k);
    fatan2(s, x)
}

/// Natural logarithm of `x / ONE` for `x` in `(0, ONE]`: zero at `ONE`,
/// negative below it.
pub fn fln_unit(x: i64) -> (r: i64)
    requires
        1 <= x <= ONE,
    ensures
        r as int == s_fln_unit(x as int),
        r <= 0,
        fx_ok(r as int),
        x == ONE ==> r == 0,
{
    let mut m: i64 = x;
    let mut k: i64 = 0;
    while m < 32768 && k < 16
        invariant
            1 <= m <= ONE,
            0 <= k <= 16,
            x == ONE ==> k == 0 && m == ONE,
            s_ln_norm(x as int, 0) == s_ln_norm(m as int, k as int),
        decreases 16 - k,
    {
        m = m * 2;
        k = k + 1;
    }
    proof {
        assert(s_ln_norm(m as int, k as int) == (m as int, k as int));
    }
    let m: i64 = if m < 32768 {
        32768
    } else {
        m
    };
    let y: i64 = ONE - m;
    proof {
        assert(0 <= (y as int) * (y as int) <= 0x4000_0000int) by (nonlinear_arith)
            requires
                0 <= y as int <= 32768,
        ;
        assert(0 <= (y as int) * (y as int) * (y as int) <= 0x8000_0000_0000int)
            by (nonlinear_arith)
            requires
                0 <= y as int <= 32768,
        ;
    }
    let y2: i128 = (y as i128) * (y as i128) / (2 * (ONE as i128));
    let y3: i128 = (y as i128) * (y as i128) * (y as i128) / (3 * (ONE as i128) * (ONE as i128));
    proof {
        assert(((y as int) * (y as int)) / (2 * (ONE as int)) >= 0);
        assert(((y as int) * (y as int) * (y as int)) / (3 * (ONE as int) * (ONE as int)) >= 0);
        assert(((y as int) * (y as int)) / (2 * (ONE as int)) <= 0x4000_0000int) by {
            vstd::arithmetic::div_mod::lemma_div_is_ordered_by_denominator(
                (y as int) * (y as int),
                1,
                2 * (ONE as int),
            );
        }
        assert(((y as int) * (y as int) * (y as int)) / (3 * (ONE as int) * (ONE as int))
            <= 0x8000_0000_0000int) by {
            vstd::arithmetic::div_mod::lemma_div_is_ordered_by_denominator(
                (y as int) * (y as int) * (y as int),
                1,
                3 * (ONE as int) * (ONE as int),
            );
        }
    }
    let series: i64 = if y == 0 {
        0
    } else {
        y + (y2 as i64) + (y3 as i64)
    };
    let r: i64 = -(series + k * LN2_FX);
    r
}

} // verus!
