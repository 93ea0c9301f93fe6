//! Three-component fixed-point vectors, used as points, directions and
//! linear colors.
//!
//! Each executable operation has a spec twin (`v_add`, `v_dot`, ...) stating
//! its exact integer result, so contracts elsewhere can speak about vector
//! arithmetic componentwise.
use vstd::prelude::*;
use crate::fx;
use crate::fx::{ONE, clip, tdiv, fx_add, fx_sub, fx_neg, fx_mul, fx_div, fx_ok, isqrt};

verus! {

#[derive(Clone, Copy, PartialEq, Eq, Structural, Debug)]
pub struct Vec3 {
    pub x: i64,
    pub y: i64,
    pub z: i64,
}

pub open spec fn v_ok(v: Vec3) -> bool {
    fx_ok(v.x as int) && fx_ok(v.y as int) && fx_ok(v.z as int)
}

/// Components no larger than 2^30 in magnitude: the bound under which the
/// single-rounding dot and reflection formulas stay within `i128`.
pub open spec fn v_small(v: Vec3) -> bool {
    -0x4000_0000 <= v.x <= 0x4000_0000 && -0x4000_0000 <= v.y <= 0x4000_0000 && -0x4000_0000
        <= v.z <= 0x4000_0000
}

pub open spec fn v_add(a: Vec3, b: Vec3) -> Vec3 {
    Vec3 {
        x: fx_add(a.x as int, b.x as int) as i64,
        y: fx_add(a.y as int, b.y as int) as i64,
        z: fx_add(a.z as int, b.z as int) as i64,
    }
}

pub open spec fn v_sub(a: Vec3, b: Vec3) -> Vec3 {
    Vec3 {
        x: fx_sub(a.x as int, b.x as int) as i64,
        y: fx_sub(a.y as int, b.y as int) as i64,
        z: fx_sub(a.z as int, b.z as int) as i64,
    }
}

pub open spec fn v_neg(a: Vec3) -> Vec3 {
    Vec3 {
        x: fx_neg(a.x as int) as i64,
        y: fx_neg(a.y as int) as i64,
        z: fx_neg(a.z as int) as i64,
    }
}

pub open spec fn v_elemul(a: Vec3, b: Vec3) -> Vec3 {
    Vec3 {
        x: fx_mul(a.x as int, b.x as int) as i64,
        y: fx_mul(a.y as int, b.y as int) as i64,
        z: fx_mul(a.z as int, b.z as int) as i64,
    }
}

pub open spec fn v_scale(a: Vec3, s: int) -> Vec3 {
    Vec3 {
        x: fx_mul(a.x as int, s) as i64,
        y: fx_mul(a.y as int, s) as i64,
        z: fx_mul(a.z as int, s) as i64,
    }
}

pub open spec fn v_divs(a: Vec3, s: int) -> Vec3 {
    Vec3 {
        x: fx_div(a.x as int, s) as i64,
        y: fx_div(a.y as int, s) as i64,
        z: fx_div(a.z as int, s) as i64,
    }
}

/// Unscaled dot product: the sum of raw component products (units of
/// `ONE^2`).
pub open spec fn raw_dot(a: Vec3, b: Vec3) -> int {
    (a.x as int) * (b.x as int) + (a.y as int) * (b.y as int) + (a.z as int) * (b.z as int)
}

/// Fixed-point dot product, rounded once.
pub open spec fn v_dot(a: Vec3, b: Vec3) -> int {
    clip(tdiv(raw_dot(a, b), ONE as int))
}

pub open spec fn v_sqlen(a: Vec3) -> int {
    v_dot(a, a)
}

pub open spec fn v_len(a: Vec3) -> int {
    isqrt(v_sqlen(a) * (ONE as int))
}

pub open spec fn v_cross(a: Vec3, b: Vec3) -> Vec3 {
    Vec3 {
        x: fx_sub(fx_mul(a.y as int, b.z as int), fx_mul(a.z as int, b.y as int)) as i64,
        y: fx_sub(fx_mul(a.z as int, b.x as int), fx_mul(a.x as int, b.z as int)) as i64,
        z: fx_sub(fx_mul(a.x as int, b.y as int), fx_mul(a.y as int, b.x as int)) as i64,
    }
}

/// Mirror of the executable reflection: each component rounded once.
pub open spec fn v_reflect(v: Vec3, n: Vec3) -> Vec3 {
    Vec3 {
        x: clip(v.x - tdiv(2 * raw_dot(v, n) * (n.x as int), (ONE as int) * (ONE as int))) as i64,
        y: clip(v.y - tdiv(2 * raw_dot(v, n) * (n.y as int), (ONE as int) * (ONE as int))) as i64,
        z: clip(v.z - tdiv(2 * raw_dot(v, n) * (n.z as int), (ONE as int) * (ONE as int))) as i64,
    }
}

impl Vec3 {
    pub fn new(x: i64, y: i64, z: i64) -> (v: Vec3)
        ensures
            v == (Vec3 { x, y, z }),
    {
        Vec3 { x, y, z }
    }

    pub fn zero() -> (v: Vec3)
        ensures
            v == (Vec3 { x: 0i64, y: 0i64, z: 0i64 }),
    {
        Vec3 { x: 0, y: 0, z: 0 }
    }

    pub fn ones() -> (v: Vec3)
        ensures
            v == (Vec3 { x: ONE, y: ONE, z: ONE }),
    {
        Vec3 { x: ONE, y: ONE, z: ONE }
    }

    pub fn copy(&mut self, other: Vec3)
        ensures
            *final(self) == other,
    {
        self.x = other.x;
        self.y = other.y;
        self.z = other.z;
    }

    pub fn vadd(&self, other: &Vec3) -> (r: Vec3)
        ensures
            r == v_add(*self, *other),
    {
        Vec3 { x: fx::fadd(self.x, other.x), y: fx::fadd(self.y, other.y), z: fx::fadd(
            self.z,
            other.z,
        ) }
    }

    pub fn vsub(&self, other: &Vec3) -> (r: Vec3)
        ensures
            r == v_sub(*self, *other),
    {
        Vec3 { x: fx::fsub(self.x, other.x), y: fx::fsub(self.y, other.y), z: fx::fsub(
            self.z,
            other.z,
        ) }
    }

    pub fn vneg(&self) -> (r: Vec3)
        ensures
            r == v_neg(*self),
    {
        Vec3 { x: fx::fneg(self.x), y: fx::fneg(self.y), z: fx::fneg(self.z) }
    }

    pub fn elemul(a: Vec3, b: Vec3) -> (r: Vec3)
        ensures
            r == v_elemul(a, b),
    {
        Vec3 { x: fx::fmul(a.x, b.x), y: fx::fmul(a.y, b.y), z: fx::fmul(a.z, b.z) }
    }

    pub fn vscale(&self, s: i64) -> (r: Vec3)
        ensures
            r == v_scale(*self, s as int),
    {
        Vec3 { x: fx::fmul(self.x, s), y: fx::fmul(self.y, s), z: fx::fmul(self.z, s) }
    }

    pub fn vdivs(&self, s: i64) -> (r: Vec3)
        requires
            s != 0,
        ensures
            r == v_divs(*self, s as int),
    {
        Vec3 { x: fx::fdiv(self.x, s), y: fx::fdiv(self.y, s), z: fx::fdiv(self.z, s) }
    }

    pub fn vdot(&self, other: &Vec3) -> (r: i64)
        requires
            v_ok(*self),
            v_ok(*other),
        ensures
            r as int == v_dot(*self, *other),
    {
        proof {
            lemma_raw_dot_bound(*self, *other);
        }
        let p: i128 = (self.x as i128) * (other.x as i128) + (self.y as i128) * (other.y as i128)
            + (self.z as i128) * (other.z as i128);
        let q: i128 = fx::tdiv_e(p, ONE as i128);
        fx::clip_e(q)
    }

    pub fn cross(a: Vec3, b: Vec3) -> (r: Vec3)
        ensures
            r == v_cross(a, b),
    {
        Vec3 {
            x: fx::fsub(fx::fmul(a.y, b.z), fx::fmul(a.z, b.y)),
            y: fx::fsub(fx::fmul(a.z, b.x), fx::fmul(a.x, b.z)),
            z: fx::fsub(fx::fmul(a.x, b.y), fx::fmul(a.y, b.x)),
        }
    }

    pub fn squared_length(&self) -> (r: i64)
        requires
            v_ok(*self),
        ensures
            r as int == v_sqlen(*self),
            r >= 0,
    {
        proof {
            lemma_sqlen_nonneg(*self);
        }
        self.vdot(self)
    }

    pub fn length(&self) -> (r: i64)
        requires
            v_ok(*self),
        ensures
            r as int == v_len(*self),
            r >= 0,
            fx_ok(r as int),
    {
        let sl: i64 = self.squared_length();
        fx::fsqrt(sl)
    }

    /// Normalize; the caller must keep zero-length vectors away.
    pub fn unit(&self) -> (r: Vec3)
        requires
            v_ok(*self),
            v_sqlen(*self) > 0,
        ensures
            r == v_divs(*self, v_len(*self)),
    {
        let len: i64 = self.length();
        proof {
            lemma_len_pos(*self);
        }
        self.vdivs(len)
    }

    /// `reflect(v, n) = v - 2 (v . n) n`, each component rounded once.
    pub fn reflect(v: Vec3, n: Vec3) -> (r: Vec3)
        requires
            v_small(v),
            v_small(n),
        ensures
            r == v_reflect(v, n),
    {
        proof {
            lemma_small_dot_bound(v, n);
            fx::lemma_mul_bound(
                2 * raw_dot(v, n),
                n.x as int,
                0x2_0000_0000_0000_0000int,
                0x4000_0000int,
            );
            fx::lemma_mul_bound(
                2 * raw_dot(v, n),
                n.y as int,
                0x2_0000_0000_0000_0000int,
                0x4000_0000int,
            );
            fx::lemma_mul_bound(
                2 * raw_dot(v, n),
                n.z as int,
                0x2_0000_0000_0000_0000int,
                0x4000_0000int,
            );
            assert((ONE as int) * (ONE as int) == 0x1_0000_0000int) by (nonlinear_arith)
                requires
                    ONE == 65536i64,
            ;
        }
        let d: i128 = (v.x as i128) * (n.x as i128) + (v.y as i128) * (n.y as i128) + (
        v.z as i128) * (n.z as i128);
        let sc: i128 = 0x1_0000_0000;
        let rx: i128 = (v.x as i128) - fx::tdiv_e(2 * d * (n.x as i128), sc);
        let ry: i128 = (v.y as i128) - fx::tdiv_e(2 * d * (n.y as i128), sc);
        let rz: i128 = (v.z as i128) - fx::tdiv_e(2 * d * (n.z as i128), sc);
        Vec3 { x: fx::clip_e(rx), y: fx::clip_e(ry), z: fx::clip_e(rz) }
    }
}

impl Vec3 {
    /// `refract(uv, n, eta_ratio)`: Snell's law from the perpendicular and
    /// parallel parts of the incident direction.
    pub fn refract(uv: Vec3, n: Vec3, etai_over_etat: i64) -> (r: Vec3)
        requires
            v_ok(uv),
            v_ok(n),
        ensures
            r == v_refract(uv, n, etai_over_etat as int),
    {
        let d: i64 = uv.vneg().vdot(&n);
        let cos_theta: i64 = if d < ONE {
            d
        } else {
            ONE
        };
        let perp: Vec3 = uv.vadd(&n.vscale(cos_theta)).vscale(etai_over_etat);
        let k: i64 = fx::fsub(ONE, perp.squared_length());
        let ka: i64 = if k < 0 {
            -k
        } else {
            k
        };
        let par: Vec3 = n.vscale(fx::fneg(fx::fsqrt(ka)));
        perp.vadd(&par)
    }
}

/// Each raw component product of two representable vectors is bounded, so
/// the dot product fits comfortably inside `i128`.
pub proof fn lemma_raw_dot_pair_bound(a: Vec3, b: Vec3)
    requires
        v_ok(a),
        v_ok(b),
    ensures
        (0 - 0x1_0000_0000_0000_0000_0000_0000int) < raw_dot(a, b)
            < 0x1_0000_0000_0000_0000_0000_0000int,
        (0 - 0x4000_0000_0000_0000_0000_0000int) <= (a.x as int) * (b.x as int)
            <= 0x4000_0000_0000_0000_0000_0000int,
        (0 - 0x4000_0000_0000_0000_0000_0000int) <= (a.y as int) * (b.y as int)
            <= 0x4000_0000_0000_0000_0000_0000int,
        (0 - 0x4000_0000_0000_0000_0000_0000int) <= (a.z as int) * (b.z as int)
            <= 0x4000_0000_0000_0000_0000_0000int,
{
    lemma_raw_dot_bound(a, b);
}

proof fn lemma_raw_dot_bound(a: Vec3, b: Vec3)
    requires
        v_ok(a),
        v_ok(b),
    ensures
        (0 - 0x1_0000_0000_0000_0000_0000_0000int) < raw_dot(a, b)
            < 0x1_0000_0000_0000_0000_0000_0000int,
        (0 - 0x4000_0000_0000_0000_0000_0000int) <= (a.x as int) * (b.x as int)
            <= 0x4000_0000_0000_0000_0000_0000int,
        (0 - 0x4000_0000_0000_0000_0000_0000int) <= (a.y as int) * (b.y as int)
            <= 0x4000_0000_0000_0000_0000_0000int,
        (0 - 0x4000_0000_0000_0000_0000_0000int) <= (a.z as int) * (b.z as int)
            <= 0x4000_0000_0000_0000_0000_0000int,
{
    assert((0 - 0x4000_0000_0000_0000_0000_0000int) <= (a.x as int) * (b.x as int)
        <= 0x4000_0000_0000_0000_0000_0000int) by (nonlinear_arith)
        requires
            (0 - 0x4000_0000_0000int) <= (a.x as int) <= 0x4000_0000_0000int,
            (0 - 0x4000_0000_0000int) <= (b.x as int) <= 0x4000_0000_0000int,
    ;
    assert((0 - 0x4000_0000_0000_0000_0000_0000int) <= (a.y as int) * (b.y as int)
        <= 0x4000_0000_0000_0000_0000_0000int) by (nonlinear_arith)
        requires
            (0 - 0x4000_0000_0000int) <= (a.y as int) <= 0x4000_0000_0000int,
            (0 - 0x4000_0000_0000int) <= (b.y as int) <= 0x4000_0000_0000int,
    ;
    assert((0 - 0x4000_0000_0000_0000_0000_0000int) <= (a.z as int) * (b.z as int)
        <= 0x4000_0000_0000_0000_0000_0000int) by (nonlinear_arith)
        requires
            (0 - 0x4000_0000_0000int) <= (a.z as int) <= 0x4000_0000_0000int,
            (0 - 0x4000_0000_0000int) <= (b.z as int) <= 0x4000_0000_0000int,
    ;
}

proof fn lemma_small_dot_bound(a: Vec3, b: Vec3)
    requires
        v_small(a),
        v_small(b),
    ensures
        (0 - 0x1_0000_0000_0000_0000int) < raw_dot(a, b) < 0x1_0000_0000_0000_0000int,
        (0 - 0x1000_0000_0000_0000int) <= (a.x as int) * (b.x as int) <= 0x1000_0000_0000_0000int,
        (0 - 0x1000_0000_0000_0000int) <= (a.y as int) * (b.y as int) <= 0x1000_0000_0000_0000int,
        (0 - 0x1000_0000_0000_0000int) <= (a.z as int) * (b.z as int) <= 0x1000_0000_0000_0000int,
{
    assert((0 - 0x1000_0000_0000_0000int) <= (a.x as int) * (b.x as int)
        <= 0x1000_0000_0000_0000int) by (nonlinear_arith)
        requires
            -0x4000_0000 <= (a.x as int) <= 0x4000_0000,
            -0x4000_0000 <= (b.x as int) <= 0x4000_0000,
    ;
    assert((0 - 0x1000_0000_0000_0000int) <= (a.y as int) * (b.y as int)
        <= 0x1000_0000_0000_0000int) by (nonlinear_arith)
        requires
            -0x4000_0000 <= (a.y as int) <= 0x4000_0000,
            -0x4000_0000 <= (b.y as int) <= 0x4000_0000,
    ;
    assert((0 - 0x1000_0000_0000_0000int) <= (a.z as int) * (b.z as int)
        <= 0x1000_0000_0000_0000int) by (nonlinear_arith)
        requires
            -0x4000_0000 <= (a.z as int) <= 0x4000_0000,
            -0x4000_0000 <= (b.z as int) <= 0x4000_0000,
    ;
}

/// Negating one factor negates the raw dot product.
pub proof fn lemma_raw_dot_neg(a: Vec3, b: Vec3)
    requires
        v_ok(b),
    ensures
        raw_dot(a, v_neg(b)) == -raw_dot(a, b),
{
    assert((a.x as int) * (-(b.x as int)) == -((a.x as int) * (b.x as int))) by (nonlinear_arith);
    assert((a.y as int) * (-(b.y as int)) == -((a.y as int) * (b.y as int))) by (nonlinear_arith);
    assert((a.z as int) * (-(b.z as int)) == -((a.z as int) * (b.z as int))) by (nonlinear_arith);
}

pub proof fn lemma_sqlen_nonneg(v: Vec3)
    ensures
        raw_dot(v, v) >= 0,
        v_sqlen(v) >= 0,
{
    assert((v.x as int) * (v.x as int) >= 0) by (nonlinear_arith);
    assert((v.y as int) * (v.y as int) >= 0) by (nonlinear_arith);
    assert((v.z as int) * (v.z as int) >= 0) by (nonlinear_arith);
}

proof fn lemma_len_pos(v: Vec3)
    requires
        v_sqlen(v) > 0,
    ensures
        v_len(v) > 0,
{
    fx::lemma_isqrt_exists(v_sqlen(v) * (ONE as int));
    let r = isqrt(v_sqlen(v) * (ONE as int));
    assert(v_sqlen(v) * (ONE as int) >= ONE as int) by (nonlinear_arith)
        requires
            v_sqlen(v) >= 1,
            ONE == 65536i64,
    ;
    if r == 0 {
        assert((r + 1) * (r + 1) == 1) by (nonlinear_arith)
            requires
                r == 0,
        ;
    }
}

/// A vector strictly inside the unit sphere, as the random samplers produce.
pub open spec fn in_unit_sphere(v: Vec3) -> bool {
    raw_dot(v, v) < (ONE as int) * (ONE as int) && v_small(v)
}

/// A vector strictly inside the unit disk of the xy plane.
pub open spec fn in_unit_disk(v: Vec3) -> bool {
    raw_dot(v, v) < (ONE as int) * (ONE as int) && v_small(v) && v.z == 0
}

/// Mirror of the executable refraction: the perpendicular/parallel
/// decomposition of the incident direction under Snell's law.
pub open spec fn v_refract(uv: Vec3, n: Vec3, etai_over_etat: int) -> Vec3 {
    let d = v_dot(v_neg(uv), n);
    let cos_theta = if d < ONE as int {
        d
    } else {
        ONE as int
    };
    let perp = v_scale(v_add(uv, v_scale(n, cos_theta)), etai_over_etat);
    let k = fx_sub(ONE as int, v_sqlen(perp));
    let par = v_scale(n, fx_neg(isqrt(fx::sabs(k) * (ONE as int))));
    v_add(perp, par)
}

/// On an axis-aligned unit normal the single-rounding reflection is exact,
/// so the executable reflection applied twice restores the vector.
pub proof fn lemma_reflect_involution_axis(v: Vec3, n: Vec3)
    requires
        v_small(v),
        (n.x == 0 && n.y == 0 && (n.z == ONE || n.z == -ONE)) || (n.x == 0 && n.z == 0 && (n.y
            == ONE || n.y == -ONE)) || (n.y == 0 && n.z == 0 && (n.x == ONE || n.x == -ONE)),
    ensures
        v_reflect(v_reflect(v, n), n) == v,
{
    lemma_reflect_axis_once(v, n);
    lemma_reflect_axis_once(v_reflect(v, n), n);
}

/// One executable reflection about an axis-aligned unit normal flips the
/// axis component exactly and keeps the others.
proof fn lemma_reflect_axis_once(v: Vec3, n: Vec3)
    requires
        v_small(v),
        (n.x == 0 && n.y == 0 && (n.z == ONE || n.z == -ONE)) || (n.x == 0 && n.z == 0 && (n.y
            == ONE || n.y == -ONE)) || (n.y == 0 && n.z == 0 && (n.x == ONE || n.x == -ONE)),
    ensures
        v_small(v_reflect(v, n)),
        n.x != 0 ==> v_reflect(v, n) == (Vec3 { x: (-v.x) as i64, y: v.y, z: v.z }),
        n.y != 0 ==> v_reflect(v, n) == (Vec3 { x: v.x, y: (-v.y) as i64, z: v.z }),
        n.z != 0 ==> v_reflect(v, n) == (Vec3 { x: v.x, y: v.y, z: (-v.z) as i64 }),
{
    let sc = (ONE as int) * (ONE as int);
    fx::lemma_tdiv_zero(sc);
    if n.z != 0 {
        assert(raw_dot(v, n) == (v.z as int) * (n.z as int)) by (nonlinear_arith)
            requires
                n.x == 0i64 && n.y == 0i64,
        ;
        assert(2 * ((v.z as int) * (n.z as int)) * (n.z as int) == (2 * (v.z as int)) * sc)
            by (nonlinear_arith)
            requires
                n.z == ONE || n.z == -ONE,
                ONE == 65536i64,
                sc == (ONE as int) * (ONE as int),
        ;
        fx::lemma_tdiv_exact(2 * (v.z as int), sc);
        assert(2 * raw_dot(v, n) * (n.x as int) == 0) by (nonlinear_arith)
            requires
                n.x == 0i64,
        ;
        assert(2 * raw_dot(v, n) * (n.y as int) == 0) by (nonlinear_arith)
            requires
                n.y == 0i64,
        ;
    } else if n.y != 0 {
        assert(raw_dot(v, n) == (v.y as int) * (n.y as int)) by (nonlinear_arith)
            requires
                n.x == 0i64 && n.z == 0i64,
        ;
        assert(2 * ((v.y as int) * (n.y as int)) * (n.y as int) == (2 * (v.y as int)) * sc)
            by (nonlinear_arith)
            requires
                n.y == ONE || n.y == -ONE,
                ONE == 65536i64,
                sc == (ONE as int) * (ONE as int),
        ;
        fx::lemma_tdiv_exact(2 * (v.y as int), sc);
        assert(2 * raw_dot(v, n) * (n.x as int) == 0) by (nonlinear_arith)
            requires
                n.x == 0i64,
        ;
        assert(2 * raw_dot(v, n) * (n.z as int) == 0) by (nonlinear_arith)
            requires
                n.z == 0i64,
        ;
    } else {
        assert(raw_dot(v, n) == (v.x as int) * (n.x as int)) by (nonlinear_arith)
            requires
                n.y == 0i64 && n.z == 0i64,
        ;
        assert(2 * ((v.x as int) * (n.x as int)) * (n.x as int) == (2 * (v.x as int)) * sc)
            by (nonlinear_arith)
            requires
                n.x == ONE || n.x == -ONE,
                ONE == 65536i64,
                sc == (ONE as int) * (ONE as int),
        ;
        fx::lemma_tdiv_exact(2 * (v.x as int), sc);
        assert(2 * raw_dot(v, n) * (n.y as int) == 0) by (nonlinear_arith)
            requires
                n.y == 0i64,
        ;
        assert(2 * raw_dot(v, n) * (n.z as int) == 0) by (nonlinear_arith)
            requires
                n.z == 0i64,
        ;
    }
}

/// One component of the exact (division-free) reflection model: reflection
/// about `n` scaled by the squared length `nn` of `n`.
pub open spec fn refl_sc(vc: int, nc: int, nn: int, d: int) -> int {
    nn * vc - 2 * d * nc
}

/// Reflection involution, stated over the exact algebraic model that the
/// executable `reflect` rounds: reflecting twice about the same normal
/// multiplies the vector by the squared normal length twice.  For a
/// fixed-point unit normal (`nn == ONE * ONE`) this is exactly
/// `reflect(reflect(v, n), n) == v`, with both sides carried at scale
/// `(ONE * ONE)^2`.
pub proof fn lemma_reflect_involution(
    vx: int,
    vy: int,
    vz: int,
    nx: int,
    ny: int,
    nz: int,
    nn: int,
    d: int,
    d2: int,
)
    requires
        nn == nx * nx + ny * ny + nz * nz,
        d == vx * nx + vy * ny + vz * nz,
        d2 == refl_sc(vx, nx, nn, d) * nx + refl_sc(vy, ny, nn, d) * ny + refl_sc(vz, nz, nn, d)
            * nz,
    ensures
        refl_sc(refl_sc(vx, nx, nn, d), nx, nn, d2) == nn * nn * vx,
        refl_sc(refl_sc(vy, ny, nn, d), ny, nn, d2) == nn * nn * vy,
        refl_sc(refl_sc(vz, nz, nn, d), nz, nn, d2) == nn * nn * vz,
{
    assert((nn * vx - 2 * d * nx) * nx == nn * (vx * nx) - 2 * d * (nx * nx))
        by (nonlinear_arith);
    assert((nn * vy - 2 * d * ny) * ny == nn * (vy * ny) - 2 * d * (ny * ny))
        by (nonlinear_arith);
    assert((nn * vz - 2 * d * nz) * nz == nn * (vz * nz) - 2 * d * (nz * nz))
        by (nonlinear_arith);
    assert(nn * (vx * nx) + nn * (vy * ny) + nn * (vz * nz) == nn * (vx * nx + vy * ny + vz * nz))
        by (nonlinear_arith);
    assert(2 * d * (nx * nx) + 2 * d * (ny * ny) + 2 * d * (nz * nz) == 2 * d * (nx * nx + ny * ny
        + nz * nz)) by (nonlinear_arith);
    assert(d2 == nn * d - 2 * d * nn);
    assert(nn * d - 2 * d * nn == -(nn * d)) by (nonlinear_arith);
    assert(nn * (nn * vx - 2 * d * nx) - 2 * (-(nn * d)) * nx == nn * nn * vx)
        by (nonlinear_arith);
    assert(nn * (nn * vy - 2 * d * ny) - 2 * (-(nn * d)) * ny == nn * nn * vy)
        by (nonlinear_arith);
    assert(nn * (nn * vz - 2 * d * nz) - 2 * (-(nn * d)) * nz == nn * nn * vz)
        by (nonlinear_arith);
}

} // verus!
