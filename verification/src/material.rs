//! Materials: given an incoming ray and a surface hit, decide whether light
//! scatters and with what attenuation and outgoing direction.
use vstd::prelude::*;
use crate::fx;
use crate::fx::{ONE, fx_ok};
use crate::vec3::{Vec3, v_ok, v_add, v_small, v_dot, v_neg, v_reflect, v_refract, v_scale, v_divs, v_len, in_unit_sphere, v_sqlen};
use crate::ray::{Ray, ray_ok};
use crate::shapes::{Hitrec, hitrec_ok};
use crate::texture::{Texture, SolidColor, texture_wf, s_value, iclamp};
use crate::rng::{rand_in_unit_sphere, randfx};

verus! {

#[derive(Debug)]
pub enum Material {
    Neg(Neg),
    Lamber(Lamber),
    Metal(Metal),
    Dielectric(Dielectric),
    DiffuseLight(DiffuseLight),
    Isotropic(Isotropic),
}

/// The material that scatters nothing and emits nothing.
#[derive(Debug, Clone, Copy)]
pub struct Neg {}

#[derive(Debug)]
pub struct Lamber {
    pub lbc: Texture,
}

#[derive(Debug)]
pub struct Metal {
    pub lbc: Vec3,
    pub fuzz: i64,
}

#[derive(Debug)]
pub struct Dielectric {
    pub ref_idx: i64,
}

#[derive(Debug)]
pub struct DiffuseLight {
    pub emit: Texture,
}

#[derive(Debug)]
pub struct Isotropic {
    pub lbc: Texture,
}

pub open spec fn material_wf(m: Material) -> bool {
    match m {
        Material::Neg(_) => true,
        Material::Lamber(l) => texture_wf(l.lbc),
        Material::Metal(mt) => v_ok(mt.lbc) && fx_ok(mt.fuzz as int),
        Material::Dielectric(d) => 0 < d.ref_idx <= crate::fx::FX_MAX,
        Material::DiffuseLight(dl) => texture_wf(dl.emit),
        Material::Isotropic(i) => texture_wf(i.lbc),
    }
}

impl Neg {
    pub fn new() -> (m: Neg)
        ensures
            m == (Neg {  }),
    {
        Neg {  }
    }
}

impl Lamber {
    pub fn new(lbc: Texture) -> (m: Lamber)
        ensures
            m.lbc == lbc,
    {
        Lamber { lbc }
    }

    pub fn cnew(c: Vec3) -> (m: Lamber)
        ensures
            m.lbc == Texture::Solid(SolidColor { color: c }),
    {
        Lamber { lbc: Texture::Solid(SolidColor::new(c)) }
    }
}

impl Metal {
    pub fn new(lbc: Vec3, fuzz: i64) -> (m: Metal)
        ensures
            m.lbc == lbc,
            m.fuzz == fuzz,
    {
        Metal { lbc, fuzz }
    }

    pub fn color(&self) -> (c: Vec3)
        ensures
            c == self.lbc,
    {
        self.lbc
    }

    pub fn fuz(&self) -> (f: i64)
        ensures
            f == self.fuzz,
    {
        self.fuzz
    }
}

impl Dielectric {
    pub fn new(ref_idx: i64) -> (m: Dielectric)
        ensures
            m.ref_idx == ref_idx,
    {
        Dielectric { ref_idx }
    }

    pub fn rdx(&self) -> (r: i64)
        ensures
            r == self.ref_idx,
    {
        self.ref_idx
    }
}

impl DiffuseLight {
    pub fn new(emit: Texture) -> (m: DiffuseLight)
        ensures
            m.emit == emit,
    {
        DiffuseLight { emit }
    }

    pub fn cnew(c: Vec3) -> (m: DiffuseLight)
        ensures
            m.emit == Texture::Solid(SolidColor { color: c }),
    {
        DiffuseLight { emit: Texture::Solid(SolidColor::new(c)) }
    }
}

impl Isotropic {
    pub fn new(lbc: Texture) -> (m: Isotropic)
        ensures
            m.lbc == lbc,
    {
        Isotropic { lbc }
    }

    pub fn cnew(c: Vec3) -> (m: Isotropic)
        ensures
            m.lbc == Texture::Solid(SolidColor { color: c }),
    {
        Isotropic { lbc: Texture::Solid(SolidColor::new(c)) }
    }
}

/// Schlick's approximation of Fresnel reflectance, over the fixed-point
/// operations.
pub open spec fn s_schlick(cosine: int, ref_idx: int) -> int {
    let r0 = fx::fx_div(fx::fx_sub(ONE as int, ref_idx), fx::fx_add(ONE as int, ref_idx));
    let r0s = fx::fx_mul(r0, r0);
    let p1 = fx::fx_sub(ONE as int, cosine);
    let p5 = fx::fx_mul(p1, fx::fx_mul(p1, fx::fx_mul(p1, fx::fx_mul(p1, p1))));
    fx::fx_add(r0s, fx::fx_mul(fx::fx_sub(ONE as int, r0s), p5))
}

/// `r0 + (1 - r0) (1 - cos)^5` with `r0` the normal-incidence reflectance.
pub fn schlick(cosine: i64, ref_idx: i64) -> (r: i64)
    requires
        ref_idx > 0,
        ref_idx <= crate::fx::FX_MAX,
    ensures
        r as int == s_schlick(cosine as int, ref_idx as int),
{
    let den: i64 = fx::fadd(ONE, ref_idx);
    let r0: i64 = fx::fdiv(fx::fsub(ONE, ref_idx), den);
    let r0s: i64 = fx::fmul(r0, r0);
    let p1: i64 = fx::fsub(ONE, cosine);
    let p5: i64 = fx::fmul(p1, fx::fmul(p1, fx::fmul(p1, fx::fmul(p1, p1))));
    fx::fadd(r0s, fx::fmul(fx::fsub(ONE, r0s), p5))
}

/// Mirror of `small_clamp`.
pub open spec fn s_small_clamp(v: Vec3) -> Vec3 {
    Vec3 {
        x: iclamp(v.x as int, -0x4000_0000, 0x4000_0000) as i64,
        y: iclamp(v.y as int, -0x4000_0000, 0x4000_0000) as i64,
        z: iclamp(v.z as int, -0x4000_0000, 0x4000_0000) as i64,
    }
}

/// Mirror of `unit_or_zero`: the normalized direction, or zero where the
/// direction is too short to normalize.
pub open spec fn s_unit_or_zero(v: Vec3) -> Vec3 {
    if v_sqlen(v) > 0 {
        v_divs(v, v_len(v))
    } else {
        Vec3 { x: 0i64, y: 0i64, z: 0i64 }
    }
}

/// The unit incident direction as the dielectric and metal arms see it.
pub open spec fn s_in_dir(d: Vec3) -> Vec3 {
    s_small_clamp(s_unit_or_zero(d))
}

/// The refraction ratio a dielectric applies at a hit.
pub open spec fn s_diel_rate(ref_idx: int, front_face: bool) -> int {
    if front_face {
        fx::fx_div(ONE as int, ref_idx)
    } else {
        ref_idx
    }
}

/// The rounded sine of the incidence angle the dielectric tests for total
/// internal reflection.
pub open spec fn s_diel_sin(up: Vec3, nf: Vec3) -> int {
    let tc = v_dot(v_neg(up), nf);
    let ct = if tc < ONE as int {
        tc
    } else {
        ONE as int
    };
    let c2 = fx::fx_sub(ONE as int, fx::fx_mul(ct, ct));
    let c2p = if c2 < 0 {
        0
    } else {
        c2
    };
    fx::fx_sqrt(c2p)
}

/// Clamp a vector into the range where the single-rounding reflection
/// formulas are defined; genuine unit-length vectors pass unchanged.
fn small_clamp(v: Vec3) -> (r: Vec3)
    ensures
        r == s_small_clamp(v),
        v_small(r),
        v_small(v) ==> r == v,
{
    Vec3 {
        x: fx::clamp(v.x, -0x4000_0000, 0x4000_0000),
        y: fx::clamp(v.y, -0x4000_0000, 0x4000_0000),
        z: fx::clamp(v.z, -0x4000_0000, 0x4000_0000),
    }
}

/// A unit-length copy of a direction, or zero where the direction is too
/// short to normalize.
fn unit_or_zero(v: Vec3) -> (r: Vec3)
    requires
        v_ok(v),
    ensures
        r == s_unit_or_zero(v),
        v_ok(r),
{
    let sl: i64 = v.squared_length();
    if sl > 0 {
        let u: Vec3 = v.unit();
        u
    } else {
        Vec3 { x: 0, y: 0, z: 0 }
    }
}

impl Material {
    /// Decide how light scatters at a hit: `false` means pure absorption.
    /// On `true`, `att` carries the attenuation and `scat` the outgoing ray.
    pub fn scatter(
        &self,
        rng: &mut rand::rngs::SmallRng,
        r_in: &Ray,
        rec: &Hitrec,
        att: &mut Vec3,
        scat: &mut Ray,
    ) -> (b: bool)
        requires
            material_wf(*self),
            ray_ok(*r_in),
            hitrec_ok(*rec),
        ensures
            self is Neg ==> !b && *final (att) == *old(att) && *final (scat) == *old(scat),
            self is DiffuseLight ==> !b && *final (att) == *old(att) && *final (scat) == *old(scat),
            self is Lamber ==> b && final (scat).org == rec.p && final (scat).tm == r_in.tm
                && v_ok(*final (att)) && (exists|s: Vec3|
                in_unit_sphere(s) && final (scat).dir == v_add(rec.nf, s)),
            self matches Material::Lamber(l) ==> *final (att) == s_value(
                l.lbc,
                rec.u as int,
                rec.v as int,
                rec.p,
            ),
            self is Metal ==> (b <==> v_dot(final (scat).dir, rec.nf) > 0),
            self matches Material::Metal(mt) ==> *final (att) == mt.lbc && final (scat).org
                == rec.p && final (scat).tm == r_in.tm && (exists|s: Vec3|
                in_unit_sphere(s) && final (scat).dir == v_add(
                    v_reflect(s_in_dir(r_in.dir), s_small_clamp(rec.nf)),
                    v_scale(s, mt.fuzz as int),
                )),
            self is Dielectric ==> b && *final (att) == (Vec3 { x: ONE, y: ONE, z: ONE })
                && final (scat).org == rec.p && final (scat).tm == r_in.tm,
            self matches Material::Dielectric(dd) ==> ({
                let up = s_in_dir(r_in.dir);
                let np = s_small_clamp(rec.nf);
                let rate = s_diel_rate(dd.ref_idx as int, rec.front_face);
                &&& (final (scat).dir == v_reflect(up, np) || final (scat).dir == v_refract(
                    up,
                    np,
                    rate,
                ))
                &&& fx::fx_mul(rate, s_diel_sin(up, rec.nf)) > ONE ==> final (scat).dir
                    == v_reflect(up, np)
            }),
            self is Isotropic ==> b && final (scat).org == rec.p && final (scat).tm == r_in.tm
                && v_ok(*final (att)) && (exists|s: Vec3|
                in_unit_sphere(s) && final (scat).dir == s),
            self matches Material::Isotropic(iso) ==> *final (att) == s_value(
                iso.lbc,
                rec.u as int,
                rec.v as int,
                rec.p,
            ),
    {
        match self {
            Material::Neg(_) => false,
            Material::DiffuseLight(_) => false,
            Material::Lamber(l) => {
                let s: Vec3 = rand_in_unit_sphere(rng);
                let scat_dir: Vec3 = rec.nf().vadd(&s);
                scat.copy(Ray::new(rec.p(), scat_dir, r_in.time()));
                att.copy(l.lbc.value(rec.u, rec.v, &rec.p));
                proof {
                    assert(in_unit_sphere(s) && scat.dir == v_add(rec.nf, s));
                }
                true
            },
            Material::Metal(mt) => {
                let ud: Vec3 = small_clamp(unit_or_zero(r_in.diraction()));
                let nfc: Vec3 = small_clamp(rec.nf());
                let rft: Vec3 = Vec3::reflect(ud, nfc);
                let s: Vec3 = rand_in_unit_sphere(rng);
                let dir: Vec3 = rft.vadd(&s.vscale(mt.fuzz));
                proof {
                    assert(in_unit_sphere(s) && dir == v_add(
                        v_reflect(s_in_dir(r_in.dir), s_small_clamp(rec.nf)),
                        v_scale(s, mt.fuzz as int),
                    ));
                }
                scat.copy(Ray::new(rec.p(), dir, r_in.time()));
                att.copy(mt.lbc);
                let dt: i64 = scat.diraction().vdot(&rec.nf());
                dt > 0
            },
            Material::Dielectric(d) => {
                att.copy(Vec3::new(ONE, ONE, ONE));
                let rate: i64 = if rec.front_face {
                    fx::fdiv(ONE, d.ref_idx)
                } else {
                    d.ref_idx
                };
                let ud: Vec3 = small_clamp(unit_or_zero(r_in.diraction()));
                let nfc: Vec3 = small_clamp(rec.nf());
                let tem_cos: i64 = ud.vneg().vdot(&rec.nf());
                let cos_theta: i64 = if tem_cos < ONE {
                    tem_cos
                } else {
                    ONE
                };
                let c2: i64 = fx::fsub(ONE, fx::fmul(cos_theta, cos_theta));
                let c2: i64 = if c2 < 0 {
                    0
                } else {
                    c2
                };
                let sin_theta: i64 = fx::fsqrt(c2);
                if fx::fmul(rate, sin_theta) > ONE {
                    let refec: Vec3 = Vec3::reflect(ud, nfc);
                    scat.copy(Ray::new(rec.p(), refec, r_in.time()));
                } else {
                    let ccl: i64 = fx::clamp(cos_theta, -ONE, ONE);
                    let rs: i64 = if rate < 1 {
                        1
                    } else {
                        rate
                    };
                    let prob: i64 = schlick(ccl, rs);
                    if randfx(rng, 0, ONE) < prob {
                        let refec: Vec3 = Vec3::reflect(ud, nfc);
                        scat.copy(Ray::new(rec.p(), refec, r_in.time()));
                    } else {
                        let refac: Vec3 = Vec3::refract(ud, nfc, rate);
                        scat.copy(Ray::new(rec.p(), refac, r_in.time()));
                    }
                }
                true
            },
            Material::Isotropic(iso) => {
                let s: Vec3 = rand_in_unit_sphere(rng);
                scat.copy(Ray::new(rec.p(), s, r_in.time()));
                att.copy(iso.lbc.value(rec.u, rec.v, &rec.p));
                proof {
                    assert(in_unit_sphere(s) && scat.dir == s);
                }
                true
            },
        }
    }

    /// Emitted radiance; zero except for light sources.
    pub fn emitted(&self, u: i64, v: i64, p: &Vec3) -> (c: Vec3)
        requires
            material_wf(*self),
            v_ok(*p),
        ensures
            v_ok(c),
            !(self is DiffuseLight) ==> c == (Vec3 { x: 0i64, y: 0i64, z: 0i64 }),
            self matches Material::DiffuseLight(dl) ==> c == s_value(
                dl.emit,
                u as int,
                v as int,
                *p,
            ),
    {
        match self {
            Material::DiffuseLight(dl) => {
                let base: Vec3 = dl.emit.value(u, v, p);
                proof {
                    fx::lemma_fx_mul_one(base.x as int);
                    fx::lemma_fx_mul_one(base.y as int);
                    fx::lemma_fx_mul_one(base.z as int);
                }
                Vec3::elemul(base, Vec3::ones())
            },
            _ => Vec3::zero(),
        }
    }
}

} // verus!
