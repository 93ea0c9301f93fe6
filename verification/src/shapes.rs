//! Intersectable primitives: the hit record, spheres (still and moving) and
//! the three axis-aligned rectangles.
//!
//! Every primitive's `hit` satisfies one canonical contract: a spec-level
//! candidate set (`sphere_cand`, `xy_cand`, ...) lists the parameters at
//! which the executable intersection code can report a hit, and `hit`
//! returns the least candidate strictly inside the queried window, or `None`
//! when the window holds none.  Each candidate places the hit point inside
//! the primitive's own padded bounding box, which is what the hierarchy's
//! pruning argument rests on.
use vstd::prelude::*;
use crate::fx;
use crate::fx::{ONE, PAD, fx_ok, clip, tdiv, fx_sub, fx_mul, fx_div, isqrt};
use crate::vec3::{Vec3, v_ok, v_neg, v_add, v_sub, v_dot, v_sqlen, v_divs, raw_dot};
use crate::ray::{Ray, ray_ok, ray_at, at_c};
use crate::aabb::{AABB, aabb_ok, contains_pad, s_merge};
use crate::material::{Material, material_wf};
use crate::trig;
use crate::texture::iclamp;

verus! {

/// The record of a successful intersection; the material hit is handed back
/// beside it, borrowed from the shape that was struck.
#[derive(Debug, Clone, Copy, PartialEq, Eq, Structural)]
pub struct Hitrec {
    pub p: Vec3,
    pub nf: Vec3,
    pub t: i64,
    pub u: i64,
    pub v: i64,
    pub front_face: bool,
}

pub open spec fn hitrec_ok(h: Hitrec) -> bool {
    v_ok(h.p) && v_ok(h.nf) && fx_ok(h.t as int)
}

impl Hitrec {
    pub fn new() -> (h: Hitrec)
        ensures
            h.p == (Vec3 { x: 0i64, y: 0i64, z: 0i64 }),
            h.nf == (Vec3 { x: 0i64, y: 0i64, z: 0i64 }),
            h.t == 0 && h.u == 0 && h.v == 0 && !h.front_face,
            hitrec_ok(h),
    {
        Hitrec { p: Vec3::zero(), nf: Vec3::zero(), t: 0, u: 0, v: 0, front_face: false }
    }

    pub fn p(&self) -> (v: Vec3)
        ensures
            v == self.p,
    {
        self.p
    }

    pub fn nf(&self) -> (v: Vec3)
        ensures
            v == self.nf,
    {
        self.nf
    }

    /// Orient the stored normal against the incoming ray and remember which
    /// side was hit.
    pub fn set_face(&mut self, r: Ray, nf: Vec3)
        requires
            v_ok(nf),
            ray_ok(r),
        ensures
            final (self).front_face == (raw_dot(r.dir, nf) < 0),
            final (self).front_face ==> final (self).nf == nf,
            !final (self).front_face ==> final (self).nf == v_neg(nf),
            final (self).p == old(self).p,
            final (self).t == old(self).t,
            final (self).u == old(self).u,
            final (self).v == old(self).v,
    {
        proof {
            crate::vec3::lemma_raw_dot_pair_bound(r.dir, nf);
        }
        let d: i128 = (r.dir.x as i128) * (nf.x as i128) + (r.dir.y as i128) * (nf.y as i128) + (
        r.dir.z as i128) * (nf.z as i128);
        self.front_face = d < 0;
        if self.front_face {
            self.nf = nf;
        } else {
            self.nf = nf.vneg();
        }
    }

    pub fn copy(&mut self, rec: Hitrec)
        ensures
            *final (self) == rec,
    {
        *self = rec;
    }
}

/// The longitude coordinate of a surface point: the folded arctangent of
/// its horizontal components, scaled into the unit interval.
pub open spec fn s_uv_u(p: Vec3) -> int {
    let nz = crate::fx::fx_neg(p.z as int);
    let phi = trig::s_fatan2(nz, p.x as int) + trig::PI_FX as int;
    iclamp(fx_div(phi, 2 * (trig::PI_FX as int)), 0, ONE as int)
}

/// The latitude coordinate of a surface point: the arccosine of its
/// negated height, scaled into the unit interval.
pub open spec fn s_uv_v(p: Vec3) -> int {
    let py = iclamp(-(p.y as int), -(ONE as int), ONE as int);
    iclamp(fx_div(trig::s_facos(py), trig::PI_FX as int), 0, ONE as int)
}

#[derive(Debug)]
pub struct Sphere {
    pub ct: Vec3,
    pub rad: i64,
    pub mat: Material,
}

pub open spec fn sphere_ok(s: Sphere) -> bool {
    &&& v_ok(s.ct)
    &&& 0 < s.rad
    &&& (0 - crate::aabb::BOX_MAX) <= s.ct.x - s.rad && s.ct.x + s.rad <= crate::aabb::BOX_MAX
    &&& (0 - crate::aabb::BOX_MAX) <= s.ct.y - s.rad && s.ct.y + s.rad <= crate::aabb::BOX_MAX
    &&& (0 - crate::aabb::BOX_MAX) <= s.ct.z - s.rad && s.ct.z + s.rad <= crate::aabb::BOX_MAX
    &&& material_wf(s.mat)
}

pub open spec fn sphere_box(s: Sphere) -> AABB {
    AABB {
        mini: Vec3 { x: (s.ct.x - s.rad) as i64, y: (s.ct.y - s.rad) as i64, z: (s.ct.z
            - s.rad) as i64 },
        maxi: Vec3 { x: (s.ct.x + s.rad) as i64, y: (s.ct.y + s.rad) as i64, z: (s.ct.z
            + s.rad) as i64 },
    }
}

/// The discriminant of the sphere's quadratic, over the rounded
/// coefficients the executable code computes.
pub open spec fn sphere_dis(s: Sphere, r: Ray) -> int {
    let oc = v_sub(r.org, s.ct);
    let a = v_sqlen(r.dir);
    let h = v_dot(r.dir, oc);
    let c = fx_sub(v_sqlen(oc), fx_mul(s.rad as int, s.rad as int));
    h * h - a * c
}

/// The two quadratic roots, rounded as the executable code rounds them.
pub open spec fn sphere_root(s: Sphere, r: Ray, pos: bool) -> int {
    let oc = v_sub(r.org, s.ct);
    let a = v_sqlen(r.dir);
    let h = v_dot(r.dir, oc);
    let root = isqrt(sphere_dis(s, r));
    if pos {
        clip(tdiv((-h + root) * (ONE as int), a))
    } else {
        clip(tdiv((-h - root) * (ONE as int), a))
    }
}

/// The candidate hit parameters of a sphere: a quadratic root whose ray
/// point lands inside the sphere's padded box.
pub open spec fn sphere_cand(s: Sphere, r: Ray, t: int) -> bool {
    &&& v_sqlen(r.dir) > 0
    &&& sphere_dis(s, r) > 0
    &&& (t == sphere_root(s, r, false) || t == sphere_root(s, r, true))
    &&& {
        let p = ray_at(r, t);
        contains_pad(sphere_box(s), p.x as int, p.y as int, p.z as int, PAD as int)
    }
}

impl Sphere {
    pub fn new(ct: Vec3, rad: i64, mat: Material) -> (s: Sphere)
        ensures
            s.ct == ct && s.rad == rad && s.mat == mat,
    {
        Sphere { ct, rad, mat }
    }

    pub fn ct(&self) -> (v: Vec3)
        ensures
            v == self.ct,
    {
        self.ct
    }

    /// Spherical surface coordinates from a point on the unit sphere.
    pub fn get_uv(p: &Vec3, u: &mut i64, v: &mut i64)
        requires
            v_ok(*p),
        ensures
            *final (u) as int == s_uv_u(*p),
            *final (v) as int == s_uv_v(*p),
            0 <= *final (u) <= ONE,
            0 <= *final (v) <= ONE,
    {
        let py: i64 = fx::clamp(-p.y, -ONE, ONE);
        let theta: i64 = trig::facos(py);
        let nz: i64 = fx::fneg(p.z);
        let phi: i64 = trig::fatan2(nz, p.x) + trig::PI_FX;
        *u = fx::clamp(fx::fdiv(phi, 2 * trig::PI_FX), 0, ONE);
        *v = fx::clamp(fx::fdiv(theta, trig::PI_FX), 0, ONE);
    }

    pub fn bebox(&self, t0: i64, t1: i64) -> (b: AABB)
        requires
            sphere_ok(*self),
        ensures
            b == sphere_box(*self),
            aabb_ok(b),
    {
        AABB::new(
            Vec3 { x: self.ct.x - self.rad, y: self.ct.y - self.rad, z: self.ct.z - self.rad },
            Vec3 { x: self.ct.x + self.rad, y: self.ct.y + self.rad, z: self.ct.z + self.rad },
        )
    }

    /// Closed-form ray/sphere intersection; returns the nearest candidate
    /// in the open window `(t_min, t_max)`.
    pub fn hit(&self, r: Ray, t_min: i64, t_max: i64) -> (res: Option<Hitrec>)
        requires
            sphere_ok(*self),
            ray_ok(r),
        ensures
            match res {
                Some(rec) => sphere_cand(*self, r, rec.t as int) && t_min < rec.t < t_max && rec.p
                    == ray_at(r, rec.t as int) && hitrec_ok(rec) && (forall|t2: int|
                    t_min < t2 < rec.t ==> !sphere_cand(*self, r, t2)) && ({
                    let outward = v_divs(v_sub(rec.p, self.ct), self.rad as int);
                    &&& rec.front_face == (raw_dot(r.dir, outward) < 0)
                    &&& rec.front_face ==> rec.nf == outward
                    &&& !rec.front_face ==> rec.nf == v_neg(outward)
                    &&& rec.u as int == s_uv_u(rec.nf) && rec.v as int == s_uv_v(rec.nf)
                    &&& 0 <= rec.u <= ONE && 0 <= rec.v <= ONE
                }),
                None => forall|t2: int| t_min < t2 < t_max ==> !sphere_cand(*self, r, t2),
            },
    {
        let oc: Vec3 = r.origin().vsub(&self.ct());
        let dirv: Vec3 = r.diraction();
        let a: i64 = dirv.vdot(&dirv);
        let h: i64 = dirv.vdot(&oc);
        let csl: i64 = oc.squared_length();
        let rr: i64 = fx::fmul(self.rad, self.rad);
        let c: i64 = fx::fsub(csl, rr);
        proof {
            fx::lemma_mul_bound(h as int, h as int, 0x4000_0000_0000int, 0x4000_0000_0000int);
            fx::lemma_mul_bound(a as int, c as int, 0x4000_0000_0000int, 0x4000_0000_0000int);
        }
        let dis: i128 = (h as i128) * (h as i128) - (a as i128) * (c as i128);
        if a <= 0 || dis <= 0 {
            return None;
        }
        let root64: u64 = fx::isqrt_e(dis as u128);
        proof {
            assert((root64 as int) * (root64 as int) <= dis as int);
            assert(root64 < 0x1_0000_0000_0000u64) by (nonlinear_arith)
                requires
                    (root64 as int) * (root64 as int) <= dis as int,
                    (dis as int) < 0x1_0000_0000_0000_0000_0000_0000int,
            ;
        }
        let root: i64 = root64 as i64;
        proof {
            assert((0 - 0x4000_0000_0000i64) <= h <= 0x4000_0000_0000i64);
            fx::lemma_mul_bound(
                (-h - root) as int,
                ONE as int,
                0x2_0000_0000_0000int,
                65536int,
            );
            fx::lemma_mul_bound(
                (-h + root) as int,
                ONE as int,
                0x2_0000_0000_0000int,
                65536int,
            );
        }
        let n1: i128 = ((-h - root) as i128) * (ONE as i128);
        let n2: i128 = ((-h + root) as i128) * (ONE as i128);
        let t1: i64 = fx::clip_e(fx::tdiv_e(n1, a as i128));
        let t2: i64 = fx::clip_e(fx::tdiv_e(n2, a as i128));
        proof {
            fx::lemma_tdiv_mono(n1 as int, n2 as int, a as int);
            fx::lemma_clip_mono(tdiv(n1 as int, a as int), tdiv(n2 as int, a as int));
        }
        let sbox: AABB = self.bebox(0, 0);
        if t_min < t1 && t1 < t_max {
            let p: Vec3 = r.at(t1);
            if sbox.pcontains(&p) {
                return Some(self.make_rec(r, t1, p));
            }
        }
        if t_min < t2 && t2 < t_max {
            let p: Vec3 = r.at(t2);
            if sbox.pcontains(&p) {
                return Some(self.make_rec(r, t2, p));
            }
        }
        None
    }

    fn make_rec(&self, r: Ray, t: i64, p: Vec3) -> (rec: Hitrec)
        requires
            sphere_ok(*self),
            ray_ok(r),
            fx_ok(t as int),
            p == ray_at(r, t as int),
        ensures
            rec.t == t,
            rec.p == p,
            hitrec_ok(rec),
            ({
                let outward = v_divs(v_sub(p, self.ct), self.rad as int);
                &&& rec.front_face == (raw_dot(r.dir, outward) < 0)
                &&& rec.front_face ==> rec.nf == outward
                &&& !rec.front_face ==> rec.nf == v_neg(outward)
            }),
            rec.u as int == s_uv_u(rec.nf),
            rec.v as int == s_uv_v(rec.nf),
            0 <= rec.u <= ONE,
            0 <= rec.v <= ONE,
    {
        let mut rec: Hitrec = Hitrec::new();
        rec.t = t;
        rec.p = p;
        let nf: Vec3 = p.vsub(&self.ct()).vdivs(self.rad);
        rec.set_face(r, nf);
        let mut uu: i64 = 0;
        let mut vv: i64 = 0;
        Sphere::get_uv(&rec.nf(), &mut uu, &mut vv);
        rec.u = uu;
        rec.v = vv;
        rec
    }
}

#[derive(Debug)]
pub struct MovingSphere {
    pub ct0: Vec3,
    pub ct1: Vec3,
    pub tm0: i64,
    pub tm1: i64,
    pub rad: i64,
    pub mat: Material,
}

pub open spec fn msphere_ok(s: MovingSphere) -> bool {
    &&& v_ok(s.ct0)
    &&& v_ok(s.ct1)
    &&& 0 < s.rad
    &&& s.tm0 != s.tm1
    &&& fx_ok(s.tm0 as int) && fx_ok(s.tm1 as int)
    &&& (0 - crate::aabb::BOX_MAX) <= s.ct0.x - s.rad && s.ct0.x + s.rad <= crate::aabb::BOX_MAX
    &&& (0 - crate::aabb::BOX_MAX) <= s.ct0.y - s.rad && s.ct0.y + s.rad <= crate::aabb::BOX_MAX
    &&& (0 - crate::aabb::BOX_MAX) <= s.ct0.z - s.rad && s.ct0.z + s.rad <= crate::aabb::BOX_MAX
    &&& (0 - crate::aabb::BOX_MAX) <= s.ct1.x - s.rad && s.ct1.x + s.rad <= crate::aabb::BOX_MAX
    &&& (0 - crate::aabb::BOX_MAX) <= s.ct1.y - s.rad && s.ct1.y + s.rad <= crate::aabb::BOX_MAX
    &&& (0 - crate::aabb::BOX_MAX) <= s.ct1.z - s.rad && s.ct1.z + s.rad <= crate::aabb::BOX_MAX
    &&& material_wf(s.mat)
}

/// The linearly interpolated center at a ray time, over the rounded
/// fixed-point operations.
pub open spec fn ms_ct(s: MovingSphere, tm: int) -> Vec3 {
    let f = fx_div(fx_sub(tm, s.tm0 as int), fx_sub(s.tm1 as int, s.tm0 as int));
    v_add(s.ct0, crate::vec3::v_scale(v_sub(s.ct1, s.ct0), f))
}

/// The union of the boxes at the two ends of the declared motion interval.
pub open spec fn msphere_box(s: MovingSphere) -> AABB {
    s_merge(
        AABB {
            mini: Vec3 { x: (s.ct0.x - s.rad) as i64, y: (s.ct0.y - s.rad) as i64, z: (s.ct0.z
                - s.rad) as i64 },
            maxi: Vec3 { x: (s.ct0.x + s.rad) as i64, y: (s.ct0.y + s.rad) as i64, z: (s.ct0.z
                + s.rad) as i64 },
        },
        AABB {
            mini: Vec3 { x: (s.ct1.x - s.rad) as i64, y: (s.ct1.y - s.rad) as i64, z: (s.ct1.z
                - s.rad) as i64 },
            maxi: Vec3 { x: (s.ct1.x + s.rad) as i64, y: (s.ct1.y + s.rad) as i64, z: (s.ct1.z
                + s.rad) as i64 },
        },
    )
}

pub open spec fn msphere_dis(s: MovingSphere, r: Ray) -> int {
    let oc = v_sub(r.org, ms_ct(s, r.tm as int));
    let a = v_sqlen(r.dir);
    let h = v_dot(r.dir, oc);
    let c = fx_sub(v_sqlen(oc), fx_mul(s.rad as int, s.rad as int));
    h * h - a * c
}

pub open spec fn msphere_root(s: MovingSphere, r: Ray, pos: bool) -> int {
    let oc = v_sub(r.org, ms_ct(s, r.tm as int));
    let a = v_sqlen(r.dir);
    let h = v_dot(r.dir, oc);
    let root = isqrt(msphere_dis(s, r));
    if pos {
        clip(tdiv((-h + root) * (ONE as int), a))
    } else {
        clip(tdiv((-h - root) * (ONE as int), a))
    }
}

/// Candidates of the moving sphere: as for the still sphere, against the
/// center interpolated at the ray's own time, with the hit point inside the
/// whole-motion padded box.
pub open spec fn msphere_cand(s: MovingSphere, r: Ray, t: int) -> bool {
    &&& v_sqlen(r.dir) > 0
    &&& msphere_dis(s, r) > 0
    &&& (t == msphere_root(s, r, false) || t == msphere_root(s, r, true))
    &&& {
        let p = ray_at(r, t);
        contains_pad(msphere_box(s), p.x as int, p.y as int, p.z as int, PAD as int)
    }
}

impl MovingSphere {
    pub fn new(ct0: Vec3, ct1: Vec3, tm0: i64, tm1: i64, rad: i64, mat: Material) -> (s:
        MovingSphere)
        ensures
            s.ct0 == ct0 && s.ct1 == ct1 && s.tm0 == tm0 && s.tm1 == tm1 && s.rad == rad && s.mat
                == mat,
    {
        MovingSphere { ct0, ct1, tm0, tm1, rad, mat }
    }

    /// Center at a time, interpolated over the declared interval.
    pub fn ct(&self, tm: i64) -> (v: Vec3)
        requires
            msphere_ok(*self),
            fx_ok(tm as int),
        ensures
            v == ms_ct(*self, tm as int),
            v_ok(v),
    {
        let f: i64 = fx::fdiv(fx::fsub(tm, self.tm0), fx::fsub(self.tm1, self.tm0));
        self.ct0.vadd(&self.ct1.vsub(&self.ct0).vscale(f))
    }

    pub fn bebox(&self, t0: i64, t1: i64) -> (b: AABB)
        requires
            msphere_ok(*self),
        ensures
            b == msphere_box(*self),
            aabb_ok(b),
    {
        let b0: AABB = AABB::new(
            Vec3 { x: self.ct0.x - self.rad, y: self.ct0.y - self.rad, z: self.ct0.z - self.rad },
            Vec3 { x: self.ct0.x + self.rad, y: self.ct0.y + self.rad, z: self.ct0.z + self.rad },
        );
        let b1: AABB = AABB::new(
            Vec3 { x: self.ct1.x - self.rad, y: self.ct1.y - self.rad, z: self.ct1.z - self.rad },
            Vec3 { x: self.ct1.x + self.rad, y: self.ct1.y + self.rad, z: self.ct1.z + self.rad },
        );
        AABB::merge(b0, b1)
    }

    /// Ray intersection against the interpolated center at the ray's time.
    pub fn hit(&self, r: Ray, t_min: i64, t_max: i64) -> (res: Option<Hitrec>)
        requires
            msphere_ok(*self),
            ray_ok(r),
        ensures
            match res {
                Some(rec) => msphere_cand(*self, r, rec.t as int) && t_min < rec.t < t_max && rec.p
                    == ray_at(r, rec.t as int) && hitrec_ok(rec) && (forall|t2: int|
                    t_min < t2 < rec.t ==> !msphere_cand(*self, r, t2)) && ({
                    let outward = v_divs(v_sub(rec.p, ms_ct(*self, r.tm as int)), self.rad as int);
                    &&& rec.front_face == (raw_dot(r.dir, outward) < 0)
                    &&& rec.front_face ==> rec.nf == outward
                    &&& !rec.front_face ==> rec.nf == v_neg(outward)
                }),
                None => forall|t2: int| t_min < t2 < t_max ==> !msphere_cand(*self, r, t2),
            },
    {
        let ctm: Vec3 = self.ct(r.time());
        let oc: Vec3 = r.origin().vsub(&ctm);
        let dirv: Vec3 = r.diraction();
        let a: i64 = dirv.vdot(&dirv);
        let h: i64 = dirv.vdot(&oc);
        let csl: i64 = oc.squared_length();
        let rr: i64 = fx::fmul(self.rad, self.rad);
        let c: i64 = fx::fsub(csl, rr);
        proof {
            fx::lemma_mul_bound(h as int, h as int, 0x4000_0000_0000int, 0x4000_0000_0000int);
            fx::lemma_mul_bound(a as int, c as int, 0x4000_0000_0000int, 0x4000_0000_0000int);
        }
        let dis: i128 = (h as i128) * (h as i128) - (a as i128) * (c as i128);
        if a <= 0 || dis <= 0 {
            return None;
        }
        let root64: u64 = fx::isqrt_e(dis as u128);
        proof {
            assert((root64 as int) * (root64 as int) <= dis as int);
            assert(root64 < 0x1_0000_0000_0000u64) by (nonlinear_arith)
                requires
                    (root64 as int) * (root64 as int) <= dis as int,
                    (dis as int) < 0x1_0000_0000_0000_0000_0000_0000int,
            ;
        }
        let root: i64 = root64 as i64;
        proof {
            assert((0 - 0x4000_0000_0000i64) <= h <= 0x4000_0000_0000i64);
            fx::lemma_mul_bound(
                (-h - root) as int,
                ONE as int,
                0x2_0000_0000_0000int,
                65536int,
            );
            fx::lemma_mul_bound(
                (-h + root) as int,
                ONE as int,
                0x2_0000_0000_0000int,
                65536int,
            );
        }
        let n1: i128 = ((-h - root) as i128) * (ONE as i128);
        let n2: i128 = ((-h + root) as i128) * (ONE as i128);
        let t1: i64 = fx::clip_e(fx::tdiv_e(n1, a as i128));
        let t2: i64 = fx::clip_e(fx::tdiv_e(n2, a as i128));
        proof {
            fx::lemma_tdiv_mono(n1 as int, n2 as int, a as int);
            fx::lemma_clip_mono(tdiv(n1 as int, a as int), tdiv(n2 as int, a as int));
        }
        let sbox: AABB = self.bebox(0, 0);
        if t_min < t1 && t1 < t_max {
            let p: Vec3 = r.at(t1);
            if sbox.pcontains(&p) {
                return Some(self.make_rec(r, t1, p, ctm));
            }
        }
        if t_min < t2 && t2 < t_max {
            let p: Vec3 = r.at(t2);
            if sbox.pcontains(&p) {
                return Some(self.make_rec(r, t2, p, ctm));
            }
        }
        None
    }

    fn make_rec(&self, r: Ray, t: i64, p: Vec3, ctm: Vec3) -> (rec: Hitrec)
        requires
            msphere_ok(*self),
            ray_ok(r),
            v_ok(ctm),
            ctm == ms_ct(*self, r.tm as int),
            fx_ok(t as int),
            p == ray_at(r, t as int),
        ensures
            rec.t == t,
            rec.p == p,
            hitrec_ok(rec),
            ({
                let outward = v_divs(v_sub(p, ms_ct(*self, r.tm as int)), self.rad as int);
                &&& rec.front_face == (raw_dot(r.dir, outward) < 0)
                &&& rec.front_face ==> rec.nf == outward
                &&& !rec.front_face ==> rec.nf == v_neg(outward)
            }),
    {
        let mut rec: Hitrec = Hitrec::new();
        rec.t = t;
        rec.p = p;
        let nf: Vec3 = p.vsub(&ctm).vdivs(self.rad);
        rec.set_face(r, nf);
        rec
    }
}

/// Thickness given to a rectangle's bounding box along its normal axis.
pub const LIT: i64 = 16;

#[derive(Debug)]
pub struct XyRect {
    pub x0: i64,
    pub x1: i64,
    pub y0: i64,
    pub y1: i64,
    pub k: i64,
    pub mat: Material,
}

pub open spec fn xy_ok(s: XyRect) -> bool {
    &&& (0 - crate::aabb::BOX_MAX) <= s.x0 < s.x1 <= crate::aabb::BOX_MAX
    &&& (0 - crate::aabb::BOX_MAX) <= s.y0 < s.y1 <= crate::aabb::BOX_MAX
    &&& (0 - crate::aabb::BOX_MAX) <= s.k - LIT && s.k + LIT <= crate::aabb::BOX_MAX
    &&& material_wf(s.mat)
}

/// The rectangle thickened by `LIT` along its normal axis.
pub open spec fn xy_box(s: XyRect) -> AABB {
    AABB {
        mini: Vec3 { x: s.x0, y: s.y0, z: (s.k - LIT) as i64 },
        maxi: Vec3 { x: s.x1, y: s.y1, z: (s.k + LIT) as i64 },
    }
}

/// The candidate hit parameter of the rectangle: the plane crossing, with
/// the crossing point inside the declared bounds and the padded box.
pub open spec fn xy_cand(s: XyRect, r: Ray, t: int) -> bool {
    &&& r.dir.z != 0
    &&& t == fx_div(fx_sub(s.k as int, r.org.z as int), r.dir.z as int)
    &&& {
        let p = ray_at(r, t);
        &&& s.x0 <= p.x <= s.x1
        &&& s.y0 <= p.y <= s.y1
        &&& contains_pad(xy_box(s), p.x as int, p.y as int, p.z as int, PAD as int)
    }
}

impl XyRect {
    pub fn new(x0: i64, x1: i64, y0: i64, y1: i64, k: i64, mat: Material) -> (s: XyRect)
        ensures
            s.x0 == x0 && s.x1 == x1 && s.y0 == y0 && s.y1 == y1 && s.k == k
                && s.mat == mat,
    {
        XyRect { x0, x1, y0, y1, k, mat }
    }

    pub fn bebox(&self, t0: i64, t1: i64) -> (bx: AABB)
        requires
            xy_ok(*self),
        ensures
            bx == xy_box(*self),
            aabb_ok(bx),
    {
        AABB::new(
            Vec3 { x: self.x0, y: self.y0, z: self.k - LIT },
            Vec3 { x: self.x1, y: self.y1, z: self.k + LIT },
        )
    }

    /// Plane crossing restricted to the declared bounds.
    pub fn hit(&self, r: Ray, t_min: i64, t_max: i64) -> (res: Option<Hitrec>)
        requires
            xy_ok(*self),
            ray_ok(r),
        ensures
            match res {
                Some(rec) => xy_cand(*self, r, rec.t as int) && t_min < rec.t < t_max && rec.p
                    == ray_at(r, rec.t as int) && hitrec_ok(rec) && (forall|t2: int|
                    t_min < t2 < rec.t ==> !xy_cand(*self, r, t2)) && ({
                    let axis_n = Vec3 { x: 0, y: 0, z: ONE };
                    &&& rec.front_face == (raw_dot(r.dir, axis_n) < 0)
                    &&& rec.front_face ==> rec.nf == axis_n
                    &&& !rec.front_face ==> rec.nf == v_neg(axis_n)
                    &&& rec.u as int == fx_div(fx_sub(rec.p.x as int, self.x0 as int), fx_sub(
                        self.x1 as int,
                        self.x0 as int,
                    ))
                    &&& rec.v as int == fx_div(fx_sub(rec.p.y as int, self.y0 as int), fx_sub(
                        self.y1 as int,
                        self.y0 as int,
                    ))
                }),
                None => forall|t2: int| t_min < t2 < t_max ==> !xy_cand(*self, r, t2),
            },
    {
        if r.dir.z == 0 {
            return None;
        }
        let t: i64 = fx::fdiv(fx::fsub(self.k, r.org.z), r.dir.z);
        if t <= t_min || t >= t_max {
            return None;
        }
        let p: Vec3 = r.at(t);
        if p.x < self.x0 || p.x > self.x1 || p.y < self.y0 || p.y > self.y1 {
            return None;
        }
        let bx: AABB = self.bebox(0, 0);
        if !bx.pcontains(&p) {
            return None;
        }
        let mut rec: Hitrec = Hitrec::new();
        rec.u = fx::fdiv(fx::fsub(p.x, self.x0), fx::fsub(self.x1, self.x0));
        rec.v = fx::fdiv(fx::fsub(p.y, self.y0), fx::fsub(self.y1, self.y0));
        rec.t = t;
        rec.set_face(r, Vec3 { x: 0, y: 0, z: ONE });
        rec.p = p;
        Some(rec)
    }
}

#[derive(Debug)]
pub struct XzRect {
    pub x0: i64,
    pub x1: i64,
    pub z0: i64,
    pub z1: i64,
    pub k: i64,
    pub mat: Material,
}

pub open spec fn xz_ok(s: XzRect) -> bool {
    &&& (0 - crate::aabb::BOX_MAX) <= s.x0 < s.x1 <= crate::aabb::BOX_MAX
    &&& (0 - crate::aabb::BOX_MAX) <= s.z0 < s.z1 <= crate::aabb::BOX_MAX
    &&& (0 - crate::aabb::BOX_MAX) <= s.k - LIT && s.k + LIT <= crate::aabb::BOX_MAX
    &&& material_wf(s.mat)
}

/// The rectangle thickened by `LIT` along its normal axis.
pub open spec fn xz_box(s: XzRect) -> AABB {
    AABB {
        mini: Vec3 { x: s.x0, y: (s.k - LIT) as i64, z: s.z0 },
        maxi: Vec3 { x: s.x1, y: (s.k + LIT) as i64, z: s.z1 },
    }
}

/// The candidate hit parameter of the rectangle: the plane crossing, with
/// the crossing point inside the declared bounds and the padded box.
pub open spec fn xz_cand(s: XzRect, r: Ray, t: int) -> bool {
    &&& r.dir.y != 0
    &&& t == fx_div(fx_sub(s.k as int, r.org.y as int), r.dir.y as int)
    &&& {
        let p = ray_at(r, t);
        &&& s.x0 <= p.x <= s.x1
        &&& s.z0 <= p.z <= s.z1
        &&& contains_pad(xz_box(s), p.x as int, p.y as int, p.z as int, PAD as int)
    }
}

impl XzRect {
    pub fn new(x0: i64, x1: i64, z0: i64, z1: i64, k: i64, mat: Material) -> (s: XzRect)
        ensures
            s.x0 == x0 && s.x1 == x1 && s.z0 == z0 && s.z1 == z1 && s.k == k
                && s.mat == mat,
    {
        XzRect { x0, x1, z0, z1, k, mat }
    }

    pub fn bebox(&self, t0: i64, t1: i64) -> (bx: AABB)
        requires
            xz_ok(*self),
        ensures
            bx == xz_box(*self),
            aabb_ok(bx),
    {
        AABB::new(
            Vec3 { x: self.x0, y: self.k - LIT, z: self.z0 },
            Vec3 { x: self.x1, y: self.k + LIT, z: self.z1 },
        )
    }

    /// Plane crossing restricted to the declared bounds.
    pub fn hit(&self, r: Ray, t_min: i64, t_max: i64) -> (res: Option<Hitrec>)
        requires
            xz_ok(*self),
            ray_ok(r),
        ensures
            match res {
                Some(rec) => xz_cand(*self, r, rec.t as int) && t_min < rec.t < t_max && rec.p
                    == ray_at(r, rec.t as int) && hitrec_ok(rec) && (forall|t2: int|
                    t_min < t2 < rec.t ==> !xz_cand(*self, r, t2)) && ({
                    let axis_n = Vec3 { x: 0, y: ONE, z: 0 };
                    &&& rec.front_face == (raw_dot(r.dir, axis_n) < 0)
                    &&& rec.front_face ==> rec.nf == axis_n
                    &&& !rec.front_face ==> rec.nf == v_neg(axis_n)
                    &&& rec.u as int == fx_div(fx_sub(rec.p.x as int, self.x0 as int), fx_sub(
                        self.x1 as int,
                        self.x0 as int,
                    ))
                    &&& rec.v as int == fx_div(fx_sub(rec.p.z as int, self.z0 as int), fx_sub(
                        self.z1 as int,
                        self.z0 as int,
                    ))
                }),
                None => forall|t2: int| t_min < t2 < t_max ==> !xz_cand(*self, r, t2),
            },
    {
        if r.dir.y == 0 {
            return None;
        }
        let t: i64 = fx::fdiv(fx::fsub(self.k, r.org.y), r.dir.y);
        if t <= t_min || t >= t_max {
            return None;
        }
        let p: Vec3 = r.at(t);
        if p.x < self.x0 || p.x > self.x1 || p.z < self.z0 || p.z > self.z1 {
            return None;
        }
        let bx: AABB = self.bebox(0, 0);
        if !bx.pcontains(&p) {
            return None;
        }
        let mut rec: Hitrec = Hitrec::new();
        rec.u = fx::fdiv(fx::fsub(p.x, self.x0), fx::fsub(self.x1, self.x0));
        rec.v = fx::fdiv(fx::fsub(p.z, self.z0), fx::fsub(self.z1, self.z0));
        rec.t = t;
        rec.set_face(r, Vec3 { x: 0, y: ONE, z: 0 });
        rec.p = p;
        Some(rec)
    }
}

#[derive(Debug)]
pub struct YzRect {
    pub y0: i64,
    pub y1: i64,
    pub z0: i64,
    pub z1: i64,
    pub k: i64,
    pub mat: Material,
}

pub open spec fn yz_ok(s: YzRect) -> bool {
    &&& (0 - crate::aabb::BOX_MAX) <= s.y0 < s.y1 <= crate::aabb::BOX_MAX
    &&& (0 - crate::aabb::BOX_MAX) <= s.z0 < s.z1 <= crate::aabb::BOX_MAX
    &&& (0 - crate::aabb::BOX_MAX) <= s.k - LIT && s.k + LIT <= crate::aabb::BOX_MAX
    &&& material_wf(s.mat)
}

/// The rectangle thickened by `LIT` along its normal axis.
pub open spec fn yz_box(s: YzRect) -> AABB {
    AABB {
        mini: Vec3 { x: (s.k - LIT) as i64, y: s.y0, z: s.z0 },
        maxi: Vec3 { x: (s.k + LIT) as i64, y: s.y1, z: s.z1 },
    }
}

/// The candidate hit parameter of the rectangle: the plane crossing, with
/// the crossing point inside the declared bounds and the padded box.
pub open spec fn yz_cand(s: YzRect, r: Ray, t: int) -> bool {
    &&& r.dir.x != 0
    &&& t == fx_div(fx_sub(s.k as int, r.org.x as int), r.dir.x as int)
    &&& {
        let p = ray_at(r, t);
        &&& s.y0 <= p.y <= s.y1
        &&& s.z0 <= p.z <= s.z1
        &&& contains_pad(yz_box(s), p.x as int, p.y as int, p.z as int, PAD as int)
    }
}

impl YzRect {
    pub fn new(y0: i64, y1: i64, z0: i64, z1: i64, k: i64, mat: Material) -> (s: YzRect)
        ensures
            s.y0 == y0 && s.y1 == y1 && s.z0 == z0 && s.z1 == z1 && s.k == k
                && s.mat == mat,
    {
        YzRect { y0, y1, z0, z1, k, mat }
    }

    pub fn bebox(&self, t0: i64, t1: i64) -> (bx: AABB)
        requires
            yz_ok(*self),
        ensures
            bx == yz_box(*self),
            aabb_ok(bx),
    {
        AABB::new(
            Vec3 { x: self.k - LIT, y: self.y0, z: self.z0 },
            Vec3 { x: self.k + LIT, y: self.y1, z: self.z1 },
        )
    }

    /// Plane crossing restricted to the declared bounds.
    pub fn hit(&self, r: Ray, t_min: i64, t_max: i64) -> (res: Option<Hitrec>)
        requires
            yz_ok(*self),
            ray_ok(r),
        ensures
            match res {
                Some(rec) => yz_cand(*self, r, rec.t as int) && t_min < rec.t < t_max && rec.p
                    == ray_at(r, rec.t as int) && hitrec_ok(rec) && (forall|t2: int|
                    t_min < t2 < rec.t ==> !yz_cand(*self, r, t2)) && ({
                    let axis_n = Vec3 { x: ONE, y: 0, z: 0 };
                    &&& rec.front_face == (raw_dot(r.dir, axis_n) < 0)
                    &&& rec.front_face ==> rec.nf == axis_n
                    &&& !rec.front_face ==> rec.nf == v_neg(axis_n)
                    &&& rec.u as int == fx_div(fx_sub(rec.p.y as int, self.y0 as int), fx_sub(
                        self.y1 as int,
                        self.y0 as int,
                    ))
                    &&& rec.v as int == fx_div(fx_sub(rec.p.z as int, self.z0 as int), fx_sub(
                        self.z1 as int,
                        self.z0 as int,
                    ))
                }),
                None => forall|t2: int| t_min < t2 < t_max ==> !yz_cand(*self, r, t2),
            },
    {
        if r.dir.x == 0 {
            return None;
        }
        let t: i64 = fx::fdiv(fx::fsub(self.k, r.org.x), r.dir.x);
        if t <= t_min || t >= t_max {
            return None;
        }
        let p: Vec3 = r.at(t);
        if p.y < self.y0 || p.y > self.y1 || p.z < self.z0 || p.z > self.z1 {
            return None;
        }
        let bx: AABB = self.bebox(0, 0);
        if !bx.pcontains(&p) {
            return None;
        }
        let mut rec: Hitrec = Hitrec::new();
        rec.u = fx::fdiv(fx::fsub(p.y, self.y0), fx::fsub(self.y1, self.y0));
        rec.v = fx::fdiv(fx::fsub(p.z, self.z0), fx::fsub(self.z1, self.z0));
        rec.t = t;
        rec.set_face(r, Vec3 { x: ONE, y: 0, z: 0 });
        rec.p = p;
        Some(rec)
    }
}

} // verus!
