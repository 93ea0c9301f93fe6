//! A parametric ray: origin, direction and a time sample for motion blur.
use vstd::prelude::*;
use crate::fx;
use crate::fx::{ONE, clip, tdiv, fx_ok};
use crate::vec3::{Vec3, v_ok};

verus! {

#[derive(Clone, Copy, PartialEq, Eq, Structural, Debug)]
pub struct Ray {
    pub org: Vec3,
    pub dir: Vec3,
    pub tm: i64,
}

/// Largest magnitude a ray origin may have: box corners plus the padding
/// tolerance and one unit of rounding.
pub const ORG_MAX: i64 = 35184372154368;

pub open spec fn org_ok(v: Vec3) -> bool {
    -ORG_MAX <= v.x <= ORG_MAX && -ORG_MAX <= v.y <= ORG_MAX && -ORG_MAX <= v.z <= ORG_MAX
}

pub open spec fn ray_ok(r: Ray) -> bool {
    org_ok(r.org) && v_ok(r.dir) && fx_ok(r.tm as int)
}

/// One component of the point the ray reaches at parameter `t`, rounded once.
pub open spec fn at_c(org_c: int, dir_c: int, t: int) -> int {
    clip(org_c + tdiv(t * dir_c, ONE as int))
}

/// The point the ray reaches at parameter `t`.
pub open spec fn ray_at(r: Ray, t: int) -> Vec3 {
    Vec3 {
        x: at_c(r.org.x as int, r.dir.x as int, t) as i64,
        y: at_c(r.org.y as int, r.dir.y as int, t) as i64,
        z: at_c(r.org.z as int, r.dir.z as int, t) as i64,
    }
}

impl Ray {
    pub fn new(org: Vec3, dir: Vec3, tm: i64) -> (r: Ray)
        ensures
            r == (Ray { org, dir, tm }),
    {
        Ray { org, dir, tm }
    }

    pub fn copy(&mut self, other: Ray)
        ensures
            *final(self) == other,
    {
        self.org.copy(other.origin());
        self.dir.copy(other.diraction());
        self.tm = other.time();
    }

    pub fn origin(&self) -> (v: Vec3)
        ensures
            v == self.org,
    {
        self.org
    }

    pub fn diraction(&self) -> (v: Vec3)
        ensures
            v == self.dir,
    {
        self.dir
    }

    pub fn time(&self) -> (t: i64)
        ensures
            t == self.tm,
    {
        self.tm
    }

    /// `at(t) = origin + t * direction`.
    pub fn at(&self, t: i64) -> (p: Vec3)
        ensures
            p == ray_at(*self, t as int),
    {
        proof {
            fx::lemma_mul_bound(
                t as int,
                self.dir.x as int,
                0x8000_0000_0000_0000int,
                0x8000_0000_0000_0000int,
            );
            fx::lemma_mul_bound(
                t as int,
                self.dir.y as int,
                0x8000_0000_0000_0000int,
                0x8000_0000_0000_0000int,
            );
            fx::lemma_mul_bound(
                t as int,
                self.dir.z as int,
                0x8000_0000_0000_0000int,
                0x8000_0000_0000_0000int,
            );
        }
        let px: i128 = (self.org.x as i128) + fx::tdiv_e(
            (t as i128) * (self.dir.x as i128),
            ONE as i128,
        );
        let py: i128 = (self.org.y as i128) + fx::tdiv_e(
            (t as i128) * (self.dir.y as i128),
            ONE as i128,
        );
        let pz: i128 = (self.org.z as i128) + fx::tdiv_e(
            (t as i128) * (self.dir.z as i128),
            ONE as i128,
        );
        Vec3 { x: fx::clip_e(px), y: fx::clip_e(py), z: fx::clip_e(pz) }
    }
}

} // verus!
