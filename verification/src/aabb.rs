//! Axis-aligned bounding boxes, their merge, and a conservative slab test.
//!
//! The slab test compares the exact rational entry and exit parameters of the
//! ray against each padded slab, so its negative answer is a proof: when
//! `hit` returns false, no parameter in the queried window places the ray
//! inside the padded box.  That guarantee is what lets the bounding-volume
//! hierarchy prune subtrees without ever losing a primitive hit.
use vstd::prelude::*;
use crate::fx;
use crate::fx::{ONE, PAD, FX_MAX, clip, tdiv, fx_ok};
use crate::vec3::{Vec3, v_ok};
use crate::ray::{Ray, ray_ok, at_c};

verus! {

/// Box corner coordinates stay below this bound so that padding them, or
/// shifting them by a bounded offset, can never reach the saturation limit.
pub const BOX_MAX: i64 = 35184372088832;

#[derive(Clone, Copy, PartialEq, Eq, Structural, Debug)]
pub struct AABB {
    pub mini: Vec3,
    pub maxi: Vec3,
}

pub open spec fn imin(a: int, b: int) -> int {
    if a < b {
        a
    } else {
        b
    }
}

pub open spec fn imax(a: int, b: int) -> int {
    if a > b {
        a
    } else {
        b
    }
}

/// Corner coordinates bounded and ordered.
pub open spec fn aabb_ok(b: AABB) -> bool {
    &&& -BOX_MAX <= b.mini.x <= b.maxi.x <= BOX_MAX
    &&& -BOX_MAX <= b.mini.y <= b.maxi.y <= BOX_MAX
    &&& -BOX_MAX <= b.mini.z <= b.maxi.z <= BOX_MAX
}

/// The point `(px, py, pz)` lies in `b` enlarged by `pad` on every side.
pub open spec fn contains_pad(b: AABB, px: int, py: int, pz: int, pad: int) -> bool {
    &&& b.mini.x - pad <= px <= b.maxi.x + pad
    &&& b.mini.y - pad <= py <= b.maxi.y + pad
    &&& b.mini.z - pad <= pz <= b.maxi.z + pad
}

/// Every point of `inner` lies in `outer`.
pub open spec fn contains_box(outer: AABB, inner: AABB) -> bool {
    &&& outer.mini.x <= inner.mini.x && inner.maxi.x <= outer.maxi.x
    &&& outer.mini.y <= inner.mini.y && inner.maxi.y <= outer.maxi.y
    &&& outer.mini.z <= inner.mini.z && inner.maxi.z <= outer.maxi.z
}

/// The tightest box containing both arguments.
pub open spec fn s_merge(a: AABB, b: AABB) -> AABB {
    AABB {
        mini: Vec3 {
            x: imin(a.mini.x as int, b.mini.x as int) as i64,
            y: imin(a.mini.y as int, b.mini.y as int) as i64,
            z: imin(a.mini.z as int, b.mini.z as int) as i64,
        },
        maxi: Vec3 {
            x: imax(a.maxi.x as int, b.maxi.x as int) as i64,
            y: imax(a.maxi.y as int, b.maxi.y as int) as i64,
            z: imax(a.maxi.z as int, b.maxi.z as int) as i64,
        },
    }
}

/// The merge of two boxes contains both, so in particular every corner of
/// either input box lies inside it.
pub proof fn lemma_merge_contains(a: AABB, b: AABB)
    ensures
        contains_box(s_merge(a, b), a),
        contains_box(s_merge(a, b), b),
        aabb_ok(a) && aabb_ok(b) ==> aabb_ok(s_merge(a, b)),
{
}

/// Corner form of merge containment: each of the eight corners of a
/// contained box lies in the container.
pub proof fn lemma_contains_corners(outer: AABB, inner: AABB, cx: int, cy: int, cz: int)
    requires
        contains_box(outer, inner),
        cx == inner.mini.x || cx == inner.maxi.x,
        cy == inner.mini.y || cy == inner.maxi.y,
        cz == inner.mini.z || cz == inner.maxi.z,
        aabb_ok(inner),
    ensures
        contains_pad(outer, cx, cy, cz, 0),
{
}

/// Merging is commutative.
pub proof fn lemma_merge_comm(a: AABB, b: AABB)
    ensures
        s_merge(a, b) == s_merge(b, a),
{
}

/// Merging is associative, exactly.
pub proof fn lemma_merge_assoc(a: AABB, b: AABB, c: AABB)
    ensures
        s_merge(a, s_merge(b, c)) == s_merge(s_merge(a, b), c),
{
}

/// Box containment is transitive.
pub proof fn lemma_contains_trans(a: AABB, b: AABB, c: AABB)
    requires
        contains_box(a, b),
        contains_box(b, c),
    ensures
        contains_box(a, c),
{
}

/// A point in a padded inner box is in the padded outer box.
pub proof fn lemma_contains_pad_mono(
    outer: AABB,
    inner: AABB,
    px: int,
    py: int,
    pz: int,
    pad: int,
)
    requires
        contains_box(outer, inner),
        contains_pad(inner, px, py, pz, pad),
    ensures
        contains_pad(outer, px, py, pz, pad),
{
}

impl AABB {
    pub fn emnew() -> (b: AABB)
        ensures
            b.mini == (Vec3 { x: 0i64, y: 0i64, z: 0i64 }),
            b.maxi == (Vec3 { x: 0i64, y: 0i64, z: 0i64 }),
    {
        let tem_v: Vec3 = Vec3::zero();
        AABB { mini: tem_v, maxi: tem_v }
    }

    pub fn new(mini: Vec3, maxi: Vec3) -> (b: AABB)
        ensures
            b.mini == mini,
            b.maxi == maxi,
    {
        AABB { mini, maxi }
    }

    pub fn copy(&mut self, other: AABB)
        ensures
            *final(self) == other,
    {
        self.mini.copy(other.min());
        self.maxi.copy(other.max());
    }

    pub fn min(&self) -> (v: Vec3)
        ensures
            v == self.mini,
    {
        self.mini
    }

    pub fn max(&self) -> (v: Vec3)
        ensures
            v == self.maxi,
    {
        self.maxi
    }

    fn fmin(a: i64, b: i64) -> (r: i64)
        ensures
            r as int == imin(a as int, b as int),
    {
        if a < b {
            a
        } else {
            b
        }
    }

    fn fmax(a: i64, b: i64) -> (r: i64)
        ensures
            r as int == imax(a as int, b as int),
    {
        if a > b {
            a
        } else {
            b
        }
    }

    /// The tightest box containing both arguments.
    pub fn merge(box0: AABB, box1: AABB) -> (b: AABB)
        ensures
            b == s_merge(box0, box1),
    {
        let small: Vec3 = Vec3::new(
            AABB::fmin(box0.min().x, box1.min().x),
            AABB::fmin(box0.min().y, box1.min().y),
            AABB::fmin(box0.min().z, box1.min().z),
        );
        let big: Vec3 = Vec3::new(
            AABB::fmax(box0.max().x, box1.max().x),
            AABB::fmax(box0.max().y, box1.max().y),
            AABB::fmax(box0.max().z, box1.max().z),
        );
        AABB::new(small, big)
    }

    /// Does a point lie within this box enlarged by the library tolerance?
    pub fn pcontains(&self, p: &Vec3) -> (r: bool)
        requires
            aabb_ok(*self),
        ensures
            r == contains_pad(*self, p.x as int, p.y as int, p.z as int, PAD as int),
    {
        self.mini.x - PAD <= p.x && p.x <= self.maxi.x + PAD && self.mini.y - PAD <= p.y && p.y
            <= self.maxi.y + PAD && self.mini.z - PAD <= p.z && p.z <= self.maxi.z + PAD
    }

    /// Slab test: may the ray pass through this box (padded by `PAD`)
    /// anywhere strictly between `tmin` and `tmax`?  A `false` answer is
    /// exact: no parameter in the window puts the ray point inside the
    /// padded box.
    pub fn hit(&self, r: Ray, tmin: i64, tmax: i64) -> (res: bool)
        requires
            aabb_ok(*self),
            ray_ok(r),
            fx_ok(tmin as int),
            fx_ok(tmax as int),
        ensures
            res == s_box_hit(*self, r, tmin as int, tmax as int),
            !res ==> forall|t: int|
                tmin < t < tmax ==> !contains_pad(
                    *self,
                    at_c(r.org.x as int, r.dir.x as int, t),
                    at_c(r.org.y as int, r.dir.y as int, t),
                    at_c(r.org.z as int, r.dir.z as int, t),
                    PAD as int,
                ),
    {
        let tb0: TBound = TBound { lo_n: tmin as i128, lo_d: 1, hi_n: tmax as i128, hi_d: 1 };
        let s1: Option<TBound> = axis_slab(tb0, r.org.x, r.dir.x, self.mini.x, self.maxi.x);
        let tb1: TBound = match s1 {
            Some(tb) => tb,
            None => {
                proof {
                    lemma_no_axis_no_hit_x(*self, r, tmin as int, tmax as int);
                }
                return false;
            },
        };
        let s2: Option<TBound> = axis_slab(tb1, r.org.y, r.dir.y, self.mini.y, self.maxi.y);
        let tb2: TBound = match s2 {
            Some(tb) => tb,
            None => {
                proof {
                    lemma_no_axis_no_hit_y(*self, r, tmin as int, tmax as int);
                }
                return false;
            },
        };
        let s3: Option<TBound> = axis_slab(tb2, r.org.z, r.dir.z, self.mini.z, self.maxi.z);
        let tb3: TBound = match s3 {
            Some(tb) => tb,
            None => {
                proof {
                    lemma_no_axis_no_hit_z(*self, r, tmin as int, tmax as int);
                }
                return false;
            },
        };
        proof {
            fx::lemma_mul_bound(
                tb3.lo_n as int,
                tb3.hi_d as int,
                0x8_0000_0000_0000_0000int,
                0x8000_0000_0000int,
            );
            fx::lemma_mul_bound(
                tb3.hi_n as int,
                tb3.lo_d as int,
                0x8_0000_0000_0000_0000int,
                0x8000_0000_0000int,
            );
        }
        if tb3.lo_n * tb3.hi_d >= tb3.hi_n * tb3.lo_d {
            proof {
                assert forall|t: int|
                    tmin < t < tmax && contains_pad(
                        *self,
                        at_c(r.org.x as int, r.dir.x as int, t),
                        at_c(r.org.y as int, r.dir.y as int, t),
                        at_c(r.org.z as int, r.dir.z as int, t),
                        PAD as int,
                    ) implies false by {
                    assert(tb_sat(tb0, t)) by (nonlinear_arith)
                        requires
                            tb0.lo_n == tmin as int,
                            tb0.lo_d == 1,
                            tb0.hi_n == tmax as int,
                            tb0.hi_d == 1,
                            tmin < t < tmax,
                    ;
                    lemma_tb_empty(tb3, t);
                }
            }
            false
        } else {
            true
        }
    }
}

/// Mirror of `axis_slab`: fold one padded slab into the rational window
/// `(lo_n/lo_d, hi_n/hi_d)`, or report the slab empty.
pub open spec fn s_axis_slab(
    lo_n: int,
    lo_d: int,
    hi_n: int,
    hi_d: int,
    org: int,
    dir: int,
    mini: int,
    maxi: int,
) -> Option<(int, int, int, int)> {
    let a = 65536 * (mini - PAD - org) - 65536;
    let b = 65536 * (maxi + PAD - org) + 65536;
    if dir == 0 {
        if a < 0 && 0 < b {
            Some((lo_n, lo_d, hi_n, hi_d))
        } else {
            None
        }
    } else if dir > 0 {
        let nlo = if a * lo_d > lo_n * dir {
            (a, dir)
        } else {
            (lo_n, lo_d)
        };
        let nhi = if b * hi_d < hi_n * dir {
            (b, dir)
        } else {
            (hi_n, hi_d)
        };
        Some((nlo.0, nlo.1, nhi.0, nhi.1))
    } else {
        let nd = -dir;
        let nlo = if (-b) * lo_d > lo_n * nd {
            (-b, nd)
        } else {
            (lo_n, lo_d)
        };
        let nhi = if (-a) * hi_d < hi_n * nd {
            (-a, nd)
        } else {
            (hi_n, hi_d)
        };
        Some((nlo.0, nlo.1, nhi.0, nhi.1))
    }
}

/// Mirror of `hit`: fold the three slabs into the window starting from
/// `(tmin, tmax)` and ask whether the final rational window is non-empty.
pub open spec fn s_box_hit(bx: AABB, r: Ray, tmin: int, tmax: int) -> bool {
    match s_axis_slab(
        tmin,
        1,
        tmax,
        1,
        r.org.x as int,
        r.dir.x as int,
        bx.mini.x as int,
        bx.maxi.x as int,
    ) {
        None => false,
        Some(t1) => match s_axis_slab(
            t1.0,
            t1.1,
            t1.2,
            t1.3,
            r.org.y as int,
            r.dir.y as int,
            bx.mini.y as int,
            bx.maxi.y as int,
        ) {
            None => false,
            Some(t2) => match s_axis_slab(
                t2.0,
                t2.1,
                t2.2,
                t2.3,
                r.org.z as int,
                r.dir.z as int,
                bx.mini.z as int,
                bx.maxi.z as int,
            ) {
                None => false,
                Some(t3) => !(t3.0 * t3.3 >= t3.2 * t3.1),
            },
        },
    }
}

/// A window of admissible ray parameters, as two exact rational bounds:
/// `t` is admissible when `t * lo_d > lo_n` and `t * hi_d < hi_n`.
struct TBound {
    lo_n: i128,
    lo_d: i128,
    hi_n: i128,
    hi_d: i128,
}

spec fn tb_inv(tb: TBound) -> bool {
    &&& 0 < tb.lo_d <= 0x8000_0000_0000int
    &&& 0 < tb.hi_d <= 0x8000_0000_0000int
    &&& -0x8_0000_0000_0000_0000int <= tb.lo_n <= 0x8_0000_0000_0000_0000int
    &&& -0x8_0000_0000_0000_0000int <= tb.hi_n <= 0x8_0000_0000_0000_0000int
}

spec fn tb_sat(tb: TBound, t: int) -> bool {
    t * (tb.lo_d as int) > tb.lo_n as int && t * (tb.hi_d as int) < tb.hi_n as int
}

/// The ray's point at `t` on one axis lies within the padded slab.
spec fn axis_contains(org: int, dir: int, mini: int, maxi: int, t: int) -> bool {
    mini - PAD <= at_c(org, dir, t) <= maxi + PAD
}

spec fn a_bound(org: int, mini: int) -> int {
    65536 * (mini - PAD - org) - 65536
}

spec fn b_bound(org: int, maxi: int) -> int {
    65536 * (maxi + PAD - org) + 65536
}

/// Membership in the padded slab forces the raw product `t * dir` between
/// the two exact slab bounds.
proof fn lemma_contains_implies(org: int, dir: int, mini: int, maxi: int, t: int)
    requires
        fx_ok(org),
        fx_ok(dir),
        -BOX_MAX <= mini <= maxi <= BOX_MAX,
        axis_contains(org, dir, mini, maxi, t),
    ensures
        a_bound(org, mini) < t * dir < b_bound(org, maxi),
{
    let x = t * dir;
    let w = org + tdiv(x, 65536);
    fx::lemma_tdiv_bound(x, 65536);
    assert(mini - PAD > -FX_MAX && maxi + PAD < FX_MAX);
    assert(at_c(org, dir, t) == clip(w));
    if w > FX_MAX as int {
        assert(clip(w) == FX_MAX as int);
        assert(false);
    } else if w < -(FX_MAX as int) {
        assert(false);
    }
    assert(mini - PAD <= w <= maxi + PAD);
    assert(x - 65536 < 65536 * tdiv(x, 65536) < x + 65536);
}

/// One slab of the box, folded into the running parameter window.
fn axis_slab(tb: TBound, org: i64, dir: i64, mini: i64, maxi: i64) -> (res: Option<TBound>)
    requires
        tb_inv(tb),
        fx_ok(org as int),
        fx_ok(dir as int),
        -BOX_MAX <= (mini as int) <= (maxi as int) <= BOX_MAX,
    ensures
        res matches Some(ntb) ==> tb_inv(ntb) && forall|t: int|
            tb_sat(tb, t) && axis_contains(org as int, dir as int, mini as int, maxi as int, t)
                ==> tb_sat(ntb, t),
        res is None ==> forall|t: int|
            !axis_contains(org as int, dir as int, mini as int, maxi as int, t),
        res matches Some(ntb) ==> s_axis_slab(
            tb.lo_n as int,
            tb.lo_d as int,
            tb.hi_n as int,
            tb.hi_d as int,
            org as int,
            dir as int,
            mini as int,
            maxi as int,
        ) == Some((ntb.lo_n as int, ntb.lo_d as int, ntb.hi_n as int, ntb.hi_d as int)),
        res is None ==> s_axis_slab(
            tb.lo_n as int,
            tb.lo_d as int,
            tb.hi_n as int,
            tb.hi_d as int,
            org as int,
            dir as int,
            mini as int,
            maxi as int,
        ) is None,
{
    let a: i128 = 65536i128 * ((mini as i128) - (PAD as i128) - (org as i128)) - 65536;
    let b: i128 = 65536i128 * ((maxi as i128) + (PAD as i128) - (org as i128)) + 65536;
    if dir == 0 {
        if a < 0 && 0 < b {
            proof {
                assert forall|t: int|
                    tb_sat(tb, t) && axis_contains(
                        org as int,
                        dir as int,
                        mini as int,
                        maxi as int,
                        t,
                    ) implies tb_sat(tb, t) by {}
            }
            Some(tb)
        } else {
            proof {
                assert forall|t: int|
                    !axis_contains(org as int, dir as int, mini as int, maxi as int, t) by {
                    if axis_contains(org as int, dir as int, mini as int, maxi as int, t) {
                        lemma_contains_implies(org as int, dir as int, mini as int, maxi as int, t);
                        assert(t * (dir as int) == 0) by (nonlinear_arith)
                            requires
                                dir == 0i64,
                        ;
                    }
                }
            }
            None
        }
    } else if dir > 0 {
        proof {
            fx::lemma_mul_bound(
                a as int,
                tb.lo_d as int,
                0x8_0000_0000_0000_0000int,
                0x8000_0000_0000int,
            );
            fx::lemma_mul_bound(
                tb.lo_n as int,
                dir as int,
                0x8_0000_0000_0000_0000int,
                0x8000_0000_0000int,
            );
            fx::lemma_mul_bound(
                b as int,
                tb.hi_d as int,
                0x8_0000_0000_0000_0000int,
                0x8000_0000_0000int,
            );
            fx::lemma_mul_bound(
                tb.hi_n as int,
                dir as int,
                0x8_0000_0000_0000_0000int,
                0x8000_0000_0000int,
            );
        }
        let nlo: TBound = if a * tb.lo_d > tb.lo_n * (dir as i128) {
            TBound { lo_n: a, lo_d: dir as i128, hi_n: tb.hi_n, hi_d: tb.hi_d }
        } else {
            TBound { lo_n: tb.lo_n, lo_d: tb.lo_d, hi_n: tb.hi_n, hi_d: tb.hi_d }
        };
        let ntb: TBound = if b * nlo.hi_d < nlo.hi_n * (dir as i128) {
            TBound { lo_n: nlo.lo_n, lo_d: nlo.lo_d, hi_n: b, hi_d: dir as i128 }
        } else {
            nlo
        };
        proof {
            assert forall|t: int|
                tb_sat(tb, t) && axis_contains(
                    org as int,
                    dir as int,
                    mini as int,
                    maxi as int,
                    t,
                ) implies tb_sat(ntb, t) by {
                lemma_contains_implies(org as int, dir as int, mini as int, maxi as int, t);
            }
        }
        Some(ntb)
    } else {
        proof {
            fx::lemma_mul_bound(
                a as int,
                tb.hi_d as int,
                0x8_0000_0000_0000_0000int,
                0x8000_0000_0000int,
            );
            fx::lemma_mul_bound(
                tb.hi_n as int,
                -(dir as int),
                0x8_0000_0000_0000_0000int,
                0x8000_0000_0000int,
            );
            fx::lemma_mul_bound(
                b as int,
                tb.lo_d as int,
                0x8_0000_0000_0000_0000int,
                0x8000_0000_0000int,
            );
            fx::lemma_mul_bound(
                tb.lo_n as int,
                -(dir as int),
                0x8_0000_0000_0000_0000int,
                0x8000_0000_0000int,
            );
        }
        let nd: i128 = -(dir as i128);
        proof {
            fx::lemma_mul_bound(
                -(a as int),
                tb.hi_d as int,
                0x8_0000_0000_0000_0000int,
                0x8000_0000_0000int,
            );
            fx::lemma_mul_bound(
                -(b as int),
                tb.lo_d as int,
                0x8_0000_0000_0000_0000int,
                0x8000_0000_0000int,
            );
        }
        let nlo: TBound = if (-b) * tb.lo_d > tb.lo_n * nd {
            TBound { lo_n: -b, lo_d: nd, hi_n: tb.hi_n, hi_d: tb.hi_d }
        } else {
            TBound { lo_n: tb.lo_n, lo_d: tb.lo_d, hi_n: tb.hi_n, hi_d: tb.hi_d }
        };
        let ntb: TBound = if (-a) * nlo.hi_d < nlo.hi_n * nd {
            TBound { lo_n: nlo.lo_n, lo_d: nlo.lo_d, hi_n: -a, hi_d: nd }
        } else {
            nlo
        };
        proof {
            assert forall|t: int|
                tb_sat(tb, t) && axis_contains(
                    org as int,
                    dir as int,
                    mini as int,
                    maxi as int,
                    t,
                ) implies tb_sat(ntb, t) by {
                lemma_contains_implies(org as int, dir as int, mini as int, maxi as int, t);
                assert(t * (dir as int) > a_bound(org as int, mini as int) ==> t * (-(dir as int))
                    < -a_bound(org as int, mini as int)) by (nonlinear_arith);
                assert(t * (dir as int) < b_bound(org as int, maxi as int) ==> t * (-(dir as int))
                    > -b_bound(org as int, maxi as int)) by (nonlinear_arith);
            }
        }
        Some(ntb)
    }
}

/// An inverted rational window admits no parameter at all.
proof fn lemma_tb_empty(tb: TBound, t: int)
    requires
        tb_inv(tb),
        (tb.lo_n as int) * (tb.hi_d as int) >= (tb.hi_n as int) * (tb.lo_d as int),
    ensures
        !tb_sat(tb, t),
{
    if !tb_sat(tb, t) {
        return;
    }
    assert((t * (tb.lo_d as int)) * (tb.hi_d as int) > (tb.lo_n as int) * (tb.hi_d as int))
        by (nonlinear_arith)
        requires
            t * (tb.lo_d as int) > tb.lo_n as int,
            tb.hi_d as int > 0,
    ;
    assert((t * (tb.hi_d as int)) * (tb.lo_d as int) < (tb.hi_n as int) * (tb.lo_d as int))
        by (nonlinear_arith)
        requires
            t * (tb.hi_d as int) < tb.hi_n as int,
            tb.lo_d as int > 0,
    ;
    assert((t * (tb.lo_d as int)) * (tb.hi_d as int) == (t * (tb.hi_d as int)) * (
    tb.lo_d as int)) by (nonlinear_arith);
}

proof fn lemma_no_axis_no_hit_x(b: AABB, r: Ray, tmin: int, tmax: int)
    requires
        forall|t: int|
            !axis_contains(r.org.x as int, r.dir.x as int, b.mini.x as int, b.maxi.x as int, t),
    ensures
        forall|t: int|
            tmin < t < tmax ==> !contains_pad(
                b,
                at_c(r.org.x as int, r.dir.x as int, t),
                at_c(r.org.y as int, r.dir.y as int, t),
                at_c(r.org.z as int, r.dir.z as int, t),
                PAD as int,
            ),
{
    assert forall|t: int| tmin < t < tmax implies !contains_pad(
        b,
        at_c(r.org.x as int, r.dir.x as int, t),
        at_c(r.org.y as int, r.dir.y as int, t),
        at_c(r.org.z as int, r.dir.z as int, t),
        PAD as int,
    ) by {
        assert(!axis_contains(r.org.x as int, r.dir.x as int, b.mini.x as int, b.maxi.x as int, t));
    }
}

proof fn lemma_no_axis_no_hit_y(b: AABB, r: Ray, tmin: int, tmax: int)
    requires
        forall|t: int|
            !axis_contains(r.org.y as int, r.dir.y as int, b.mini.y as int, b.maxi.y as int, t),
    ensures
        forall|t: int|
            tmin < t < tmax ==> !contains_pad(
                b,
                at_c(r.org.x as int, r.dir.x as int, t),
                at_c(r.org.y as int, r.dir.y as int, t),
                at_c(r.org.z as int, r.dir.z as int, t),
                PAD as int,
            ),
{
    assert forall|t: int| tmin < t < tmax implies !contains_pad(
        b,
        at_c(r.org.x as int, r.dir.x as int, t),
        at_c(r.org.y as int, r.dir.y as int, t),
        at_c(r.org.z as int, r.dir.z as int, t),
        PAD as int,
    ) by {
        assert(!axis_contains(r.org.y as int, r.dir.y as int, b.mini.y as int, b.maxi.y as int, t));
    }
}

proof fn lemma_no_axis_no_hit_z(b: AABB, r: Ray, tmin: int, tmax: int)
    requires
        forall|t: int|
            !axis_contains(r.org.z as int, r.dir.z as int, b.mini.z as int, b.maxi.z as int, t),
    ensures
        forall|t: int|
            tmin < t < tmax ==> !contains_pad(
                b,
                at_c(r.org.x as int, r.dir.x as int, t),
                at_c(r.org.y as int, r.dir.y as int, t),
                at_c(r.org.z as int, r.dir.z as int, t),
                PAD as int,
            ),
{
    assert forall|t: int| tmin < t < tmax implies !contains_pad(
        b,
        at_c(r.org.x as int, r.dir.x as int, t),
        at_c(r.org.y as int, r.dir.y as int, t),
        at_c(r.org.z as int, r.dir.z as int, t),
        PAD as int,
    ) by {
        assert(!axis_contains(r.org.z as int, r.dir.z as int, b.mini.z as int, b.maxi.z as int, t));
    }
}

} // verus!
