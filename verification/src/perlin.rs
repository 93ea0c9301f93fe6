//! Gradient noise: a table of random unit-cube vectors and three independent
//! permutations of the indices, combined by a cheap xor hash of the lattice
//! coordinates and interpolated with Hermite smoothing.
use vstd::prelude::*;
use crate::fx;
use crate::fx::{ONE, fx_ok, fx_add, fx_mul, fx_floor, tdiv};
use crate::vec3::{v_dot, v_scale};
use crate::vec3::{Vec3, v_ok};
use crate::rng::randi;

verus! {

/// Entries in each table.
pub const PCNT: usize = 256;

/// Tables fully built: 256 gradient vectors with unit-cube components, and
/// three permutation tables whose entries all index back into the tables.
/// Every table index occurs in the table: together with the length and the
/// range bound this makes the table a permutation of the indices.
pub open spec fn perm_complete(v: Seq<usize>) -> bool {
    forall|k: int| 0 <= k < 256 ==> #[trigger] v.contains(k as usize)
}

pub open spec fn perlin_wf(p: Perlin) -> bool {
    &&& p.ranvec.len() == 256
    &&& forall|i: int|
        0 <= i < 256 ==> -ONE <= (#[trigger] p.ranvec[i]).x <= ONE && -ONE <= p.ranvec[i].y <= ONE
            && -ONE <= p.ranvec[i].z <= ONE
    &&& p.perm_x.len() == 256
    &&& p.perm_y.len() == 256
    &&& p.perm_z.len() == 256
    &&& forall|i: int| 0 <= i < 256 ==> #[trigger] p.perm_x[i] < 256
    &&& forall|i: int| 0 <= i < 256 ==> #[trigger] p.perm_y[i] < 256
    &&& forall|i: int| 0 <= i < 256 ==> #[trigger] p.perm_z[i] < 256
    &&& perm_complete(p.perm_x@)
    &&& perm_complete(p.perm_y@)
    &&& perm_complete(p.perm_z@)
}

/// A lattice coordinate wrapped into the table range.
pub open spec fn s_wrap(m: int) -> int {
    let rm = m - 256 * tdiv(m, 256);
    if rm < 0 {
        rm + 256
    } else {
        rm
    }
}

/// The gradient vector the xor hash selects for one lattice corner.
pub open spec fn s_grad(pl: Perlin, i: int, j: int, k: int, di: int, dj: int, dk: int) -> Vec3 {
    let a = pl.perm_x[s_wrap(i + di)];
    let b = pl.perm_y[s_wrap(j + dj)];
    let c = pl.perm_z[s_wrap(k + dk)];
    pl.ranvec[(a ^ b ^ c) as int]
}

/// The corner offsets of the interpolation, indexed as the loop walks them.
pub open spec fn s_corner_bit(idx: int, which: int) -> int {
    let on = if which == 0 {
        idx >= 4
    } else if which == 1 {
        (idx / 2) % 2 == 1
    } else {
        idx % 2 == 1
    };
    if on {
        ONE as int
    } else {
        0
    }
}

/// Hermite smoothing of a fractional offset.
pub open spec fn s_hermite(u: int) -> int {
    fx_mul(fx_mul(u, u), 3 * (ONE as int) - 2 * u)
}

/// One corner's contribution to the trilinear interpolation.
pub open spec fn s_interp_term(c: Vec3, idx: int, u: int, v: int, w: int) -> int {
    let di = s_corner_bit(idx, 0);
    let dj = s_corner_bit(idx, 1);
    let dk = s_corner_bit(idx, 2);
    let uu = s_hermite(u);
    let vv = s_hermite(v);
    let ww = s_hermite(w);
    let weight_v = Vec3 { x: (u - di) as i64, y: (v - dj) as i64, z: (w - dk) as i64 };
    let fu = fx_add(fx_mul(di, uu), fx_mul((ONE as int) - di, (ONE as int) - uu));
    let fv = fx_add(fx_mul(dj, vv), fx_mul((ONE as int) - dj, (ONE as int) - vv));
    let fw = fx_add(fx_mul(dk, ww), fx_mul((ONE as int) - dk, (ONE as int) - ww));
    fx_mul(fx_mul(fu, fv), fx_mul(fw, v_dot(c, weight_v)))
}

/// The corner the loop visits at step `idx`.
pub open spec fn s_corner_sel(
    c000: Vec3,
    c001: Vec3,
    c010: Vec3,
    c011: Vec3,
    c100: Vec3,
    c101: Vec3,
    c110: Vec3,
    c111: Vec3,
    idx: int,
) -> Vec3 {
    if idx == 0 {
        c000
    } else if idx == 1 {
        c001
    } else if idx == 2 {
        c010
    } else if idx == 3 {
        c011
    } else if idx == 4 {
        c100
    } else if idx == 5 {
        c101
    } else if idx == 6 {
        c110
    } else {
        c111
    }
}

/// The first `n` corner contributions, accumulated as the loop does.
pub open spec fn s_interp_acc(
    c000: Vec3,
    c001: Vec3,
    c010: Vec3,
    c011: Vec3,
    c100: Vec3,
    c101: Vec3,
    c110: Vec3,
    c111: Vec3,
    u: int,
    v: int,
    w: int,
    n: int,
) -> int
    decreases n,
{
    if n <= 0 {
        0
    } else {
        fx_add(
            s_interp_acc(c000, c001, c010, c011, c100, c101, c110, c111, u, v, w, n - 1),
            s_interp_term(
                s_corner_sel(c000, c001, c010, c011, c100, c101, c110, c111, n - 1),
                n - 1,
                u,
                v,
                w,
            ),
        )
    }
}

/// The gradient-noise value at a point: the Hermite-smoothed interpolation
/// over the eight surrounding lattice gradients.
pub open spec fn s_noise(pl: Perlin, p: Vec3) -> int {
    let i = fx_floor(p.x as int);
    let j = fx_floor(p.y as int);
    let k = fx_floor(p.z as int);
    let u = p.x - (ONE as int) * i;
    let v = p.y - (ONE as int) * j;
    let w = p.z - (ONE as int) * k;
    (
    s_interp_acc(
            s_grad(pl, i, j, k, 0, 0, 0),
            s_grad(pl, i, j, k, 0, 0, 1),
            s_grad(pl, i, j, k, 0, 1, 0),
            s_grad(pl, i, j, k, 0, 1, 1),
            s_grad(pl, i, j, k, 1, 0, 0),
            s_grad(pl, i, j, k, 1, 0, 1),
            s_grad(pl, i, j, k, 1, 1, 0),
            s_grad(pl, i, j, k, 1, 1, 1),
            u,
            v,
            w,
            8,
        )
    )
}

/// The turbulence recursion: weights halving, frequency doubling, absolute
/// value at the bottom.
pub open spec fn s_turb_from(pl: Perlin, accum: int, tem: Vec3, weight: int, n: int) -> int
    decreases n,
{
    if n <= 0 {
        if accum < 0 {
            -accum
        } else {
            accum
        }
    } else {
        s_turb_from(
            pl,
            fx_add(accum, fx_mul(weight, s_noise(pl, tem))),
            v_scale(tem, 2 * (ONE as int)),
            fx_mul(weight, (ONE as int) / 2),
            n - 1,
        )
    }
}

pub open spec fn s_turb(pl: Perlin, p: Vec3, depth: int) -> int {
    s_turb_from(pl, 0, p, ONE as int, depth)
}

#[derive(Debug)]
pub struct Perlin {
    pub ranvec: Vec<Vec3>,
    pub perm_x: Vec<usize>,
    pub perm_y: Vec<usize>,
    pub perm_z: Vec<usize>,
}

impl Perlin {
    pub fn new(rng: &mut rand::rngs::SmallRng) -> (p: Perlin)
        ensures
            perlin_wf(p),
    {
        let mut rv: Vec<Vec3> = Vec::new();
        let mut i: usize = 0;
        while i < PCNT
            invariant
                i <= 256,
                rv.len() == i,
                forall|k: int|
                    0 <= k < i as int ==> -ONE <= (#[trigger] rv[k]).x <= ONE && -ONE <= rv[k].y
                        <= ONE && -ONE <= rv[k].z <= ONE,
            decreases 256 - i,
        {
            let v: Vec3 = crate::rng::randvr(rng, -ONE, ONE);
            rv.push(v);
            i = i + 1;
        }
        let mut px: Vec<usize> = Vec::new();
        Perlin::perlin_generate_perm(&mut px, rng);
        let mut py: Vec<usize> = Vec::new();
        Perlin::perlin_generate_perm(&mut py, rng);
        let mut pz: Vec<usize> = Vec::new();
        Perlin::perlin_generate_perm(&mut pz, rng);
        Perlin { ranvec: rv, perm_x: px, perm_y: py, perm_z: pz }
    }

    /// Fill a table with 0..255 and shuffle it in place: the result is a
    /// permutation of the indices.
    pub fn perlin_generate_perm(v: &mut Vec<usize>, rng: &mut rand::rngs::SmallRng)
        ensures
            final (v).len() == 256,
            forall|i: int| 0 <= i < 256 ==> #[trigger] final (v)[i] < 256,
            perm_complete(final (v)@),
    {
        v.clear();
        let mut i: usize = 0;
        while i < PCNT
            invariant
                i <= 256,
                v.len() == i,
                forall|k: int| 0 <= k < i as int ==> #[trigger] v[k] < 256,
                forall|k: int| 0 <= k < i as int ==> #[trigger] v[k] == k,
            decreases 256 - i,
        {
            v.push(i);
            i = i + 1;
        }
        proof {
            assert forall|k: int| 0 <= k < 256 implies #[trigger] v@.contains(k as usize) by {
                assert(v@[k] == k);
            }
        }
        Perlin::permute(v, PCNT, rng);
    }

    /// Fisher-Yates style shuffle over the table: every swap keeps the
    /// table a permutation of what it was.
    pub fn permute(v: &mut Vec<usize>, n: usize, rng: &mut rand::rngs::SmallRng)
        requires
            old(v).len() == 256,
            forall|i: int| 0 <= i < 256 ==> #[trigger] old(v)[i] < 256,
            perm_complete(old(v)@),
        ensures
            final (v).len() == 256,
            forall|i: int| 0 <= i < 256 ==> #[trigger] final (v)[i] < 256,
            perm_complete(final (v)@),
    {
        let mut i: usize = 0;
        while i < PCNT - 1
            invariant
                i <= 255,
                v.len() == 256,
                forall|k: int| 0 <= k < 256 ==> #[trigger] v[k] < 256,
                perm_complete(v@),
            decreases 255 - i,
        {
            let tar: i32 = randi(rng, (i + 1) as i32, (PCNT - 1) as i32);
            let tar: usize = tar as usize;
            let tmp: usize = v[i];
            let vt: usize = v[tar];
            let ghost before = v@;
            v.set(i, vt);
            v.set(tar, tmp);
            proof {
                assert forall|k: int| 0 <= k < 256 implies #[trigger] v@.contains(k as usize) by {
                    assert(before.contains(k as usize));
                    let j0 = choose|j0: int|
                        0 <= j0 < before.len() && before[j0] == k as usize;
                    if j0 == i as int {
                        assert(v@[tar as int] == k as usize);
                    } else if j0 == tar as int {
                        assert(v@[i as int] == k as usize);
                    } else {
                        assert(v@[j0] == k as usize);
                    }
                }
            }
            i = i + 1;
        }
    }

    fn wrap(m: i64) -> (r: usize)
        requires
            -0x1_0000_0000 <= m <= 0x1_0000_0000,
        ensures
            r as int == s_wrap(m as int),
            r < 256,
    {
        let q: i64 = if m >= 0 {
            m / 256
        } else {
            -((-m) / 256)
        };
        proof {
            fx::lemma_tdiv_bound(m as int, 256);
        }
        let rm: i64 = m - 256 * q;
        if rm < 0 {
            (rm + 256) as usize
        } else {
            rm as usize
        }
    }

    fn grad(&self, i: i64, j: i64, k: i64, di: usize, dj: usize, dk: usize) -> (g: Vec3)
        requires
            perlin_wf(*self),
            -0x8000_0000 <= i <= 0x8000_0000,
            -0x8000_0000 <= j <= 0x8000_0000,
            -0x8000_0000 <= k <= 0x8000_0000,
            di <= 1,
            dj <= 1,
            dk <= 1,
        ensures
            g == s_grad(*self, i as int, j as int, k as int, di as int, dj as int, dk as int),
            -ONE <= g.x <= ONE,
            -ONE <= g.y <= ONE,
            -ONE <= g.z <= ONE,
    {
        let ix: usize = Perlin::wrap(i + di as i64);
        let jy: usize = Perlin::wrap(j + dj as i64);
        let kz: usize = Perlin::wrap(k + dk as i64);
        let a: usize = self.perm_x[ix];
        let b: usize = self.perm_y[jy];
        let c: usize = self.perm_z[kz];
        let idx: usize = a ^ b ^ c;
        proof {
            let au = a as u64;
            let bu = b as u64;
            let cu = c as u64;
            assert(au < 256 && bu < 256 && cu < 256 ==> (au ^ bu ^ cu) < 256) by (bit_vector);
            assert((a as u64) ^ (b as u64) ^ (c as u64) == (a ^ b ^ c) as u64) by (bit_vector);
        }
        self.ranvec[idx]
    }

    /// Gradient noise at a point.
    pub fn noise(&self, p: &Vec3) -> (r: i64)
        requires
            perlin_wf(*self),
            v_ok(*p),
        ensures
            r as int == s_noise(*self, *p),
            fx_ok(r as int),
    {
        let fx_i: i64 = fx::ffloor(p.x);
        let fx_j: i64 = fx::ffloor(p.y);
        let fx_k: i64 = fx::ffloor(p.z);
        let u: i64 = p.x - fx_i * ONE;
        let v: i64 = p.y - fx_j * ONE;
        let w: i64 = p.z - fx_k * ONE;
        proof {
            fx::lemma_frac_range(p.x as int);
            fx::lemma_frac_range(p.y as int);
            fx::lemma_frac_range(p.z as int);
        }
        let c000: Vec3 = self.grad(fx_i, fx_j, fx_k, 0, 0, 0);
        let c001: Vec3 = self.grad(fx_i, fx_j, fx_k, 0, 0, 1);
        let c010: Vec3 = self.grad(fx_i, fx_j, fx_k, 0, 1, 0);
        let c011: Vec3 = self.grad(fx_i, fx_j, fx_k, 0, 1, 1);
        let c100: Vec3 = self.grad(fx_i, fx_j, fx_k, 1, 0, 0);
        let c101: Vec3 = self.grad(fx_i, fx_j, fx_k, 1, 0, 1);
        let c110: Vec3 = self.grad(fx_i, fx_j, fx_k, 1, 1, 0);
        let c111: Vec3 = self.grad(fx_i, fx_j, fx_k, 1, 1, 1);
        let acc: i64 = Perlin::perlin_interp(
            c000,
            c001,
            c010,
            c011,
            c100,
            c101,
            c110,
            c111,
            u,
            v,
            w,
        );
        acc
    }

    /// Hermite-smoothed trilinear interpolation of the eight corner
    /// gradients against the fractional offset.
    fn perlin_interp(
        c000: Vec3,
        c001: Vec3,
        c010: Vec3,
        c011: Vec3,
        c100: Vec3,
        c101: Vec3,
        c110: Vec3,
        c111: Vec3,
        u: i64,
        v: i64,
        w: i64,
    ) -> (r: i64)
        requires
            0 <= u < ONE,
            0 <= v < ONE,
            0 <= w < ONE,
            v_ok(c000),
            v_ok(c001),
            v_ok(c010),
            v_ok(c011),
            v_ok(c100),
            v_ok(c101),
            v_ok(c110),
            v_ok(c111),
        ensures
            r as int == s_interp_acc(
                c000,
                c001,
                c010,
                c011,
                c100,
                c101,
                c110,
                c111,
                u as int,
                v as int,
                w as int,
                8,
            ),
            fx_ok(r as int),
    {
        let uu: i64 = fx::fmul(fx::fmul(u, u), 3 * ONE - 2 * u);
        let vv: i64 = fx::fmul(fx::fmul(v, v), 3 * ONE - 2 * v);
        let ww: i64 = fx::fmul(fx::fmul(w, w), 3 * ONE - 2 * w);
        let mut accum: i64 = 0;
        let mut i: usize = 0;
        while i < 8
            invariant
                i <= 8,
                fx_ok(accum as int),
                0 <= u < ONE,
                0 <= v < ONE,
                0 <= w < ONE,
                uu as int == s_hermite(u as int),
                vv as int == s_hermite(v as int),
                ww as int == s_hermite(w as int),
                fx_ok(uu as int),
                fx_ok(vv as int),
                fx_ok(ww as int),
                v_ok(c000) && v_ok(c001) && v_ok(c010) && v_ok(c011),
                v_ok(c100) && v_ok(c101) && v_ok(c110) && v_ok(c111),
                accum as int == s_interp_acc(
                    c000,
                    c001,
                    c010,
                    c011,
                    c100,
                    c101,
                    c110,
                    c111,
                    u as int,
                    v as int,
                    w as int,
                    i as int,
                ),
            decreases 8 - i,
        {
            let di: i64 = if i >= 4 {
                ONE
            } else {
                0
            };
            let dj: i64 = if (i / 2) % 2 == 1 {
                ONE
            } else {
                0
            };
            let dk: i64 = if i % 2 == 1 {
                ONE
            } else {
                0
            };
            let corner: Vec3 = if i == 0 {
                c000
            } else if i == 1 {
                c001
            } else if i == 2 {
                c010
            } else if i == 3 {
                c011
            } else if i == 4 {
                c100
            } else if i == 5 {
                c101
            } else if i == 6 {
                c110
            } else {
                c111
            };
            let weight_v: Vec3 = Vec3 { x: u - di, y: v - dj, z: w - dk };
            let fu: i64 = fx::fadd(fx::fmul(di, uu), fx::fmul(ONE - di, ONE - uu));
            let fv: i64 = fx::fadd(fx::fmul(dj, vv), fx::fmul(ONE - dj, ONE - vv));
            let fw: i64 = fx::fadd(fx::fmul(dk, ww), fx::fmul(ONE - dk, ONE - ww));
            let d: i64 = corner.vdot(&weight_v);
            let term: i64 = fx::fmul(fx::fmul(fu, fv), fx::fmul(fw, d));
            proof {
                assert(term as int == s_interp_term(
                    s_corner_sel(c000, c001, c010, c011, c100, c101, c110, c111, i as int),
                    i as int,
                    u as int,
                    v as int,
                    w as int,
                ));
            }
            accum = fx::fadd(accum, term);
            i = i + 1;
        }
        accum
    }

    /// Multi-octave turbulence: non-negative, with amplitude halving and
    /// frequency doubling at each level.
    pub fn turb(&self, p: &Vec3, depth: usize) -> (r: i64)
        requires
            perlin_wf(*self),
            v_ok(*p),
        ensures
            r as int == s_turb(*self, *p, depth as int),
            r >= 0,
            fx_ok(r as int),
    {
        let mut accum: i64 = 0;
        let mut tem: Vec3 = *p;
        let mut weight: i64 = ONE;
        let mut i: usize = 0;
        while i < depth
            invariant
                i <= depth,
                perlin_wf(*self),
                v_ok(tem),
                fx_ok(accum as int),
                fx_ok(weight as int),
                s_turb_from(*self, accum as int, tem, weight as int, depth as int - i as int)
                    == s_turb(*self, *p, depth as int),
            decreases depth - i,
        {
            let n: i64 = self.noise(&tem);
            accum = fx::fadd(accum, fx::fmul(weight, n));
            weight = fx::fmul(weight, ONE / 2);
            tem = tem.vscale(2 * ONE);
            i = i + 1;
        }
        if accum < 0 {
            -accum
        } else {
            accum
        }
    }
}

} // verus!
