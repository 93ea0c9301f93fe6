//! The radiance integrator, the gamma-corrected 8-bit output conversion,
//! and the row-band partition used by the parallel renderer.
use vstd::prelude::*;
use vstd::arithmetic::div_mod::{lemma_div_is_ordered, lemma_div_multiples_vanish};
use crate::fx;
use crate::fx::{ONE, FX_MAX};
use crate::vec3::Vec3;
use crate::vec3::v_ok;
use crate::ray::{Ray, ray_ok, ORG_MAX};
use crate::bvh::{BvhNode, node_wf};
use crate::camera::{Camera, camera_wf};
use crate::rng::{rng_new, randfx};

verus! {

/// Exclusion window around a ray origin, ruling out self-intersection.
pub const SELF_EPS: i64 = 66;

/// A plain vertical gradient used to smoke-test image output.
#[derive(Debug)]
pub struct World {
    pub height: u32,
}

impl World {
    pub fn new(height: u32) -> (w: World)
        ensures
            w.height == height,
    {
        World { height }
    }

    /// The gray level of a row: `y * 256 / height`.
    pub fn color(&self, x: u32, y: u32) -> (c: u8)
        requires
            self.height > 0,
            y < self.height,
        ensures
            c as int == (y as int * 256) / (self.height as int),
    {
        let q: u64 = (y as u64) * 256 / (self.height as u64);
        proof {
            let h = self.height as int;
            assert((y as int) * 256 <= 255 * h + (h - 1)) by (nonlinear_arith)
                requires
                    0 <= (y as int) < h,
            ;
            lemma_div_is_ordered((y as int) * 256, 255 * h + (h - 1), h);
            vstd::arithmetic::div_mod::lemma_fundamental_div_mod_converse_div(
                255 * h + (h - 1),
                h,
                255,
                h - 1,
            );
            assert((y as int) * 256 >= 0) by (nonlinear_arith);
            lemma_div_is_ordered(0, (y as int) * 256, h);
            fx::lemma_tdiv_zero(h);
        }
        q as u8
    }
}

/// The recursive radiance estimate for one ray.
///
/// At depth zero the estimate is black, whatever the ray and scene; below
/// that, emitted light plus the attenuated estimate of the scattered ray,
/// or the background where nothing is hit.
pub fn ray_color(
    r: Ray,
    background: &Vec3,
    list: &BvhNode,
    depth: i32,
    rng: &mut rand::rngs::SmallRng,
) -> (c: Vec3)
    requires
        node_wf(*list),
        ray_ok(r),
        v_ok(*background),
    ensures
        v_ok(c),
        depth <= 0 ==> c == (Vec3 { x: 0i64, y: 0i64, z: 0i64 }),
        depth > 0 && crate::bvh::node_canonical(*list) && (forall|t: int|
            SELF_EPS < t < FX_MAX ==> !crate::bvh::node_cand(*list, r, t)) ==> c == *background,
    decreases depth,
{
    if depth <= 0 {
        return Vec3::zero();
    }
    match list.hit(r, SELF_EPS, FX_MAX, rng) {
        Some((rec, mat)) => {
            let mut scat: Ray = Ray::new(Vec3::zero(), Vec3::zero(), 0);
            let mut att: Vec3 = Vec3::zero();
            let emit: Vec3 = mat.emitted(rec.u, rec.v, &rec.p);
            if mat.scatter(rng, &r, &rec, &mut att, &mut scat) {
                let o: Vec3 = scat.origin();
                let d: Vec3 = scat.diraction();
                if -ORG_MAX <= o.x && o.x <= ORG_MAX && -ORG_MAX <= o.y && o.y <= ORG_MAX
                    && -ORG_MAX <= o.z && o.z <= ORG_MAX && -FX_MAX <= d.x && d.x <= FX_MAX
                    && -FX_MAX <= d.y && d.y <= FX_MAX && -FX_MAX <= d.z && d.z <= FX_MAX
                    && -FX_MAX <= scat.tm && scat.tm <= FX_MAX {
                    let rest: Vec3 = ray_color(scat, background, list, depth - 1, rng);
                    emit.vadd(&Vec3::elemul(att, rest))
                } else {
                    emit
                }
            } else {
                emit
            }
        },
        None => *background,
    }
}

/// One output channel: average over the samples, gamma-correct by square
/// root, clamp and quantize to eight bits.
pub open spec fn s_out_c(c: int, samples: int) -> int {
    let cs = fx::fx_div(c, samples * (ONE as int));
    let cl = if cs < 0 {
        0
    } else {
        cs
    };
    let g = fx::fx_sqrt(cl);
    let gc = if g > 65470 {
        65470
    } else {
        g
    };
    (gc * 256) / (ONE as int)
}

/// Average, gamma-correct and quantize an accumulated color.
pub fn out_color(color: Vec3, samples: i32) -> (r: Vec3)
    requires
        samples > 0,
    ensures
        r.x as int == s_out_c(color.x as int, samples as int),
        r.y as int == s_out_c(color.y as int, samples as int),
        r.z as int == s_out_c(color.z as int, samples as int),
        0 <= r.x <= 255 && 0 <= r.y <= 255 && 0 <= r.z <= 255,
{
    let sc: i64 = (samples as i64) * ONE;
    let rx: i64 = out_c(color.x, sc, samples);
    let ry: i64 = out_c(color.y, sc, samples);
    let rz: i64 = out_c(color.z, sc, samples);
    Vec3 { x: rx, y: ry, z: rz }
}

fn out_c(c: i64, sc: i64, samples: i32) -> (r: i64)
    requires
        samples > 0,
        sc as int == (samples as int) * (ONE as int),
    ensures
        r as int == s_out_c(c as int, samples as int),
        0 <= r <= 255,
{
    proof {
        assert((samples as int) * (ONE as int) > 0) by (nonlinear_arith)
            requires
                samples > 0,
                ONE == 65536i64,
        ;
    }
    let cs: i64 = fx::fdiv(c, sc);
    let cl: i64 = if cs < 0 {
        0
    } else {
        cs
    };
    let g: i64 = fx::fsqrt(cl);
    let gc: i64 = if g > 65470 {
        65470
    } else {
        g
    };
    let r: i64 = (gc * 256) / ONE;
    proof {
        assert(0 <= (gc as int * 256) / (ONE as int) <= 255) by {
            lemma_div_is_ordered(0, gc as int * 256, ONE as int);
            lemma_div_is_ordered(gc as int * 256, 65470int * 256, ONE as int);
        }
    }
    r
}

/// The first row of one horizontal band: `height * i / n_jobs`.
pub open spec fn band_start(i: int, n_jobs: int, height: int) -> int {
    (height * i) / n_jobs
}

/// The rows of the band: `[band_start(i), band_start(i + 1))`.
pub fn band_bounds(i: usize, n_jobs: usize, height: usize) -> (res: (usize, usize))
    requires
        0 < n_jobs <= 0x10000,
        i < n_jobs,
        height <= 0x10000,
    ensures
        res.0 as int == band_start(i as int, n_jobs as int, height as int),
        res.1 as int == band_start(i as int + 1, n_jobs as int, height as int),
        res.0 <= res.1 <= height,
{
    proof {
        lemma_band_bounds_math(i as int, n_jobs as int, height as int);
    }
    let a: u64 = (height as u64) * (i as u64) / (n_jobs as u64);
    let b: u64 = (height as u64) * ((i + 1) as u64) / (n_jobs as u64);
    (a as usize, b as usize)
}

/// Bands are ordered and cover the image: each starts where the previous
/// one ends, the first begins at row zero and the last ends at the image
/// height.
pub proof fn lemma_band_partition(n_jobs: int, height: int)
    requires
        0 < n_jobs,
        0 <= height,
    ensures
        band_start(0, n_jobs, height) == 0,
        band_start(n_jobs, n_jobs, height) == height,
        forall|i: int, j: int|
            0 <= i <= j <= n_jobs ==> #[trigger] band_start(i, n_jobs, height) <= #[trigger] band_start(
                j,
                n_jobs,
                height,
            ),
{
    assert(height * 0 == 0) by (nonlinear_arith);
    vstd::arithmetic::div_mod::lemma_div_by_self(n_jobs);
    assert(height * n_jobs == n_jobs * height) by (nonlinear_arith);
    lemma_div_multiples_vanish(height, n_jobs);
    assert(band_start(n_jobs, n_jobs, height) == height);
    assert(band_start(0, n_jobs, height) == 0) by {
        fx::lemma_tdiv_zero(n_jobs);
    }
    assert forall|i: int, j: int|
        0 <= i <= j <= n_jobs implies #[trigger] band_start(i, n_jobs, height)
        <= #[trigger] band_start(j, n_jobs, height) by {
        assert(height * i <= height * j) by (nonlinear_arith)
            requires
                i <= j,
                height >= 0,
        ;
        lemma_div_is_ordered(height * i, height * j, n_jobs);
    }
}

proof fn lemma_band_bounds_math(i: int, n_jobs: int, height: int)
    requires
        0 < n_jobs <= 0x10000,
        0 <= i < n_jobs,
        0 <= height <= 0x10000,
    ensures
        0 <= band_start(i, n_jobs, height) <= band_start(i + 1, n_jobs, height) <= height,
        height * i <= 0x1_0000_0000int,
        height * (i + 1) <= 0x1_0000_0000int,
{
    assert(0 <= height * i <= 0x1_0000_0000int && 0 <= height * (i + 1) <= 0x1_0000_0000int)
        by (nonlinear_arith)
        requires
            0 <= i < n_jobs <= 0x10000,
            0 <= height <= 0x10000,
    ;
    assert(height * i <= height * (i + 1)) by (nonlinear_arith)
        requires
            height >= 0,
    ;
    lemma_div_is_ordered(height * i, height * (i + 1), n_jobs);
    assert(height * (i + 1) <= height * n_jobs) by (nonlinear_arith)
        requires
            i + 1 <= n_jobs,
            height >= 0,
    ;
    lemma_div_is_ordered(height * (i + 1), height * n_jobs, n_jobs);
    assert(height * n_jobs == n_jobs * height) by (nonlinear_arith);
    lemma_div_multiples_vanish(height, n_jobs);
    assert((height * i) / n_jobs >= 0) by {
        lemma_div_is_ordered(0, height * i, n_jobs);
        fx::lemma_tdiv_zero(n_jobs);
    }
}

/// Render one horizontal band of the image, bottom row last, from its own
/// random stream; the band is returned as packed rows of 8-bit pixels.
pub fn render_band(
    list: &BvhNode,
    cam: &Camera,
    background: &Vec3,
    i_wid: usize,
    row_begin: usize,
    row_end: usize,
    i_hit: usize,
    samples: u32,
    maxdeep: i32,
    seed: u64,
) -> (img: Vec<(u8, u8, u8)>)
    requires
        node_wf(*list),
        camera_wf(*cam),
        v_ok(*background),
        1 < i_wid <= 0x10000,
        1 < i_hit <= 0x10000,
        row_begin <= row_end <= i_hit,
        0 < samples <= 0x8000,
    ensures
        img.len() == (row_end - row_begin) * i_wid,
{
    let mut rng: rand::rngs::SmallRng = rng_new(seed);
    let mut img: Vec<(u8, u8, u8)> = Vec::new();
    let mut y: usize = row_begin;
    while y < row_end
        invariant
            node_wf(*list),
            camera_wf(*cam),
            v_ok(*background),
            1 < i_wid <= 0x10000,
            1 < i_hit <= 0x10000,
            row_begin <= y <= row_end,
            row_end <= i_hit,
            0 < samples <= 0x8000,
            img.len() == (y - row_begin) * i_wid,
        decreases row_end - y,
    {
        let yy: usize = i_hit - 1 - y;
        let mut x: usize = 0;
        while x < i_wid
            invariant
                node_wf(*list),
                camera_wf(*cam),
                v_ok(*background),
                1 < i_wid <= 0x10000,
                1 < i_hit <= 0x10000,
                row_begin <= y < row_end,
                row_end <= i_hit,
                0 < samples <= 0x8000,
                x <= i_wid,
                yy < i_hit,
                img.len() == (y - row_begin) * i_wid + x,
            decreases i_wid - x,
        {
            let mut color: Vec3 = Vec3::zero();
            let mut s: u32 = 0;
            while s < samples
                invariant
                    node_wf(*list),
                    camera_wf(*cam),
                    v_ok(*background),
                    1 < i_wid <= 0x10000,
                    1 < i_hit <= 0x10000,
                    x < i_wid,
                    yy < i_hit,
                decreases samples - s,
            {
                let ju: i64 = randfx(&mut rng, 0, ONE);
                let jv: i64 = randfx(&mut rng, 0, ONE);
                let u: i64 = fx::fdiv((x as i64) * ONE + ju, ((i_wid - 1) as i64) * ONE);
                let v: i64 = fx::fdiv((yy as i64) * ONE + jv, ((i_hit - 1) as i64) * ONE);
                let r: Ray = cam.get_ray(u, v, &mut rng);
                let sample: Vec3 = ray_color(r, background, list, maxdeep, &mut rng);
                color = color.vadd(&sample);
                s = s + 1;
            }
            let otc: Vec3 = out_color(color, samples as i32);
            img.push(((otc.x as u8), (otc.y as u8), (otc.z as u8)));
            x = x + 1;
        }
        proof {
            assert((y - row_begin) * i_wid + i_wid == (y + 1 - row_begin) * i_wid)
                by (nonlinear_arith);
        }
        y = y + 1;
    }
    img
}

} // verus!
