//! Random sampling.
//!
//! Every randomized routine takes an explicit generator, one per rendering
//! worker, so streams are independent across threads and reproducible in
//! tests.  The generator itself comes from the `rand` crate and is reached
//! only through the two trusted items below; everything built on top is
//! verified against their contracts.
use vstd::prelude::*;
use rand::Rng;
use rand::SeedableRng;
use crate::fx::ONE;
use crate::vec3::{Vec3, v_small, raw_dot};

verus! {

#[verifier::external_type_specification]
#[verifier::external_body]
pub struct ExSmallRng(rand::rngs::SmallRng);

/// Relies on rand::SeedableRng::seed_from_u64: builds a generator from a
/// word-sized seed.  Nothing is assumed about the stream it produces.
#[verifier::external_body]
pub fn rng_new(seed: u64) -> rand::rngs::SmallRng {
    rand::rngs::SmallRng::seed_from_u64(seed)
}

/// Relies on rand::Rng::random_range over `0..n`: returns a value of the
/// non-empty range and panics on an empty one, which the precondition rules
/// out.
#[verifier::external_body]
fn rng_below(rng: &mut rand::rngs::SmallRng, n: u64) -> (r: u64)
    requires
        n > 0,
    ensures
        r < n,
{
    rng.random_range(0..n)
}

/// A uniform integer drawn from `[low, high]`, both ends included.
pub fn randi(rng: &mut rand::rngs::SmallRng, low: i32, high: i32) -> (r: i32)
    requires
        low <= high,
    ensures
        low <= r <= high,
{
    let span: u64 = (high as i64 - low as i64 + 1) as u64;
    let off: u64 = rng_below(rng, span);
    (low as i64 + off as i64) as i32
}

/// A uniform fixed-point value drawn from `[low, high)`.
pub fn randfx(rng: &mut rand::rngs::SmallRng, low: i64, high: i64) -> (r: i64)
    requires
        low < high,
    ensures
        low <= r < high,
{
    let span: u64 = (high as i128 - low as i128) as u64;
    let off: u64 = rng_below(rng, span);
    (low as i128 + off as i128) as i64
}

/// A vector with every component drawn uniformly from `[low, high)`.
pub fn randvr(rng: &mut rand::rngs::SmallRng, low: i64, high: i64) -> (v: Vec3)
    requires
        low < high,
    ensures
        low <= v.x < high,
        low <= v.y < high,
        low <= v.z < high,
{
    let x: i64 = randfx(rng, low, high);
    let y: i64 = randfx(rng, low, high);
    let z: i64 = randfx(rng, low, high);
    Vec3 { x, y, z }
}

/// A point inside the unit sphere, by rejection sampling with a bounded
/// number of tries and a fixed interior fallback.
pub fn rand_in_unit_sphere(rng: &mut rand::rngs::SmallRng) -> (v: Vec3)
    ensures
        raw_dot(v, v) < (ONE as int) * (ONE as int),
        v_small(v),
{
    let mut tries: u64 = 0;
    while tries < 64
        invariant
            true,
        decreases 64 - tries,
    {
        let p: Vec3 = randvr(rng, -ONE + 1, ONE);
        proof {
            crate::fx::lemma_mul_bound(p.x as int, p.x as int, 65536int, 65536int);
            crate::fx::lemma_mul_bound(p.y as int, p.y as int, 65536int, 65536int);
            crate::fx::lemma_mul_bound(p.z as int, p.z as int, 65536int, 65536int);
        }
        let sq: i128 = (p.x as i128) * (p.x as i128) + (p.y as i128) * (p.y as i128) + (
        p.z as i128) * (p.z as i128);
        if sq < 0x1_0000_0000i128 {
            return p;
        }
        tries = tries + 1;
    }
    proof {
        assert((32768int) * (32768int) < (ONE as int) * (ONE as int)) by (nonlinear_arith)
            requires
                ONE == 65536i64,
        ;
    }
    Vec3 { x: ONE / 2, y: 0, z: 0 }
}

/// A point inside the unit disk of the xy plane.
pub fn rand_in_unit_disk(rng: &mut rand::rngs::SmallRng) -> (v: Vec3)
    ensures
        crate::vec3::in_unit_disk(v),
        raw_dot(v, v) < (ONE as int) * (ONE as int),
        v_small(v),
        v.z == 0,
{
    let mut tries: u64 = 0;
    while tries < 64
        invariant
            true,
        decreases 64 - tries,
    {
        let x: i64 = randfx(rng, -ONE + 1, ONE);
        let y: i64 = randfx(rng, -ONE + 1, ONE);
        proof {
            crate::fx::lemma_mul_bound(x as int, x as int, 65536int, 65536int);
            crate::fx::lemma_mul_bound(y as int, y as int, 65536int, 65536int);
        }
        let sq: i128 = (x as i128) * (x as i128) + (y as i128) * (y as i128);
        if sq < 0x1_0000_0000i128 {
            return Vec3 { x, y, z: 0 };
        }
        tries = tries + 1;
    }
    proof {
        assert((32768int) * (32768int) < (ONE as int) * (ONE as int)) by (nonlinear_arith)
            requires
                ONE == 65536i64,
        ;
    }
    Vec3 { x: ONE / 2, y: 0, z: 0 }
}

} // verus!
