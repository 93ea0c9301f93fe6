//! Textures: a pure function of surface coordinates and world position to a
//! linear color.
use vstd::prelude::*;
use crate::fx;
use crate::fx::{ONE, fx_ok};
use crate::vec3::{Vec3, v_ok};
use crate::perlin::{Perlin, perlin_wf};
use crate::trig;

verus! {

#[derive(Debug)]
pub enum Texture {
    Solid(SolidColor),
    Checker(CheckerTexture),
    Noise(NoiseTexture),
    Image(ImageTexture),
}

#[derive(Debug, Clone, Copy)]
pub struct SolidColor {
    pub color: Vec3,
}

#[derive(Debug)]
pub struct CheckerTexture {
    pub odd: Box<Texture>,
    pub even: Box<Texture>,
}

#[derive(Debug)]
pub struct NoiseTexture {
    pub noise: Perlin,
    pub scale: i64,
}

#[derive(Debug)]
pub struct ImageTexture {
    pub data: Vec<u8>,
    pub width: usize,
    pub height: usize,
    pub bytes_per_scanline: usize,
}

pub open spec fn image_wf(t: ImageTexture) -> bool {
    &&& t.bytes_per_scanline == 3 * t.width
    &&& t.data.len() == t.bytes_per_scanline * t.height
    &&& t.width <= 16384
    &&& t.height <= 16384
}

pub open spec fn texture_wf(t: Texture) -> bool
    decreases t,
{
    match t {
        Texture::Solid(s) => v_ok(s.color),
        Texture::Checker(c) => texture_wf(*c.odd) && texture_wf(*c.even),
        Texture::Noise(n) => perlin_wf(n.noise) && fx_ok(n.scale as int),
        Texture::Image(im) => image_wf(im),
    }
}

/// The world-space sine product that decides the checker parity.
pub open spec fn s_checker_sines(p: Vec3) -> int {
    let sx = trig::s_fsin(fx::fx_mul(10 * (ONE as int), p.x as int));
    let sy = trig::s_fsin(fx::fx_mul(10 * (ONE as int), p.y as int));
    let sz = trig::s_fsin(fx::fx_mul(10 * (ONE as int), p.z as int));
    fx::fx_mul(fx::fx_mul(sx, sy), sz)
}

/// The color of a texture at surface coordinates and world position: the
/// full mirror of `Texture::value`.
pub open spec fn s_value(t: Texture, u: int, v: int, p: Vec3) -> Vec3
    decreases t,
{
    match t {
        Texture::Solid(sc) => sc.color,
        Texture::Checker(ck) => if s_checker_sines(p) < 0 {
            s_value(*ck.odd, u, v, p)
        } else {
            s_value(*ck.even, u, v, p)
        },
        Texture::Noise(n) => {
            let g = fx::fx_mul(
                (ONE as int) / 2,
                fx::fx_add(
                    ONE as int,
                    trig::s_fsin(
                        fx::fx_add(
                            fx::fx_mul(p.z as int, n.scale as int),
                            fx::fx_mul(
                                10 * (ONE as int),
                                crate::perlin::s_turb(
                                    n.noise,
                                    crate::vec3::v_scale(p, n.scale as int),
                                    7,
                                ),
                            ),
                        ),
                    ),
                ),
            );
            Vec3 { x: g as i64, y: g as i64, z: g as i64 }
        },
        Texture::Image(im) => s_image_value(im, u, v),
    }
}

pub open spec fn iclamp(x: int, lo: int, hi: int) -> int {
    if x < lo {
        lo
    } else if x > hi {
        hi
    } else {
        x
    }
}

/// The nearest-pixel lookup an image texture performs: clamp the surface
/// coordinates, flip the vertical one, index the decoded bytes, and scale
/// each channel into `[0, ONE]`.  Empty image data yields the cyan sentinel.
pub open spec fn s_image_value(t: ImageTexture, u: int, v: int) -> Vec3 {
    if t.data.len() == 0 {
        Vec3 { x: 0i64, y: ONE, z: ONE }
    } else {
        let uu = iclamp(u, 0, ONE as int);
        let vv = (ONE as int) - iclamp(v, 0, ONE as int);
        let i0 = (uu * t.width) / (ONE as int);
        let j0 = (vv * t.height) / (ONE as int);
        let i = if i0 >= t.width {
            t.width as int - 1
        } else {
            i0
        };
        let j = if j0 >= t.height {
            t.height as int - 1
        } else {
            j0
        };
        let pix = j * t.bytes_per_scanline + i * 3;
        Vec3 {
            x: ((t.data[pix] * ONE) / 255) as i64,
            y: ((t.data[pix + 1] * ONE) / 255) as i64,
            z: ((t.data[pix + 2] * ONE) / 255) as i64,
        }
    }
}

impl SolidColor {
    pub fn new(color: Vec3) -> (t: SolidColor)
        ensures
            t.color == color,
    {
        SolidColor { color }
    }

    pub fn color(&self) -> (c: Vec3)
        ensures
            c == self.color,
    {
        self.color
    }
}

impl CheckerTexture {
    pub fn new(odd: Box<Texture>, even: Box<Texture>) -> (t: CheckerTexture)
        ensures
            t.odd == odd,
            t.even == even,
    {
        CheckerTexture { odd, even }
    }

    pub fn cnew(c1: Vec3, c2: Vec3) -> (t: CheckerTexture)
        ensures
            t.odd == Box::new(Texture::Solid(SolidColor { color: c1 })),
            t.even == Box::new(Texture::Solid(SolidColor { color: c2 })),
    {
        CheckerTexture {
            odd: Box::new(Texture::Solid(SolidColor { color: c1 })),
            even: Box::new(Texture::Solid(SolidColor { color: c2 })),
        }
    }
}

impl NoiseTexture {
    pub fn new(sc: i64, rng: &mut rand::rngs::SmallRng) -> (t: NoiseTexture)
        requires
            fx_ok(sc as int),
        ensures
            texture_wf(Texture::Noise(t)),
            t.scale == sc,
    {
        NoiseTexture { noise: Perlin::new(rng), scale: sc }
    }
}

impl ImageTexture {
    pub fn emnew() -> (t: ImageTexture)
        ensures
            image_wf(t),
            t.data.len() == 0,
            t.width == 0 && t.height == 0 && t.bytes_per_scanline == 0,
    {
        ImageTexture { data: Vec::new(), width: 0, height: 0, bytes_per_scanline: 0 }
    }

    /// Wrap already-decoded image bytes: three bytes per pixel, rows from
    /// the visual top.
    pub fn new(data: Vec<u8>, width: usize, height: usize) -> (t: ImageTexture)
        requires
            data.len() == 3 * width * height,
            width <= 16384,
            height <= 16384,
        ensures
            image_wf(t),
            t.data == data,
            t.width == width,
            t.height == height,
    {
        proof {
            assert((3 * width) * height == 3 * width * height) by (nonlinear_arith);
        }
        let bps: usize = 3 * width;
        ImageTexture { data, width, height, bytes_per_scanline: bps }
    }

    fn value(&self, u: i64, v: i64) -> (c: Vec3)
        requires
            image_wf(*self),
        ensures
            c == s_image_value(*self, u as int, v as int),
    {
        if self.data.len() == 0 {
            return Vec3 { x: 0, y: ONE, z: ONE };
        }
        proof {
            lemma_image_nonempty(*self);
        }
        let uu: i64 = fx::clamp(u, 0, ONE);
        let vv: i64 = ONE - fx::clamp(v, 0, ONE);
        proof {
            fx::lemma_mul_bound(uu as int, self.width as int, 65536int, 16384int);
            fx::lemma_mul_bound(vv as int, self.height as int, 65536int, 16384int);
        }
        let i0: usize = ((uu as usize) * self.width) / (ONE as usize);
        let j0: usize = ((vv as usize) * self.height) / (ONE as usize);
        let i: usize = if i0 >= self.width {
            self.width - 1
        } else {
            i0
        };
        let j: usize = if j0 >= self.height {
            self.height - 1
        } else {
            j0
        };
        proof {
            lemma_pixel_in_range(*self, i as int, j as int);
        }
        let pix: usize = j * self.bytes_per_scanline + i * 3;
        let r: i64 = ((self.data[pix] as i64) * ONE) / 255;
        let g: i64 = ((self.data[pix + 1] as i64) * ONE) / 255;
        let b: i64 = ((self.data[pix + 2] as i64) * ONE) / 255;
        Vec3 { x: r, y: g, z: b }
    }
}

proof fn lemma_image_nonempty(t: ImageTexture)
    requires
        image_wf(t),
        t.data.len() > 0,
    ensures
        t.width >= 1,
        t.height >= 1,
{
    if t.width == 0 || t.height == 0 {
        assert(t.bytes_per_scanline * t.height == 0) by (nonlinear_arith)
            requires
                t.bytes_per_scanline == 3 * t.width,
                t.width == 0 || t.height == 0,
        ;
    }
}

proof fn lemma_pixel_in_range(t: ImageTexture, i: int, j: int)
    requires
        image_wf(t),
        0 <= i < t.width,
        0 <= j < t.height,
    ensures
        j * t.bytes_per_scanline + i * 3 + 2 < t.data.len(),
        0 <= j * t.bytes_per_scanline <= 0x3000_0000int,
{
    assert(j * t.bytes_per_scanline <= 16383 * 49152) by (nonlinear_arith)
        requires
            0 <= j <= 16383,
            0 <= t.bytes_per_scanline <= 49152,
    ;
    assert(j * t.bytes_per_scanline <= (t.height - 1) * t.bytes_per_scanline) by (nonlinear_arith)
        requires
            j <= t.height - 1,
            t.bytes_per_scanline >= 0,
    ;
    assert((t.height - 1) * t.bytes_per_scanline == t.bytes_per_scanline * t.height
        - t.bytes_per_scanline) by (nonlinear_arith);
    assert(i * 3 + 2 < t.bytes_per_scanline || t.width > 16384) by (nonlinear_arith)
        requires
            i < t.width,
            0 <= i,
            t.bytes_per_scanline == 3 * t.width,
    ;
    assert(j * t.bytes_per_scanline >= 0) by (nonlinear_arith)
        requires
            j >= 0,
            t.bytes_per_scanline >= 0,
    ;
}

impl Texture {
    /// `value(u, v, p)`: the color of the texture at surface coordinates
    /// `(u, v)` and world position `p`.
    pub fn value(&self, u: i64, v: i64, p: &Vec3) -> (c: Vec3)
        requires
            texture_wf(*self),
            v_ok(*p),
        ensures
            c == s_value(*self, u as int, v as int, *p),
            v_ok(c),
            self matches Texture::Noise(n) ==> 0 <= c.x <= ONE && c.x == c.y && c.y == c.z,
        decreases *self,
    {
        match self {
            Texture::Solid(s) => s.color,
            Texture::Checker(c) => {
                let sx: i64 = trig::fsin(fx::fmul(10 * ONE, p.x));
                let sy: i64 = trig::fsin(fx::fmul(10 * ONE, p.y));
                let sz: i64 = trig::fsin(fx::fmul(10 * ONE, p.z));
                let sines: i64 = fx::fmul(fx::fmul(sx, sy), sz);
                if sines < 0 {
                    c.odd.value(u, v, p)
                } else {
                    c.even.value(u, v, p)
                }
            },
            Texture::Noise(n) => {
                let sp: Vec3 = p.vscale(n.scale);
                let sz: i64 = fx::fmul(p.z, n.scale);
                let tb: i64 = n.noise.turb(&sp, 7);
                let arg: i64 = fx::fadd(sz, fx::fmul(10 * ONE, tb));
                let s: i64 = trig::fsin(arg);
                let g: i64 = fx::fmul(ONE / 2, fx::fadd(ONE, s));
                proof {
                    lemma_gray_range(s as int);
                }
                Vec3 { x: g, y: g, z: g }
            },
            Texture::Image(im) => im.value(u, v),
        }
    }
}

proof fn lemma_gray_range(s: int)
    requires
        -ONE <= s <= ONE,
    ensures
        0 <= fx::fx_mul((ONE as int) / 2, fx::fx_add(ONE as int, s)) <= ONE,
{
    let w = fx::fx_add(ONE as int, s);
    assert(0 <= w <= 2 * (ONE as int));
    assert(0 <= 32768 * w <= 2 * 65536 * 32768) by (nonlinear_arith)
        requires
            0 <= w <= 2 * 65536,
    ;
    fx::lemma_tdiv_bound(32768 * w, ONE as int);
}

} // verus!
