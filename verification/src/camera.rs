//! The camera: maps normalized image coordinates to rays, with lens jitter
//! for depth of field and a time sample for motion blur.
use vstd::prelude::*;
use crate::fx;
use crate::fx::{ONE, fx_ok};
use crate::vec3::{Vec3, v_ok, v_add, v_sub, v_sqlen, v_len, v_divs, v_scale, v_cross, in_unit_disk};
use crate::texture::iclamp;
use crate::ray::{Ray, ray_ok, org_ok, ORG_MAX};
use crate::trig;
use crate::rng::{rand_in_unit_disk, randfx};

verus! {

#[derive(Debug)]
pub struct Camera {
    pub origin: Vec3,
    pub lower_left_corner: Vec3,
    pub horizontal: Vec3,
    pub vertical: Vec3,
    pub u: Vec3,
    pub v: Vec3,
    pub w: Vec3,
    pub lens_radius: i64,
    pub tm0: i64,
    pub tm1: i64,
}

pub open spec fn camera_wf(c: Camera) -> bool {
    &&& org_ok(c.origin)
    &&& v_ok(c.lower_left_corner)
    &&& v_ok(c.horizontal)
    &&& v_ok(c.vertical)
    &&& v_ok(c.u) && v_ok(c.v) && v_ok(c.w)
    &&& 0 <= c.lens_radius
    &&& fx_ok(c.lens_radius as int)
    &&& fx_ok(c.tm0 as int) && fx_ok(c.tm1 as int) && c.tm0 <= c.tm1
}

impl Camera {
    /// Derive the orthonormal viewing basis and viewport extents from eye,
    /// target, up vector, vertical field of view and aspect ratio.
    pub fn new(
        lookfrom: Vec3,
        lookat: Vec3,
        vup: Vec3,
        vfov: i64,
        as_ratio: i64,
        aperture: i64,
        dist_to_focus: i64,
        tm0: i64,
        tm1: i64,
    ) -> (c: Camera)
        requires
            org_ok(lookfrom),
            v_ok(lookfrom),
            v_ok(lookat),
            v_ok(vup),
            v_sqlen(v_sub(lookfrom, lookat)) > 0,
            0 <= aperture,
            fx_ok(aperture as int),
            fx_ok(tm0 as int),
            fx_ok(tm1 as int),
            tm0 <= tm1,
        ensures
            camera_wf(c),
            c.origin == lookfrom,
            c.lens_radius as int == fx::fx_div(aperture as int, 2 * (ONE as int)),
            c.tm0 == tm0 && c.tm1 == tm1,
            aperture == 0 ==> c.lens_radius == 0,
            ({
                let sb = v_sub(lookfrom, lookat);
                let wv = v_divs(sb, v_len(sb));
                let cu = v_cross(vup, wv);
                let uv = if v_sqlen(cu) > 0 {
                    v_divs(cu, v_len(cu))
                } else {
                    Vec3 { x: ONE, y: 0i64, z: 0i64 }
                };
                let vv = v_cross(wv, uv);
                let h = trig::s_ftan(fx::fx_div(trig::s_dtr(vfov as int), 2 * (ONE as int)));
                let vh = fx::fx_mul(2 * (ONE as int), h);
                let vw = fx::fx_mul(as_ratio as int, vh);
                let horiz = v_scale(uv, fx::fx_mul(vw, dist_to_focus as int));
                let vert = v_scale(vv, fx::fx_mul(vh, dist_to_focus as int));
                &&& c.w == wv
                &&& c.u == uv
                &&& c.v == vv
                &&& c.horizontal == horiz
                &&& c.vertical == vert
                &&& c.lower_left_corner == v_sub(
                    v_sub(v_sub(lookfrom, v_divs(horiz, 2 * (ONE as int))), v_divs(
                        vert,
                        2 * (ONE as int),
                    )),
                    v_scale(wv, dist_to_focus as int),
                )
            }),
    {
        let theta: i64 = trig::dtr(vfov);
        let h: i64 = trig::ftan(fx::fdiv(theta, 2 * ONE));
        let viewport_height: i64 = fx::fmul(2 * ONE, h);
        let viewport_width: i64 = fx::fmul(as_ratio, viewport_height);
        let wv: Vec3 = lookfrom.vsub(&lookat).unit();
        let cu: Vec3 = Vec3::cross(vup, wv);
        let sl: i64 = cu.squared_length();
        let uv: Vec3 = if sl > 0 {
            cu.unit()
        } else {
            Vec3::new(ONE, 0, 0)
        };
        let vv: Vec3 = Vec3::cross(wv, uv);
        let horizontal: Vec3 = uv.vscale(fx::fmul(viewport_width, dist_to_focus));
        let vertical: Vec3 = vv.vscale(fx::fmul(viewport_height, dist_to_focus));
        let half_h: Vec3 = horizontal.vdivs(2 * ONE);
        let half_v: Vec3 = vertical.vdivs(2 * ONE);
        let lower_left_corner: Vec3 = lookfrom.vsub(&half_h).vsub(&half_v).vsub(
            &wv.vscale(dist_to_focus),
        );
        let lens_radius: i64 = fx::fdiv(aperture, 2 * ONE);
        proof {
            fx::lemma_tdiv_bound(aperture as int * (ONE as int), 2 * (ONE as int));
            assert(aperture as int >= 0 ==> (aperture as int) * (ONE as int) >= 0)
                by (nonlinear_arith);
            if aperture == 0 {
                assert((0int) * (ONE as int) == 0) by (nonlinear_arith);
                fx::lemma_tdiv_zero(2 * (ONE as int));
            }
        }
        Camera {
            origin: lookfrom,
            lower_left_corner,
            horizontal,
            vertical,
            u: uv,
            v: vv,
            w: wv,
            lens_radius,
            tm0,
            tm1,
        }
    }

    /// The ray for normalized image coordinates `(s, t)`: jittered on the
    /// lens disk, aimed through the focus plane, stamped with a shutter
    /// time.  With aperture zero the origin is exactly the eye point.
    pub fn get_ray(&self, s: i64, t: i64, rng: &mut rand::rngs::SmallRng) -> (r: Ray)
        requires
            camera_wf(*self),
        ensures
            ray_ok(r),
            self.tm0 <= r.tm <= self.tm1,
            self.tm0 == self.tm1 ==> r.tm == self.tm0,
            self.lens_radius == 0 ==> r.org == self.origin,
            exists|rd: Vec3|
                #[trigger] in_unit_disk(rd) && ({
                    let rds = v_scale(rd, self.lens_radius as int);
                    let off = v_add(
                        v_scale(self.u, rds.x as int),
                        v_scale(self.v, rds.y as int),
                    );
                    let o0 = v_add(self.origin, off);
                    &&& r.org == (Vec3 {
                        x: iclamp(o0.x as int, -(ORG_MAX as int), ORG_MAX as int) as i64,
                        y: iclamp(o0.y as int, -(ORG_MAX as int), ORG_MAX as int) as i64,
                        z: iclamp(o0.z as int, -(ORG_MAX as int), ORG_MAX as int) as i64,
                    })
                    &&& r.dir == v_sub(
                        v_sub(
                            v_add(
                                v_add(self.lower_left_corner, v_scale(self.horizontal, s as int)),
                                v_scale(self.vertical, t as int),
                            ),
                            self.origin,
                        ),
                        off,
                    )
                }),
    {
        let rd0: Vec3 = rand_in_unit_disk(rng);
        let rd: Vec3 = rd0.vscale(self.lens_radius);
        let offset: Vec3 = self.u.vscale(rd.x).vadd(&self.v.vscale(rd.y));
        proof {
            if self.lens_radius == 0 {
                fx::lemma_fx_mul_zero();
            }
        }
        let o0: Vec3 = self.origin.vadd(&offset);
        let ox: i64 = fx::clamp(o0.x, -ORG_MAX, ORG_MAX);
        let oy: i64 = fx::clamp(o0.y, -ORG_MAX, ORG_MAX);
        let oz: i64 = fx::clamp(o0.z, -ORG_MAX, ORG_MAX);
        let org: Vec3 = Vec3::new(ox, oy, oz);
        let dir: Vec3 = self.lower_left_corner.vadd(&self.horizontal.vscale(s)).vadd(
            &self.vertical.vscale(t),
        ).vsub(&self.origin).vsub(&offset);
        let tm: i64 = if self.tm0 == self.tm1 {
            self.tm0
        } else {
            randfx(rng, self.tm0, self.tm1)
        };
        let r: Ray = Ray::new(org, dir, tm);
        proof {
            assert(in_unit_disk(rd0) && ({
                let rds = v_scale(rd0, self.lens_radius as int);
                let off = v_add(v_scale(self.u, rds.x as int), v_scale(self.v, rds.y as int));
                let o0 = v_add(self.origin, off);
                &&& r.org == (Vec3 {
                    x: iclamp(o0.x as int, -(ORG_MAX as int), ORG_MAX as int) as i64,
                    y: iclamp(o0.y as int, -(ORG_MAX as int), ORG_MAX as int) as i64,
                    z: iclamp(o0.z as int, -(ORG_MAX as int), ORG_MAX as int) as i64,
                })
                &&& r.dir == v_sub(
                    v_sub(
                        v_add(
                            v_add(self.lower_left_corner, v_scale(self.horizontal, s as int)),
                            v_scale(self.vertical, t as int),
                        ),
                        self.origin,
                    ),
                    off,
                )
            }));
        }
        r
    }
}

} // verus!
