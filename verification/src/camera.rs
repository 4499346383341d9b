//! The thin-lens camera: an orthonormal view frame built from the eye
//! pose, and per-pixel ray generation with depth-of-field jitter.

use vstd::prelude::*;
use crate::fixed::{
    SCALE, tdiv, fmul, fix_mul, div_trunc, lemma_tdiv_le, lemma_tdiv_sign, lemma_mul_bound,
};
use crate::vec3::{
    Vec3, OP_MAX, bounded3, vadd, vsub, vscale, vcross, vunit, dot_raw, lemma_vscale_bound,
};
use crate::ray::Ray;
use crate::hittable::{COORD_MAX, POINT_MAX};
use crate::sphere::random_in_unit_disk;

verus! {

#[derive(Clone, Copy, Debug, PartialEq, Eq, Structural)]
pub struct Camera {
    pub origin: Vec3,
    pub lower_left_corner: Vec3,
    pub horizontal: Vec3,
    pub vertical: Vec3,
    pub w: Vec3,
    pub u: Vec3,
    pub v: Vec3,
    pub lens_radius: i64,
}

/// The field bounds every constructed camera satisfies.
pub open spec fn cam_valid(c: Camera) -> bool {
    &&& bounded3(c.origin@, COORD_MAX as int)
    &&& bounded3(c.lower_left_corner@, 0x11_0000_0000)
    &&& bounded3(c.horizontal@, 0x11_0000_0000)
    &&& bounded3(c.vertical@, 0x11_0000_0000)
    &&& bounded3(c.u@, 2 * (SCALE as int))
    &&& bounded3(c.v@, 2 * (SCALE as int) + 2)
    &&& bounded3(c.w@, 2 * (SCALE as int))
    &&& 0 <= c.lens_radius <= 0x8_0000
}

/// The lens offset of a ray origin for a drawn disk point `rd`.
pub open spec fn cam_offset(c: Camera, rd: (int, int, int)) -> (int, int, int) {
    vadd(
        vscale(c.u@, fmul(rd.0, c.lens_radius as int)),
        vscale(c.v@, fmul(rd.1, c.lens_radius as int)),
    )
}

/// The direction of the ray through image-plane coordinates `(u, v)` for
/// a lens offset `off`.
pub open spec fn cam_dir(c: Camera, u: int, v: int, off: (int, int, int)) -> (int, int, int) {
    vsub(
        vsub(
            vadd(vadd(c.lower_left_corner@, vscale(c.horizontal@, u)), vscale(c.vertical@, v)),
            c.origin@,
        ),
        off,
    )
}

impl Camera {
    /// Build the right-handed orthonormal frame `u`, `v`, `w` from the eye
    /// position, the look-at target and the up hint, and derive the
    /// viewport vectors from the tangent of half the vertical field of
    /// view, the aspect ratio, the aperture and the focus distance.
    pub fn new(
        lookfrom: Vec3,
        lookat: Vec3,
        vup: Vec3,
        vfov_half_tan: i64,
        aspect_ratio: i64,
        aperture: i64,
        focus_dist: i64,
    ) -> (r: Camera)
        requires
            bounded3(lookfrom@, COORD_MAX as int),
            bounded3(lookat@, COORD_MAX as int),
            bounded3(vup@, COORD_MAX as int),
            1 <= vfov_half_tan <= 0x10_0000,
            1 <= aspect_ratio <= 0x10_0000,
            0 <= aperture <= 0x10_0000,
            1 <= focus_dist <= 0x400_0000,
            1 <= dot_raw(vsub(lookfrom@, lookat@), vsub(lookfrom@, lookat@)),
            1 <= dot_raw(
                vcross(vup@, vunit(vsub(lookfrom@, lookat@))),
                vcross(vup@, vunit(vsub(lookfrom@, lookat@))),
            ),
        ensures
            ({
                let wv = vunit(vsub(lookfrom@, lookat@));
                let un = vunit(vcross(vup@, wv));
                let vv = vcross(wv, un);
                let vh = 2 * (vfov_half_tan as int);
                let vw = fmul(vh, aspect_ratio as int);
                &&& r.w@ == wv
                &&& r.u@ == un
                &&& r.v@ == vv
                &&& r.origin@ == lookfrom@
                &&& r.horizontal@ == vscale(un, fmul(vw, focus_dist as int))
                &&& r.vertical@ == vscale(vv, fmul(vh, focus_dist as int))
                &&& r.lower_left_corner@ == vsub(
                    vsub(
                        vsub(lookfrom@, vscale(r.horizontal@, 32768)),
                        vscale(r.vertical@, 32768),
                    ),
                    vscale(wv, focus_dist as int),
                )
                &&& r.lens_radius as int == tdiv(aperture as int, 2)
            }),
            cam_valid(r),
    {
        let diff: Vec3 = lookfrom.sub(&lookat);
        let w: Vec3 = diff.normalize();
        let cu: Vec3 = vup.cross(&w);
        proof {
            crate::vec3::lemma_vcross_bound(vup@, w@, COORD_MAX as int, SCALE as int);
        }
        let u: Vec3 = cu.normalize();
        let v: Vec3 = w.cross(&u);
        proof {
            crate::vec3::lemma_vcross_bound(w@, u@, SCALE as int, SCALE as int);
        }
        let viewport_height: i64 = 2 * vfov_half_tan;
        proof {
            lemma_mul_bound(viewport_height as int, aspect_ratio as int, 0x20_0000, 0x10_0000);
            lemma_tdiv_le(
                (viewport_height as int) * (aspect_ratio as int),
                SCALE as int,
                0x200_0000,
            );
        }
        let viewport_width: i64 = fix_mul(viewport_height, aspect_ratio);
        proof {
            lemma_mul_bound(viewport_width as int, focus_dist as int, 0x200_0000, 0x400_0000);
            lemma_tdiv_le(
                (viewport_width as int) * (focus_dist as int),
                SCALE as int,
                0x8_0000_0000,
            );
            lemma_mul_bound(viewport_height as int, focus_dist as int, 0x20_0000, 0x400_0000);
            lemma_tdiv_le(
                (viewport_height as int) * (focus_dist as int),
                SCALE as int,
                0x8000_0000,
            );
        }
        let hk: i64 = fix_mul(viewport_width, focus_dist);
        let vk: i64 = fix_mul(viewport_height, focus_dist);
        let horizontal: Vec3 = u.scale(hk);
        let vertical: Vec3 = v.scale(vk);
        proof {
            lemma_vscale_bound(u@, hk as int, 2 * (SCALE as int), 0x8_0000_0000);
            lemma_vscale_bound(v@, vk as int, 2 * (SCALE as int) + 2, 0x8000_0000);
            lemma_tdiv_sign(((2 * (SCALE as int)) * 0x8_0000_0000) as int, SCALE as int);
            lemma_tdiv_sign(((2 * (SCALE as int) + 2) * 0x8000_0000) as int, SCALE as int);
        }
        let half_h: Vec3 = horizontal.scale(32768);
        let half_v: Vec3 = vertical.scale(32768);
        proof {
            lemma_vscale_bound(horizontal@, 32768, 0x11_0000_0000, 32768);
            lemma_vscale_bound(vertical@, 32768, 0x11_0000_0000, 32768);
            lemma_tdiv_sign((0x11_0000_0000 * 32768) as int, SCALE as int);
            lemma_vscale_bound(w@, focus_dist as int, 2 * (SCALE as int), 0x400_0000);
            lemma_tdiv_sign(((2 * (SCALE as int)) * 0x400_0000) as int, SCALE as int);
        }
        let wf: Vec3 = w.scale(focus_dist);
        let lower_left_corner: Vec3 = lookfrom.sub(&half_h).sub(&half_v).sub(&wf);
        proof {
            lemma_tdiv_sign(aperture as int, 2);
            lemma_tdiv_le(aperture as int, 2, 0x8_0000);
        }
        let lens_radius: i64 = div_trunc(aperture, 2);
        Camera {
            origin: lookfrom,
            lower_left_corner,
            horizontal,
            vertical,
            w,
            u,
            v,
            lens_radius,
        }
    }

    /// The ray through the image-plane point `(u, v)`, with its origin
    /// jittered over the lens disk; with a zero aperture the ray is the
    /// exact pinhole ray.
    pub fn get_ray_at_uv(&self, u: i64, v: i64) -> (r: Ray)
        requires
            cam_valid(*self),
            0 <= u <= SCALE,
            0 <= v <= SCALE,
        ensures
            exists|rd: (int, int, int)|
                {
                    &&& bounded3(rd, SCALE as int)
                    &&& rd.2 == 0
                    &&& dot_raw(rd, rd) < (SCALE as int) * (SCALE as int)
                    &&& r.origin@ == vadd(self.origin@, #[trigger] cam_offset(*self, rd))
                    &&& r.direction@ == cam_dir(*self, u as int, v as int, cam_offset(*self, rd))
                },
            self.lens_radius == 0 ==> r.origin@ == self.origin@ && r.direction@ == cam_dir(
                *self,
                u as int,
                v as int,
                (0int, 0int, 0int),
            ),
            bounded3(r.origin@, POINT_MAX as int),
            bounded3(r.direction@, OP_MAX as int),
    {
        let rd: Vec3 = random_in_unit_disk();
        proof {
            lemma_vscale_bound(rd@, self.lens_radius as int, SCALE as int, 0x8_0000);
            lemma_tdiv_sign(((SCALE as int) * 0x8_0000) as int, SCALE as int);
        }
        let rdl: Vec3 = rd.scale(self.lens_radius);
        proof {
            lemma_vscale_bound(self.u@, rdl.x as int, 2 * (SCALE as int), 0x8_0001);
            lemma_vscale_bound(self.v@, rdl.y as int, 2 * (SCALE as int) + 2, 0x8_0001);
            lemma_tdiv_sign(((2 * (SCALE as int)) * 0x8_0001) as int, SCALE as int);
            lemma_tdiv_sign(((2 * (SCALE as int) + 2) * 0x8_0001) as int, SCALE as int);
        }
        let offx: Vec3 = self.u.scale(rdl.x);
        let offy: Vec3 = self.v.scale(rdl.y);
        let offset: Vec3 = offx.add(&offy);
        let new_origin: Vec3 = self.origin.add(&offset);
        proof {
            lemma_vscale_bound(self.horizontal@, u as int, 0x11_0000_0000, SCALE as int);
            lemma_vscale_bound(self.vertical@, v as int, 0x11_0000_0000, SCALE as int);
            lemma_tdiv_sign((0x11_0000_0000 * (SCALE as int)) as int, SCALE as int);
        }
        let hs: Vec3 = self.horizontal.scale(u);
        let vs: Vec3 = self.vertical.scale(v);
        let dir: Vec3 = self.lower_left_corner.add(&hs).add(&vs).sub(&self.origin).sub(&offset);
        proof {
            if self.lens_radius == 0 {
                lemma_tdiv_sign(0, SCALE as int);
                assert(rdl@.0 == fmul(rd@.0, 0) && rdl@.1 == fmul(rd@.1, 0));
                assert(rd@.0 * 0 == 0 && rd@.1 * 0 == 0);
                assert(rdl@.0 == 0 && rdl@.1 == 0);
                assert(offx@.0 == fmul(self.u@.0, 0) && offx@.1 == fmul(self.u@.1, 0) && offx@.2
                    == fmul(self.u@.2, 0));
                assert(self.u@.0 * 0 == 0 && self.u@.1 * 0 == 0 && self.u@.2 * 0 == 0);
                assert(offx@ == (0int, 0int, 0int));
                assert(offy@.0 == fmul(self.v@.0, 0) && offy@.1 == fmul(self.v@.1, 0) && offy@.2
                    == fmul(self.v@.2, 0));
                assert(self.v@.0 * 0 == 0 && self.v@.1 * 0 == 0 && self.v@.2 * 0 == 0);
                assert(offy@ == (0int, 0int, 0int));
                assert(offset@ == (0int, 0int, 0int));
                assert(cam_offset(*self, rd@) == (0int, 0int, 0int));
            }
            assert(bounded3(rd@, SCALE as int) && rd@.2 == 0 && dot_raw(rd@, rd@) < (SCALE as int)
                * (SCALE as int) && new_origin@ == vadd(self.origin@, cam_offset(*self, rd@))
                && dir@ == cam_dir(*self, u as int, v as int, cam_offset(*self, rd@)));
        }
        Ray::new_filled(new_origin, dir)
    }
}

} // verus!
