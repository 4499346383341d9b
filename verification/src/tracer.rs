//! The recursive color integrator: closest-hit search over the scene,
//! material dispatch, the sky gradient, and the pixel output arithmetic.

use vstd::prelude::*;
use crate::fixed::{
    SCALE, tdiv, fmul, sqrt_floor, div_trunc, isqrt, lemma_tdiv_le, lemma_tdiv_sign,
    lemma_tdiv_ordered, lemma_fmul_unit_range, lemma_sqrt_floor_props, lemma_abs_le_of_sq,
};
use crate::vec3::{
    Vec3, OP_MAX, bounded3, vadd, vscale, dot_raw, vunit, lemma_dot_raw_self_pos,
};
use crate::ray::{Ray, T_LIMIT};
use crate::hittable::{HitRecord, POINT_MAX, rec_valid};
use crate::material::{Material, in_unit3};
use crate::sphere::{Sphere, sphere_valid, sphere_hit_t, rec_matches};
use vstd::arithmetic::div_mod::lemma_div_multiples_vanish;

verus! {

/// The shadow-acne epsilon: hits closer than this are ignored.
pub const T_MIN_WORLD: i64 = 65;

/// Every sphere of the scene is well formed.
pub open spec fn scene_valid(objs: Seq<Sphere>) -> bool {
    forall|i: int| 0 <= i < objs.len() ==> sphere_valid(#[trigger] objs[i])
}

/// A ray the tracer accepts: origin and direction in the working range.
pub open spec fn ray_ok(r: Ray) -> bool {
    bounded3(r.origin@, POINT_MAX as int) && bounded3(r.direction@, OP_MAX as int)
}

/// The linear scan over the scene from index `i` on, with the closest hit
/// so far (its parameter and the index of its sphere): each object is
/// tested against the shrunken interval ending at the best parameter.
pub open spec fn hit_world_from(
    objs: Seq<Sphere>,
    ray: Ray,
    i: int,
    cur: Option<(int, int)>,
) -> Option<(int, int)>
    decreases objs.len() - i,
{
    if i < 0 || i >= objs.len() {
        cur
    } else {
        let tmax = match cur {
            Some(p) => p.0,
            None => T_LIMIT as int,
        };
        match sphere_hit_t(objs[i], ray, T_MIN_WORLD as int, tmax) {
            Some(t) => hit_world_from(objs, ray, i + 1, Some((t, i))),
            None => hit_world_from(objs, ray, i + 1, cur),
        }
    }
}

/// The closest hit of the ray in the whole scene, if any.
pub open spec fn hit_world_spec(objs: Seq<Sphere>, ray: Ray) -> Option<(int, int)> {
    hit_world_from(objs, ray, 0, None)
}

/// A scene with no objects is never hit.
pub proof fn lemma_empty_scene(objs: Seq<Sphere>, ray: Ray)
    requires
        objs.len() == 0,
    ensures
        hit_world_spec(objs, ray) is None,
{
}

/// The sky gradient: white at the horizon blending to sky blue upward,
/// by the vertical component of the normalized direction.
pub open spec fn sky_spec(r: Ray) -> (int, int, int) {
    let u = vunit(r.direction@);
    let t = tdiv(u.1 + SCALE as int, 2);
    vadd(
        vscale((SCALE as int, SCALE as int, SCALE as int), (SCALE as int) - t),
        vscale((32768, 45875, SCALE as int), t),
    )
}

/// The sky gradient is never black: whatever the ray, its blue channel
/// is exactly one, because both ends of the blend are fully blue.
pub proof fn lemma_sky_never_black(r: Ray)
    ensures
        sky_spec(r).2 == SCALE as int,
{
    let u = vunit(r.direction@);
    let t = tdiv(u.1 + SCALE as int, 2);
    crate::fixed::lemma_fmul_one_exact((SCALE as int) - t);
    crate::fixed::lemma_fmul_one_exact(t);
}

/// The background color for a ray that hits nothing.
pub fn sky_color(ray: &Ray) -> (c: Vec3)
    requires
        bounded3(ray.direction@, OP_MAX as int),
        1 <= dot_raw(ray.direction@, ray.direction@),
    ensures
        c@ == sky_spec(*ray),
        in_unit3(c@),
{
    let norm: Vec3 = ray.direction.normalize();
    proof {
        lemma_tdiv_le(norm.y as int + SCALE as int, 2, SCALE as int);
        lemma_tdiv_sign(norm.y as int + SCALE as int, 2);
    }
    let t: i64 = div_trunc(norm.y + SCALE, 2);
    let white: Vec3 = Vec3::one();
    let blue: Vec3 = Vec3::new_filled(32768, 45875, SCALE);
    let a: Vec3 = white.scale(SCALE - t);
    let b: Vec3 = blue.scale(t);
    proof {
        lemma_div_multiples_vanish((SCALE as int) - t as int, SCALE as int);
        lemma_tdiv_sign((SCALE as int) * ((SCALE as int) - t as int), SCALE as int);
        lemma_sky_term_range(32768, t as int);
        lemma_sky_term_range(45875, t as int);
        lemma_sky_term_range(SCALE as int, t as int);
    }
    a.add(&b)
}

/// A channel of the sky blend: `fmul(x, t)` for a color channel `x` and a
/// blend weight `t` both in `[0, 1]` lies in `[0, t]`.
proof fn lemma_sky_term_range(x: int, t: int)
    requires
        0 <= x <= SCALE as int,
        0 <= t <= SCALE as int,
    ensures
        0 <= fmul(x, t) <= t,
{
    assert(0 <= x * t <= (SCALE as int) * t) by (nonlinear_arith)
        requires
            0 <= x <= SCALE as int && 0 <= t,
    ;
    lemma_tdiv_ordered(x * t, (SCALE as int) * t, SCALE as int);
    lemma_div_multiples_vanish(t, SCALE as int);
    lemma_tdiv_sign(x * t, SCALE as int);
}

/// The closest hit of the ray against every object, scanning with a
/// shrinking interval that starts at the acne epsilon and closes down to
/// the best parameter found.
pub fn hit_world(objects: &Vec<Sphere>, ray: &Ray) -> (res: Option<HitRecord>)
    requires
        scene_valid(objects@),
        ray_ok(*ray),
    ensures
        res.is_some() == hit_world_spec(objects@, *ray).is_some(),
        res matches Some(h) ==> (match hit_world_spec(objects@, *ray) {
            Some(pr) => {
                &&& pr.0 == h.t as int
                &&& 0 <= pr.1 < objects@.len()
                &&& rec_matches(h, objects@[pr.1], *ray)
                &&& rec_valid(h)
                &&& T_MIN_WORLD <= h.t <= T_LIMIT
            },
            None => false,
        }),
{
    let ghost target = hit_world_spec(objects@, *ray);
    let mut best: Option<HitRecord> = None;
    let ghost mut gi: int = 0;
    let n: usize = objects.len();
    let mut j: usize = 0;
    while j < n
        invariant
            n == objects@.len(),
            j <= n,
            scene_valid(objects@),
            ray_ok(*ray),
            target == hit_world_spec(objects@, *ray),
            match best {
                None => hit_world_from(objects@, *ray, j as int, None) == target,
                Some(h) => {
                    &&& hit_world_from(objects@, *ray, j as int, Some((h.t as int, gi))) == target
                    &&& 0 <= gi < j
                    &&& rec_matches(h, objects@[gi], *ray)
                    &&& rec_valid(h)
                    &&& T_MIN_WORLD <= h.t <= T_LIMIT
                },
            },
        decreases n - j,
    {
        let cur_max: i64 = match &best {
            Some(h) => h.t,
            None => T_LIMIT,
        };
        let hit_j: Option<HitRecord> = objects[j].hit(ray, T_MIN_WORLD, cur_max);
        match hit_j {
            Some(h2) => {
                best = Some(h2);
                proof {
                    gi = j as int;
                }
            },
            None => {},
        }
        j = j + 1;
    }
    best
}

/// The recursively traced color of a ray: black once the depth budget is
/// exhausted, the sky gradient on a miss, and otherwise the scattered
/// color attenuated by the surface — black again when the surface absorbs
/// the ray or the scattered direction degenerates to zero.
pub fn get_ray_color(ray: &Ray, objects: &Vec<Sphere>, depth: u32) -> (c: Vec3)
    requires
        scene_valid(objects@),
        ray_ok(*ray),
        1 <= dot_raw(ray.direction@, ray.direction@),
    ensures
        depth == 0 ==> c@ == (0int, 0int, 0int),
        depth > 0 && hit_world_spec(objects@, *ray) is None ==> c@ == sky_spec(*ray),
        in_unit3(c@),
    decreases depth,
{
    if depth == 0 {
        return Vec3::new();
    }
    let found: Option<HitRecord> = hit_world(objects, ray);
    match found {
        None => sky_color(ray),
        Some(h) => {
            let scattered: Option<(Vec3, Ray)> = h.material.scatter(ray, &h);
            match scattered {
                None => Vec3::new(),
                Some(pair) => {
                    let (att, sray): (Vec3, Ray) = pair;
                    if sray.direction.x == 0 && sray.direction.y == 0 && sray.direction.z == 0 {
                        return Vec3::new();
                    }
                    proof {
                        lemma_dot_raw_self_pos(sray.direction@);
                    }
                    let rec: Vec3 = get_ray_color(&sray, objects, depth - 1);
                    proof {
                        lemma_fmul_unit_range(att.x as int, rec.x as int);
                        lemma_fmul_unit_range(att.y as int, rec.y as int);
                        lemma_fmul_unit_range(att.z as int, rec.z as int);
                    }
                    att.mul(&rec)
                },
            }
        },
    }
}

/// One output channel: average the accumulated channel over the sample
/// count, gamma-correct with a square root, clamp just below one, and
/// quantize to eight bits.
pub open spec fn gamma_byte(c: int, spp: int) -> int {
    let avg = tdiv(c, spp);
    let g = sqrt_floor(avg * (SCALE as int));
    let cl = if g > 65480 {
        65480
    } else {
        g
    };
    tdiv(cl * 256, SCALE as int)
}

/// The three quantized channels of a pixel, from the sum of its sampled
/// colors and the sample count.
pub fn pixel_rgb(unit_color: &Vec3, samples_per_pixel: u16) -> (rgb: (u8, u8, u8))
    requires
        1 <= samples_per_pixel,
        0 <= unit_color.x <= (samples_per_pixel as int) * (SCALE as int),
        0 <= unit_color.y <= (samples_per_pixel as int) * (SCALE as int),
        0 <= unit_color.z <= (samples_per_pixel as int) * (SCALE as int),
    ensures
        rgb.0 as int == gamma_byte(unit_color.x as int, samples_per_pixel as int),
        rgb.1 as int == gamma_byte(unit_color.y as int, samples_per_pixel as int),
        rgb.2 as int == gamma_byte(unit_color.z as int, samples_per_pixel as int),
{
    let r: u8 = channel_byte(unit_color.x, samples_per_pixel);
    let g: u8 = channel_byte(unit_color.y, samples_per_pixel);
    let b: u8 = channel_byte(unit_color.z, samples_per_pixel);
    (r, g, b)
}

/// One channel of `pixel_rgb`.
fn channel_byte(c: i64, spp: u16) -> (r: u8)
    requires
        1 <= spp,
        0 <= c <= (spp as int) * (SCALE as int),
    ensures
        r as int == gamma_byte(c as int, spp as int),
{
    proof {
        lemma_tdiv_le(c as int, spp as int, SCALE as int);
        lemma_tdiv_sign(c as int, spp as int);
    }
    let avg: i64 = div_trunc(c, spp as i64);
    proof {
        assert((avg as int) * (SCALE as int) <= 0x1_0000_0000) by (nonlinear_arith)
            requires
                0 <= avg as int <= 0x1_0000,
        ;
    }
    let wide: u128 = (avg as u128) * (SCALE as u128);
    let g: u64 = isqrt(wide);
    proof {
        lemma_sqrt_floor_props(wide as int);
        assert(((SCALE as int) + 1) * ((SCALE as int) + 1) > wide as int);
        lemma_abs_le_of_sq(sqrt_floor(wide as int), SCALE as int);
    }
    let cl: i64 = if g > 65480 {
        65480
    } else {
        g as i64
    };
    proof {
        lemma_tdiv_ordered((cl as int) * 256, 16762880, SCALE as int);
        lemma_tdiv_sign((cl as int) * 256, SCALE as int);
    }
    let byte: i64 = div_trunc(cl * 256, SCALE);
    byte as u8
}

} // verus!
