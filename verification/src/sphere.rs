//! The sphere, its quadratic intersection test, and the rejection samplers.

use vstd::prelude::*;
use crate::fixed::{
    SCALE, tdiv, fdiv, sqrt_floor, fix_div, isqrt, div_trunc_wide, lemma_tdiv_le, lemma_tdiv_sign,
    lemma_tdiv_ordered, lemma_mul_bound, lemma_abs_le_of_sq, lemma_sqrt_floor_props,
};
use crate::vec3::{Vec3, OP_MAX, bounded3, vsub, dot_raw, lemma_dot_raw_bound};
use crate::ray::{Ray, ray_at, T_LIMIT};
use crate::hittable::{HitRecord, COORD_MAX, POINT_MAX, face_normal, rec_valid};
use crate::material::{Material, mat_valid};

verus! {

#[derive(Clone, Copy, Debug, PartialEq, Eq, Structural)]
pub struct Sphere {
    pub p: Vec3,
    pub r: i64,
    pub material: Material,
}

/// A sphere the library accepts: center in the scene range, a positive
/// radius, a material with parameters in range.
pub open spec fn sphere_valid(s: Sphere) -> bool {
    &&& bounded3(s.p@, COORD_MAX as int)
    &&& 0 < s.r <= COORD_MAX
    &&& mat_valid(s.material)
}

/// The outward normal at `p`: the offset from the center, divided by the
/// radius.
pub open spec fn sphere_outward(s: Sphere, p: (int, int, int)) -> (int, int, int) {
    (
        fdiv(p.0 - s.p@.0, s.r as int),
        fdiv(p.1 - s.p@.1, s.r as int),
        fdiv(p.2 - s.p@.2, s.r as int),
    )
}

/// The ray parameter at which the ray first hits the sphere inside
/// `[t_min, t_max]`, if it does: the quadratic is solved with the half-b
/// form, the near root is preferred, and a root is rejected when its hit
/// point leaves the world range or sits absurdly far from the sphere —
/// the guards against degenerate integer geometry.
pub open spec fn sphere_hit_t(s: Sphere, ray: Ray, t_min: int, t_max: int) -> Option<int> {
    let oc = vsub(ray.origin@, s.p@);
    let a = tdiv(dot_raw(ray.direction@, ray.direction@), SCALE as int);
    if a < 1 {
        None
    } else {
        let half_b = tdiv(dot_raw(oc, ray.direction@), SCALE as int);
        let c = tdiv(dot_raw(oc, oc), SCALE as int) - tdiv((s.r as int) * (s.r as int), SCALE as int);
        let disc = half_b * half_b - a * c;
        if disc < 0 {
            None
        } else {
            let sq = sqrt_floor(disc);
            let r1 = tdiv((-half_b - sq) * (SCALE as int), a);
            let root = if t_min <= r1 && r1 <= t_max {
                r1
            } else {
                tdiv((-half_b + sq) * (SCALE as int), a)
            };
            if !(t_min <= root && root <= t_max) {
                None
            } else {
                let p = ray_at(ray.origin@, ray.direction@, root);
                if !(bounded3(p, POINT_MAX as int) && bounded3(vsub(p, s.p@), 8 * (s.r as int))) {
                    None
                } else {
                    Some(root)
                }
            }
        }
    }
}

/// The record fields a hit on `s` pins down, given its parameter `h.t`.
pub open spec fn rec_matches(h: HitRecord, s: Sphere, ray: Ray) -> bool {
    &&& h.p@ == ray_at(ray.origin@, ray.direction@, h.t as int)
    &&& h.n@ == face_normal(sphere_outward(s, h.p@), ray.direction@)
    &&& h.front_face == (dot_raw(sphere_outward(s, h.p@), ray.direction@) < 0)
    &&& h.material == s.material
}

impl Sphere {
    /// A sphere is only built from a center in range and a positive radius:
    /// a malformed sphere is rejected at construction time.
    pub fn new(p: &Vec3, r: i64, material: Material) -> (s: Sphere)
        requires
            bounded3(p@, COORD_MAX as int),
            0 < r <= COORD_MAX,
            mat_valid(material),
        ensures
            s.p == *p,
            s.r == r,
            s.material == material,
            sphere_valid(s),
    {
        Sphere { p: *p, r, material }
    }

    /// The quadratic hit test against the interval `[t_min, t_max]`.
    pub fn hit(&self, ray: &Ray, t_min: i64, t_max: i64) -> (res: Option<HitRecord>)
        requires
            sphere_valid(*self),
            bounded3(ray.origin@, POINT_MAX as int),
            bounded3(ray.direction@, OP_MAX as int),
            0 <= t_min <= t_max <= T_LIMIT,
        ensures
            res.is_some() == sphere_hit_t(*self, *ray, t_min as int, t_max as int).is_some(),
            res matches Some(h) ==> {
                &&& sphere_hit_t(*self, *ray, t_min as int, t_max as int) == Some(h.t as int)
                &&& t_min <= h.t <= t_max
                &&& rec_matches(h, *self, *ray)
                &&& rec_valid(h)
            },
    {
        let oc: Vec3 = ray.origin.sub(&self.p);
        proof {
            assert(bounded3(oc@, 0x1_8000_0000));
            lemma_dot_raw_bound(ray.direction@, ray.direction@, OP_MAX as int, OP_MAX as int);
            lemma_dot_raw_bound(oc@, ray.direction@, 0x1_8000_0000, OP_MAX as int);
            lemma_dot_raw_bound(oc@, oc@, 0x1_8000_0000, 0x1_8000_0000);
            lemma_mul_bound(ray.direction.x as int, ray.direction.x as int, OP_MAX as int, OP_MAX as int);
            lemma_mul_bound(ray.direction.y as int, ray.direction.y as int, OP_MAX as int, OP_MAX as int);
            lemma_mul_bound(ray.direction.z as int, ray.direction.z as int, OP_MAX as int, OP_MAX as int);
            lemma_mul_bound(oc.x as int, ray.direction.x as int, 0x1_8000_0000, OP_MAX as int);
            lemma_mul_bound(oc.y as int, ray.direction.y as int, 0x1_8000_0000, OP_MAX as int);
            lemma_mul_bound(oc.z as int, ray.direction.z as int, 0x1_8000_0000, OP_MAX as int);
            lemma_mul_bound(oc.x as int, oc.x as int, 0x1_8000_0000, 0x1_8000_0000);
            lemma_mul_bound(oc.y as int, oc.y as int, 0x1_8000_0000, 0x1_8000_0000);
            lemma_mul_bound(oc.z as int, oc.z as int, 0x1_8000_0000, 0x1_8000_0000);
            lemma_mul_bound(self.r as int, self.r as int, COORD_MAX as int, COORD_MAX as int);
        }
        let a_raw: i128 = (ray.direction.x as i128) * (ray.direction.x as i128) + (
        ray.direction.y as i128) * (ray.direction.y as i128) + (ray.direction.z as i128) * (
        ray.direction.z as i128);
        proof {
            crate::vec3::lemma_dot_raw_self_nonneg(ray.direction@);
            lemma_tdiv_le(a_raw as int, SCALE as int, 0x4000_0000_0000_0000);
            lemma_tdiv_sign(a_raw as int, SCALE as int);
        }
        let a: i64 = div_trunc_wide(a_raw, SCALE as i128) as i64;
        if a < 1 {
            return None;
        }
        let hb_raw: i128 = (oc.x as i128) * (ray.direction.x as i128) + (oc.y as i128) * (
        ray.direction.y as i128) + (oc.z as i128) * (ray.direction.z as i128);
        proof {
            lemma_tdiv_le(hb_raw as int, SCALE as int, 0x200_0000_0000_0000);
        }
        let half_b: i64 = div_trunc_wide(hb_raw, SCALE as i128) as i64;
        let oc_raw: i128 = (oc.x as i128) * (oc.x as i128) + (oc.y as i128) * (oc.y as i128) + (
        oc.z as i128) * (oc.z as i128);
        proof {
            crate::vec3::lemma_dot_raw_self_nonneg(oc@);
            lemma_tdiv_le(oc_raw as int, SCALE as int, 0x200_0000_0000_0000);
            lemma_tdiv_sign(oc_raw as int, SCALE as int);
        }
        let oc_len: i64 = div_trunc_wide(oc_raw, SCALE as i128) as i64;
        let rr: i128 = (self.r as i128) * (self.r as i128);
        proof {
            lemma_tdiv_le(rr as int, SCALE as int, 0x4000_0000_0000);
            lemma_tdiv_sign(rr as int, SCALE as int);
        }
        let rsq: i64 = div_trunc_wide(rr, SCALE as i128) as i64;
        let c: i64 = oc_len - rsq;
        proof {
            lemma_mul_bound(half_b as int, half_b as int, 0x200_0000_0000_0000, 0x200_0000_0000_0000);
            lemma_mul_bound(a as int, c as int, 0x4000_0000_0000_0000, 0x204_0000_0000_0000);
        }
        let disc: i128 = (half_b as i128) * (half_b as i128) - (a as i128) * (c as i128);
        if disc < 0 {
            return None;
        }
        let sq_u: u64 = isqrt(disc as u128);
        proof {
            lemma_sqrt_floor_props(disc as int);
            assert((0x7FFF_FFFF_FFFF_FFFF as int) * (0x7FFF_FFFF_FFFF_FFFF as int) > disc as int)
                by (nonlinear_arith)
                requires
                    disc as int <= 0x200_0000_0000_0000 * 0x200_0000_0000_0000 + 0x4000_0000_0000_0000
                        * 0x204_0000_0000_0000,
            ;
            lemma_abs_le_of_sq(sqrt_floor(disc as int), 0x7FFF_FFFF_FFFF_FFFE);
        }
        let sq: i64 = sq_u as i64;
        let num1: i128 = (-(half_b as i128) - (sq as i128)) * (SCALE as i128);
        let root1: i128 = div_trunc_wide(num1, a as i128);
        let r1_in: bool = root1 >= (t_min as i128) && root1 <= (t_max as i128);
        let root: i128 = if r1_in {
            root1
        } else {
            let num2: i128 = (-(half_b as i128) + (sq as i128)) * (SCALE as i128);
            div_trunc_wide(num2, a as i128)
        };
        if !(root >= (t_min as i128) && root <= (t_max as i128)) {
            return None;
        }
        let t: i64 = root as i64;
        let p: Vec3 = ray.at(t);
        if !(within(&p, POINT_MAX)) {
            return None;
        }
        let dc: Vec3 = p.sub(&self.p);
        let lim: i64 = 8 * self.r;
        if !(within(&dc, lim)) {
            return None;
        }
        proof {
            assert((self.r as int) * (8 * (SCALE as int)) == (8 * (self.r as int)) * (SCALE as int))
                by (nonlinear_arith);
            lemma_tdiv_le((dc.x as int) * (SCALE as int), self.r as int, 8 * (SCALE as int));
            lemma_tdiv_le((dc.y as int) * (SCALE as int), self.r as int, 8 * (SCALE as int));
            lemma_tdiv_le((dc.z as int) * (SCALE as int), self.r as int, 8 * (SCALE as int));
        }
        let outward: Vec3 = Vec3 {
            x: fix_div(dc.x, self.r),
            y: fix_div(dc.y, self.r),
            z: fix_div(dc.z, self.r),
        };
        let mut rec: HitRecord = HitRecord {
            p,
            n: Vec3::new(),
            t,
            front_face: true,
            material: self.material,
        };
        rec.set_face_normal(ray, &outward);
        Some(rec)
    }
}

/// A sphere whose center offset from the ray origin is perpendicular to
/// the ray direction and at least a radius away is never hit: the
/// discriminant of the quadratic cannot be positive, and the only
/// candidate parameter, zero, lies below `t_min`.
pub proof fn lemma_perpendicular_miss(s: Sphere, ray: Ray, t_min: int, t_max: int)
    requires
        0 < s.r,
        1 <= t_min <= t_max,
        dot_raw(vsub(ray.origin@, s.p@), ray.direction@) == 0,
        dot_raw(vsub(ray.origin@, s.p@), vsub(ray.origin@, s.p@)) >= (s.r as int) * (s.r as int),
    ensures
        sphere_hit_t(s, ray, t_min, t_max) is None,
{
    let oc = vsub(ray.origin@, s.p@);
    let a = tdiv(dot_raw(ray.direction@, ray.direction@), SCALE as int);
    if a >= 1 {
        lemma_tdiv_sign(0, SCALE as int);
        assert((s.r as int) * (s.r as int) >= 0) by (nonlinear_arith)
            requires
                0 < s.r as int,
        ;
        crate::vec3::lemma_dot_raw_self_nonneg(oc);
        lemma_tdiv_ordered((s.r as int) * (s.r as int), dot_raw(oc, oc), SCALE as int);
        let c = tdiv(dot_raw(oc, oc), SCALE as int) - tdiv(
            (s.r as int) * (s.r as int),
            SCALE as int,
        );
        assert(c >= 0);
        assert(a * c >= 0) by (nonlinear_arith)
            requires
                a >= 1 && c >= 0,
        ;
        let disc = 0 - a * c;
        if disc == 0 {
            lemma_sqrt_floor_props(0);
            let sq = sqrt_floor(0);
            if sq >= 1 {
                assert(sq * sq >= 1) by (nonlinear_arith)
                    requires
                        sq >= 1,
                ;
            }
            assert(sq == 0);
            lemma_tdiv_sign(0, a);
        }
    }
}

/// Whether every component of `v` lies within `[-m, m]`.
fn within(v: &Vec3, m: i64) -> (r: bool)
    requires
        bounded3(v@, 0x4000_0000_0000_0000),
        0 <= m,
    ensures
        r == bounded3(v@, m as int),
{
    -m <= v.x && v.x <= m && -m <= v.y && v.y <= m && -m <= v.z && v.z <= m
}

/// A rejection-sampled point strictly inside the unit ball, never zero.
/// A bounded number of draws is attempted; the fallback is a fixed point
/// well inside the ball, so the contract holds of every outcome.
pub fn random_in_unit_sphere() -> (r: Vec3)
    ensures
        bounded3(r@, SCALE as int),
        1 <= dot_raw(r@, r@) < (SCALE as int) * (SCALE as int),
{
    let mut i: u32 = 0;
    while i < 64
        invariant
            true,
        decreases 64 - i,
    {
        let s: Vec3 = Vec3::random_min_max(-SCALE, SCALE);
        proof {
            lemma_mul_bound(s.x as int, s.x as int, SCALE as int, SCALE as int);
            lemma_mul_bound(s.y as int, s.y as int, SCALE as int, SCALE as int);
            lemma_mul_bound(s.z as int, s.z as int, SCALE as int, SCALE as int);
        }
        let raw: i64 = s.x * s.x + s.y * s.y + s.z * s.z;
        if 1 <= raw && raw < SCALE * SCALE {
            return s;
        }
        i = i + 1;
    }
    Vec3 { x: SCALE / 2, y: 0, z: 0 }
}

/// A rejection-sampled point strictly inside the unit disk in the xy
/// plane; zero (the center) is allowed.  A bounded number of draws is
/// attempted; the fallback is the center of the disk.
pub fn random_in_unit_disk() -> (r: Vec3)
    ensures
        bounded3(r@, SCALE as int),
        r.z == 0,
        dot_raw(r@, r@) < (SCALE as int) * (SCALE as int),
{
    let mut i: u32 = 0;
    while i < 64
        invariant
            true,
        decreases 64 - i,
    {
        let s: Vec3 = Vec3::random_min_max(-SCALE, SCALE);
        let d: Vec3 = Vec3 { x: s.x, y: s.y, z: 0 };
        proof {
            lemma_mul_bound(d.x as int, d.x as int, SCALE as int, SCALE as int);
            lemma_mul_bound(d.y as int, d.y as int, SCALE as int, SCALE as int);
        }
        let raw: i64 = d.x * d.x + d.y * d.y;
        if raw < SCALE * SCALE {
            return d;
        }
        i = i + 1;
    }
    Vec3 { x: 0, y: 0, z: 0 }
}

} // verus!
