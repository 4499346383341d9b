//! The record of a surface hit, with the front-face normal convention.

use vstd::prelude::*;
use crate::vec3::{Vec3, bounded3, vneg, dot_raw};
use crate::ray::Ray;
use crate::material::{Material, mat_valid};
use crate::fixed::lemma_mul_bound;

verus! {

/// Largest coordinate magnitude of scene geometry (sphere centers, camera).
pub const COORD_MAX: i64 = 1073741824;

/// Largest coordinate magnitude of an accepted hit point or ray origin.
pub const POINT_MAX: i64 = 4294967296;

/// Largest component magnitude of a stored surface normal.
pub const NORMAL_MAX: i64 = 524288;

#[derive(Clone, Copy, Debug, PartialEq, Eq, Structural)]
pub struct HitRecord {
    pub p: Vec3,
    pub n: Vec3,
    pub t: i64,
    pub front_face: bool,
    pub material: Material,
}

/// The stored normal: the outward normal when it opposes the incoming ray,
/// else its negation, so that it always opposes the ray.
pub open spec fn face_normal(outward: (int, int, int), dir: (int, int, int)) -> (int, int, int) {
    if dot_raw(outward, dir) < 0 {
        outward
    } else {
        vneg(outward)
    }
}

/// What every record handed out by an intersection query satisfies.
pub open spec fn rec_valid(h: HitRecord) -> bool {
    &&& bounded3(h.p@, POINT_MAX as int)
    &&& bounded3(h.n@, NORMAL_MAX as int)
    &&& 0 <= h.t
    &&& mat_valid(h.material)
}

impl HitRecord {
    /// A zeroed record carrying the given material.
    pub fn new_zero(mat: Material) -> (r: HitRecord)
        ensures
            r.p@ == (0int, 0int, 0int),
            r.n@ == (0int, 0int, 0int),
            r.t == 0,
            r.front_face == true,
            r.material == mat,
    {
        HitRecord { p: Vec3::new(), n: Vec3::new(), t: 0, front_face: true, material: mat }
    }

    /// Orient `outward_normal` against the incoming ray and store it,
    /// recording on which side the ray arrived.
    pub fn set_face_normal(&mut self, ray: &Ray, outward_normal: &Vec3)
        requires
            bounded3(outward_normal@, NORMAL_MAX as int),
            bounded3(ray.direction@, crate::vec3::OP_MAX as int),
        ensures
            final(self).front_face == (dot_raw(outward_normal@, ray.direction@) < 0),
            final(self).n@ == face_normal(outward_normal@, ray.direction@),
            final(self).p == old(self).p,
            final(self).t == old(self).t,
            final(self).material == old(self).material,
    {
        proof {
            lemma_mul_bound(
                outward_normal.x as int,
                ray.direction.x as int,
                NORMAL_MAX as int,
                crate::vec3::OP_MAX as int,
            );
            lemma_mul_bound(
                outward_normal.y as int,
                ray.direction.y as int,
                NORMAL_MAX as int,
                crate::vec3::OP_MAX as int,
            );
            lemma_mul_bound(
                outward_normal.z as int,
                ray.direction.z as int,
                NORMAL_MAX as int,
                crate::vec3::OP_MAX as int,
            );
        }
        let px: i128 = (outward_normal.x as i128) * (ray.direction.x as i128);
        let py: i128 = (outward_normal.y as i128) * (ray.direction.y as i128);
        let pz: i128 = (outward_normal.z as i128) * (ray.direction.z as i128);
        let raw: i128 = px + py + pz;
        self.front_face = raw < 0;
        self.n = if self.front_face {
            *outward_normal
        } else {
            outward_normal.neg()
        };
    }
}

} // verus!
