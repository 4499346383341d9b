//! A ray: origin plus direction, with the parameterized point `at(t)`.

use vstd::prelude::*;
use crate::fixed::SCALE;
use crate::vec3::{Vec3, bounded3, vadd, vscale, lemma_vscale_bound};
use crate::fixed::lemma_tdiv_sign;

verus! {

/// Largest ray parameter the library works with; it stands in for an
/// unbounded interval end.
pub const T_LIMIT: i64 = 274877906944;

#[derive(Clone, Copy, Debug, PartialEq, Eq, Structural)]
pub struct Ray {
    pub origin: Vec3,
    pub direction: Vec3,
}

/// The point reached after travelling `t` along the ray.
pub open spec fn ray_at(o: (int, int, int), d: (int, int, int), t: int) -> (int, int, int) {
    vadd(o, vscale(d, t))
}

impl Ray {
    /// The ray at the origin with zero direction.
    pub fn new() -> (r: Ray)
        ensures
            r.origin@ == (0int, 0int, 0int),
            r.direction@ == (0int, 0int, 0int),
    {
        Ray { origin: Vec3::new(), direction: Vec3::new() }
    }

    pub fn new_filled(o: Vec3, d: Vec3) -> (r: Ray)
        ensures
            r.origin == o,
            r.direction == d,
    {
        Ray { origin: o, direction: d }
    }

    /// `origin + direction * t`; `t` may be negative (behind the origin).
    pub fn at(&self, t: i64) -> (r: Vec3)
        requires
            bounded3(self.origin@, 0x4000_0000_0000),
            bounded3(self.direction@, crate::vec3::OP_MAX as int),
            -T_LIMIT <= t <= T_LIMIT,
        ensures
            r@ == ray_at(self.origin@, self.direction@, t as int),
            bounded3(r@, 0x2000_0000_0000_0000),
    {
        let s: Vec3 = self.direction.scale(t);
        proof {
            lemma_vscale_bound(
                self.direction@,
                t as int,
                crate::vec3::OP_MAX as int,
                T_LIMIT as int,
            );
            lemma_tdiv_sign(((crate::vec3::OP_MAX as int) * (T_LIMIT as int)) as int, SCALE as int);
        }
        self.origin.add(&s)
    }
}

} // verus!
