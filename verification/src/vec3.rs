//! The three-component fixed-point vector, used both as a point or
//! direction in space and as a linear RGB color.
//!
//! The view of a `Vec3` is the triple of its raw integer components; the
//! spec functions `vadd`, `vsub`, `vscale`, `vdot`, `vcross`, `vunit`,
//! `vreflect` and `vrefract` form the mathematical model that every
//! executable operation is proved to compute exactly.

use vstd::prelude::*;
use crate::fixed::{
    SCALE, tdiv, fmul, sqrt_floor, fix_mul, div_trunc, isqrt, absi, lemma_tdiv_le,
    lemma_tdiv_sign, lemma_tdiv_ordered, lemma_mul_bound, lemma_abs_le_of_sq,
    lemma_sqrt_floor_props,
};
use crate::rng::random_fraction;
use vstd::arithmetic::div_mod::lemma_fundamental_div_mod_converse;

verus! {

/// Largest component magnitude accepted by the general vector operations.
pub const OP_MAX: i64 = 309237645312;

/// Largest scalar magnitude accepted by `scale`.
pub const SCALAR_MAX: i64 = 1099511627776;

#[derive(Clone, Copy, Debug, PartialEq, Eq, Structural)]
pub struct Vec3 {
    pub x: i64,
    pub y: i64,
    pub z: i64,
}

impl View for Vec3 {
    type V = (int, int, int);

    open spec fn view(&self) -> (int, int, int) {
        (self.x as int, self.y as int, self.z as int)
    }
}

/// All three components lie within `[-m, m]`.
pub open spec fn bounded3(a: (int, int, int), m: int) -> bool {
    -m <= a.0 <= m && -m <= a.1 <= m && -m <= a.2 <= m
}

pub open spec fn vadd(a: (int, int, int), b: (int, int, int)) -> (int, int, int) {
    (a.0 + b.0, a.1 + b.1, a.2 + b.2)
}

pub open spec fn vsub(a: (int, int, int), b: (int, int, int)) -> (int, int, int) {
    (a.0 - b.0, a.1 - b.1, a.2 - b.2)
}

pub open spec fn vneg(a: (int, int, int)) -> (int, int, int) {
    (-a.0, -a.1, -a.2)
}

/// Multiplication by a fixed-point scalar, component by component.
pub open spec fn vscale(a: (int, int, int), k: int) -> (int, int, int) {
    (fmul(a.0, k), fmul(a.1, k), fmul(a.2, k))
}

/// The component-wise (Hadamard) product, used for color attenuation.
pub open spec fn vmulc(a: (int, int, int), b: (int, int, int)) -> (int, int, int) {
    (fmul(a.0, b.0), fmul(a.1, b.1), fmul(a.2, b.2))
}

/// The unscaled sum of component products; exact, with no rounding.
pub open spec fn dot_raw(a: (int, int, int), b: (int, int, int)) -> int {
    a.0 * b.0 + a.1 * b.1 + a.2 * b.2
}

/// The fixed-point dot product.
pub open spec fn vdot(a: (int, int, int), b: (int, int, int)) -> int {
    tdiv(dot_raw(a, b), SCALE as int)
}

/// The fixed-point squared length.
pub open spec fn vlen_sq(a: (int, int, int)) -> int {
    vdot(a, a)
}

/// The fixed-point length: since `dot_raw(a, a)` carries two scale factors,
/// its integer square root is already on the fixed-point scale.
pub open spec fn vlen(a: (int, int, int)) -> int {
    sqrt_floor(dot_raw(a, a))
}

pub open spec fn vcross(a: (int, int, int), b: (int, int, int)) -> (int, int, int) {
    (
        fmul(a.1, b.2) - fmul(a.2, b.1),
        fmul(a.2, b.0) - fmul(a.0, b.2),
        fmul(a.0, b.1) - fmul(a.1, b.0),
    )
}

/// The unit vector with the direction of `a`.
pub open spec fn vunit(a: (int, int, int)) -> (int, int, int) {
    (
        tdiv(a.0 * (SCALE as int), vlen(a)),
        tdiv(a.1 * (SCALE as int), vlen(a)),
        tdiv(a.2 * (SCALE as int), vlen(a)),
    )
}

/// Mirror reflection of `v` about `n`.
pub open spec fn vreflect(v: (int, int, int), n: (int, int, int)) -> (int, int, int) {
    vsub(v, vscale(n, 2 * vdot(v, n)))
}

/// Refraction of the unit direction `uv` at a surface with normal `n` and
/// ratio of refraction indices `eta`, by the Snell decomposition into
/// components perpendicular and parallel to the normal.
pub open spec fn vrefract(uv: (int, int, int), n: (int, int, int), eta: int) -> (int, int, int) {
    let c = if -vdot(uv, n) > SCALE as int {
        SCALE as int
    } else {
        -vdot(uv, n)
    };
    let perp = vscale(vadd(uv, vscale(n, c)), eta);
    let s = sqrt_floor(absi((SCALE as int) - vlen_sq(perp)) * (SCALE as int));
    vadd(perp, vscale(n, -s))
}

/// All components are below the fixed-point epsilon of one raw unit, that
/// is, the vector is exactly zero.
pub open spec fn vnear_zero(a: (int, int, int)) -> bool {
    a.0 == 0 && a.1 == 0 && a.2 == 0
}

/// The product bound on each pair of components bounds the raw dot product.
pub proof fn lemma_dot_raw_bound(a: (int, int, int), b: (int, int, int), m1: int, m2: int)
    requires
        bounded3(a, m1),
        bounded3(b, m2),
        0 <= m1,
        0 <= m2,
    ensures
        -(3 * (m1 * m2)) <= dot_raw(a, b) <= 3 * (m1 * m2),
{
    lemma_mul_bound(a.0, b.0, m1, m2);
    lemma_mul_bound(a.1, b.1, m1, m2);
    lemma_mul_bound(a.2, b.2, m1, m2);
}

/// A vector's raw dot product with itself is a sum of squares.
pub proof fn lemma_dot_raw_self_nonneg(a: (int, int, int))
    by (nonlinear_arith)
    ensures
        dot_raw(a, a) >= 0,
{
}

/// A nonzero integer vector has raw squared length at least one.
pub proof fn lemma_dot_raw_self_pos(a: (int, int, int))
    by (nonlinear_arith)
    requires
        !(a.0 == 0 && a.1 == 0 && a.2 == 0),
    ensures
        dot_raw(a, a) >= 1,
{
}

/// For any `k`: the vector with components `k * v_i - 2 * (v.n) * n_i`
/// has raw dot product with `n` equal to `k * (v.n) - 2 * (v.n) * (n.n)`.
proof fn lemma_reflect_expand(v: (int, int, int), n: (int, int, int), k: int)
    ensures
        dot_raw(
            (
                k * v.0 - 2 * dot_raw(v, n) * n.0,
                k * v.1 - 2 * dot_raw(v, n) * n.1,
                k * v.2 - 2 * dot_raw(v, n) * n.2,
            ),
            n,
        ) == k * dot_raw(v, n) - 2 * dot_raw(v, n) * dot_raw(n, n),
{
    let d = dot_raw(v, n);
    assert((k * v.0 - 2 * d * n.0) * n.0 == k * (v.0 * n.0) - 2 * d * (n.0 * n.0))
        by (nonlinear_arith);
    assert((k * v.1 - 2 * d * n.1) * n.1 == k * (v.1 * n.1) - 2 * d * (n.1 * n.1))
        by (nonlinear_arith);
    assert((k * v.2 - 2 * d * n.2) * n.2 == k * (v.2 * n.2) - 2 * d * (n.2 * n.2))
        by (nonlinear_arith);
    let a0 = v.0 * n.0;
    let a1 = v.1 * n.1;
    let a2 = v.2 * n.2;
    let p0 = n.0 * n.0;
    let p1 = n.1 * n.1;
    let p2 = n.2 * n.2;
    assert(k * (a0 + a1 + a2) == k * a0 + k * a1 + k * a2) by (nonlinear_arith);
    assert(2 * (a0 + a1 + a2) * (p0 + p1 + p2) == 2 * (a0 + a1 + a2) * p0 + 2 * (a0 + a1 + a2)
        * p1 + 2 * (a0 + a1 + a2) * p2) by (nonlinear_arith);
}

/// The reflection law, stated over exact (unrounded) arithmetic: for a unit
/// normal `n` (one whose raw dot product with itself is `SCALE * SCALE`),
/// the exact numerators of `v - 2 (v.n) n` — which carry two extra scale
/// factors — have a raw dot product with `n` equal to minus the raw dot
/// product of `v` with `n`, carrying the same two extra scale factors.
/// This is the elastic-reflection invariant `reflect(v, n) . n == -(v . n)`.
pub proof fn lemma_reflect_law(v: (int, int, int), n: (int, int, int))
    requires
        dot_raw(n, n) == (SCALE as int) * (SCALE as int),
    ensures
        dot_raw(
            (
                (SCALE as int) * (SCALE as int) * v.0 - 2 * dot_raw(v, n) * n.0,
                (SCALE as int) * (SCALE as int) * v.1 - 2 * dot_raw(v, n) * n.1,
                (SCALE as int) * (SCALE as int) * v.2 - 2 * dot_raw(v, n) * n.2,
            ),
            n,
        ) == -((SCALE as int) * (SCALE as int) * dot_raw(v, n)),
{
    let d = dot_raw(v, n);
    let k = (SCALE as int) * (SCALE as int);
    lemma_reflect_expand(v, n, k);
    assert(k * d - 2 * d * k == -(k * d)) by (nonlinear_arith);
}

impl Vec3 {
    /// The zero vector, which is also the color black.
    pub fn new() -> (r: Vec3)
        ensures
            r@ == (0int, 0int, 0int),
    {
        Vec3 { x: 0, y: 0, z: 0 }
    }

    /// The all-ones vector, which is also the color white.
    pub fn one() -> (r: Vec3)
        ensures
            r@ == (SCALE as int, SCALE as int, SCALE as int),
    {
        Vec3 { x: SCALE, y: SCALE, z: SCALE }
    }

    pub fn new_filled(x: i64, y: i64, z: i64) -> (r: Vec3)
        ensures
            r@ == (x as int, y as int, z as int),
    {
        Vec3 { x, y, z }
    }

    /// A vector with each component drawn uniformly from `[0, 1)`.
    pub fn random() -> (r: Vec3)
        ensures
            0 <= r.x < SCALE,
            0 <= r.y < SCALE,
            0 <= r.z < SCALE,
    {
        Vec3 { x: random_fraction(), y: random_fraction(), z: random_fraction() }
    }

    /// A vector with each component drawn uniformly from `[min, max)`.
    pub fn random_min_max(min: i64, max: i64) -> (r: Vec3)
        requires
            -OP_MAX <= min < max <= OP_MAX,
        ensures
            min <= r.x < max,
            min <= r.y < max,
            min <= r.z < max,
    {
        Vec3 {
            x: sample_range(min, max),
            y: sample_range(min, max),
            z: sample_range(min, max),
        }
    }

    pub fn add(&self, rhs: &Vec3) -> (r: Vec3)
        requires
            bounded3(self@, 0x2000_0000_0000_0000),
            bounded3(rhs@, 0x2000_0000_0000_0000),
        ensures
            r@ == vadd(self@, rhs@),
    {
        Vec3 { x: self.x + rhs.x, y: self.y + rhs.y, z: self.z + rhs.z }
    }

    pub fn sub(&self, rhs: &Vec3) -> (r: Vec3)
        requires
            bounded3(self@, 0x2000_0000_0000_0000),
            bounded3(rhs@, 0x2000_0000_0000_0000),
        ensures
            r@ == vsub(self@, rhs@),
    {
        Vec3 { x: self.x - rhs.x, y: self.y - rhs.y, z: self.z - rhs.z }
    }

    pub fn neg(&self) -> (r: Vec3)
        requires
            bounded3(self@, 0x4000_0000_0000_0000),
        ensures
            r@ == vneg(self@),
    {
        Vec3 { x: -self.x, y: -self.y, z: -self.z }
    }

    /// Multiplication by the fixed-point scalar `k`.
    pub fn scale(&self, k: i64) -> (r: Vec3)
        requires
            bounded3(self@, OP_MAX as int),
            -SCALAR_MAX <= k <= SCALAR_MAX,
        ensures
            r@ == vscale(self@, k as int),
            bounded3(r@, 0x4800_0000_0000_0000),
    {
        proof {
            lemma_mul_bound(self.x as int, k as int, OP_MAX as int, SCALAR_MAX as int);
            lemma_mul_bound(self.y as int, k as int, OP_MAX as int, SCALAR_MAX as int);
            lemma_mul_bound(self.z as int, k as int, OP_MAX as int, SCALAR_MAX as int);
            lemma_tdiv_le(self.x as int * k as int, SCALE as int, 0x4800_0000_0000_0000);
            lemma_tdiv_le(self.y as int * k as int, SCALE as int, 0x4800_0000_0000_0000);
            lemma_tdiv_le(self.z as int * k as int, SCALE as int, 0x4800_0000_0000_0000);
        }
        Vec3 { x: fix_mul(self.x, k), y: fix_mul(self.y, k), z: fix_mul(self.z, k) }
    }

    /// The component-wise product, used to attenuate a color by a color.
    pub fn mul(&self, rhs: &Vec3) -> (r: Vec3)
        requires
            bounded3(self@, OP_MAX as int),
            bounded3(rhs@, OP_MAX as int),
        ensures
            r@ == vmulc(self@, rhs@),
    {
        proof {
            lemma_mul_bound(self.x as int, rhs.x as int, OP_MAX as int, OP_MAX as int);
            lemma_mul_bound(self.y as int, rhs.y as int, OP_MAX as int, OP_MAX as int);
            lemma_mul_bound(self.z as int, rhs.z as int, OP_MAX as int, OP_MAX as int);
        }
        Vec3 { x: fix_mul(self.x, rhs.x), y: fix_mul(self.y, rhs.y), z: fix_mul(self.z, rhs.z) }
    }

    pub fn dot(&self, rhs: &Vec3) -> (r: i64)
        requires
            bounded3(self@, OP_MAX as int),
            bounded3(rhs@, OP_MAX as int),
        ensures
            r as int == vdot(self@, rhs@),
    {
        proof {
            lemma_dot_raw_bound(self@, rhs@, OP_MAX as int, OP_MAX as int);
            lemma_mul_bound(self.x as int, rhs.x as int, OP_MAX as int, OP_MAX as int);
            lemma_mul_bound(self.y as int, rhs.y as int, OP_MAX as int, OP_MAX as int);
            lemma_mul_bound(self.z as int, rhs.z as int, OP_MAX as int, OP_MAX as int);
        }
        let px: i128 = (self.x as i128) * (rhs.x as i128);
        let py: i128 = (self.y as i128) * (rhs.y as i128);
        let pz: i128 = (self.z as i128) * (rhs.z as i128);
        let sum: i128 = px + py + pz;
        proof {
            lemma_tdiv_le(sum as int, SCALE as int, i64::MAX as int);
        }
        let q: i128 = crate::fixed::div_trunc_wide(sum, SCALE as i128);
        q as i64
    }

    pub fn cross(&self, rhs: &Vec3) -> (r: Vec3)
        requires
            bounded3(self@, 0x4000_0000),
            bounded3(rhs@, 0x4000_0000),
        ensures
            r@ == vcross(self@, rhs@),
            bounded3(r@, 0x2000_0000_0000),
    {
        proof {
            lemma_mul_bound(self.y as int, rhs.z as int, 0x4000_0000, 0x4000_0000);
            lemma_mul_bound(self.z as int, rhs.y as int, 0x4000_0000, 0x4000_0000);
            lemma_mul_bound(self.z as int, rhs.x as int, 0x4000_0000, 0x4000_0000);
            lemma_mul_bound(self.x as int, rhs.z as int, 0x4000_0000, 0x4000_0000);
            lemma_mul_bound(self.x as int, rhs.y as int, 0x4000_0000, 0x4000_0000);
            lemma_mul_bound(self.y as int, rhs.x as int, 0x4000_0000, 0x4000_0000);
            lemma_tdiv_le(self.y as int * rhs.z as int, SCALE as int, 0x1000_0000_0000);
            lemma_tdiv_le(self.z as int * rhs.y as int, SCALE as int, 0x1000_0000_0000);
            lemma_tdiv_le(self.z as int * rhs.x as int, SCALE as int, 0x1000_0000_0000);
            lemma_tdiv_le(self.x as int * rhs.z as int, SCALE as int, 0x1000_0000_0000);
            lemma_tdiv_le(self.x as int * rhs.y as int, SCALE as int, 0x1000_0000_0000);
            lemma_tdiv_le(self.y as int * rhs.x as int, SCALE as int, 0x1000_0000_0000);
        }
        Vec3 {
            x: fix_mul(self.y, rhs.z) - fix_mul(self.z, rhs.y),
            y: fix_mul(self.z, rhs.x) - fix_mul(self.x, rhs.z),
            z: fix_mul(self.x, rhs.y) - fix_mul(self.y, rhs.x),
        }
    }

    /// The fixed-point squared length.
    pub fn length_squared(&self) -> (r: i64)
        requires
            bounded3(self@, OP_MAX as int),
        ensures
            r as int == vlen_sq(self@),
            0 <= r,
    {
        proof {
            lemma_dot_raw_self_nonneg(self@);
            lemma_tdiv_sign(dot_raw(self@, self@), SCALE as int);
        }
        self.dot(self)
    }

    /// The fixed-point length.
    pub fn length(&self) -> (r: i64)
        requires
            bounded3(self@, OP_MAX as int),
        ensures
            r as int == vlen(self@),
            0 <= r,
    {
        proof {
            lemma_dot_raw_self_nonneg(self@);
            lemma_dot_raw_bound(self@, self@, OP_MAX as int, OP_MAX as int);
            lemma_mul_bound(self.x as int, self.x as int, OP_MAX as int, OP_MAX as int);
            lemma_mul_bound(self.y as int, self.y as int, OP_MAX as int, OP_MAX as int);
            lemma_mul_bound(self.z as int, self.z as int, OP_MAX as int, OP_MAX as int);
        }
        let px: i128 = (self.x as i128) * (self.x as i128);
        let py: i128 = (self.y as i128) * (self.y as i128);
        let pz: i128 = (self.z as i128) * (self.z as i128);
        let sum: i128 = px + py + pz;
        let r: u64 = isqrt(sum as u128);
        proof {
            lemma_sqrt_floor_props(sum as int);
            assert(sqrt_floor(sum as int) * sqrt_floor(sum as int) <= sum as int);
            lemma_abs_le_of_sq(sqrt_floor(sum as int), 0x1000_0000_0000_0000);
            assert((0x1000_0000_0000_0001) * (0x1000_0000_0000_0001) > sum as int)
                by (nonlinear_arith)
                requires
                    sum as int <= 3 * ((OP_MAX as int) * (OP_MAX as int)),
            ;
        }
        r as i64
    }

    /// The unit vector with this vector's direction.  The caller must keep
    /// zero vectors out: normalizing zero has no meaning.
    pub fn normalize(&self) -> (r: Vec3)
        requires
            bounded3(self@, OP_MAX as int),
            dot_raw(self@, self@) >= 1,
        ensures
            r@ == vunit(self@),
            bounded3(r@, SCALE as int),
    {
        let len: i64 = self.length();
        proof {
            lemma_sqrt_floor_props(dot_raw(self@, self@));
            if len == 0 {
                assert(dot_raw(self@, self@) < 1);
            }
            lemma_component_le_len(self@, len as int);
            lemma_mul_bound(self.x as int, SCALE as int, OP_MAX as int, SCALE as int);
            lemma_mul_bound(self.y as int, SCALE as int, OP_MAX as int, SCALE as int);
            lemma_mul_bound(self.z as int, SCALE as int, OP_MAX as int, SCALE as int);
            lemma_mul_bound(self.x as int, SCALE as int, len as int, SCALE as int);
            lemma_mul_bound(self.y as int, SCALE as int, len as int, SCALE as int);
            lemma_mul_bound(self.z as int, SCALE as int, len as int, SCALE as int);
            lemma_tdiv_le(self.x as int * SCALE as int, len as int, SCALE as int);
            lemma_tdiv_le(self.y as int * SCALE as int, len as int, SCALE as int);
            lemma_tdiv_le(self.z as int * SCALE as int, len as int, SCALE as int);
        }
        Vec3 {
            x: div_trunc(self.x * SCALE, len),
            y: div_trunc(self.y * SCALE, len),
            z: div_trunc(self.z * SCALE, len),
        }
    }

    /// Mirror reflection of `lhs` about `rhs`.
    pub fn reflect(lhs: &Vec3, rhs: &Vec3) -> (r: Vec3)
        requires
            bounded3(lhs@, 4 * (SCALE as int)),
            bounded3(rhs@, 0x20_0000),
        ensures
            r@ == vreflect(lhs@, rhs@),
            bounded3(r@, 0x1_0000_0000),
    {
        let d: i64 = lhs.dot(rhs);
        proof {
            lemma_dot_raw_bound(lhs@, rhs@, 4 * (SCALE as int), 0x20_0000);
            lemma_tdiv_le(dot_raw(lhs@, rhs@), SCALE as int, 0x180_0000);
        }
        let s: Vec3 = rhs.scale(2 * d);
        proof {
            lemma_vscale_bound(rhs@, 2 * d as int, 0x20_0000, 0x300_0000);
            lemma_tdiv_sign((0x20_0000 * 0x300_0000) as int, SCALE as int);
        }
        lhs.sub(&s)
    }

    /// Refraction by Snell's law; `eta` is the ratio of refraction indices.
    pub fn refract(uv: &Vec3, n: &Vec3, eta: i64) -> (r: Vec3)
        requires
            bounded3(uv@, 2 * (SCALE as int)),
            bounded3(n@, 0x10_0000),
            0 <= eta <= 0x10_0000,
        ensures
            r@ == vrefract(uv@, n@, eta as int),
            bounded3(r@, 0x41_0000_0000),
    {
        let d: i64 = uv.dot(n);
        proof {
            lemma_dot_raw_bound(uv@, n@, 2 * (SCALE as int), 0x10_0000);
            lemma_tdiv_le(dot_raw(uv@, n@), SCALE as int, 0x60_0000);
        }
        let md: i64 = -d;
        let cos: i64 = if md > SCALE {
            SCALE
        } else {
            md
        };
        let scaled_n: Vec3 = n.scale(cos);
        proof {
            lemma_vscale_bound(n@, cos as int, 0x10_0000, 0x60_0000);
            lemma_tdiv_sign((0x10_0000 * 0x60_0000) as int, SCALE as int);
        }
        let perp_in: Vec3 = uv.add(&scaled_n);
        proof {
            assert(bounded3(perp_in@, 0x1000_0000));
        }
        let perp: Vec3 = perp_in.scale(eta);
        proof {
            lemma_vscale_bound(perp_in@, eta as int, 0x1000_0000, 0x10_0000);
            lemma_tdiv_sign((0x1000_0000 * 0x10_0000) as int, SCALE as int);
            assert(bounded3(perp@, 0x1_0000_0001));
        }
        let lensq: i64 = perp.length_squared();
        proof {
            lemma_dot_raw_bound(perp@, perp@, 0x1_0000_0001, 0x1_0000_0001);
            assert(3 * (0x1_0000_0001 * 0x1_0000_0001) <= (SCALE as int) * 0x3_0001_0000_0000)
                by (nonlinear_arith);
            lemma_tdiv_le(dot_raw(perp@, perp@), SCALE as int, 0x3_0001_0000_0000);
            lemma_dot_raw_self_nonneg(perp@);
            lemma_tdiv_sign(dot_raw(perp@, perp@), SCALE as int);
        }
        let inner: i64 = if lensq <= SCALE {
            SCALE - lensq
        } else {
            lensq - SCALE
        };
        proof {
            assert(inner as int == absi((SCALE as int) - vlen_sq(perp@)));
            assert(0 <= inner as int <= 0x3_0001_0000_0000);
        }
        proof {
            assert((inner as int) * (SCALE as int) <= 0x3_0001_0000_0000 * 0x1_0000)
                by (nonlinear_arith)
                requires
                    0 <= inner as int <= 0x3_0001_0000_0000,
            ;
        }
        let wide: u128 = (inner as u128) * (SCALE as u128);
        let s: u64 = isqrt(wide);
        proof {
            lemma_sqrt_floor_props(wide as int);
            assert((0x2_0000_0000 + 1) * (0x2_0000_0000 + 1) > wide as int) by (nonlinear_arith)
                requires
                    wide as int <= 0x3_0001_0000_0000 * 0x1_0000,
            ;
            lemma_abs_le_of_sq(sqrt_floor(wide as int), 0x2_0000_0000);
            lemma_vscale_bound(n@, -(s as int), 0x10_0000, 0x2_0000_0000);
            lemma_tdiv_sign((0x10_0000 * 0x2_0000_0000) as int, SCALE as int);
        }
        let par: Vec3 = n.scale(-(s as i64));
        perp.add(&par)
    }

    /// True exactly when every component is below the fixed-point epsilon
    /// of one raw unit — that is, when the vector is exactly zero.
    pub fn near_zero(&self) -> (r: bool)
        ensures
            r == vnear_zero(self@),
    {
        self.x == 0 && self.y == 0 && self.z == 0
    }
}

/// Every component of a vector is bounded by its length.
proof fn lemma_component_le_len(a: (int, int, int), len: int)
    requires
        0 <= len,
        dot_raw(a, a) < (len + 1) * (len + 1),
    ensures
        bounded3(a, len),
{
    assert(a.0 * a.0 <= dot_raw(a, a) && a.1 * a.1 <= dot_raw(a, a) && a.2 * a.2 <= dot_raw(a, a))
        by (nonlinear_arith);
    lemma_abs_le_of_sq(a.0, len);
    lemma_abs_le_of_sq(a.1, len);
    lemma_abs_le_of_sq(a.2, len);
}

/// Bounded factors give a bounded cross product.
pub proof fn lemma_vcross_bound(a: (int, int, int), b: (int, int, int), ma: int, mb: int)
    requires
        bounded3(a, ma),
        bounded3(b, mb),
        0 <= ma,
        0 <= mb,
    ensures
        bounded3(vcross(a, b), 2 * (tdiv(ma * mb, SCALE as int) + 1)),
{
    lemma_mul_bound(a.1, b.2, ma, mb);
    lemma_mul_bound(a.2, b.1, ma, mb);
    lemma_mul_bound(a.2, b.0, ma, mb);
    lemma_mul_bound(a.0, b.2, ma, mb);
    lemma_mul_bound(a.0, b.1, ma, mb);
    lemma_mul_bound(a.1, b.0, ma, mb);
    lemma_mul_bound(ma, mb, ma, mb);
    vstd::arithmetic::div_mod::lemma_fundamental_div_mod(ma * mb, SCALE as int);
    lemma_tdiv_sign(ma * mb, SCALE as int);
    lemma_tdiv_le(a.1 * b.2, SCALE as int, tdiv(ma * mb, SCALE as int) + 1);
    lemma_tdiv_le(a.2 * b.1, SCALE as int, tdiv(ma * mb, SCALE as int) + 1);
    lemma_tdiv_le(a.2 * b.0, SCALE as int, tdiv(ma * mb, SCALE as int) + 1);
    lemma_tdiv_le(a.0 * b.2, SCALE as int, tdiv(ma * mb, SCALE as int) + 1);
    lemma_tdiv_le(a.0 * b.1, SCALE as int, tdiv(ma * mb, SCALE as int) + 1);
    lemma_tdiv_le(a.1 * b.0, SCALE as int, tdiv(ma * mb, SCALE as int) + 1);
}

/// Scaling a bounded vector by a bounded scalar gives a bounded vector.
pub proof fn lemma_vscale_bound(a: (int, int, int), k: int, ma: int, mk: int)
    requires
        bounded3(a, ma),
        -mk <= k <= mk,
        0 <= ma,
        0 <= mk,
    ensures
        bounded3(vscale(a, k), tdiv(ma * mk, SCALE as int) + 1),
{
    lemma_mul_bound(a.0, k, ma, mk);
    lemma_mul_bound(a.1, k, ma, mk);
    lemma_mul_bound(a.2, k, ma, mk);
    lemma_tdiv_sign(ma * mk, SCALE as int);
    lemma_tdiv_le_general(a.0 * k, ma * mk, SCALE as int);
    lemma_tdiv_le_general(a.1 * k, ma * mk, SCALE as int);
    lemma_tdiv_le_general(a.2 * k, ma * mk, SCALE as int);
}

/// `|tdiv(a, b)| <= tdiv(m, b)` whenever `|a| <= m`.
pub proof fn lemma_tdiv_le_general(a: int, m: int, b: int)
    requires
        1 <= b,
        -m <= a <= m,
        0 <= m,
    ensures
        -tdiv(m, b) <= tdiv(a, b) <= tdiv(m, b),
{
    if a >= 0 {
        lemma_tdiv_sign(a, b);
        lemma_tdiv_ordered(a, m, b);
    } else {
        lemma_tdiv_sign(a, b);
        lemma_tdiv_ordered(-a, m, b);
    }
}

/// One component drawn uniformly from `[min, max)`.
fn sample_range(min: i64, max: i64) -> (r: i64)
    requires
        -OP_MAX <= min < max <= OP_MAX,
    ensures
        min <= r < max,
{
    let w: i64 = max - min;
    let draw: i64 = random_fraction();
    proof {
        lemma_mul_bound(w as int, draw as int, 2 * (OP_MAX as int), SCALE as int);
        lemma_tdiv_sign(w as int * draw as int, SCALE as int);
        assert(w as int * draw as int >= 0) by (nonlinear_arith)
            requires
                w as int >= 0 && draw as int >= 0,
        ;
        assert(w as int * draw as int <= w as int * (SCALE as int) - 1) by (nonlinear_arith)
            requires
                draw as int <= (SCALE as int) - 1 && w as int >= 1 && SCALE as int >= 1,
        ;
        lemma_tdiv_ordered(w as int * draw as int, w as int * (SCALE as int) - 1, SCALE as int);
        lemma_fundamental_div_mod_converse(
            w as int * (SCALE as int) - 1,
            SCALE as int,
            w as int - 1,
            (SCALE as int) - 1,
        );
    }
    min + fix_mul(w, draw)
}

} // verus!
