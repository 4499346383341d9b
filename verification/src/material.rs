//! The three scattering models — diffuse, metallic, dielectric — and the
//! always-absorbing placeholder, as a closed union dispatched by `scatter`.

use vstd::prelude::*;
use crate::fixed::{
    SCALE, tdiv, fmul, fdiv, sqrt_floor, fix_mul, fix_div, isqrt, lemma_tdiv_le, lemma_tdiv_sign,
    lemma_mul_bound, lemma_sqrt_floor_props, lemma_abs_le_of_sq,
};
use crate::vec3::{
    Vec3, bounded3, vadd, vscale, vdot, dot_raw, vunit, vreflect, vrefract, vnear_zero,
    lemma_dot_raw_bound, lemma_vscale_bound,
};
use crate::ray::Ray;
use crate::hittable::{HitRecord, rec_valid};
use crate::sphere::random_in_unit_sphere;
use crate::rng::random_fraction;

verus! {

/// Smallest supported index of refraction, one half.
pub const IR_MIN: i64 = 32768;

/// Largest supported index of refraction, eight.
pub const IR_MAX: i64 = 524288;

/// An RGB color with every channel in `[0, 1]`.
pub open spec fn in_unit3(a: (int, int, int)) -> bool {
    0 <= a.0 <= SCALE as int && 0 <= a.1 <= SCALE as int && 0 <= a.2 <= SCALE as int
}

/// Ideal diffuse surface: scatters randomly, tinted by its albedo.
#[derive(Clone, Copy, Debug, PartialEq, Eq, Structural)]
pub struct Lambertian {
    pub albedo: Vec3,
}

/// Mirror surface with a fuzz factor in `[0, 1)` for rough reflections.
#[derive(Clone, Copy, Debug, PartialEq, Eq, Structural)]
pub struct Metal {
    pub albedo: Vec3,
    pub fuzz: i64,
}

/// Clear surface with an index of refraction.
#[derive(Clone, Copy, Debug, PartialEq, Eq, Structural)]
pub struct Dielectric {
    pub ir: i64,
}

/// A surface that absorbs every ray; it scatters nothing and never panics.
#[derive(Clone, Copy, Debug, PartialEq, Eq, Structural)]
pub struct DummyMaterial {}

/// The closed union of the scattering models.
#[derive(Clone, Copy, Debug, PartialEq, Eq, Structural)]
pub enum Material {
    Lambertian(Lambertian),
    Metal(Metal),
    Dielectric(Dielectric),
    DummyMaterial(DummyMaterial),
}

/// The ranges each material's parameters must lie in.
pub open spec fn mat_valid(m: Material) -> bool {
    match m {
        Material::Lambertian(l) => in_unit3(l.albedo@),
        Material::Metal(mt) => in_unit3(mt.albedo@) && 0 <= mt.fuzz < SCALE as int,
        Material::Dielectric(d) => IR_MIN as int <= d.ir as int <= IR_MAX as int,
        Material::DummyMaterial(_) => true,
    }
}

/// The diffuse scatter direction: the normal plus a random unit vector,
/// falling back to the normal itself when the sum degenerates to zero.
pub open spec fn lamb_dir(n: (int, int, int), u: (int, int, int)) -> (int, int, int) {
    let d = vadd(n, u);
    if vnear_zero(d) {
        n
    } else {
        d
    }
}

/// Clamp a fixed-point value into `[-1, 1]`.
pub open spec fn clamp_unit(x: int) -> int {
    if x > SCALE as int {
        SCALE as int
    } else if x < -(SCALE as int) {
        -(SCALE as int)
    } else {
        x
    }
}

/// The ratio of refraction indices seen by the ray: the reciprocal of the
/// index when entering from outside, the index itself when leaving.
pub open spec fn dielectric_ratio(d: Dielectric, front: bool) -> int {
    if front {
        fdiv(SCALE as int, d.ir as int)
    } else {
        d.ir as int
    }
}

/// The cosine of the angle of incidence, clamped into `[-1, 1]`.
pub open spec fn dielectric_cos(unit_dir: (int, int, int), n: (int, int, int)) -> int {
    clamp_unit(-vdot(unit_dir, n))
}

/// The sine from the cosine, `sqrt(1 - cos^2)`, on the fixed-point scale.
pub open spec fn dielectric_sin(cos: int) -> int {
    sqrt_floor(((SCALE as int) - fmul(cos, cos)) * (SCALE as int))
}

/// Total internal reflection: no refracted ray exists.
pub open spec fn dielectric_tir(ratio: int, sin: int) -> bool {
    fmul(ratio, sin) > SCALE as int
}

/// The Schlick approximation of the Fresnel reflectance:
/// `r0 + (1 - r0) (1 - cos)^5` with `r0 = ((1 - ri) / (1 + ri))^2`.
pub open spec fn schlick(cos: int, ri: int) -> int {
    let r0 = fdiv((SCALE as int) - ri, (SCALE as int) + ri);
    let r0sq = fmul(r0, r0);
    let q = (SCALE as int) - cos;
    let q2 = fmul(q, q);
    let q5 = fmul(fmul(q2, q2), q);
    r0sq + fmul((SCALE as int) - r0sq, q5)
}

/// The Schlick reflectance on machine integers.
pub fn reflectance(cos: i64, ref_idx: i64) -> (r: i64)
    requires
        -SCALE <= cos <= SCALE,
        1 <= ref_idx <= 0x10_0000,
    ensures
        r as int == schlick(cos as int, ref_idx as int),
        0 <= r,
{
    proof {
        lemma_tdiv_le(
            ((SCALE as int) - ref_idx as int) * (SCALE as int),
            (SCALE as int) + ref_idx as int,
            SCALE as int,
        );
    }
    let r0: i64 = fix_div(SCALE - ref_idx, SCALE + ref_idx);
    proof {
        lemma_mul_bound(r0 as int, r0 as int, SCALE as int, SCALE as int);
        lemma_tdiv_le((r0 as int) * (r0 as int), SCALE as int, SCALE as int);
        lemma_tdiv_sign((r0 as int) * (r0 as int), SCALE as int);
        assert((r0 as int) * (r0 as int) >= 0) by (nonlinear_arith);
    }
    let r0sq: i64 = fix_mul(r0, r0);
    let q: i64 = SCALE - cos;
    proof {
        lemma_mul_bound(q as int, q as int, 2 * (SCALE as int), 2 * (SCALE as int));
        lemma_tdiv_le((q as int) * (q as int), SCALE as int, 4 * (SCALE as int));
        lemma_tdiv_sign((q as int) * (q as int), SCALE as int);
        assert((q as int) * (q as int) >= 0) by (nonlinear_arith);
    }
    let q2: i64 = fix_mul(q, q);
    proof {
        lemma_mul_bound(q2 as int, q2 as int, 4 * (SCALE as int), 4 * (SCALE as int));
        lemma_tdiv_le((q2 as int) * (q2 as int), SCALE as int, 16 * (SCALE as int));
        lemma_tdiv_sign((q2 as int) * (q2 as int), SCALE as int);
        assert((q2 as int) * (q2 as int) >= 0) by (nonlinear_arith)
            requires
                q2 as int >= 0,
        ;
    }
    let q4: i64 = fix_mul(q2, q2);
    proof {
        lemma_mul_bound(q4 as int, q as int, 16 * (SCALE as int), 2 * (SCALE as int));
        lemma_tdiv_le((q4 as int) * (q as int), SCALE as int, 32 * (SCALE as int));
        lemma_tdiv_sign((q4 as int) * (q as int), SCALE as int);
        assert((q4 as int) * (q as int) >= 0) by (nonlinear_arith)
            requires
                q4 as int >= 0 && q as int >= 0,
        ;
    }
    let q5: i64 = fix_mul(q4, q);
    proof {
        lemma_mul_bound((SCALE as int) - r0sq as int, q5 as int, SCALE as int, 32 * (SCALE as int));
        lemma_tdiv_le(((SCALE as int) - r0sq as int) * (q5 as int), SCALE as int, 32 * (SCALE as int));
        lemma_tdiv_sign(((SCALE as int) - r0sq as int) * (q5 as int), SCALE as int);
        assert(((SCALE as int) - r0sq as int) * (q5 as int) >= 0) by (nonlinear_arith)
            requires
                (SCALE as int) - r0sq as int >= 0 && q5 as int >= 0,
        ;
    }
    r0sq + fix_mul(SCALE - r0sq, q5)
}

/// At normal incidence against a surface with index of refraction `1.5`
/// seen from outside, the Schlick reflectance evaluates to `2621/65536`,
/// which is `0.04` up to the fixed-point resolution.
pub proof fn lemma_schlick_normal_incidence()
    ensures
        dielectric_ratio(Dielectric { ir: 98304 }, true) == 43690,
        schlick(SCALE as int, 43690) == 2621,
{
    assert(dielectric_ratio(Dielectric { ir: 98304 }, true) == tdiv(4294967296, 98304));
    assert(tdiv(4294967296, 98304) == 43690);
    assert(fdiv((SCALE as int) - 43690, (SCALE as int) + 43690) == tdiv(1431699456, 109226));
    assert(tdiv(1431699456, 109226) == 13107);
    assert(fmul(13107, 13107) == tdiv(171793449, 65536));
    assert(tdiv(171793449, 65536) == 2621);
    assert(fmul(0, 0) == 0);
    assert(fmul(fmul(0, 0), 0) == 0);
    assert(fmul((SCALE as int) - 2621, 0) == 0);
    assert(schlick(SCALE as int, 43690) == 2621);
}

impl Material {
    /// Scatter an incoming ray at a hit on a surface with this material:
    /// `None` means the ray is absorbed, `Some` carries the attenuation
    /// color and the scattered ray.
    pub fn scatter(&self, ray_in: &Ray, hit: &HitRecord) -> (res: Option<(Vec3, Ray)>)
        requires
            mat_valid(*self),
            rec_valid(*hit),
            bounded3(ray_in.direction@, crate::vec3::OP_MAX as int),
            1 <= dot_raw(ray_in.direction@, ray_in.direction@),
        ensures
            res matches Some(pair) ==> {
                &&& in_unit3(pair.0@)
                &&& pair.1.origin == hit.p
                &&& bounded3(pair.1.direction@, 0x41_0000_0000)
            },
            self matches Material::Lambertian(l) ==> {
                &&& res is Some
                &&& (res matches Some(pair) ==> pair.0 == l.albedo && (exists|u: (int, int, int)|
                    bounded3(u, SCALE as int) && pair.1.direction@ == #[trigger] lamb_dir(
                        hit.n@,
                        u,
                    )))
            },
            self matches Material::Metal(m) ==> {
                &&& (res matches Some(pair) ==> pair.0 == m.albedo && vdot(
                    pair.1.direction@,
                    hit.n@,
                ) > 0 && (exists|u: (int, int, int)|
                    bounded3(u, SCALE as int) && pair.1.direction@ == #[trigger] vadd(
                        vreflect(vunit(ray_in.direction@), hit.n@),
                        vscale(u, m.fuzz as int),
                    )))
                &&& (m.fuzz == 0 ==> {
                    &&& (res is Some) == (vdot(
                        vreflect(vunit(ray_in.direction@), hit.n@),
                        hit.n@,
                    ) > 0)
                    &&& (res matches Some(pair) ==> pair.1.direction@ == vreflect(
                        vunit(ray_in.direction@),
                        hit.n@,
                    ))
                })
            },
            self matches Material::Dielectric(dl) ==> {
                &&& res is Some
                &&& (res matches Some(pair) ==> {
                    let u = vunit(ray_in.direction@);
                    let ratio = dielectric_ratio(*dl, hit.front_face);
                    let cos = dielectric_cos(u, hit.n@);
                    &&& pair.0@ == (SCALE as int, SCALE as int, SCALE as int)
                    &&& (pair.1.direction@ == vreflect(u, hit.n@) || pair.1.direction@
                        == vrefract(u, hit.n@, ratio))
                    &&& (dielectric_tir(ratio, dielectric_sin(cos)) ==> pair.1.direction@
                        == vreflect(u, hit.n@))
                })
            },
            self matches Material::DummyMaterial(_) ==> res is None,
    {
        match self {
            Material::Lambertian(l) => {
                let s: Vec3 = random_in_unit_sphere();
                let su: Vec3 = s.normalize();
                let mut dir: Vec3 = hit.n.add(&su);
                if dir.near_zero() {
                    dir = hit.n;
                }
                proof {
                    assert(bounded3(su@, SCALE as int) && dir@ == lamb_dir(hit.n@, su@));
                }
                Some((l.albedo, Ray::new_filled(hit.p, dir)))
            },
            Material::Metal(m) => {
                let u: Vec3 = ray_in.direction.normalize();
                let refl: Vec3 = Vec3::reflect(&u, &hit.n);
                let s: Vec3 = random_in_unit_sphere();
                let f: Vec3 = s.scale(m.fuzz);
                proof {
                    lemma_vscale_bound(s@, m.fuzz as int, SCALE as int, SCALE as int);
                    lemma_tdiv_sign(((SCALE as int) * (SCALE as int)) as int, SCALE as int);
                    if m.fuzz == 0 {
                        lemma_tdiv_sign(0, SCALE as int);
                        assert(f@ == vscale(s@, 0));
                        assert(s@.0 * 0 == 0 && s@.1 * 0 == 0 && s@.2 * 0 == 0);
                        assert(fmul(s@.0, 0) == 0 && fmul(s@.1, 0) == 0 && fmul(s@.2, 0) == 0);
                        assert(f@ == (0int, 0int, 0int));
                    }
                }
                let dir: Vec3 = refl.add(&f);
                proof {
                    assert(bounded3(s@, SCALE as int) && dir@ == vadd(
                        vreflect(vunit(ray_in.direction@), hit.n@),
                        vscale(s@, m.fuzz as int),
                    ));
                }
                let d: i64 = dir.dot(&hit.n);
                if d > 0 {
                    Some((m.albedo, Ray::new_filled(hit.p, dir)))
                } else {
                    None
                }
            },
            Material::Dielectric(dl) => {
                let ratio: i64 = if hit.front_face {
                    proof {
                        crate::fixed::lemma_tdiv_ge_one(
                            (SCALE as int) * (SCALE as int),
                            dl.ir as int,
                        );
                        lemma_tdiv_le(
                            (SCALE as int) * (SCALE as int),
                            dl.ir as int,
                            2 * (SCALE as int),
                        );
                    }
                    fix_div(SCALE, dl.ir)
                } else {
                    dl.ir
                };
                let u: Vec3 = ray_in.direction.normalize();
                let dcos: i64 = u.dot(&hit.n);
                proof {
                    lemma_dot_raw_bound(u@, hit.n@, SCALE as int, 0x8_0000);
                    lemma_tdiv_le(dot_raw(u@, hit.n@), SCALE as int, 0x18_0000);
                }
                let md: i64 = -dcos;
                let cos: i64 = if md > SCALE {
                    SCALE
                } else if md < -SCALE {
                    -SCALE
                } else {
                    md
                };
                proof {
                    lemma_mul_bound(cos as int, cos as int, SCALE as int, SCALE as int);
                    lemma_tdiv_le((cos as int) * (cos as int), SCALE as int, SCALE as int);
                    lemma_tdiv_sign((cos as int) * (cos as int), SCALE as int);
                    assert((cos as int) * (cos as int) >= 0) by (nonlinear_arith);
                }
                let cos2: i64 = fix_mul(cos, cos);
                let sin2: i64 = SCALE - cos2;
                proof {
                    assert((sin2 as int) * (SCALE as int) <= 0x1_0000_0000) by (nonlinear_arith)
                        requires
                            0 <= sin2 as int <= 0x1_0000,
                    ;
                }
                let wide: u128 = (sin2 as u128) * (SCALE as u128);
                let sin_u: u64 = isqrt(wide);
                proof {
                    lemma_sqrt_floor_props(wide as int);
                    assert(((SCALE as int) + 1) * ((SCALE as int) + 1) > wide as int);
                    lemma_abs_le_of_sq(sqrt_floor(wide as int), SCALE as int);
                }
                let sin: i64 = sin_u as i64;
                proof {
                    lemma_mul_bound(ratio as int, sin as int, 0x10_0000, SCALE as int);
                    lemma_tdiv_le((ratio as int) * (sin as int), SCALE as int, 0x10_0000);
                }
                let tir: bool = fix_mul(ratio, sin) > SCALE;
                let rp: i64 = reflectance(cos, ratio);
                let draw: i64 = random_fraction();
                let dir: Vec3 = if tir || rp > draw {
                    Vec3::reflect(&u, &hit.n)
                } else {
                    Vec3::refract(&u, &hit.n, ratio)
                };
                Some((Vec3::one(), Ray::new_filled(hit.p, dir)))
            },
            Material::DummyMaterial(_) => None,
        }
    }
}

} // verus!
