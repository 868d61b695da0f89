//! Surface materials and the scattering rule that drives the random
//! walk of the path integrator.

use vstd::prelude::*;
use crate::color::{Color, color_wf};
use crate::maths::{
    Vec3, SCALE, sabs, sdiv, fxm, fxd, in_box, dotw, unit_spec, sqrt_floor, fx_mul_s, fx_div_s,
    fx_sqrt, lemma_dot_bound, lemma_fxm_bound, lemma_dotw_self_nonneg,
};
use crate::common::{Ray, HitRecord, add_v, neg_v, scale_v, rus_spec, unit_like, random_unit_sphere};
use crate::random::{Random, rng_next, rand_unit};

verus! {

/// A surface material: diffuse with an albedo, metal with an albedo and
/// a fuzz factor in `[0, 1]`, or a colorless dielectric with an index of
/// refraction ratio.
#[derive(Clone, Copy, Debug, PartialEq, Eq, Structural)]
pub enum MaterialType {
    Diffuse(Color),
    Metal(Color, i64),
    Dielectric(i64),
}

/// Parameter ranges every scene material satisfies: albedos in the unit
/// interval, fuzz in `[0, 1]`, the refraction ratio in `[1/8, 8]`.
pub open spec fn material_wf(m: MaterialType) -> bool {
    match m {
        MaterialType::Diffuse(c) => color_wf(c),
        MaterialType::Metal(c, fuzz) => color_wf(c) && 0 <= fuzz <= SCALE,
        MaterialType::Dielectric(ir) => 8192 <= ir <= 524288,
    }
}

/// What a scatter event produces: an attenuation color, and the
/// continuation ray unless the ray was absorbed.
pub struct ScatterData {
    pub color: Color,
    pub next_ray: Option<Ray>,
}

/// Mirror reflection of `d` about the normal `n`: `d - 2 (d . n) n`.
pub open spec fn reflect_spec(d: Vec3, n: Vec3) -> Vec3 {
    let k = 2 * sdiv(dotw(d, n), SCALE as int);
    Vec3 {
        x: (d.x - fxm(n.x as int, k)) as i64,
        y: (d.y - fxm(n.y as int, k)) as i64,
        z: (d.z - fxm(n.z as int, k)) as i64,
    }
}

/// Opaque white: the attenuation of a colorless dielectric.
pub open spec fn white_spec() -> Color {
    Color { r: SCALE, g: SCALE, b: SCALE, a: SCALE }
}

/// The direction a dielectric produces when it refracts at `cos` with
/// the given ratio, against the effective normal `ne`.
pub open spec fn refract_spec(d: Vec3, ne: Vec3, cos: int, ratio: int) -> Vec3 {
    let perp = scale_v(add_v(d, scale_v(ne, cos)), ratio);
    let k = SCALE - sdiv(dotw(perp, perp), SCALE as int);
    let kk = if k < 0 { 0 } else { k };
    add_v(perp, scale_v(ne, -sqrt_floor(kk * SCALE)))
}

/// The scattering rule, as a function of material, incoming ray, hit
/// record and generator state.
pub open spec fn scatter_spec(m: MaterialType, r: Ray, h: HitRecord, s: u64) -> (ScatterData, u64) {
    match m {
        MaterialType::Diffuse(albedo) => {
            let (rv, s3) = rus_spec(s);
            let dir = unit_spec(add_v(h.normal, rv));
            (
                ScatterData {
                    color: albedo,
                    next_ray: Some(Ray { origin: h.position, direction: dir }),
                },
                s3,
            )
        },
        MaterialType::Metal(albedo, fuzz) => {
            let (rv, s3) = rus_spec(s);
            let scat = add_v(reflect_spec(r.direction, h.normal), scale_v(rv, fuzz as int));
            if dotw(scat, h.normal) > 0 && dotw(scat, scat) >= 0x4000000 {
                (
                    ScatterData {
                        color: albedo,
                        next_ray: Some(Ray { origin: h.position, direction: unit_spec(scat) }),
                    },
                    s3,
                )
            } else {
                (ScatterData { color: albedo, next_ray: None }, s3)
            }
        },
        MaterialType::Dielectric(ir) => {
            let d = r.direction;
            let n = h.normal;
            let dn = sdiv(dotw(d, n), SCALE as int);
            let front = dn < 0;
            let ratio = if front {
                fxd(SCALE as int, ir as int)
            } else {
                ir as int
            };
            let ne = if front {
                n
            } else {
                neg_v(n)
            };
            let cos0 = sdiv(dotw(neg_v(d), ne), SCALE as int);
            let cos = if cos0 > SCALE { SCALE as int } else { cos0 };
            let sin2 = SCALE - fxm(cos, cos);
            let cannot = fxm(fxm(ratio, ratio), sin2) > SCALE;
            if cannot {
                let dir = unit_spec(reflect_spec(d, ne));
                (
                    ScatterData {
                        color: white_spec(),
                        next_ray: Some(Ray { origin: h.position, direction: dir }),
                    },
                    s,
                )
            } else {
                let r0a = fxd(ir - SCALE, ir + SCALE);
                let r0 = fxm(r0a, r0a);
                let om = SCALE - cos;
                let p2 = fxm(om, om);
                let p5 = fxm(fxm(p2, p2), om);
                let refl = r0 + fxm(SCALE - r0, p5);
                let draw = rand_unit(s);
                let s1 = rng_next(s);
                let dir0 = if refl > draw {
                    reflect_spec(d, ne)
                } else {
                    refract_spec(d, ne, cos, ratio)
                };
                (
                    ScatterData {
                        color: white_spec(),
                        next_ray: Some(Ray { origin: h.position, direction: unit_spec(dir0) }),
                    },
                    s1,
                )
            }
        },
    }
}


/// A dielectric with a matched index of refraction (ratio one) passes
/// a ray hitting at exact normal incidence through undeviated, with
/// opaque white attenuation.
pub proof fn lemma_dielectric_matched_straight(r: Ray, h: HitRecord, s: u64)
    requires
        h.material == MaterialType::Dielectric(65536),
        in_box(h.normal, SCALE as int),
        dotw(h.normal, h.normal) == SCALE as int * SCALE as int,
        r.direction == neg_v(h.normal),
    ensures
        scatter_spec(h.material, r, h, s).0.next_ray matches Some(nr) && nr.direction
            == r.direction,
        scatter_spec(h.material, r, h, s).0.color == white_spec(),
{
    let n = h.normal;
    let d = r.direction;
    let si = SCALE as int;
    assert(d.x == -n.x && d.y == -n.y && d.z == -n.z);
    assert(dotw(d, n) == -(si * si)) by (nonlinear_arith)
        requires
            d.x == -n.x && d.y == -n.y && d.z == -n.z,
            n.x * n.x + n.y * n.y + n.z * n.z == si * si;
    assert(dotw(d, d) == si * si) by (nonlinear_arith)
        requires
            d.x == -n.x && d.y == -n.y && d.z == -n.z,
            n.x * n.x + n.y * n.y + n.z * n.z == si * si;
    crate::maths::lemma_sdiv_basics(-(si * si), si);
    assert(sabs(-(si * si)) == si * si);
    vstd::arithmetic::div_mod::lemma_div_by_multiple(si, si);
    assert(si * si / si == si);
    assert(sdiv(dotw(d, n), si) == -si);
    // the ratio is exactly one
    crate::maths::lemma_fxm_scale_id(si);
    assert(fxd(si, 65536) == si);
    // the effective normal is n, and the cosine is exactly one
    assert(neg_v(d) == n);
    assert(sdiv(dotw(neg_v(d), n), si) == si) by {
        crate::maths::lemma_sdiv_basics(si * si, si);
    }
    // Snell feasibility and Schlick reflectance both vanish
    crate::maths::lemma_sdiv_basics(0, si);
    assert(fxm(si, 0) == 0) by {
        assert(si * 0 == 0) by (nonlinear_arith);
    }
    assert(SCALE - fxm(si, si) == 0);
    assert(fxd(65536 - SCALE, 65536 + SCALE) == 0) by {
        assert((65536 - SCALE) * SCALE == 0);
    }
    assert(fxm(0, 0) == 0) by {
        assert(0 * 0 == 0) by (nonlinear_arith);
    }
    assert(crate::random::rand_unit(s) >= 0);
    // the refracted direction is exactly the incoming direction
    let perp0 = scale_v(n, si);
    assert(perp0 == n) by {
        crate::maths::lemma_fxm_scale_id(n.x as int);
        crate::maths::lemma_fxm_scale_id(n.y as int);
        crate::maths::lemma_fxm_scale_id(n.z as int);
    }
    let zero = add_v(d, n);
    assert(zero == (Vec3 { x: 0i64, y: 0i64, z: 0i64 }));
    let perp = scale_v(zero, si);
    assert(perp == zero) by {
        crate::maths::lemma_fxm_scale_id(0);
    }
    assert(dotw(perp, perp) == 0);
    assert(sqrt_floor(si * si) == si) by {
        crate::maths::lemma_sqrt_floor(si * si, si);
        assert(si * si < (si + 1) * (si + 1)) by (nonlinear_arith)
            requires si == 65536;
    }
    let par = scale_v(n, -si);
    assert(par == d) by {
        crate::maths::lemma_fxm_scale_id(n.x as int);
        crate::maths::lemma_fxm_scale_id(n.y as int);
        crate::maths::lemma_fxm_scale_id(n.z as int);
    }
    let dir0 = refract_spec(d, n, si, si);
    assert(dir0 == d);
    // renormalizing an exactly unit direction is the identity
    assert(unit_spec(d) == d) by {
        crate::maths::lemma_sqrt_floor(si * si, si);
        assert(si * si < (si + 1) * (si + 1)) by (nonlinear_arith)
            requires si == 65536;
        crate::maths::lemma_fxm_scale_id(d.x as int);
        crate::maths::lemma_fxm_scale_id(d.y as int);
        crate::maths::lemma_fxm_scale_id(d.z as int);
    }
}

/// Mirror reflection of a direction about a normal.
fn reflect(d: &Vec3, n: &Vec3) -> (r: Vec3)
    requires
        in_box(*d, SCALE as int),
        in_box(*n, SCALE as int),
    ensures
        r == reflect_spec(*d, *n),
        in_box(r, 0x100000000),
{
    let dn = d.dot(n);
    proof {
        lemma_dot_bound(*d, *n, SCALE as int, SCALE as int);
        lemma_fxm_bound(n.x as int, 2 * dn as int, SCALE as int, 0x60000);
        lemma_fxm_bound(n.y as int, 2 * dn as int, SCALE as int, 0x60000);
        lemma_fxm_bound(n.z as int, 2 * dn as int, SCALE as int, 0x60000);
    }
    let k = 2 * dn;
    d.minus(&n.scaled(k))
}

impl MaterialType {
    /// Scatters an incoming ray at a hit point: produces the
    /// attenuation color and, unless the ray is absorbed, the
    /// continuation ray, whose direction is always renormalized.
    #[verifier::rlimit(100)]
    #[verifier::spinoff_prover]
    pub fn scatter(&self, ray: &Ray, hit: &HitRecord, random: &mut Random) -> (sd: ScatterData)
        requires
            material_wf(*self),
            in_box(ray.direction, SCALE as int),
            in_box(hit.normal, SCALE as int),
            in_box(hit.position, 0x140000000000),
        ensures
            sd == scatter_spec(*self, *ray, *hit, old(random).state).0,
            final(random).state == scatter_spec(*self, *ray, *hit, old(random).state).1,
            color_wf(sd.color),
            sd.next_ray matches Some(nr) ==> nr.origin == hit.position && in_box(
                nr.direction,
                SCALE as int,
            ) && dotw(nr.direction, nr.direction) >= 0x40000000 && unit_like(nr.direction),
    {
        match self {
            MaterialType::Diffuse(albedo) => {
                let rnd = random_unit_sphere(random);
                let sum = hit.normal.plus(&rnd);
                let dir = sum.normalize();
                proof {
                    assert(unit_like(dir)) by {
                        assert(in_box(sum, 0x80000000000000) && dir == unit_spec(sum));
                    }
                }
                ScatterData {
                    color: *albedo,
                    next_ray: Some(Ray { origin: hit.position, direction: dir }),
                }
            },
            MaterialType::Metal(albedo, fuzz) => {
                let rnd = random_unit_sphere(random);
                let refl = reflect(&ray.direction, &hit.normal);
                proof {
                    lemma_fxm_bound(rnd.x as int, *fuzz as int, 65536, 65536);
                    lemma_fxm_bound(rnd.y as int, *fuzz as int, 65536, 65536);
                    lemma_fxm_bound(rnd.z as int, *fuzz as int, 65536, 65536);
                }
                let scat = refl.plus(&rnd.scaled(*fuzz));
                let dw = scat.dot_wide(&hit.normal);
                let ss = scat.dot_wide(&scat);
                if dw > 0 && ss >= 0x4000000 {
                    let dir = scat.normalize();
                    proof {
                        assert(unit_like(dir)) by {
                            assert(in_box(scat, 0x80000000000000) && dir == unit_spec(scat));
                        }
                    }
                    ScatterData {
                        color: *albedo,
                        next_ray: Some(Ray { origin: hit.position, direction: dir }),
                    }
                } else {
                    ScatterData { color: *albedo, next_ray: None }
                }
            },
            MaterialType::Dielectric(ir) => {
                let dn = ray.direction.dot(&hit.normal);
                proof {
                    lemma_dot_bound(ray.direction, hit.normal, SCALE as int, SCALE as int);
                }
                let front = dn < 0;
                let ratio: i64 = if front {
                    fx_div_s(65536, *ir)
                } else {
                    *ir
                };
                let ne: Vec3 = if front {
                    hit.normal
                } else {
                    hit.normal.neg()
                };
                proof {
                    lemma_dot_bound(neg_v(ray.direction), ne, SCALE as int, SCALE as int);
                    assert(sabs(fxd(SCALE as int, ir as int)) <= 0x80000) by {
                        crate::maths::lemma_sdiv_basics(SCALE as int * SCALE as int, ir as int);
                        vstd::arithmetic::div_mod::lemma_div_is_ordered_by_denominator(
                            0x100000000,
                            8192,
                            ir as int,
                        );
                    }
                }
                let cos0 = ray.direction.neg().dot(&ne);
                let cos: i64 = if cos0 > 65536 {
                    65536
                } else {
                    cos0
                };
                let sin2 = 65536 - fx_mul_s(cos, cos);
                let rr = fx_mul_s(ratio, ratio);
                proof {
                    lemma_fxm_bound(ratio as int, ratio as int, 0x80000, 0x80000);
                }
                let cannot = fx_mul_s(rr, sin2) > 65536;
                if cannot {
                    let dir0 = reflect(&ray.direction, &ne);
                    let dir = dir0.normalize();
                    proof {
                        assert(unit_like(dir)) by {
                            assert(in_box(dir0, 0x80000000000000) && dir == unit_spec(dir0));
                        }
                    }
                    ScatterData {
                        color: Color { r: 65536, g: 65536, b: 65536, a: 65536 },
                        next_ray: Some(Ray { origin: hit.position, direction: dir }),
                    }
                } else {
                    let r0a = fx_div_s(*ir - 65536, *ir + 65536);
                    proof {
                        lemma_fxm_bound(r0a as int, r0a as int, 0x1000000000000, 0x1000000000000);
                        crate::maths::lemma_sdiv_basics(
                            (ir as int - 65536) * 65536,
                            ir as int + 65536,
                        );
                    }
                    let r0 = fx_mul_s(r0a, r0a);
                    proof {
                        lemma_fxm_bound(r0a as int, r0a as int, 0x100000000, 0x100000000);
                    }
                    let om = 65536 - cos;
                    let p2 = fx_mul_s(om, om);
                    let p4 = fx_mul_s(p2, p2);
                    let p5 = fx_mul_s(p4, om);
                    let refl = r0 + fx_mul_s(65536 - r0, p5);
                    let draw = random.random_scalar();
                    let dir0: Vec3 = if refl > draw {
                        reflect(&ray.direction, &ne)
                    } else {
                        proof {
                            lemma_fxm_bound(ne.x as int, cos as int, 65536, 0x30000);
                            lemma_fxm_bound(ne.y as int, cos as int, 65536, 0x30000);
                            lemma_fxm_bound(ne.z as int, cos as int, 65536, 0x30000);
                        }
                        let base = ray.direction.plus(&ne.scaled(cos));
                        proof {
                            lemma_fxm_bound(base.x as int, ratio as int, 0x40000, 0x80000);
                            lemma_fxm_bound(base.y as int, ratio as int, 0x40000, 0x80000);
                            lemma_fxm_bound(base.z as int, ratio as int, 0x40000, 0x80000);
                        }
                        let perp = base.scaled(ratio);
                        let pp = perp.dot(&perp);
                        proof {
                            lemma_dot_bound(perp, perp, 0x200000, 0x200000);
                            lemma_dotw_self_nonneg(perp);
                            crate::maths::lemma_sdiv_basics(dotw(perp, perp), SCALE as int);
                        }
                        let k = 65536 - pp;
                        let kk: i64 = if k < 0 {
                            0
                        } else {
                            k
                        };
                        let sq = fx_sqrt(kk);
                        proof {
                            assert(sq as int <= 0x40000) by (nonlinear_arith)
                                requires
                                    sq as int * sq as int <= kk as int * 65536,
                                    kk as int <= 65536,
                                    0 <= sq as int;
                        }
                        proof {
                            lemma_fxm_bound(ne.x as int, -sq as int, 65536, 0x40000);
                            lemma_fxm_bound(ne.y as int, -sq as int, 65536, 0x40000);
                            lemma_fxm_bound(ne.z as int, -sq as int, 65536, 0x40000);
                        }
                        let par = ne.scaled(-sq);
                        perp.plus(&par)
                    };
                    let dir = dir0.normalize();
                    proof {
                        assert(unit_like(dir)) by {
                            assert(in_box(dir0, 0x80000000000000) && dir == unit_spec(dir0));
                        }
                    }
                    ScatterData {
                        color: Color { r: 65536, g: 65536, b: 65536, a: 65536 },
                        next_ray: Some(Ray { origin: hit.position, direction: dir }),
                    }
                }
            },
        }
    }
}

} // verus!
