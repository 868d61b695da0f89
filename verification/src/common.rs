//! Rays, primitives, the scene aggregate and the path integrator.

use vstd::prelude::*;
use crate::maths::{
    Vec3, SCALE, sabs, sdiv, fxm, fxd, in_box, dotw, unit_spec, sqrt_floor, fx_mul, fx_mul_s,
    sdiv_i128, isqrt_u128, lemma_sdiv_basics, lemma_mul_box, lemma_fxm_bound,
    lemma_sqrt_floor, lemma_dotw_self_nonneg,
};
use crate::materials::MaterialType;
use crate::materials::material_wf;

verus! {

/// The farthest parametric distance the renderer ever looks
/// (16384 units; the finite render volume of the fixed-point world).
pub const T_LIMIT: i64 = 0x40000000;

/// Offset used to avoid immediate self-intersection at a ray origin
/// (about 0.001).
pub const SELF_HIT_EPS: i64 = 66;

/// Box bound for scene coordinates and radii (4096 units).
pub const WORLD_BOX: i64 = 0x10000000;

/// Smallest admissible sphere radius (about 0.001).
pub const MIN_RADIUS: i64 = 64;

/// Box bound within which every traced ray origin stays.
pub const ORIGIN_BOX: i64 = 0x100000000000;

/// Raw threshold below which a plane denominator counts as parallel:
/// the closest raw approximation of 1e-8 at the denominator's scale.
pub const PARALLEL_EPS: i64 = 43;

/// A ray: an origin and a (unit) direction.
#[derive(Clone, Copy, Debug, PartialEq, Eq, Structural)]
pub struct Ray {
    pub origin: Vec3,
    pub direction: Vec3,
}

/// A usable ray direction: bounded by one per component and not
/// degenerately short.
pub open spec fn dir_ok(v: Vec3) -> bool {
    &&& in_box(v, SCALE as int)
    &&& dotw(v, v) >= 0x40000000
}

impl Ray {
    /// Builds a ray from an origin and a direction.
    pub fn new(origin: Vec3, direction: Vec3) -> (r: Ray)
        ensures
            r == (Ray { origin, direction }),
    {
        Ray { origin, direction }
    }

    /// The point `origin + direction * t`.
    pub open spec fn at_spec(self, t: int) -> Vec3 {
        Vec3 {
            x: (self.origin.x + fxm(self.direction.x as int, t)) as i64,
            y: (self.origin.y + fxm(self.direction.y as int, t)) as i64,
            z: (self.origin.z + fxm(self.direction.z as int, t)) as i64,
        }
    }

    /// Evaluates the point at parameter `t` along the ray.
    pub fn at(&self, t: i64) -> (p: Vec3)
        requires
            in_box(self.origin, 0x140000000000),
            in_box(self.direction, SCALE as int),
            sabs(t as int) <= 0x40000000000,
        ensures
            p == self.at_spec(t as int),
            p.x == self.origin.x + fxm(self.direction.x as int, t as int),
            p.y == self.origin.y + fxm(self.direction.y as int, t as int),
            p.z == self.origin.z + fxm(self.direction.z as int, t as int),
            in_box(p, 0x180000000000),
    {
        proof {
            lemma_fxm_bound(self.direction.x as int, t as int, SCALE as int, 0x40000000000);
            lemma_fxm_bound(self.direction.y as int, t as int, SCALE as int, 0x40000000000);
            lemma_fxm_bound(self.direction.z as int, t as int, SCALE as int, 0x40000000000);
        }
        Vec3 {
            x: self.origin.x + fx_mul(self.direction.x, t),
            y: self.origin.y + fx_mul(self.direction.y, t),
            z: self.origin.z + fx_mul(self.direction.z, t),
        }
    }
}

/// The outcome classes of a ray / triangle test.
#[derive(Clone, Copy, Debug, PartialEq, Eq, Structural)]
pub enum Intersection {
    Intersect,
    Beside,
    Parallel,
    Behind,
}

/// A successful intersection: hit point, outward unit normal, parametric
/// distance, and the material met there.
#[derive(Clone, Copy, Debug, PartialEq, Eq, Structural)]
pub struct HitRecord {
    pub position: Vec3,
    pub normal: Vec3,
    pub t: i64,
    pub material: MaterialType,
}

/// A sphere primitive.
#[derive(Clone, Copy, Debug, PartialEq, Eq, Structural)]
pub struct Sphere {
    pub center: Vec3,
    pub radius: i64,
    pub material: MaterialType,
}

/// Validity of a scene sphere: bounded center, a radius that is neither
/// degenerate nor larger than the scene box, and a valid material.
pub open spec fn sphere_wf(s: Sphere) -> bool {
    &&& in_box(s.center, WORLD_BOX as int)
    &&& MIN_RADIUS <= s.radius <= WORLD_BOX
    &&& material_wf(s.material)
}

/// The quadratic coefficient `d . d` of the sphere equation.
pub open spec fn sph_a(r: Ray) -> int {
    dotw(r.direction, r.direction)
}

/// The half-b coefficient `oc . d`, over raw (unrescaled) products.
pub open spec fn sph_h(s: Sphere, r: Ray) -> int {
    (r.origin.x - s.center.x) * r.direction.x + (r.origin.y - s.center.y) * r.direction.y
        + (r.origin.z - s.center.z) * r.direction.z
}

/// The constant coefficient `oc . oc - radius^2`.
pub open spec fn sph_c(s: Sphere, r: Ray) -> int {
    (r.origin.x - s.center.x) * (r.origin.x - s.center.x) + (r.origin.y - s.center.y) * (
    r.origin.y - s.center.y) + (r.origin.z - s.center.z) * (r.origin.z - s.center.z) - s.radius
        * s.radius
}

/// The discriminant `h^2 - a c` of the sphere equation (exact, scale
/// `SCALE^4`).
pub open spec fn sph_disc(s: Sphere, r: Ray) -> int {
    sph_h(s, r) * sph_h(s, r) - sph_a(r) * sph_c(s, r)
}

/// The nearer root `(-h - sqrt(disc)) / a`, as a fixed-point scalar.
pub open spec fn sph_root1(s: Sphere, r: Ray) -> int {
    sdiv((-sph_h(s, r) - sqrt_floor(sph_disc(s, r))) * SCALE, sph_a(r))
}

/// The farther root `(-h + sqrt(disc)) / a`, as a fixed-point scalar.
pub open spec fn sph_root2(s: Sphere, r: Ray) -> int {
    sdiv((-sph_h(s, r) + sqrt_floor(sph_disc(s, r))) * SCALE, sph_a(r))
}

/// The parametric distance a sphere intersection returns: the least
/// root strictly inside `(tmin, tmax)`, if any.
pub open spec fn sphere_best_t(s: Sphere, r: Ray, tmin: int, tmax: int) -> Option<int> {
    if sph_disc(s, r) < 0 {
        None
    } else {
        let t1 = sph_root1(s, r);
        let t2 = sph_root2(s, r);
        let q1 = tmin < t1 < tmax;
        let q2 = tmin < t2 < tmax;
        if q1 && q2 {
            if t1 <= t2 {
                Some(t1)
            } else {
                Some(t2)
            }
        } else if q1 {
            Some(t1)
        } else if q2 {
            Some(t2)
        } else {
            None
        }
    }
}

/// The outward unit normal of a sphere at a point: `(p - center) /
/// radius`, renormalized.
pub open spec fn sphere_normal_spec(s: Sphere, p: Vec3) -> Vec3 {
    unit_spec(
        Vec3 {
            x: fxd(p.x - s.center.x, s.radius as int) as i64,
            y: fxd(p.y - s.center.y, s.radius as int) as i64,
            z: fxd(p.z - s.center.z, s.radius as int) as i64,
        },
    )
}

/// The full sphere intersection result.
pub open spec fn sphere_hit_spec(s: Sphere, r: Ray, tmin: int, tmax: int) -> Option<HitRecord> {
    match sphere_best_t(s, r, tmin, tmax) {
        None => None,
        Some(t) => Some(
            HitRecord {
                position: r.at_spec(t),
                normal: sphere_normal_spec(s, r.at_spec(t)),
                t: t as i64,
                material: s.material,
            },
        ),
    }
}

impl Sphere {
    /// Intersects `ray` with the sphere over the open interval
    /// `(t_min, t_max)`: the least qualifying root of the quadratic, or
    /// nothing if the discriminant is negative or no root qualifies.
    pub fn hit(&self, ray: &Ray, t_min: i64, t_max: i64) -> (res: Option<HitRecord>)
        requires
            sphere_wf(*self),
            in_box(ray.origin, 0x140000000000),
            dir_ok(ray.direction),
            -0x40000000 <= t_min as int <= t_max as int <= 0x40000000,
        ensures
            res == sphere_hit_spec(*self, *ray, t_min as int, t_max as int),
            sph_disc(*self, *ray) < 0 ==> res is None,
            res matches Some(h) ==> t_min < h.t < t_max && h.material == self.material
                && h.position == ray.at_spec(h.t as int) && h.normal == sphere_normal_spec(
                *self,
                h.position,
            ) && unit_like(h.normal),
    {
        let oc = ray.origin.minus(&self.center);
        let a: i128 = ray.direction.dot_wide(&ray.direction);
        let h: i128 = oc.dot_wide(&ray.direction);
        proof {
            lemma_mul_box(oc.x as int, oc.x as int, 0x150000000000, 0x150000000000);
            lemma_mul_box(oc.y as int, oc.y as int, 0x150000000000, 0x150000000000);
            lemma_mul_box(oc.z as int, oc.z as int, 0x150000000000, 0x150000000000);
            lemma_mul_box(self.radius as int, self.radius as int, 0x10000000, 0x10000000);
        }
        let c: i128 = oc.dot_wide(&oc) - (self.radius as i128) * (self.radius as i128);
        proof {
            assert(a == sph_a(*ray));
            assert(h == sph_h(*self, *ray));
            assert(c == sph_c(*self, *ray));
            lemma_mul_box(oc.x as int, ray.direction.x as int, 0x150000000000, 65536);
            lemma_mul_box(oc.y as int, ray.direction.y as int, 0x150000000000, 65536);
            lemma_mul_box(oc.z as int, ray.direction.z as int, 0x150000000000, 65536);
            lemma_mul_box(ray.direction.x as int, ray.direction.x as int, 65536, 65536);
            lemma_mul_box(ray.direction.y as int, ray.direction.y as int, 65536, 65536);
            lemma_mul_box(ray.direction.z as int, ray.direction.z as int, 65536, 65536);
            lemma_mul_box(h as int, h as int, 0x3f00000000000000, 0x3f00000000000000);
            lemma_mul_box(a as int, c as int, 0x300000000, 0x52b00000100000000000000);
            lemma_dotw_self_nonneg(ray.direction);
        }
        let disc: i128 = h * h - a * c;
        if disc < 0 {
            proof {
                assert(sph_disc(*self, *ray) < 0);
            }
            None
        } else {
            let sq: u128 = isqrt_u128(disc as u128);
            proof {
                lemma_sqrt_floor(disc as int, sq as int);
                assert(sq as int <= 0x8000000000000000) by (nonlinear_arith)
                    requires
                        sq as int * sq as int <= disc as int,
                        disc as int <= 0x1f020000030000000000000000000000,
                        0 <= sq as int;
            }
            let sqi: i128 = sq as i128;
            let num1: i128 = -h - sqi;
            let num2: i128 = -h + sqi;
            let t1w: i128 = sdiv_i128(num1 * 65536, a);
            let t2w: i128 = sdiv_i128(num2 * 65536, a);
            proof {
                assert(t1w == sph_root1(*self, *ray));
                assert(t2w == sph_root2(*self, *ray));
            }
            let q1: bool = (t_min as i128) < t1w && t1w < (t_max as i128);
            let q2: bool = (t_min as i128) < t2w && t2w < (t_max as i128);
            if !q1 && !q2 {
                None
            } else {
                let tw: i128 = if q1 && q2 {
                    if t1w <= t2w {
                        t1w
                    } else {
                        t2w
                    }
                } else if q1 {
                    t1w
                } else {
                    t2w
                };
                let t: i64 = tw as i64;
                let position = ray.at(t);
                let pc = position.minus(&self.center);
                proof {
                    lemma_sphere_normal_box(pc.x as int, self.radius as int);
                    lemma_sphere_normal_box(pc.y as int, self.radius as int);
                    lemma_sphere_normal_box(pc.z as int, self.radius as int);
                }
                let nr = Vec3 {
                    x: crate::maths::fx_div(pc.x, self.radius),
                    y: crate::maths::fx_div(pc.y, self.radius),
                    z: crate::maths::fx_div(pc.z, self.radius),
                };
                let normal = nr.normalize();
                proof {
                    assert(unit_like(normal)) by {
                        assert(in_box(nr, 0x80000000000000) && normal == unit_spec(nr));
                    }
                }
                Some(HitRecord { position, normal, t, material: self.material })
            }
        }
    }
}


/// Componentwise difference, at spec level.
pub open spec fn sub_v(a: Vec3, b: Vec3) -> Vec3 {
    Vec3 { x: (a.x - b.x) as i64, y: (a.y - b.y) as i64, z: (a.z - b.z) as i64 }
}

/// The fixed-point cross product, at spec level.
pub open spec fn cross_v(a: Vec3, b: Vec3) -> Vec3 {
    Vec3 {
        x: (fxm(a.y as int, b.z as int) - fxm(a.z as int, b.y as int)) as i64,
        y: (fxm(a.z as int, b.x as int) - fxm(a.x as int, b.z as int)) as i64,
        z: (fxm(a.x as int, b.y as int) - fxm(a.y as int, b.x as int)) as i64,
    }
}


/// Componentwise sum, at spec level.
pub open spec fn add_v(a: Vec3, b: Vec3) -> Vec3 {
    Vec3 { x: (a.x + b.x) as i64, y: (a.y + b.y) as i64, z: (a.z + b.z) as i64 }
}

/// Componentwise negation, at spec level.
pub open spec fn neg_v(a: Vec3) -> Vec3 {
    Vec3 { x: (-a.x) as i64, y: (-a.y) as i64, z: (-a.z) as i64 }
}

/// Fixed-point scaling, at spec level.
pub open spec fn scale_v(a: Vec3, k: int) -> Vec3 {
    Vec3 {
        x: fxm(a.x as int, k) as i64,
        y: fxm(a.y as int, k) as i64,
        z: fxm(a.z as int, k) as i64,
    }
}

/// What `random_unit_sphere` draws from a generator state: three
/// bilateral scalars, normalized.
pub open spec fn rus_spec(s: u64) -> (Vec3, u64) {
    let s1 = crate::random::rng_next(s);
    let s2 = crate::random::rng_next(s1);
    let s3 = crate::random::rng_next(s2);
    let raw = Vec3 {
        x: crate::random::rand_bilateral(s) as i64,
        y: crate::random::rand_bilateral(s1) as i64,
        z: crate::random::rand_bilateral(s2) as i64,
    };
    (unit_spec(raw), s3)
}

/// Draws a uniformly random unit direction by normalizing a point of
/// the surrounding cube.
pub fn random_unit_sphere(random: &mut crate::random::Random) -> (v: Vec3)
    ensures
        v == rus_spec(old(random).state).0,
        final(random).state == rus_spec(old(random).state).1,
        in_box(v, SCALE as int),
        dotw(v, v) >= 0x40000000,
        unit_like(v),
{
    let b1 = random.random_bilateral();
    let b2 = random.random_bilateral();
    let b3 = random.random_bilateral();
    let raw = Vec3 { x: b1, y: b2, z: b3 };
    let v = raw.normalize();
    proof {
        assert(unit_like(v)) by {
            assert(in_box(raw, 0x80000000000000) && v == unit_spec(raw));
        }
    }
    v
}

/// A triangle primitive with a precomputed unit face normal (flat
/// shading).
#[derive(Clone, Copy, Debug, PartialEq, Eq, Structural)]
pub struct Triangle {
    pub v0: Vec3,
    pub v1: Vec3,
    pub v2: Vec3,
    pub normal: Vec3,
    pub material: MaterialType,
}

/// The unnormalized face normal `(v1 - v0) x (v2 - v0)`.
pub open spec fn tri_n(t: Triangle) -> Vec3 {
    cross_v(sub_v(t.v1, t.v0), sub_v(t.v2, t.v0))
}

/// Validity of a scene triangle: bounded vertices, the stored normal
/// derived from the vertex winding, and a valid material.
pub open spec fn tri_wf(t: Triangle) -> bool {
    &&& in_box(t.v0, WORLD_BOX as int)
    &&& in_box(t.v1, WORLD_BOX as int)
    &&& in_box(t.v2, WORLD_BOX as int)
    &&& t.normal == unit_spec(tri_n(t))
    &&& material_wf(t.material)
}

/// The denominator of the plane equation: how fast the ray approaches
/// the triangle plane.
pub open spec fn tri_denom(t: Triangle, r: Ray) -> int {
    dotw(tri_n(t), r.direction)
}

/// The parametric distance at which the ray crosses the triangle plane.
pub open spec fn tri_t(t: Triangle, r: Ray) -> int {
    sdiv((dotw(tri_n(t), t.v0) - dotw(tri_n(t), r.origin)) * SCALE, tri_denom(t, r))
}

/// Whether `p` lies on the inner side of edge `(a, b)` (same-side test
/// against the face normal `n`).
pub open spec fn tri_edge_inside(n: Vec3, a: Vec3, b: Vec3, p: Vec3) -> bool {
    dotw(n, cross_v(sub_v(b, a), sub_v(p, a))) >= 0
}

/// The full triangle intersection result: the plane crossing must lie
/// inside `[tmin, tmax]` and pass the three edge tests.
pub open spec fn tri_hit_spec(t: Triangle, r: Ray, tmin: int, tmax: int) -> Option<HitRecord> {
    if sabs(tri_denom(t, r)) < PARALLEL_EPS as int {
        None
    } else {
        let tt = tri_t(t, r);
        if tt < tmin || tt > tmax {
            None
        } else {
            let p = r.at_spec(tt);
            if tri_edge_inside(tri_n(t), t.v0, t.v1, p) && tri_edge_inside(tri_n(t), t.v1, t.v2, p)
                && tri_edge_inside(tri_n(t), t.v2, t.v0, p) {
                Some(HitRecord { position: p, normal: t.normal, t: tt as i64, material: t.material })
            } else {
                None
            }
        }
    }
}

/// The triangle `Triangle::new` builds: the given vertices with the
/// face normal derived from the vertex winding.
pub open spec fn triangle_from(v0: Vec3, v1: Vec3, v2: Vec3, m: MaterialType) -> Triangle {
    Triangle {
        v0,
        v1,
        v2,
        normal: unit_spec(cross_v(sub_v(v1, v0), sub_v(v2, v0))),
        material: m,
    }
}

impl Triangle {
    /// Builds a triangle; the face normal is derived once from the
    /// vertex winding.
    pub fn new(v0: Vec3, v1: Vec3, v2: Vec3, material: MaterialType) -> (t: Triangle)
        requires
            in_box(v0, WORLD_BOX as int),
            in_box(v1, WORLD_BOX as int),
            in_box(v2, WORLD_BOX as int),
        ensures
            t == triangle_from(v0, v1, v2, material),
            t.v0 == v0 && t.v1 == v1 && t.v2 == v2 && t.material == material,
            t.normal == unit_spec(tri_n(t)),
            material_wf(material) ==> tri_wf(t),
    {
        let a = v1.minus(&v0);
        let b = v2.minus(&v0);
        let n = a.cross(&b);
        proof {
            crate::maths::lemma_cross_box(a, b, 0x20000000, 0x20000000);
        }
        let normal = n.normalize();
        Triangle { v0, v1, v2, normal, material }
    }

    /// Intersects `ray` with the triangle over `[t_min, t_max]`: a ray
    /// within `PARALLEL_EPS` of parallel to the plane misses; otherwise
    /// the ray must cross the plane inside the interval and the
    /// crossing point must pass the same-side test on all three edges.
    pub fn intersect(&self, ray: &Ray, t_min: i64, t_max: i64) -> (res: Option<HitRecord>)
        requires
            tri_wf(*self),
            in_box(ray.origin, 0x140000000000),
            dir_ok(ray.direction),
            -0x40000000 <= t_min as int <= t_max as int <= 0x40000000,
        ensures
            res == tri_hit_spec(*self, *ray, t_min as int, t_max as int),
            sabs(tri_denom(*self, *ray)) < PARALLEL_EPS as int ==> res is None,
            res matches Some(h) ==> t_min <= h.t <= t_max && h.material == self.material
                && h.normal == self.normal && h.position == ray.at_spec(h.t as int),
    {
        let a = self.v1.minus(&self.v0);
        let b = self.v2.minus(&self.v0);
        let n = a.cross(&b);
        proof {
            crate::maths::lemma_cross_box(a, b, 0x20000000, 0x20000000);
            assert(n == tri_n(*self));
        }
        let denom: i128 = n.dot_wide(&ray.direction);
        if -43 < denom && denom < 43 {
            return None;
        }
        let d: i128 = n.dot_wide(&self.v0);
        let no: i128 = n.dot_wide(&ray.origin);
        proof {
            lemma_mul_box(n.x as int, ray.origin.x as int, 0x100000000000, 0x140000000000);
            lemma_mul_box(n.y as int, ray.origin.y as int, 0x100000000000, 0x140000000000);
            lemma_mul_box(n.z as int, ray.origin.z as int, 0x100000000000, 0x140000000000);
            lemma_mul_box(n.x as int, self.v0.x as int, 0x100000000000, 0x10000000);
            lemma_mul_box(n.y as int, self.v0.y as int, 0x100000000000, 0x10000000);
            lemma_mul_box(n.z as int, self.v0.z as int, 0x100000000000, 0x10000000);
        }
        let num: i128 = d - no;
        proof {
            lemma_mul_box(n.x as int, ray.direction.x as int, 0x100000000000, 65536);
            lemma_mul_box(n.y as int, ray.direction.y as int, 0x100000000000, 65536);
            lemma_mul_box(n.z as int, ray.direction.z as int, 0x100000000000, 65536);
        }
        let tw: i128 = sdiv_i128(num * 65536, denom);
        proof {
            assert(tw == tri_t(*self, *ray));
        }
        if tw < (t_min as i128) || tw > (t_max as i128) {
            return None;
        }
        let t: i64 = tw as i64;
        let p = ray.at(t);

        let e0 = self.v1.minus(&self.v0);
        let vp0 = p.minus(&self.v0);
        let n0 = e0.cross(&vp0);
        proof {
            crate::maths::lemma_cross_box(e0, vp0, 0x20000000, 0x190000000000);
        }
        if n.dot_wide(&n0) < 0 {
            return None;
        }
        let e1 = self.v2.minus(&self.v1);
        let vp1 = p.minus(&self.v1);
        let n1 = e1.cross(&vp1);
        proof {
            crate::maths::lemma_cross_box(e1, vp1, 0x20000000, 0x190000000000);
        }
        if n.dot_wide(&n1) < 0 {
            return None;
        }
        let e2 = self.v0.minus(&self.v2);
        let vp2 = p.minus(&self.v2);
        let n2 = e2.cross(&vp2);
        proof {
            crate::maths::lemma_cross_box(e2, vp2, 0x20000000, 0x190000000000);
        }
        if n.dot_wide(&n2) < 0 {
            return None;
        }
        Some(HitRecord { position: p, normal: self.normal, t, material: self.material })
    }
}

/// A triangle mesh: an ordered collection of triangles.
#[derive(Debug)]
pub struct Mesh {
    pub triangles: Vec<Triangle>,
}

/// Validity of a mesh: every triangle is valid.
pub open spec fn mesh_wf(m: Mesh) -> bool {
    forall|i: int| 0 <= i < m.triangles@.len() ==> tri_wf(#[trigger] m.triangles@[i])
}

/// The linear scan over the triangles from index `i` on, keeping the
/// record with the least `t` found so far.
pub open spec fn mesh_fold(
    tris: Seq<Triangle>,
    r: Ray,
    tmin: int,
    tmax: int,
    i: int,
    closest: int,
    cur: Option<HitRecord>,
) -> Option<HitRecord>
    decreases tris.len() - i,
{
    if i < 0 || i >= tris.len() {
        cur
    } else {
        match tri_hit_spec(tris[i], r, tmin, tmax) {
            Some(h) => if (h.t as int) < closest {
                mesh_fold(tris, r, tmin, tmax, i + 1, h.t as int, Some(h))
            } else {
                mesh_fold(tris, r, tmin, tmax, i + 1, closest, cur)
            },
            None => mesh_fold(tris, r, tmin, tmax, i + 1, closest, cur),
        }
    }
}

/// The nearest triangle hit of a mesh, if any.
pub open spec fn mesh_hit_spec(m: Mesh, r: Ray, tmin: int, tmax: int) -> Option<HitRecord> {
    mesh_fold(m.triangles@, r, tmin, tmax, 0, 0x7fffffffffffffff, None)
}

impl Mesh {
    /// Builds a mesh owning the given triangles.
    pub fn new(triangles: Vec<Triangle>) -> (m: Mesh)
        ensures
            m.triangles == triangles,
    {
        Mesh { triangles }
    }

    /// Linear scan over all triangles; returns the hit with minimal `t`
    /// inside `[t_min, t_max]`, or nothing.
    pub fn hit(&self, ray: &Ray, t_min: i64, t_max: i64) -> (res: Option<HitRecord>)
        requires
            mesh_wf(*self),
            in_box(ray.origin, 0x140000000000),
            dir_ok(ray.direction),
            -0x40000000 <= t_min as int <= t_max as int <= 0x40000000,
        ensures
            res == mesh_hit_spec(*self, *ray, t_min as int, t_max as int),
            res matches Some(h) ==> t_min <= h.t <= t_max && h.position == ray.at_spec(h.t as int)
                && unit_like(h.normal) && material_wf(h.material),
    {
        let mut hit_record: Option<HitRecord> = None;
        let mut closest: i64 = i64::MAX;
        let n = self.triangles.len();
        let mut i: usize = 0;
        while i < n
            invariant
                n == self.triangles@.len(),
                0 <= i <= n,
                mesh_wf(*self),
                in_box(ray.origin, 0x140000000000),
                dir_ok(ray.direction),
                -0x40000000 <= t_min as int <= t_max as int <= 0x40000000,
                mesh_fold(
                    self.triangles@,
                    *ray,
                    t_min as int,
                    t_max as int,
                    i as int,
                    closest as int,
                    hit_record,
                ) == mesh_hit_spec(*self, *ray, t_min as int, t_max as int),
                hit_record matches Some(h) ==> t_min <= h.t <= t_max && h.position
                    == ray.at_spec(h.t as int) && unit_like(h.normal) && material_wf(h.material)
                    && h.t == closest,
                hit_record is None ==> closest == i64::MAX,
            decreases n - i,
        {
            let tri = &self.triangles[i];
            proof {
                assert(tri_wf(self.triangles@[i as int]));
            }
            if let Some(h) = tri.intersect(ray, t_min, t_max) {
                if h.t < closest {
                    proof {
                        assert(unit_like(h.normal)) by {
                            assert(h.normal == unit_spec(tri_n(self.triangles@[i as int])));
                            lemma_tri_n_box(self.triangles@[i as int]);
                        }
                    }
                    closest = h.t;
                    hit_record = Some(h);
                }
            }
            i = i + 1;
        }
        hit_record
    }
}

/// The unnormalized face normal of a valid triangle lies inside the box
/// `normalize` accepts.
proof fn lemma_tri_n_box(t: Triangle)
    requires
        in_box(t.v0, WORLD_BOX as int),
        in_box(t.v1, WORLD_BOX as int),
        in_box(t.v2, WORLD_BOX as int),
    ensures
        in_box(tri_n(t), 0x80000000000000),
        unit_like(unit_spec(tri_n(t))),
{
    let a = sub_v(t.v1, t.v0);
    let b = sub_v(t.v2, t.v0);
    lemma_fxm_bound(a.y as int, b.z as int, 0x20000000, 0x20000000);
    lemma_fxm_bound(a.z as int, b.y as int, 0x20000000, 0x20000000);
    lemma_fxm_bound(a.z as int, b.x as int, 0x20000000, 0x20000000);
    lemma_fxm_bound(a.x as int, b.z as int, 0x20000000, 0x20000000);
    lemma_fxm_bound(a.x as int, b.y as int, 0x20000000, 0x20000000);
    lemma_fxm_bound(a.y as int, b.x as int, 0x20000000, 0x20000000);
}

/// A vector that is the normalization of some admissible vector; every
/// normal handed out by an intersection has this shape.
pub open spec fn unit_like(v: Vec3) -> bool {
    exists|w: Vec3| in_box(w, 0x80000000000000) && v == unit_spec(w)
}

/// Normal vectors returned by intersections, and the directions of
/// continuation rays produced by scattering, are all `unit_like`; this
/// law bounds their length: the raw squared length differs from one by
/// at most `2^-12` of it.
pub proof fn lemma_unit_like_length(v: Vec3)
    requires
        unit_like(v),
    ensures
        sabs(dotw(v, v) - SCALE as int * SCALE as int) <= 0x100000,
{
    let w = choose|w: Vec3| in_box(w, 0x80000000000000) && v == unit_spec(w);
    crate::maths::lemma_unit_spec_length(w);
}

/// A normalized vector is componentwise bounded by one and not
/// degenerately short.
pub proof fn lemma_unit_like_props(v: Vec3)
    requires
        unit_like(v),
    ensures
        in_box(v, SCALE as int),
        dotw(v, v) >= 0x40000000,
{
    let w = choose|w: Vec3| in_box(w, 0x80000000000000) && v == unit_spec(w);
    crate::maths::lemma_unit_spec_props(w);
}


/// The scene: every sphere and every mesh, queried per ray.
#[derive(Debug)]
pub struct World {
    pub spheres: Vec<Sphere>,
    pub meshes: Vec<Mesh>,
}

/// Validity of a scene: every primitive is valid.
pub open spec fn world_wf(w: World) -> bool {
    &&& forall|i: int| 0 <= i < w.spheres@.len() ==> sphere_wf(#[trigger] w.spheres@[i])
    &&& forall|i: int| 0 <= i < w.meshes@.len() ==> mesh_wf(#[trigger] w.meshes@[i])
}

/// The scan over the spheres from index `i` on: each query is bounded
/// above by the closest distance found so far.
pub open spec fn world_sph_fold(
    ss: Seq<Sphere>,
    r: Ray,
    i: int,
    closest: int,
    cur: Option<HitRecord>,
) -> (int, Option<HitRecord>)
    decreases ss.len() - i,
{
    if i < 0 || i >= ss.len() {
        (closest, cur)
    } else {
        match sphere_hit_spec(ss[i], r, SELF_HIT_EPS as int, closest) {
            Some(h) => world_sph_fold(ss, r, i + 1, h.t as int, Some(h)),
            None => world_sph_fold(ss, r, i + 1, closest, cur),
        }
    }
}

/// The scan over the meshes from index `i` on, continuing from the
/// closest distance the sphere scan reached.
pub open spec fn world_mesh_fold(
    ms: Seq<Mesh>,
    r: Ray,
    i: int,
    closest: int,
    cur: Option<HitRecord>,
) -> (int, Option<HitRecord>)
    decreases ms.len() - i,
{
    if i < 0 || i >= ms.len() {
        (closest, cur)
    } else {
        match mesh_hit_spec(ms[i], r, SELF_HIT_EPS as int, closest) {
            Some(h) => world_mesh_fold(ms, r, i + 1, h.t as int, Some(h)),
            None => world_mesh_fold(ms, r, i + 1, closest, cur),
        }
    }
}

/// The globally nearest hit of the scene for a ray, or nothing if the
/// ray escapes all geometry within the render volume.
pub open spec fn world_hit_spec(w: World, r: Ray) -> Option<HitRecord> {
    let sc = world_sph_fold(w.spheres@, r, 0, T_LIMIT as int, None);
    world_mesh_fold(w.meshes@, r, 0, sc.0, sc.1).1
}

impl World {
    /// Builds the scene from its primitives.
    pub fn new(spheres: Vec<Sphere>, meshes: Vec<Mesh>) -> (w: World)
        ensures
            w.spheres == spheres,
            w.meshes == meshes,
    {
        World { spheres, meshes }
    }

    /// Resolves the nearest hit across the whole scene, keeping a
    /// shrinking "closest so far" upper bound and starting each query
    /// at least `SELF_HIT_EPS` out to avoid shadow acne.
    pub fn hit(&self, ray: &Ray) -> (res: Option<HitRecord>)
        requires
            world_wf(*self),
            in_box(ray.origin, ORIGIN_BOX as int),
            dir_ok(ray.direction),
        ensures
            res == world_hit_spec(*self, *ray),
            res matches Some(h) ==> SELF_HIT_EPS <= h.t <= T_LIMIT && unit_like(h.normal)
                && material_wf(h.material) && sabs(h.position.x - ray.origin.x) <= T_LIMIT
                && sabs(h.position.y - ray.origin.y) <= T_LIMIT && sabs(
                h.position.z - ray.origin.z,
            ) <= T_LIMIT,
    {
        let mut closest: i64 = T_LIMIT;
        let mut hit_record: Option<HitRecord> = None;
        let ns = self.spheres.len();
        let mut i: usize = 0;
        while i < ns
            invariant
                ns == self.spheres@.len(),
                0 <= i <= ns,
                world_wf(*self),
                in_box(ray.origin, ORIGIN_BOX as int),
                dir_ok(ray.direction),
                SELF_HIT_EPS <= closest <= T_LIMIT,
                world_sph_fold(self.spheres@, *ray, i as int, closest as int, hit_record)
                    == world_sph_fold(self.spheres@, *ray, 0, T_LIMIT as int, None),
                hit_record matches Some(h) ==> SELF_HIT_EPS <= h.t <= T_LIMIT && h.t == closest
                    && unit_like(h.normal) && material_wf(h.material) && h.position
                    == ray.at_spec(h.t as int),
            decreases ns - i,
        {
            let s = &self.spheres[i];
            if let Some(h) = s.hit(ray, SELF_HIT_EPS, closest) {
                closest = h.t;
                hit_record = Some(h);
            }
            i = i + 1;
        }
        let nm = self.meshes.len();
        let mut j: usize = 0;
        while j < nm
            invariant
                nm == self.meshes@.len(),
                0 <= j <= nm,
                world_wf(*self),
                in_box(ray.origin, ORIGIN_BOX as int),
                dir_ok(ray.direction),
                SELF_HIT_EPS <= closest <= T_LIMIT,
                world_mesh_fold(self.meshes@, *ray, j as int, closest as int, hit_record)
                    == world_mesh_fold(
                    self.meshes@,
                    *ray,
                    0,
                    world_sph_fold(self.spheres@, *ray, 0, T_LIMIT as int, None).0,
                    world_sph_fold(self.spheres@, *ray, 0, T_LIMIT as int, None).1,
                ),
                hit_record matches Some(h) ==> SELF_HIT_EPS <= h.t <= T_LIMIT && h.t == closest
                    && unit_like(h.normal) && material_wf(h.material) && h.position
                    == ray.at_spec(h.t as int),
            decreases nm - j,
        {
            let m = &self.meshes[j];
            if let Some(h) = m.hit(ray, SELF_HIT_EPS, closest) {
                closest = h.t;
                hit_record = Some(h);
            }
            j = j + 1;
        }
        proof {
            if hit_record is Some {
                let h = hit_record->Some_0;
                lemma_at_close(*ray, h.t as int);
            }
        }
        hit_record
    }
}

/// A point along a ray with a bounded parameter stays within `T_LIMIT`
/// of the origin, componentwise.
proof fn lemma_at_close(r: Ray, t: int)
    requires
        in_box(r.direction, SCALE as int),
        sabs(t) <= T_LIMIT as int,
        in_box(r.origin, ORIGIN_BOX as int),
    ensures
        sabs(r.at_spec(t).x - r.origin.x) <= T_LIMIT as int,
        sabs(r.at_spec(t).y - r.origin.y) <= T_LIMIT as int,
        sabs(r.at_spec(t).z - r.origin.z) <= T_LIMIT as int,
{
    lemma_fxm_bound(r.direction.x as int, t, SCALE as int, T_LIMIT as int);
    lemma_fxm_bound(r.direction.y as int, t, SCALE as int, T_LIMIT as int);
    lemma_fxm_bound(r.direction.z as int, t, SCALE as int, T_LIMIT as int);
}


/// Channelwise fixed-point color product, at spec level.
pub open spec fn mul_c(a: crate::color::Color, b: crate::color::Color) -> crate::color::Color {
    crate::color::Color {
        r: fxm(a.r as int, b.r as int) as i64,
        g: fxm(a.g as int, b.g as int) as i64,
        b: fxm(a.b as int, b.b as int) as i64,
        a: fxm(a.a as int, b.a as int) as i64,
    }
}

/// Opaque black: what an exhausted path returns.
pub open spec fn black_spec() -> crate::color::Color {
    crate::color::Color { r: 0, g: 0, b: 0, a: SCALE }
}

/// The sky gradient a missed ray returns: a vertical lerp between
/// white at the horizon and sky blue at the zenith.
pub open spec fn background_spec(r: Ray) -> crate::color::Color {
    let u = unit_spec(r.direction);
    let t = fxm(u.y + SCALE, 32768);
    crate::color::Color {
        r: ((SCALE - t) + fxm(32768, t)) as i64,
        g: ((SCALE - t) + fxm(45875, t)) as i64,
        b: ((SCALE - t) + fxm(65536, t)) as i64,
        a: SCALE,
    }
}

/// The background gradient for a ray.
fn background_color(ray: &Ray) -> (c: crate::color::Color)
    requires
        in_box(ray.direction, SCALE as int),
    ensures
        c == background_spec(*ray),
        crate::color::color_wf(c),
{
    let u = ray.direction.normalize();
    let t = fx_mul_s(u.y + 65536, 32768);
    proof {
        lemma_sdiv_basics((u.y + 65536) * 32768, SCALE as int);
        assert(0 <= (u.y + 65536) * 32768 <= 0x100000000) by (nonlinear_arith)
            requires 0 <= u.y + 65536 <= 131072;
        vstd::arithmetic::div_mod::lemma_div_is_ordered(
            (u.y + 65536) * 32768,
            0x100000000,
            SCALE as int,
        );
        crate::color::lemma_fxm_unit(32768, t as int);
        crate::color::lemma_fxm_unit(45875, t as int);
        crate::color::lemma_fxm_unit(65536, t as int);
    }
    let cr = (65536 - t) + fx_mul_s(32768, t);
    let cg = (65536 - t) + fx_mul_s(45875, t);
    let cb = (65536 - t) + fx_mul_s(65536, t);
    crate::color::Color { r: cr, g: cg, b: cb, a: 65536 }
}

/// The bounded random walk of the path integrator, as a function of
/// scene, primary ray, accumulated attenuation, generator state and
/// remaining bounce budget.
pub open spec fn rc_spec(
    w: World,
    r: Ray,
    atten: crate::color::Color,
    s: u64,
    fuel: int,
) -> (crate::color::Color, u64)
    decreases fuel,
{
    if fuel <= 0 {
        (black_spec(), s)
    } else {
        match world_hit_spec(w, r) {
            None => (mul_c(atten, background_spec(r)), s),
            Some(h) => {
                let sdp = crate::materials::scatter_spec(h.material, r, h, s);
                match sdp.0.next_ray {
                    None => (mul_c(atten, sdp.0.color), sdp.1),
                    Some(nr) => rc_spec(w, nr, mul_c(atten, sdp.0.color), sdp.1, fuel - 1),
                }
            },
        }
    }
}

/// One radiance sample: walks the ray through the scene, multiplying
/// attenuations, until it misses (sky), is absorbed, or the bounce
/// budget runs out (black).
#[verifier::rlimit(100)]
#[verifier::spinoff_prover]
pub fn ray_color(
    ray: &Ray,
    world: &World,
    random: &mut crate::random::Random,
    depth: i32,
) -> (c: crate::color::Color)
    requires
        world_wf(*world),
        in_box(ray.origin, 0x80000000),
        dir_ok(ray.direction),
        depth <= 4096,
    ensures
        c == rc_spec(*world, *ray, white_c(), old(random).state, depth as int).0,
        final(random).state == rc_spec(*world, *ray, white_c(), old(random).state, depth as int).1,
        crate::color::color_wf(c),
{
    let mut cur: Ray = *ray;
    let mut atten = crate::color::Color::new(65536, 65536, 65536);
    let mut i: i32 = 0;
    while i < depth
        invariant
            world_wf(*world),
            depth <= 4096,
            0 <= i <= (if depth > 0 { depth as int } else { 0 }),
            in_box(cur.origin, 0x80000000 + i as int * 0x40000000),
            dir_ok(cur.direction),
            crate::color::color_wf(atten),
            rc_spec(*world, cur, atten, random.state, depth - i) == rc_spec(
                *world,
                *ray,
                white_c(),
                old(random).state,
                depth as int,
            ),
        decreases depth - i,
    {
        proof {
            assert(0x80000000 + i as int * 0x40000000 <= 0x100000000000) by (nonlinear_arith)
                requires 0 <= i as int <= 4096;
        }
        match world.hit(&cur) {
            Some(h) => {
                proof {
                    lemma_unit_like_props(h.normal);
                }
                let sd = h.material.scatter(&cur, &h, random);
                match sd.next_ray {
                    Some(nr) => {
                        atten = atten.mul_with_alpha(&sd.color);
                        cur = nr;
                    },
                    None => {
                        return atten.mul_with_alpha(&sd.color);
                    },
                }
            },
            None => {
                let bg = background_color(&cur);
                return atten.mul_with_alpha(&bg);
            },
        }
        i = i + 1;
    }
    crate::color::Color::new(0, 0, 0)
}

/// Opaque white, the attenuation a path starts from.
pub open spec fn white_c() -> crate::color::Color {
    crate::color::Color { r: SCALE, g: SCALE, b: SCALE, a: SCALE }
}


/// Rendering options: sampling rate, path depth cap, and output row
/// orientation.
#[derive(Clone, Copy, Debug, PartialEq, Eq, Structural)]
pub struct Options {
    pub samples_per_pixel: i32,
    pub max_ray_bounces: i32,
    pub positive_is_up: bool,
}

impl Options {
    /// Builds options from explicit values.
    pub fn new(samples_per_pixel: i32, max_ray_bounces: i32, positive_is_up: bool) -> (o: Options)
        ensures
            o == (Options { samples_per_pixel, max_ray_bounces, positive_is_up }),
    {
        Options { samples_per_pixel, max_ray_bounces, positive_is_up }
    }

    /// The default options: 32 samples per pixel, 8 bounces, rows
    /// written bottom-up.
    pub fn default() -> (o: Options)
        ensures
            o == (Options { samples_per_pixel: 32i32, max_ray_bounces: 8i32, positive_is_up: true }),
    {
        Options { samples_per_pixel: 32, max_ray_bounces: 8, positive_is_up: true }
    }
}


/// Channelwise color sum, at spec level.
pub open spec fn add_c(a: crate::color::Color, b: crate::color::Color) -> crate::color::Color {
    crate::color::Color {
        r: (a.r + b.r) as i64,
        g: (a.g + b.g) as i64,
        b: (a.b + b.b) as i64,
        a: (a.a + b.a) as i64,
    }
}

/// The color a pixel's sample accumulation starts from (black, opaque).
pub open spec fn sum_start() -> crate::color::Color {
    crate::color::Color { r: 0, g: 0, b: 0, a: SCALE }
}

/// The jittered screen coordinate `(pos + rnd) / (extent - 1)`.
pub open spec fn jitter_coord(pos: int, extent: int, rnd: int) -> int {
    fxd(pos * SCALE + rnd, (extent - 1) * SCALE)
}

/// A jittered coordinate of a grid cell stays within twice the unit
/// interval.
proof fn lemma_jitter_range(pos: int, extent: int, rnd: int)
    requires
        0 <= pos <= extent - 1,
        2 <= extent <= 4096,
        0 <= rnd < 65536,
    ensures
        0 <= jitter_coord(pos, extent, rnd) <= 131072,
{
    let num = pos * SCALE + rnd;
    let den = (extent - 1) * SCALE;
    assert(0 <= num && num <= 2 * den && 65536 <= den) by (nonlinear_arith)
        requires
            0 <= pos <= extent - 1 && 2 <= extent && 0 <= rnd < 65536,
            num == pos * SCALE + rnd && den == (extent - 1) * SCALE && SCALE as int == 65536;
    lemma_sdiv_basics(num * SCALE, den);
    assert(num * SCALE >= 0) by (nonlinear_arith)
        requires num >= 0;
    assert(num * SCALE <= (2 * den) * SCALE) by (nonlinear_arith)
        requires 0 <= num <= 2 * den;
    assert((2 * den) * SCALE == (2 * SCALE as int) * den) by (nonlinear_arith);
    vstd::arithmetic::div_mod::lemma_div_is_ordered(num * SCALE, (2 * SCALE as int) * den, den);
    vstd::arithmetic::div_mod::lemma_div_by_multiple(2 * SCALE as int, den);
}

/// Sample accumulation for one pixel: `j` more jittered primary rays,
/// each traced through the scene and summed into `acc`.
pub open spec fn sample_fold(
    w: World,
    cam: crate::camera::Camera,
    width: int,
    height: int,
    depth: int,
    row: int,
    col: int,
    j: int,
    acc: crate::color::Color,
    s: u64,
) -> (crate::color::Color, u64)
    decreases j,
{
    if j <= 0 {
        (acc, s)
    } else {
        let ur = crate::random::rand_unit(s);
        let s1 = crate::random::rng_next(s);
        let vr = crate::random::rand_unit(s1);
        let s2 = crate::random::rng_next(s1);
        let u = jitter_coord(col, width, ur);
        let v = jitter_coord(row, height, vr);
        let ray = Ray { origin: cam.origin, direction: unit_spec(cam.cast_dir(u, v)) };
        let rc = rc_spec(w, ray, white_c(), s2, depth);
        sample_fold(w, cam, width, height, depth, row, col, j - 1, add_c(acc, rc.0), rc.1)
    }
}

/// One 8-bit output channel: average the summed samples, optionally
/// gamma-correct by square root, scale to `[0, 255]` and clamp.
pub open spec fn channel_8(sum: int, samples: int, gamma: bool) -> int {
    let avg = sdiv(sum, samples);
    let base = if gamma { sqrt_floor(avg * SCALE) } else { avg };
    let v = sdiv(fxm(base, 16777150), SCALE as int);
    if v > 255 { 255 } else if v < 0 { 0 } else { v }
}

/// The 8-bit pixel a sample sum quantizes to (gamma on color, linear
/// on alpha).
pub open spec fn pixel_spec(c: crate::color::Color, samples: int) -> crate::color::ColorU8 {
    crate::color::ColorU8 {
        r: channel_8(c.r as int, samples, true) as u8,
        g: channel_8(c.g as int, samples, true) as u8,
        b: channel_8(c.b as int, samples, true) as u8,
        a: channel_8(c.a as int, samples, false) as u8,
    }
}

/// The whole render, pixel by pixel in scan order from `(row, col)`,
/// threading the generator state; `up` selects the output row order.
pub open spec fn trace_fold(
    w: World,
    cam: crate::camera::Camera,
    samples: int,
    depth: int,
    up: bool,
    width: int,
    height: int,
    row: int,
    col: int,
    fb: Seq<crate::color::ColorU8>,
    s: u64,
) -> (Seq<crate::color::ColorU8>, u64)
    decreases height - row, width - col,
{
    if row < 0 || col < 0 || row >= height || col > width {
        (fb, s)
    } else if col == width {
        trace_fold(w, cam, samples, depth, up, width, height, row + 1, 0, fb, s)
    } else {
        let sr = sample_fold(w, cam, width, height, depth, row, col, samples, sum_start(), s);
        let orow = if up { height - 1 - row } else { row };
        trace_fold(
            w,
            cam,
            samples,
            depth,
            up,
            width,
            height,
            row,
            col + 1,
            fb.update(orow * width + col, pixel_spec(sr.0, samples)),
            sr.1,
        )
    }
}

/// Quantizes one summed channel to 8 bits.
fn channel_to_u8(sum: i64, samples: i32, gamma: bool) -> (r: u8)
    requires
        1 <= samples,
        0 <= sum <= 0x400000000,
    ensures
        r as int == channel_8(sum as int, samples as int, gamma),
{
    let avg: i64 = ((sum as u64) / (samples as u64)) as i64;
    proof {
        lemma_sdiv_basics(sum as int, samples as int);
        vstd::arithmetic::div_mod::lemma_div_is_ordered_by_denominator(sum as int, 1, samples as int);
        assert(avg as int == sdiv(sum as int, samples as int));
    }
    let base: i64 = if gamma {
        crate::maths::fx_sqrt(avg)
    } else {
        avg
    };
    proof {
        if gamma {
            assert(base as int <= 0x8000000) by (nonlinear_arith)
                requires
                    base as int * base as int <= avg * 65536,
                    avg <= 0x400000000,
                    0 <= base as int;
        }
        lemma_fxm_bound(base as int, 16777150, 0x400000000, 0x1000000);
        lemma_sdiv_basics(base as int * 16777150, SCALE as int);
        assert(base as int * 16777150 >= 0) by (nonlinear_arith)
            requires base as int >= 0;
    }
    let scaled = fx_mul(base, 16777150);
    let val: i64 = ((scaled as u64) / 65536u64) as i64;
    proof {
        lemma_sdiv_basics(scaled as int, SCALE as int);
        vstd::arithmetic::div_mod::lemma_div_is_ordered_by_denominator(scaled as int, 1, 65536);
        assert(val as int == sdiv(scaled as int, SCALE as int));
    }
    if val > 255 {
        255u8
    } else {
        val as u8
    }
}

/// Renders the scene: for every pixel, casts jittered primary rays,
/// averages their radiance, gamma-corrects, and stores the 8-bit pixel;
/// rows are written top-down or bottom-up per `positive_is_up`.
#[verifier::rlimit(100)]
#[verifier::spinoff_prover]
pub fn ray_trace(
    world: &World,
    camera: &crate::camera::Camera,
    framebuffer: crate::image::Framebuffer,
    options: &Options,
) -> (res: crate::image::Framebuffer)
    requires
        world_wf(*world),
        crate::camera::camera_wf(*camera),
        crate::image::framebuffer_wf(framebuffer),
        2 <= framebuffer.width <= 4096,
        2 <= framebuffer.height <= 4096,
        1 <= options.samples_per_pixel <= 65536,
        0 <= options.max_ray_bounces <= 4096,
    ensures
        res.width == framebuffer.width,
        res.height == framebuffer.height,
        crate::image::framebuffer_wf(res),
        res.pixels@ == trace_fold(
            *world,
            *camera,
            options.samples_per_pixel as int,
            options.max_ray_bounces as int,
            options.positive_is_up,
            framebuffer.width as int,
            framebuffer.height as int,
            0,
            0,
            framebuffer.pixels@,
            crate::random::RANDOM_SEED,
        ).0,
{
    let samples = options.samples_per_pixel;
    let depth = options.max_ray_bounces;
    let up = options.positive_is_up;
    let mut fb = framebuffer;
    let mut random = crate::random::Random::new();
    let width = fb.width;
    let height = fb.height;
    let ghost goal = trace_fold(
        *world,
        *camera,
        samples as int,
        depth as int,
        up,
        width as int,
        height as int,
        0,
        0,
        framebuffer.pixels@,
        crate::random::RANDOM_SEED,
    );
    let mut row: usize = 0;
    while row < height
        invariant
            world_wf(*world),
            crate::camera::camera_wf(*camera),
            crate::image::framebuffer_wf(fb),
            fb.width == width,
            fb.height == height,
            2 <= width <= 4096,
            2 <= height <= 4096,
            1 <= samples <= 65536,
            0 <= depth <= 4096,
            0 <= row <= height,
            trace_fold(
                *world,
                *camera,
                samples as int,
                depth as int,
                up,
                width as int,
                height as int,
                row as int,
                0,
                fb.pixels@,
                random.state,
            ) == goal,
        decreases height - row,
    {
        let mut col: usize = 0;
        while col < width
            invariant
                world_wf(*world),
                crate::camera::camera_wf(*camera),
                crate::image::framebuffer_wf(fb),
                fb.width == width,
                fb.height == height,
                2 <= width <= 4096,
                2 <= height <= 4096,
                1 <= samples <= 65536,
                0 <= depth <= 4096,
                0 <= row < height,
                0 <= col <= width,
                trace_fold(
                    *world,
                    *camera,
                    samples as int,
                    depth as int,
                    up,
                    width as int,
                    height as int,
                    row as int,
                    col as int,
                    fb.pixels@,
                    random.state,
                ) == goal,
            decreases width - col,
        {
            let ghost s0 = random.state;
            let mut color = crate::color::Color::new(0, 0, 0);
            let mut j: i32 = 0;
            while j < samples
                invariant
                    world_wf(*world),
                    crate::camera::camera_wf(*camera),
                    2 <= width <= 4096,
                    2 <= height <= 4096,
                    1 <= samples <= 65536,
                    0 <= depth <= 4096,
                    0 <= row < height,
                    0 <= col < width,
                    0 <= j <= samples,
                    0 <= color.r <= j as int * 65536,
                    0 <= color.g <= j as int * 65536,
                    0 <= color.b <= j as int * 65536,
                    0 <= color.a <= (1 + j as int) * 65536,
                    sample_fold(
                        *world,
                        *camera,
                        width as int,
                        height as int,
                        depth as int,
                        row as int,
                        col as int,
                        samples - j,
                        crate::color::Color { r: color.r, g: color.g, b: color.b, a: color.a },
                        random.state,
                    ) == sample_fold(
                        *world,
                        *camera,
                        width as int,
                        height as int,
                        depth as int,
                        row as int,
                        col as int,
                        samples as int,
                        sum_start(),
                        s0,
                    ),
                decreases samples - j,
            {
                let ur = random.random_scalar();
                let u = crate::maths::fx_div(
                    (col as i64) * 65536 + ur,
                    ((width - 1) as i64) * 65536,
                );
                proof {
                    lemma_jitter_range(col as int, width as int, ur as int);
                }
                let vr = random.random_scalar();
                let v = crate::maths::fx_div(
                    (row as i64) * 65536 + vr,
                    ((height - 1) as i64) * 65536,
                );
                proof {
                    lemma_jitter_range(row as int, height as int, vr as int);
                }
                let ray = camera.cast_ray(u, v);
                let sample = ray_color(&ray, world, &mut random, depth);
                color = color.add_with_alpha(&sample);
                j = j + 1;
            }
            let px = crate::color::ColorU8 {
                r: channel_to_u8(color.r, samples, true),
                g: channel_to_u8(color.g, samples, true),
                b: channel_to_u8(color.b, samples, true),
                a: channel_to_u8(color.a, samples, false),
            };
            let orow: usize = if up {
                height - 1 - row
            } else {
                row
            };
            fb.set_pixel(orow, col, px);
            col = col + 1;
        }
        row = row + 1;
    }
    fb
}


/// A path with no bounce budget yields black, whatever the scene
/// holds.
pub proof fn lemma_ray_color_depth_cap(w: World, r: Ray, s: u64, fuel: int)
    requires
        fuel <= 0,
    ensures
        rc_spec(w, r, white_c(), s, fuel).0 == black_spec(),
{
}

/// On a scene with no primitives, a path returns exactly the
/// background gradient: the ray misses on the first step and the
/// starting attenuation is opaque white.
pub proof fn lemma_ray_color_empty_world(w: World, r: Ray, s: u64, fuel: int)
    requires
        w.spheres@.len() == 0,
        w.meshes@.len() == 0,
        fuel >= 1,
        in_box(r.direction, SCALE as int),
    ensures
        rc_spec(w, r, white_c(), s, fuel).0 == background_spec(r),
{
    assert(world_hit_spec(w, r) is None);
    let bg = background_spec(r);
    crate::maths::lemma_unit_spec_props(r.direction);
    let u = unit_spec(r.direction);
    let t = fxm(u.y + SCALE, 32768);
    lemma_sdiv_basics((u.y + SCALE) * 32768, SCALE as int);
    assert(0 <= (u.y + SCALE) * 32768 <= 0x100000000) by (nonlinear_arith)
        requires 0 <= u.y + SCALE <= 131072;
    vstd::arithmetic::div_mod::lemma_div_is_ordered(
        (u.y + SCALE) * 32768,
        0x100000000,
        SCALE as int,
    );
    crate::color::lemma_fxm_unit(32768, t);
    crate::color::lemma_fxm_unit(45875, t);
    crate::color::lemma_fxm_unit(65536, t);
    crate::color::lemma_fxm_unit(SCALE as int, bg.r as int);
    crate::color::lemma_fxm_unit(SCALE as int, bg.g as int);
    crate::color::lemma_fxm_unit(SCALE as int, bg.b as int);
    crate::color::lemma_fxm_unit(SCALE as int, bg.a as int);
    assert(mul_c(white_c(), bg) == bg);
}

/// Dividing a bounded coordinate by an admissible radius keeps the
/// quotient well inside the range `normalize` accepts.
proof fn lemma_sphere_normal_box(c: int, radius: int)
    requires
        sabs(c) <= 0x200000000000,
        64 <= radius,
    ensures
        sabs(fxd(c, radius)) <= 0x80000000000000,
{
    lemma_sdiv_basics(c * SCALE, radius);
    assert(sabs(c * SCALE) == sabs(c) * SCALE) by (nonlinear_arith);
    assert(sabs(c) * SCALE <= 0x2000000000000000) by (nonlinear_arith)
        requires sabs(c) <= 0x200000000000;
    vstd::arithmetic::div_mod::lemma_div_is_ordered(sabs(c * SCALE), 0x2000000000000000, radius);
    vstd::arithmetic::div_mod::lemma_div_is_ordered_by_denominator(0x2000000000000000, 64, radius);
}

} // verus!
