//! The pinhole camera: a deterministic mapping from normalized screen
//! coordinates to primary rays.

use vstd::prelude::*;
use crate::maths::{Vec3, SCALE, fxm, in_box, dotw, unit_spec, fx_mul_s, lemma_fxm_bound};
use crate::common::{Ray, dir_ok, unit_like, WORLD_BOX};

verus! {

/// A pinhole camera: an origin, the viewport spans, and the viewport's
/// lower-left corner (focal length one, viewport height two).
#[derive(Clone, Copy, Debug, PartialEq, Eq, Structural)]
pub struct Camera {
    pub origin: Vec3,
    pub horizontal: Vec3,
    pub vertical: Vec3,
    pub lower_left: Vec3,
}

/// Validity of a camera: a bounded origin and spans derived from an
/// aspect ratio in `[1/8, 16]`.
pub open spec fn camera_wf(c: Camera) -> bool {
    &&& in_box(c.origin, WORLD_BOX as int)
    &&& c.horizontal.y == 0 && c.horizontal.z == 0
    &&& 16384 <= c.horizontal.x <= 2097152
    &&& c.vertical == (Vec3 { x: 0i64, y: 131072i64, z: 0i64 })
    &&& 2 * (c.origin.x - c.lower_left.x) == c.horizontal.x
    &&& c.lower_left.y == c.origin.y - 65536
    &&& c.lower_left.z == c.origin.z - 65536
}

/// The camera `new_at` builds: focal length one, viewport height two,
/// viewport width twice the aspect ratio.
pub open spec fn camera_at(origin: Vec3, aspect: int) -> Camera {
    Camera {
        origin,
        horizontal: Vec3 { x: (2 * aspect) as i64, y: 0i64, z: 0i64 },
        vertical: Vec3 { x: 0i64, y: 131072i64, z: 0i64 },
        lower_left: Vec3 {
            x: (origin.x - aspect) as i64,
            y: (origin.y - 65536) as i64,
            z: (origin.z - 65536) as i64,
        },
    }
}

impl Camera {
    /// A camera at `origin` with the given aspect ratio.
    pub fn new_at(origin: Vec3, aspect: i64) -> (c: Camera)
        requires
            in_box(origin, WORLD_BOX as int),
            8192 <= aspect <= 1048576,
        ensures
            c.origin == origin,
            c.horizontal == (Vec3 { x: (2 * aspect) as i64, y: 0i64, z: 0i64 }),
            c.vertical == (Vec3 { x: 0i64, y: 131072i64, z: 0i64 }),
            c.lower_left == (Vec3 {
                x: (origin.x - aspect) as i64,
                y: (origin.y - 65536) as i64,
                z: (origin.z - 65536) as i64,
            }),
            c == camera_at(origin, aspect as int),
            camera_wf(c),
    {
        let horizontal = Vec3 { x: 2 * aspect, y: 0, z: 0 };
        let vertical = Vec3 { x: 0, y: 131072, z: 0 };
        let lower_left = Vec3 { x: origin.x - aspect, y: origin.y - 65536, z: origin.z - 65536 };
        Camera { origin, horizontal, vertical, lower_left }
    }

    /// The unnormalized viewport direction for screen coordinates
    /// `(u, v)`.
    pub open spec fn cast_dir(self, u: int, v: int) -> Vec3 {
        Vec3 {
            x: (self.lower_left.x + fxm(self.horizontal.x as int, u) + fxm(
                self.vertical.x as int,
                v,
            ) - self.origin.x) as i64,
            y: (self.lower_left.y + fxm(self.horizontal.y as int, u) + fxm(
                self.vertical.y as int,
                v,
            ) - self.origin.y) as i64,
            z: (self.lower_left.z + fxm(self.horizontal.z as int, u) + fxm(
                self.vertical.z as int,
                v,
            ) - self.origin.z) as i64,
        }
    }

    /// Casts the primary ray through normalized screen coordinates
    /// `(u, v)`; deterministic, no side effects.
    pub fn cast_ray(&self, u: i64, v: i64) -> (r: Ray)
        requires
            camera_wf(*self),
            -131072 <= u <= 131072,
            -131072 <= v <= 131072,
        ensures
            r.origin == self.origin,
            r.direction == unit_spec(self.cast_dir(u as int, v as int)),
            dir_ok(r.direction),
            unit_like(r.direction),
    {
        proof {
            lemma_fxm_bound(self.horizontal.x as int, u as int, 2097152, 131072);
            lemma_fxm_bound(self.horizontal.y as int, u as int, 2097152, 131072);
            lemma_fxm_bound(self.horizontal.z as int, u as int, 2097152, 131072);
            lemma_fxm_bound(self.vertical.x as int, v as int, 131072, 131072);
            lemma_fxm_bound(self.vertical.y as int, v as int, 131072, 131072);
            lemma_fxm_bound(self.vertical.z as int, v as int, 131072, 131072);
        }
        let d0 = self.lower_left.plus(&self.horizontal.scaled(u)).plus(
            &self.vertical.scaled(v),
        ).minus(&self.origin);
        let direction = d0.normalize();
        proof {
            assert(unit_like(direction)) by {
                assert(in_box(d0, 0x80000000000000) && direction == unit_spec(d0));
            }
        }
        Ray { origin: self.origin, direction }
    }
}

} // verus!
