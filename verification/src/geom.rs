//! Fixed-point 3D geometry: points, poses, squared distances, and the
//! axis-aligned convex overlap test that gates anchor clearance.
//!
//! Colliders are axis-aligned cuboids (the engine derives them from bounding
//! boxes and never places a rotated body), so the pairwise overlap test is an
//! exact interval intersection on each axis.

use vstd::prelude::*;

use crate::units::{OFF_LIMIT, UNIT};

verus! {

/// A point or vector in fixed-point world coordinates (ticks).
#[derive(Clone, Copy, Debug, PartialEq, Eq, Structural)]
pub struct Vec3F {
    pub x: i64,
    pub y: i64,
    pub z: i64,
}

/// An orientation, stored in fixed-point quaternion components.  The engine
/// resets a held body to the identity orientation and otherwise only saves
/// and restores orientations, so no quaternion arithmetic is needed.
#[derive(Clone, Copy, Debug, PartialEq, Eq, Structural)]
pub struct Quat4 {
    pub x: i64,
    pub y: i64,
    pub z: i64,
    pub w: i64,
}

/// A body's transform snapshot: position and orientation.
#[derive(Clone, Copy, Debug, PartialEq, Eq, Structural)]
pub struct Pose {
    pub pos: Vec3F,
    pub rot: Quat4,
}

impl Vec3F {
    pub fn new(x: i64, y: i64, z: i64) -> (r: Vec3F)
        ensures
            r == (Vec3F { x, y, z }),
    {
        Vec3F { x, y, z }
    }

    /// Every coordinate within `b` in magnitude.
    pub open spec fn bounded(self, b: int) -> bool {
        -b <= self.x <= b && -b <= self.y <= b && -b <= self.z <= b
    }
}

impl Quat4 {
    /// The identity orientation.
    pub fn identity() -> (r: Quat4)
        ensures
            r == identity_quat(),
    {
        Quat4 { x: 0, y: 0, z: 0, w: UNIT }
    }
}

pub open spec fn identity_quat() -> Quat4 {
    Quat4 { x: 0, y: 0, z: 0, w: UNIT as i64 }
}

/// Squared Euclidean distance between two points, in ticks squared.
pub open spec fn dist2_spec(a: Vec3F, b: Vec3F) -> int {
    let dx = a.x - b.x;
    let dy = a.y - b.y;
    let dz = a.z - b.z;
    dx * dx + dy * dy + dz * dz
}

/// Bound that keeps `dist2` inside `i64`: any point a body position plus an
/// anchor offset and the probe lift can reach.
pub const CALC_LIMIT: i64 = 500_000_000;

pub fn dist2(a: Vec3F, b: Vec3F) -> (r: i64)
    requires
        a.bounded(CALC_LIMIT as int),
        b.bounded(CALC_LIMIT as int),
    ensures
        r == dist2_spec(a, b),
        0 <= r <= 3_000_000_000_000_000_000,
{
    let dx: i64 = a.x - b.x;
    let dy: i64 = a.y - b.y;
    let dz: i64 = a.z - b.z;
    proof {
        assert(dx * dx <= 1_000_000_000_000_000_000 && dx * dx >= 0) by (nonlinear_arith)
            requires -1_000_000_000 <= dx <= 1_000_000_000;
        assert(dy * dy <= 1_000_000_000_000_000_000 && dy * dy >= 0) by (nonlinear_arith)
            requires -1_000_000_000 <= dy <= 1_000_000_000;
        assert(dz * dz <= 1_000_000_000_000_000_000 && dz * dz >= 0) by (nonlinear_arith)
            requires -1_000_000_000 <= dz <= 1_000_000_000;
    }
    dx * dx + dy * dy + dz * dz
}

/// Whether two axis-aligned cuboids at centers `pa`, `pb` with half-extents
/// `ha`, `hb` overlap: on every axis the center gap is at most the sum of the
/// half-extents (touching counts as overlapping).
pub open spec fn overlap_spec(pa: Vec3F, ha: Vec3F, pb: Vec3F, hb: Vec3F) -> bool {
    let gx = if pa.x >= pb.x { pa.x - pb.x } else { pb.x - pa.x };
    let gy = if pa.y >= pb.y { pa.y - pb.y } else { pb.y - pa.y };
    let gz = if pa.z >= pb.z { pa.z - pb.z } else { pb.z - pa.z };
    gx <= ha.x + hb.x && gy <= ha.y + hb.y && gz <= ha.z + hb.z
}

pub fn aabb_overlap(pa: Vec3F, ha: Vec3F, pb: Vec3F, hb: Vec3F) -> (r: bool)
    requires
        pa.bounded(CALC_LIMIT as int),
        pb.bounded(CALC_LIMIT as int),
        ha.bounded(OFF_LIMIT as int),
        hb.bounded(OFF_LIMIT as int),
    ensures
        r == overlap_spec(pa, ha, pb, hb),
{
    let gx: i64 = if pa.x >= pb.x { pa.x - pb.x } else { pb.x - pa.x };
    let gy: i64 = if pa.y >= pb.y { pa.y - pb.y } else { pb.y - pa.y };
    let gz: i64 = if pa.z >= pb.z { pa.z - pb.z } else { pb.z - pa.z };
    gx <= ha.x + hb.x && gy <= ha.y + hb.y && gz <= ha.z + hb.z
}

/// Whether a squared distance `d2` (ticks squared) is within the snap range
/// `radius * scale`: `radius` is the snap distance in ticks and `scale` the
/// camera's world-to-scale factor in ticks per unit, so the effective range in
/// ticks is `radius * scale / UNIT`.  Comparing squares avoids the square
/// root: `dist <= radius * scale / UNIT  <=>  d2 * UNIT^2 <= (radius * scale)^2`.
pub open spec fn in_snap_range_spec(d2: int, radius: int, scale: int) -> bool {
    d2 * (UNIT as int) * (UNIT as int) <= (radius * scale) * (radius * scale)
}

pub fn in_snap_range(d2: i64, radius: i64, scale: i64) -> (r: bool)
    requires
        0 <= d2 <= 3_000_000_000_000_000_000,
        0 <= radius <= 1_000_000_000,
        0 <= scale <= 1_000_000_000,
    ensures
        r == in_snap_range_spec(d2 as int, radius as int, scale as int),
{
    proof {
        assert((d2 as int) * (UNIT as int) <= 3_000_000_000_000_000_000_000
            && 0 <= (d2 as int) * (UNIT as int)) by (nonlinear_arith)
            requires 0 <= d2 <= 3_000_000_000_000_000_000;
        assert((radius as int) * (scale as int) <= 1_000_000_000_000_000_000
            && 0 <= (radius as int) * (scale as int)) by (nonlinear_arith)
            requires 0 <= radius <= 1_000_000_000 && 0 <= scale <= 1_000_000_000;
    }
    let lhs: i128 = (d2 as i128) * (UNIT as i128) * (UNIT as i128);
    let rs: i128 = (radius as i128) * (scale as i128);
    proof {
        assert((rs as int) * (rs as int) <= 1_000_000_000_000_000_000_000_000_000_000_000_000
            && 0 <= (rs as int) * (rs as int)) by (nonlinear_arith)
            requires 0 <= rs <= 1_000_000_000_000_000_000;
    }
    lhs <= rs * rs
}

} // verus!
