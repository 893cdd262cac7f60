//! Face resolution: turn a ray hit on a block into the adjacent coordinate
//! where a new block may be placed.
//!
//! The hit point is moved into the block's local frame and each axis is
//! tested, in x, y, z order, against a tolerance: a coordinate within 99%
//! of the half-edge counts as lying on that face. The placement coordinate
//! is the block's coordinate shifted one cell outward along the first such
//! axis; a grazing hit that meets no face refuses placement.

use vstd::prelude::*;

use crate::aabb::{FRAC_BOUND, HIT_BOUND};
use crate::ratio::{lemma_mul_magnitude, Ratio};
use crate::vec3::Vec3q;
use crate::world::GridPos;
use crate::{DIM, GRID_CAP_MAX};

verus! {

/// Numerator of the hit coordinate moved into the block's local frame
/// (denominator unchanged): `h - w` as a fraction over `h.den`, where `w`
/// is the block's world coordinate on this axis.
pub open spec fn local_hit_num(h: Ratio, w: int) -> int {
    h.num - w * h.den
}

/// The local hit coordinate lies within the face-plane tolerance: its
/// magnitude is at least 99% of the half-edge `DIM / 2`, i.e.
/// `|h - w| >= 0.99 * DIM/2` scaled free of division.
pub open spec fn face_tol(h: Ratio, w: int) -> bool {
    200 * vstd::math::abs(local_hit_num(h, w)) >= 99 * DIM * h.den
}

/// Shift a coordinate one cell along one axis: down only when it stays
/// non-negative, up unconditionally (an overgrown coordinate is absorbed by
/// the grid's bounds check when the block is added).
pub open spec fn spec_shift(p: GridPos, axis: int, down: bool) -> Option<GridPos> {
    if down {
        if axis == 0 {
            if p.x > 0 {
                Some(GridPos { x: (p.x - 1) as usize, y: p.y, z: p.z })
            } else {
                None
            }
        } else if axis == 1 {
            if p.y > 0 {
                Some(GridPos { x: p.x, y: (p.y - 1) as usize, z: p.z })
            } else {
                None
            }
        } else {
            if p.z > 0 {
                Some(GridPos { x: p.x, y: p.y, z: (p.z - 1) as usize })
            } else {
                None
            }
        }
    } else {
        if axis == 0 {
            Some(GridPos { x: (p.x + 1) as usize, y: p.y, z: p.z })
        } else if axis == 1 {
            Some(GridPos { x: p.x, y: (p.y + 1) as usize, z: p.z })
        } else {
            Some(GridPos { x: p.x, y: p.y, z: (p.z + 1) as usize })
        }
    }
}

/// The placement coordinate resolved from a hit on the block at `p`: one
/// cell outward along the first axis (x, then y, then z) whose local hit
/// coordinate meets the face tolerance, or nothing when no axis does.
pub open spec fn spec_place_position(p: GridPos, hit: Vec3q) -> Option<GridPos> {
    if face_tol(hit.x, p.x * DIM) {
        spec_shift(p, 0, local_hit_num(hit.x, p.x * DIM) < 0)
    } else if face_tol(hit.y, p.y * DIM) {
        spec_shift(p, 1, local_hit_num(hit.y, p.y * DIM) < 0)
    } else if face_tol(hit.z, p.z * DIM) {
        spec_shift(p, 2, local_hit_num(hit.z, p.z * DIM) < 0)
    } else {
        None
    }
}

/// One axis of the face test: the signed local numerator of the hit
/// coordinate, for a block world coordinate `w`.
fn local_num(h: &Ratio, w: i64) -> (r: i64)
    requires
        0 <= w <= 0x80000,
        0 < h.den <= FRAC_BOUND,
        -HIT_BOUND <= h.num <= HIT_BOUND,
    ensures
        r == local_hit_num(*h, w as int),
{
    proof {
        lemma_mul_magnitude(w as int, h.den as int, 0x80000, FRAC_BOUND as int);
    }
    h.num - w * h.den
}

/// Whether one axis meets the face tolerance.
fn axis_face_tol(h: &Ratio, w: i64) -> (r: bool)
    requires
        0 <= w <= 0x80000,
        0 < h.den <= FRAC_BOUND,
        -HIT_BOUND <= h.num <= HIT_BOUND,
    ensures
        r == face_tol(*h, w as int),
{
    proof {
        lemma_mul_magnitude(w as int, h.den as int, 0x80000, FRAC_BOUND as int);
        lemma_mul_magnitude(99 * (DIM as int), h.den as int, 99 * (DIM as int), FRAC_BOUND as int);
    }
    let ln = local_num(h, w);
    let labs = if ln >= 0 {
        ln
    } else {
        -ln
    };
    200 * labs >= 99 * DIM * h.den
}

/// Resolve the placement coordinate adjacent to the hit face of the block
/// at `pos`, given the world-space hit point. Returns nothing when the hit
/// meets no face within tolerance, or when the face points below the grid.
pub fn place_position(pos: &GridPos, hit: &Vec3q) -> (r: Option<GridPos>)
    requires
        pos.x <= GRID_CAP_MAX,
        pos.y <= GRID_CAP_MAX,
        pos.z <= GRID_CAP_MAX,
        0 < hit.x.den <= FRAC_BOUND,
        0 < hit.y.den <= FRAC_BOUND,
        0 < hit.z.den <= FRAC_BOUND,
        -HIT_BOUND <= hit.x.num <= HIT_BOUND,
        -HIT_BOUND <= hit.y.num <= HIT_BOUND,
        -HIT_BOUND <= hit.z.num <= HIT_BOUND,
    ensures
        r == spec_place_position(*pos, *hit),
{
    let wx = (pos.x as i64) * DIM;
    let wy = (pos.y as i64) * DIM;
    let wz = (pos.z as i64) * DIM;
    if axis_face_tol(&hit.x, wx) {
        if local_num(&hit.x, wx) < 0 {
            if pos.x > 0 {
                Some(GridPos { x: pos.x - 1, y: pos.y, z: pos.z })
            } else {
                None
            }
        } else {
            Some(GridPos { x: pos.x + 1, y: pos.y, z: pos.z })
        }
    } else if axis_face_tol(&hit.y, wy) {
        if local_num(&hit.y, wy) < 0 {
            if pos.y > 0 {
                Some(GridPos { x: pos.x, y: pos.y - 1, z: pos.z })
            } else {
                None
            }
        } else {
            Some(GridPos { x: pos.x, y: pos.y + 1, z: pos.z })
        }
    } else if axis_face_tol(&hit.z, wz) {
        if local_num(&hit.z, wz) < 0 {
            if pos.z > 0 {
                Some(GridPos { x: pos.x, y: pos.y, z: pos.z - 1 })
            } else {
                None
            }
        } else {
            Some(GridPos { x: pos.x, y: pos.y, z: pos.z + 1 })
        }
    } else {
        None
    }
}

} // verus!
