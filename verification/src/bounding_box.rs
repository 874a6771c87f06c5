//! Axis-aligned bounding volumes: a 3D box over mesh vertices in world
//! coordinates, and a 2D box over a projected triangle's screen coordinates.

use vstd::prelude::*;

verus! {

/// An axis-aligned box in world space.  Coordinates are signed fixed-point
/// integers, as everywhere in the pipeline.
#[derive(Clone, Copy, Debug, PartialEq, Eq, Structural)]
pub struct BoundingBox3D {
    pub min_x: i64,
    pub min_y: i64,
    pub min_z: i64,
    pub max_x: i64,
    pub max_y: i64,
    pub max_z: i64,
}

impl BoundingBox3D {
    /// The box is ordered: each minimum is at most its maximum, and every
    /// bound is within `limit`.
    pub open spec fn wf(self, limit: int) -> bool {
        &&& self.min_x <= self.max_x
        &&& self.min_y <= self.max_y
        &&& self.min_z <= self.max_z
        &&& -limit <= self.min_x && self.max_x <= limit
        &&& -limit <= self.min_y && self.max_y <= limit
        &&& -limit <= self.min_z && self.max_z <= limit
    }

    /// Grows the box symmetrically about its own centre by
    /// `padding_percentage` percent of its extent: each half-extent is
    /// scaled by `1 + padding_percentage / 100`, exactly in floor
    /// arithmetic.  Padding by zero changes nothing.
    ///
    /// The padding is centre-relative, so a box far from the origin grows
    /// in place instead of drifting away with its coordinates.
    pub fn pad(&mut self, padding_percentage: i64)
        requires
            0 <= padding_percentage <= 1_000_000,
            old(self).wf(crate::COORD_LIMIT as int),
        ensures
            final(self).min_x == old(self).min_x - pad_amount(
                old(self).max_x - old(self).min_x,
                padding_percentage as int,
            ),
            final(self).max_x == old(self).max_x + pad_amount(
                old(self).max_x - old(self).min_x,
                padding_percentage as int,
            ),
            final(self).min_y == old(self).min_y - pad_amount(
                old(self).max_y - old(self).min_y,
                padding_percentage as int,
            ),
            final(self).max_y == old(self).max_y + pad_amount(
                old(self).max_y - old(self).min_y,
                padding_percentage as int,
            ),
            final(self).min_z == old(self).min_z - pad_amount(
                old(self).max_z - old(self).min_z,
                padding_percentage as int,
            ),
            final(self).max_z == old(self).max_z + pad_amount(
                old(self).max_z - old(self).min_z,
                padding_percentage as int,
            ),
            padding_percentage <= 200 ==> final(self).wf(3 * crate::COORD_LIMIT as int),
    {
        let dx: i64 = pad_amount_exec(self.max_x - self.min_x, padding_percentage);
        let dy: i64 = pad_amount_exec(self.max_y - self.min_y, padding_percentage);
        let dz: i64 = pad_amount_exec(self.max_z - self.min_z, padding_percentage);
        self.min_x = self.min_x - dx;
        self.max_x = self.max_x + dx;
        self.min_y = self.min_y - dy;
        self.max_y = self.max_y + dy;
        self.min_z = self.min_z - dz;
        self.max_z = self.max_z + dz;
    }
}

/// How far one bound moves outward when an extent is padded by `pct`
/// percent: half of `extent * pct / 100`, rounded down.
pub open spec fn pad_amount(extent: int, pct: int) -> int {
    extent * pct / 200
}

/// The executable counterpart of `pad_amount`, with its overflow bounds.
fn pad_amount_exec(extent: i64, pct: i64) -> (r: i64)
    requires
        0 <= extent <= 2 * crate::COORD_LIMIT,
        0 <= pct <= 1_000_000,
    ensures
        r == pad_amount(extent as int, pct as int),
        0 <= r <= extent * 5000,
        pct <= 200 ==> r <= extent,
{
    proof {
        crate::maths_utils::lemma_mul_bounds(
            extent as int,
            pct as int,
            2 * crate::COORD_LIMIT as int,
            1_000_000,
        );
        assert(extent * pct <= extent * 1_000_000) by (nonlinear_arith)
            requires
                0 <= extent && pct <= 1_000_000,
        ;
        if pct <= 200 {
            assert(extent * pct <= extent * 200) by (nonlinear_arith)
                requires
                    0 <= extent && pct <= 200,
            ;
            assert(extent * 200 / 200 == extent) by {
                vstd::arithmetic::div_mod::lemma_div_by_multiple(extent as int, 200);
            }
            vstd::arithmetic::div_mod::lemma_div_is_ordered(
                extent as int * pct,
                extent as int * 200,
                200,
            );
        }
        assert(0 <= extent * pct) by (nonlinear_arith)
            requires
                0 <= extent && 0 <= pct,
        ;
        assert(extent * 1_000_000 / 200 == extent * 5000) by {
            assert(extent * 1_000_000 == (extent * 5000) * 200) by (nonlinear_arith);
            vstd::arithmetic::div_mod::lemma_div_by_multiple(extent as int * 5000, 200);
        }
        vstd::arithmetic::div_mod::lemma_div_is_ordered(
            extent as int * pct,
            extent as int * 1_000_000,
            200,
        );
        vstd::arithmetic::div_mod::lemma_div_pos_is_pos(extent as int * pct, 200);
    }
    (extent * pct) / 200
}

/// Padding by zero percent moves no bound: `pad(box, 0)` is the identity
/// transform on a bounding box.
pub proof fn lemma_pad_zero(extent: int)
    ensures
        pad_amount(extent, 0) == 0,
{
    assert(extent * 0 == 0) by (nonlinear_arith);
    vstd::arithmetic::div_mod::lemma_div_of0(200);
}

/// The screen-space footprint of a single projected triangle: inclusive
/// min/max pixel coordinates on each axis.
#[derive(Clone, Copy, Debug, PartialEq, Eq, Structural)]
pub struct BoundingBox2D {
    pub min_u: u16,
    pub min_v: u16,
    pub max_u: u16,
    pub max_v: u16,
}

/// The smaller of two integers.
pub open spec fn spec_min(a: int, b: int) -> int {
    if a <= b { a } else { b }
}

/// The larger of two integers.
pub open spec fn spec_max(a: int, b: int) -> int {
    if a >= b { a } else { b }
}

/// The smallest of three integers.
pub open spec fn spec_min3(a: int, b: int, c: int) -> int {
    spec_min(spec_min(a, b), c)
}

/// The largest of three integers.
pub open spec fn spec_max3(a: int, b: int, c: int) -> int {
    spec_max(spec_max(a, b), c)
}

impl BoundingBox2D {
    /// The exact min/max on each axis over a triangle's three projected
    /// screen points.
    pub fn get_bounding_box(triangle_u: &[u16; 3], triangle_v: &[u16; 3]) -> (bb: Self)
        ensures
            bb.min_u == spec_min3(triangle_u[0] as int, triangle_u[1] as int, triangle_u[2] as int),
            bb.max_u == spec_max3(triangle_u[0] as int, triangle_u[1] as int, triangle_u[2] as int),
            bb.min_v == spec_min3(triangle_v[0] as int, triangle_v[1] as int, triangle_v[2] as int),
            bb.max_v == spec_max3(triangle_v[0] as int, triangle_v[1] as int, triangle_v[2] as int),
    {
        let mut min_u: u16 = triangle_u[0];
        let mut min_v: u16 = triangle_v[0];
        let mut max_u: u16 = triangle_u[0];
        let mut max_v: u16 = triangle_v[0];
        for i in 1..3usize
            invariant
                1 <= i <= 3,
                forall|j: int| 0 <= j < i ==> min_u <= triangle_u[j] && min_v <= triangle_v[j]
                    && max_u >= triangle_u[j] && max_v >= triangle_v[j],
                exists|j: int| 0 <= j < i && min_u == triangle_u[j],
                exists|j: int| 0 <= j < i && min_v == triangle_v[j],
                exists|j: int| 0 <= j < i && max_u == triangle_u[j],
                exists|j: int| 0 <= j < i && max_v == triangle_v[j],
        {
            let u = triangle_u[i];
            let v = triangle_v[i];
            if u < min_u {
                min_u = u;
            }
            if v < min_v {
                min_v = v;
            }
            if u > max_u {
                max_u = u;
            }
            if v > max_v {
                max_v = v;
            }
        }
        BoundingBox2D { min_u, min_v, max_u, max_v }
    }
}

} // verus!
