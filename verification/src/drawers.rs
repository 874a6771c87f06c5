//! The rasterization pipeline: triangle scan-conversion with a depth
//! buffer, barycentric shading, and the wireframe drawer.
//!
//! Depth values are kept as exact rationals — an interpolated numerator
//! over the triangle's doubled screen area — so the strict depth test is
//! exact: nearer fragments win independently of triangle order.

use crate::bounding_box::{spec_max3, spec_min3, BoundingBox2D, BoundingBox3D};
use crate::image::{pix_index, Image, Rgb};
use crate::linear_algebra::{
    barycentric_interpolation, point_barycentric_coord_in_rast_triangle, spec_bary_alpha,
    spec_bary_beta, spec_bary_den, spec_bary_gamma, spec_dot3, spec_point_in_triangle, spec_vec3,
    BarycentricCoords,
};
use crate::maths_utils::{div_floor, div_floor_i128, lemma_mul_bounds};
use crate::mesh::{Mesh, Point3D, Triangle};
use vstd::prelude::*;

verus! {

/// The fixed parameters of one render: viewport size, light direction, and
/// the world-to-pixel mapping, one affine map per axis
/// (`pixel = (world + offset) * scale_num / scale_den`, clamped to the
/// `u16` pixel range).
#[derive(Clone, Copy, Debug)]
pub struct RenderConfig {
    pub width: u16,
    pub height: u16,
    pub light_direction: Point3D,
    pub x_offset: i64,
    pub y_offset: i64,
    pub x_scale_num: i64,
    pub x_scale_den: i64,
    pub y_scale_num: i64,
    pub y_scale_den: i64,
}

impl RenderConfig {
    /// Parameter bounds under which every intermediate of the pipeline
    /// fits its integer type.
    pub open spec fn wf(self) -> bool {
        &&& self.width * self.height <= 0x4000_0000
        &&& -crate::NORMAL_LIMIT <= self.light_direction.x <= crate::NORMAL_LIMIT
        &&& -crate::NORMAL_LIMIT <= self.light_direction.y <= crate::NORMAL_LIMIT
        &&& -crate::NORMAL_LIMIT <= self.light_direction.z <= crate::NORMAL_LIMIT
        &&& -3 * crate::COORD_LIMIT <= self.x_offset <= 3 * crate::COORD_LIMIT
        &&& -3 * crate::COORD_LIMIT <= self.y_offset <= 3 * crate::COORD_LIMIT
        &&& 0 < self.x_scale_num <= 0x1_0000
        &&& 0 < self.x_scale_den <= crate::COORD_LIMIT
        &&& 0 < self.y_scale_num <= 0x1_0000
        &&& 0 < self.y_scale_den <= crate::COORD_LIMIT
    }
}

/// One depth-buffer cell: the fragment depth as the exact rational
/// `num / den`.  A cell with `den == 0` is empty — it stands for negative
/// infinity, so the first fragment always wins there.
#[derive(Clone, Copy, Debug, PartialEq, Eq, Structural)]
pub struct DepthEntry {
    pub num: i128,
    pub den: i64,
}

/// The per-pixel depth record of one rasterization pass, row-major like
/// the image it accompanies.
#[derive(Clone, Debug)]
pub struct DepthBuffer {
    pub width: u16,
    pub height: u16,
    pub entries: Vec<DepthEntry>,
}

/// Bound on stored depth numerators: an interpolated depth numerator is a
/// sum of three products of a barycentric numerator and a coordinate.
pub const DEPTH_NUM_LIMIT: i128 = 0x2_0000_0000_0000_0000;

/// Bound on stored depth denominators: twice a screen triangle's area.
pub const DEPTH_DEN_LIMIT: i64 = 0x2_0000_0000;

impl DepthBuffer {
    /// One bounded cell per grid point.
    pub open spec fn wf(self) -> bool {
        &&& self.entries@.len() == self.width * self.height
        &&& forall|i: int|
            0 <= i < self.entries@.len() ==> {
                let e = #[trigger] self.entries@[i];
                &&& 0 <= e.den <= DEPTH_DEN_LIMIT
                &&& -DEPTH_NUM_LIMIT <= e.num <= DEPTH_NUM_LIMIT
            }
    }

    /// The cell of the pixel `(u, v)`.
    pub open spec fn entry_at(self, u: int, v: int) -> DepthEntry {
        self.entries@[pix_index(self.width as int, u, v)]
    }

    /// `(u, v)` is a grid coordinate of this buffer.
    pub open spec fn in_bounds(self, u: int, v: int) -> bool {
        0 <= u < self.width && 0 <= v < self.height
    }

    /// A fresh buffer with every cell empty: every depth test against it
    /// succeeds, as against negative infinity.
    pub fn new(width: u16, height: u16) -> (zb: Self)
        requires
            width * height <= 0x4000_0000,
        ensures
            zb.wf(),
            zb.width == width,
            zb.height == height,
            zb.entries@ == Seq::new(
                (width * height) as nat,
                |i: int| DepthEntry { num: 0, den: 0 },
            ),
            forall|u: int, v: int|
                zb.in_bounds(u, v) ==> (#[trigger] zb.entry_at(u, v)).den == 0,
    {
        let n: usize = (width as usize) * (height as usize);
        let mut entries: Vec<DepthEntry> = Vec::new();
        for i in 0..n
            invariant
                entries@.len() == i,
                forall|j: int| 0 <= j < i ==> (#[trigger] entries@[j]) == (DepthEntry {
                    num: 0,
                    den: 0,
                }),
        {
            entries.push(DepthEntry { num: 0, den: 0 });
        }
        let zb = DepthBuffer { width, height, entries };
        proof {
            assert(zb.entries@ =~= Seq::new(
                (width * height) as nat,
                |i: int| DepthEntry { num: 0, den: 0 },
            ));
            assert forall|u: int, v: int| zb.in_bounds(u, v) implies (#[trigger] zb.entry_at(
                u,
                v,
            )).den == 0 by {
                crate::image::lemma_pix_index_in_range(width as int, height as int, u, v);
            }
        }
        zb
    }

    /// Reads the cell `(u, v)`, or `None` outside the grid.
    pub fn get(&self, u: u16, v: u16) -> (r: Option<DepthEntry>)
        requires
            self.wf(),
        ensures
            r is Some <==> self.in_bounds(u as int, v as int),
            r is Some ==> r->Some_0 == self.entry_at(u as int, v as int),
    {
        if u < self.width && v < self.height {
            proof {
                crate::image::lemma_pix_index_in_range(
                    self.width as int,
                    self.height as int,
                    u as int,
                    v as int,
                );
            }
            let n: usize = self.entries.len();
            let idx: usize = (v as usize) * (self.width as usize) + (u as usize);
            Some(self.entries[idx])
        } else {
            None
        }
    }

    /// Writes the cell `(u, v)` if it lies inside the grid; a write
    /// outside changes nothing.
    pub fn set(&mut self, u: u16, v: u16, entry: DepthEntry) -> (ok: bool)
        requires
            old(self).wf(),
            0 <= entry.den <= DEPTH_DEN_LIMIT,
            -DEPTH_NUM_LIMIT <= entry.num <= DEPTH_NUM_LIMIT,
        ensures
            final(self).wf(),
            final(self).width == old(self).width,
            final(self).height == old(self).height,
            ok == old(self).in_bounds(u as int, v as int),
            ok ==> final(self).entries@ == old(self).entries@.update(
                pix_index(old(self).width as int, u as int, v as int),
                entry,
            ),
            !ok ==> final(self).entries@ == old(self).entries@,
    {
        if u < self.width && v < self.height {
            proof {
                crate::image::lemma_pix_index_in_range(
                    self.width as int,
                    self.height as int,
                    u as int,
                    v as int,
                );
            }
            let n: usize = self.entries.len();
            let idx: usize = (v as usize) * (self.width as usize) + (u as usize);
            self.entries.set(idx, entry);
            true
        } else {
            false
        }
    }
}

/// One triangle after projection to the screen: pixel coordinates, the
/// world depth kept for the depth test, and the corner normals for
/// shading.
#[derive(Clone, Copy, Debug)]
pub struct ProjectedTriangle {
    pub sx: [u16; 3],
    pub sy: [u16; 3],
    pub z: [i64; 3],
    pub n: [Point3D; 3],
}

impl ProjectedTriangle {
    /// Depths and normals are bounded, as everywhere in the pipeline.
    pub open spec fn wf(self) -> bool {
        &&& forall|i: int|
            0 <= i < 3 ==> -crate::COORD_LIMIT <= #[trigger] self.z[i] <= crate::COORD_LIMIT
        &&& forall|i: int|
            0 <= i < 3 ==> {
                let p = #[trigger] self.n[i];
                &&& -crate::NORMAL_LIMIT <= p.x <= crate::NORMAL_LIMIT
                &&& -crate::NORMAL_LIMIT <= p.y <= crate::NORMAL_LIMIT
                &&& -crate::NORMAL_LIMIT <= p.z <= crate::NORMAL_LIMIT
            }
    }

    /// The screen position of corner `i`.
    pub open spec fn corner(self, i: int) -> (u16, u16) {
        (self.sx[i], self.sy[i])
    }
}

/// The sign-normalized barycentric numerators and denominator of pixel `p`
/// with respect to the projected triangle's corners.
pub open spec fn spec_bary(pt: ProjectedTriangle, p: (u16, u16)) -> (int, int, int, int) {
    (
        spec_bary_alpha(p, pt.corner(0), pt.corner(1), pt.corner(2)),
        spec_bary_beta(p, pt.corner(0), pt.corner(1), pt.corner(2)),
        spec_bary_gamma(p, pt.corner(0), pt.corner(1), pt.corner(2)),
        spec_bary_den(pt.corner(0), pt.corner(1), pt.corner(2)),
    )
}

/// The pixel lies inside the projected triangle: all three barycentric
/// coordinates nonnegative, with a nonzero denominator.  A degenerate
/// (zero-screen-area) triangle covers no pixel.
pub open spec fn spec_covered(pt: ProjectedTriangle, p: (u16, u16)) -> bool {
    spec_point_in_triangle(p, pt.corner(0), pt.corner(1), pt.corner(2))
}

/// The numerator of the fragment depth at `p`: the barycentric combination
/// of the corner depths over the denominator `spec_bary(pt, p).3`.
pub open spec fn spec_frag_depth_num(pt: ProjectedTriangle, p: (u16, u16)) -> int {
    let (a, b, g, d) = spec_bary(pt, p);
    a * pt.z[0] + b * pt.z[1] + g * pt.z[2]
}

/// The numerator of the interpolated normal at `p`, componentwise.
pub open spec fn spec_interp_normal(pt: ProjectedTriangle, p: (u16, u16)) -> (int, int, int) {
    let (a, b, g, d) = spec_bary(pt, p);
    (
        a * pt.n[0].x + b * pt.n[1].x + g * pt.n[2].x,
        a * pt.n[0].y + b * pt.n[1].y + g * pt.n[2].y,
        a * pt.n[0].z + b * pt.n[1].z + g * pt.n[2].z,
    )
}

/// The 8-bit shade at `p`: `max(0, -dot(normal, light)) * 255`, clamped to
/// 255, evaluated on the exact rational interpolated normal.
pub open spec fn spec_shade(pt: ProjectedTriangle, light: Point3D, p: (u16, u16)) -> int {
    let num = -spec_dot3(spec_interp_normal(pt, p), spec_vec3(light));
    let den = spec_bary(pt, p).3;
    if num <= 0 {
        0
    } else {
        let q = 255 * num / (den * crate::SCALE * crate::SCALE);
        if q > 255 {
            255
        } else {
            q
        }
    }
}

/// The grey colour of a shade value.
pub open spec fn spec_shade_rgb(s: int) -> Rgb {
    Rgb { r: s as u8, g: s as u8, b: s as u8 }
}

/// The strict depth test: the fragment `num / den` is nearer than the
/// stored cell.  An empty cell (negative infinity) always loses.
pub open spec fn spec_depth_gt(num: int, den: int, cur: DepthEntry) -> bool {
    if cur.den == 0 {
        true
    } else {
        num * cur.den > cur.num * den
    }
}

/// Whether rasterizing `pt` writes the pixel `p` when the depth cell
/// currently holds `cur`: the pixel is covered and the fragment passes the
/// strict depth test.
pub open spec fn spec_pixel_written(pt: ProjectedTriangle, cur: DepthEntry, p: (u16, u16)) -> bool {
    &&& spec_covered(pt, p)
    &&& spec_depth_gt(spec_frag_depth_num(pt, p), spec_bary(pt, p).3, cur)
}

/// The depth cell written for pixel `p` of `pt`.
pub open spec fn spec_frag_entry(pt: ProjectedTriangle, p: (u16, u16)) -> DepthEntry {
    DepthEntry {
        num: spec_frag_depth_num(pt, p) as i128,
        den: spec_bary(pt, p).3 as i64,
    }
}

/// The pixel lies within the triangle's screen bounding box: the scan
/// visits exactly these pixels.  (A pixel inside the triangle always lies
/// in the box, so the restriction skips no covered pixel.)
pub open spec fn spec_in_bbox(pt: ProjectedTriangle, p: (u16, u16)) -> bool {
    &&& spec_min3(pt.sx[0] as int, pt.sx[1] as int, pt.sx[2] as int) <= p.0 <= spec_max3(
        pt.sx[0] as int,
        pt.sx[1] as int,
        pt.sx[2] as int,
    )
    &&& spec_min3(pt.sy[0] as int, pt.sy[1] as int, pt.sy[2] as int) <= p.1 <= spec_max3(
        pt.sy[0] as int,
        pt.sy[1] as int,
        pt.sy[2] as int,
    )
}

/// Whether the scan over `pt` writes pixel `p` when its depth cell holds
/// `cur`: the pixel is visited, covered, and passes the depth test.
pub open spec fn spec_scan_written_at(pt: ProjectedTriangle, cur: DepthEntry, p: (u16, u16)) -> bool {
    &&& spec_in_bbox(pt, p)
    &&& spec_pixel_written(pt, cur, p)
}

/// Whether the scan over `pt` writes pixel `p` against the depth record
/// `zb0`.
pub open spec fn spec_scan_written(pt: ProjectedTriangle, zb0: DepthBuffer, p: (u16, u16)) -> bool {
    spec_scan_written_at(pt, zb0.entry_at(p.0 as int, p.1 as int), p)
}

/// The colour of pixel `p` after rasterizing `pt` onto the image `img0`
/// with depth record `zb0`.
pub open spec fn spec_pixel_after(
    pt: ProjectedTriangle,
    light: Point3D,
    img0: Image,
    zb0: DepthBuffer,
    p: (u16, u16),
) -> Rgb {
    if spec_scan_written(pt, zb0, p) {
        spec_shade_rgb(spec_shade(pt, light, p))
    } else {
        img0.pixel_at(p.0 as int, p.1 as int)
    }
}

/// The depth cell of pixel `p` after rasterizing `pt` over the record
/// `zb0`.
pub open spec fn spec_entry_after(pt: ProjectedTriangle, zb0: DepthBuffer, p: (u16, u16)) -> DepthEntry {
    if spec_scan_written(pt, zb0, p) {
        spec_frag_entry(pt, p)
    } else {
        zb0.entry_at(p.0 as int, p.1 as int)
    }
}

/// Rasterizes the single pixel `(u, v)` of the projected triangle: writes
/// colour and depth exactly when the pixel is covered and passes the depth
/// test, and touches nothing else.
pub fn process_pixel(
    pt: &ProjectedTriangle,
    light: Point3D,
    u: u16,
    v: u16,
    img: &mut Image,
    zbuf: &mut DepthBuffer,
)
    requires
        old(img).wf(),
        old(zbuf).wf(),
        old(zbuf).width == old(img).width,
        old(zbuf).height == old(img).height,
        pt.wf(),
        -crate::NORMAL_LIMIT <= light.x <= crate::NORMAL_LIMIT,
        -crate::NORMAL_LIMIT <= light.y <= crate::NORMAL_LIMIT,
        -crate::NORMAL_LIMIT <= light.z <= crate::NORMAL_LIMIT,
    ensures
        final(img).wf(),
        final(img).width == old(img).width,
        final(img).height == old(img).height,
        final(zbuf).wf(),
        final(zbuf).width == old(zbuf).width,
        final(zbuf).height == old(zbuf).height,
        ({
            let wr = old(img).in_bounds(u as int, v as int) && spec_pixel_written(
                *pt,
                old(zbuf).entry_at(u as int, v as int),
                (u, v),
            );
            let idx = pix_index(old(img).width as int, u as int, v as int);
            &&& final(img).pixels@ == (if wr {
                old(img).pixels@.update(idx, spec_shade_rgb(spec_shade(*pt, light, (u, v))))
            } else {
                old(img).pixels@
            })
            &&& final(zbuf).entries@ == (if wr {
                old(zbuf).entries@.update(idx, spec_frag_entry(*pt, (u, v)))
            } else {
                old(zbuf).entries@
            })
        }),
{
    let bc: BarycentricCoords = point_barycentric_coord_in_rast_triangle(
        (u, v),
        (pt.sx[0], pt.sy[0]),
        (pt.sx[1], pt.sy[1]),
        (pt.sx[2], pt.sy[2]),
    );
    if !(bc.den > 0 && bc.alpha >= 0 && bc.beta >= 0 && bc.gamma >= 0) {
        return ;
    }
    let cur_opt: Option<DepthEntry> = zbuf.get(u, v);
    let cur: DepthEntry = match cur_opt {
        Some(c) => c,
        None => {
            return ;
        },
    };
    proof {
        let lim: int = 0x2_0000_0000;
        let cl: int = crate::COORD_LIMIT as int;
        lemma_mul_bounds(bc.alpha as int, pt.z[0] as int, lim, cl);
        lemma_mul_bounds(bc.beta as int, pt.z[1] as int, lim, cl);
        lemma_mul_bounds(bc.gamma as int, pt.z[2] as int, lim, cl);
    }
    let dn: i128 = (bc.alpha as i128) * (pt.z[0] as i128) + (bc.beta as i128) * (pt.z[1] as i128)
        + (bc.gamma as i128) * (pt.z[2] as i128);
    proof {
        crate::image::lemma_pix_index_in_range(
            zbuf.width as int,
            zbuf.height as int,
            u as int,
            v as int,
        );
        assert(-DEPTH_NUM_LIMIT <= dn <= DEPTH_NUM_LIMIT);
        assert(-DEPTH_NUM_LIMIT <= cur.num <= DEPTH_NUM_LIMIT && 0 <= cur.den <= DEPTH_DEN_LIMIT);
    }
    let passes: bool = if cur.den == 0 {
        true
    } else {
        proof {
            lemma_mul_bounds(dn as int, cur.den as int, DEPTH_NUM_LIMIT as int, DEPTH_DEN_LIMIT as int);
            lemma_mul_bounds(cur.num as int, bc.den as int, DEPTH_NUM_LIMIT as int, DEPTH_DEN_LIMIT as int);
        }
        dn * (cur.den as i128) > cur.num * (bc.den as i128)
    };
    if !passes {
        return ;
    }
    let interp: Point3D = barycentric_interpolation(&bc, &pt.n[0], &pt.n[1], &pt.n[2]);
    proof {
        let nl: int = crate::NORMAL_LIMIT as int;
        lemma_mul_bounds(bc.alpha as int, pt.n[0].x as int, 0x2_0000_0000, nl);
        lemma_mul_bounds(bc.beta as int, pt.n[1].x as int, 0x2_0000_0000, nl);
        lemma_mul_bounds(bc.gamma as int, pt.n[2].x as int, 0x2_0000_0000, nl);
        lemma_mul_bounds(bc.alpha as int, pt.n[0].y as int, 0x2_0000_0000, nl);
        lemma_mul_bounds(bc.beta as int, pt.n[1].y as int, 0x2_0000_0000, nl);
        lemma_mul_bounds(bc.gamma as int, pt.n[2].y as int, 0x2_0000_0000, nl);
        lemma_mul_bounds(bc.alpha as int, pt.n[0].z as int, 0x2_0000_0000, nl);
        lemma_mul_bounds(bc.beta as int, pt.n[1].z as int, 0x2_0000_0000, nl);
        lemma_mul_bounds(bc.gamma as int, pt.n[2].z as int, 0x2_0000_0000, nl);
        lemma_mul_bounds(interp.x as int, light.x as int, 0x18_0000_0000_0000, nl);
        lemma_mul_bounds(interp.y as int, light.y as int, 0x18_0000_0000_0000, nl);
        lemma_mul_bounds(interp.z as int, light.z as int, 0x18_0000_0000_0000, nl);
    }
    let shade_num: i128 = -((interp.x as i128) * (light.x as i128) + (interp.y as i128)
        * (light.y as i128) + (interp.z as i128) * (light.z as i128));
    let shade: u8 = if shade_num <= 0 {
        0u8
    } else {
        let div: i128 = (bc.den as i128) * ((crate::SCALE * crate::SCALE) as i128);
        proof {
            lemma_mul_bounds(bc.den as int, (crate::SCALE * crate::SCALE) as int, 0x2_0000_0000, 0x10_0000);
            assert(bc.den as int * ((crate::SCALE * crate::SCALE) as int) > 0) by (nonlinear_arith)
                requires
                    bc.den > 0,
            ;
        }
        let q: i128 = div_floor_i128(255 * shade_num, div);
        proof {
            vstd::arithmetic::div_mod::lemma_div_pos_is_pos(255 * shade_num as int, div as int);
        }
        if q > 255 {
            255u8
        } else {
            q as u8
        }
    };
    let colour = Rgb { r: shade, g: shade, b: shade };
    let _ = img.set(u, v, colour);
    let _ = zbuf.set(u, v, DepthEntry { num: dn, den: bc.den });
}

/// The screen coordinate of a world coordinate under one axis of the
/// camera map: `(x + off) * num / den` in floor arithmetic, clamped to the
/// `u16` pixel range.
pub open spec fn spec_project(x: int, off: int, num: int, den: int) -> int {
    let q = (x + off) * num / den;
    if q < 0 {
        0
    } else if q > 0xFFFF {
        0xFFFF
    } else {
        q
    }
}

/// Maps one world coordinate to a pixel coordinate.
pub fn project_vertex(x: i64, off: i64, num: i64, den: i64) -> (p: u16)
    requires
        -crate::COORD_LIMIT <= x <= crate::COORD_LIMIT,
        -3 * crate::COORD_LIMIT <= off <= 3 * crate::COORD_LIMIT,
        0 < num <= 0x1_0000,
        0 < den <= crate::COORD_LIMIT,
    ensures
        p == spec_project(x as int, off as int, num as int, den as int),
{
    let s: i64 = x + off;
    proof {
        lemma_mul_bounds(s as int, num as int, 4 * crate::COORD_LIMIT as int, 0x1_0000);
    }
    let q: i64 = div_floor(s * num, den);
    if q < 0 {
        0
    } else if q > 0xFFFF {
        0xFFFF
    } else {
        q as u16
    }
}

/// The projection of one corner's world `x` (or `y`) under one axis of the
/// camera map, as a pixel coordinate.
pub open spec fn spec_project_x(m: Mesh, t: Triangle, cfg: RenderConfig, k: int) -> u16 {
    spec_project(
        m.spec_position(t.vertices[k] as int).x as int,
        cfg.x_offset as int,
        cfg.x_scale_num as int,
        cfg.x_scale_den as int,
    ) as u16
}

/// The `y`-axis counterpart of `spec_project_x`.
pub open spec fn spec_project_y(m: Mesh, t: Triangle, cfg: RenderConfig, k: int) -> u16 {
    spec_project(
        m.spec_position(t.vertices[k] as int).y as int,
        cfg.y_offset as int,
        cfg.y_scale_num as int,
        cfg.y_scale_den as int,
    ) as u16
}

/// The projection of triangle `t` of mesh `m` under the camera map of
/// `cfg`: screen coordinates from the affine per-axis map, depths from the
/// world `z`, normals from the mesh's per-corner normal indices.
pub open spec fn spec_projected(m: Mesh, t: Triangle, cfg: RenderConfig) -> ProjectedTriangle {
    ProjectedTriangle {
        sx: [
            spec_project_x(m, t, cfg, 0),
            spec_project_x(m, t, cfg, 1),
            spec_project_x(m, t, cfg, 2),
        ],
        sy: [
            spec_project_y(m, t, cfg, 0),
            spec_project_y(m, t, cfg, 1),
            spec_project_y(m, t, cfg, 2),
        ],
        z: [
            m.spec_position(t.vertices[0] as int).z,
            m.spec_position(t.vertices[1] as int).z,
            m.spec_position(t.vertices[2] as int).z,
        ],
        n: [
            m.spec_normal(t.normals[0] as int),
            m.spec_normal(t.normals[1] as int),
            m.spec_normal(t.normals[2] as int),
        ],
    }
}

/// The triangle faces the light: the dot product of its raw face normal
/// with the light direction is not positive, so the face is lit (or edge
/// on) rather than turned away.
pub open spec fn spec_face_visible(m: Mesh, t: Triangle, light: Point3D) -> bool {
    spec_dot3(m.spec_face_cross(t), spec_vec3(light)) <= 0
}

/// Rasterizes one triangle of a mesh: projects its corners, culls it when
/// it faces away from the light, and otherwise scan-converts it against
/// the depth buffer.  A culled triangle writes no pixel at all.
pub fn raster_triangle(
    triangle: &Triangle,
    m: &Mesh,
    mesh_img: &mut Image,
    z_buffer: &mut DepthBuffer,
    cfg: &RenderConfig,
)
    requires
        old(mesh_img).wf(),
        old(z_buffer).wf(),
        old(z_buffer).width == old(mesh_img).width,
        old(z_buffer).height == old(mesh_img).height,
        m.wf(),
        triangle.valid(m.v_positions.len(), m.v_normals.len(), m.v_textures.len()),
        cfg.wf(),
    ensures
        final(mesh_img).wf(),
        final(mesh_img).width == old(mesh_img).width,
        final(mesh_img).height == old(mesh_img).height,
        final(z_buffer).wf(),
        final(z_buffer).width == old(z_buffer).width,
        final(z_buffer).height == old(z_buffer).height,
        !spec_face_visible(*m, *triangle, cfg.light_direction) ==> final(mesh_img).pixels@ == old(
            mesh_img,
        ).pixels@ && final(z_buffer).entries@ == old(z_buffer).entries@,
        spec_face_visible(*m, *triangle, cfg.light_direction) ==> forall|pu: u16, pv: u16|
            old(mesh_img).in_bounds(pu as int, pv as int) ==> #[trigger] final(mesh_img).pixel_at(
                pu as int,
                pv as int,
            ) == spec_pixel_after(
                spec_projected(*m, *triangle, *cfg),
                cfg.light_direction,
                *old(mesh_img),
                *old(z_buffer),
                (pu, pv),
            ),
        spec_face_visible(*m, *triangle, cfg.light_direction) ==> forall|pu: u16, pv: u16|
            old(mesh_img).in_bounds(pu as int, pv as int) ==> #[trigger] final(z_buffer).entry_at(
                pu as int,
                pv as int,
            ) == spec_entry_after(spec_projected(*m, *triangle, *cfg), *old(z_buffer), (pu, pv)),
{
    if m.triangle_is_backface(triangle, cfg.light_direction) {
        return ;
    }
    let p0 = m.v_positions.get_at(triangle.vertices[0]);
    let p1 = m.v_positions.get_at(triangle.vertices[1]);
    let p2 = m.v_positions.get_at(triangle.vertices[2]);
    let n0 = m.v_normals.get_at(triangle.normals[0]);
    let n1 = m.v_normals.get_at(triangle.normals[1]);
    let n2 = m.v_normals.get_at(triangle.normals[2]);
    let pt = ProjectedTriangle {
        sx: [
            project_vertex(p0.x, cfg.x_offset, cfg.x_scale_num, cfg.x_scale_den),
            project_vertex(p1.x, cfg.x_offset, cfg.x_scale_num, cfg.x_scale_den),
            project_vertex(p2.x, cfg.x_offset, cfg.x_scale_num, cfg.x_scale_den),
        ],
        sy: [
            project_vertex(p0.y, cfg.y_offset, cfg.y_scale_num, cfg.y_scale_den),
            project_vertex(p1.y, cfg.y_offset, cfg.y_scale_num, cfg.y_scale_den),
            project_vertex(p2.y, cfg.y_offset, cfg.y_scale_num, cfg.y_scale_den),
        ],
        z: [p0.z, p1.z, p2.z],
        n: [n0, n1, n2],
    };
    proof {
        assert(pt == spec_projected(*m, *triangle, *cfg));
        assert(pt.wf());
    }
    raster_projected(&pt, cfg.light_direction, mesh_img, z_buffer);
}

/// Draws a half-open line segment; see `line_drawer::line`, which this
/// drawer re-exposes alongside the shaded pipeline.
pub fn line(x0: u16, y0: u16, x1: u16, y1: u16, img: &mut Image, color: Rgb)
    requires
        old(img).wf(),
    ensures
        final(img).wf(),
        final(img).width == old(img).width,
        final(img).height == old(img).height,
        forall|u: int, v: int|
            old(img).in_bounds(u, v) ==> #[trigger] final(img).pixel_at(u, v) == (
            if crate::line_drawer::spec_line_covers(x0, y0, x1, y1, u, v) {
                color
            } else {
                old(img).pixel_at(u, v)
            }),
{
    crate::line_drawer::line(x0, y0, x1, y1, img, color);
}

/// The camera box of `camera_box`, as a function of its inputs: the
/// shorter axis grown to the viewport's ratio, the result recentred on the
/// box's centre, extents kept exactly.
pub open spec fn spec_camera(bb: BoundingBox3D, sw: int, sh: int) -> ((int, int), (int, int)) {
    let w0 = bb.max_x - bb.min_x;
    let h0 = bb.max_y - bb.min_y;
    let wide = w0 * sh > h0 * sw;
    let w1 = if wide {
        w0
    } else {
        h0 * sw / sh
    };
    let h1 = if wide {
        w0 * sh / sw
    } else {
        h0
    };
    let min_x = (bb.min_x + bb.max_x) / 2 - w1 / 2;
    let min_y = (bb.min_y + bb.max_y) / 2 - h1 / 2;
    ((min_x, min_y), (min_x + w1, min_y + h1))
}

/// Fits a world bounding box into a viewport of the given aspect ratio:
/// the shorter axis is grown — never shrunk — until the box has the
/// viewport's width-to-height ratio, then the result is recentred on the
/// box's centre.  For a box narrower than the viewport ratio the output
/// width is exactly `height * width_ratio` in floor arithmetic.
pub fn camera_box(bb: &BoundingBox3D, screen_width: u16, screen_height: u16) -> (r: (
    (i64, i64),
    (i64, i64),
))
    requires
        bb.wf(3 * crate::COORD_LIMIT as int),
        screen_width >= 1,
        screen_height >= 1,
    ensures
        ({
            let w0 = bb.max_x - bb.min_x;
            let h0 = bb.max_y - bb.min_y;
            let sw = screen_width as int;
            let sh = screen_height as int;
            let wide = w0 * sh > h0 * sw;
            let w1 = if wide {
                w0
            } else {
                h0 * sw / sh
            };
            let h1 = if wide {
                w0 * sh / sw
            } else {
                h0
            };
            let cx = (bb.min_x + bb.max_x) / 2;
            let cy = (bb.min_y + bb.max_y) / 2;
            &&& r.0.0 == cx - w1 / 2
            &&& r.0.1 == cy - h1 / 2
            &&& r.1.0 == r.0.0 + w1
            &&& r.1.1 == r.0.1 + h1
            &&& w1 >= w0
            &&& h1 >= h0
            &&& !wide ==> w1 == h0 * sw / sh
            &&& wide ==> h1 == w0 * sh / sw
        }),
        (r.0.0 as int, r.0.1 as int) == spec_camera(
            *bb,
            screen_width as int,
            screen_height as int,
        ).0,
        (r.1.0 as int, r.1.1 as int) == spec_camera(
            *bb,
            screen_width as int,
            screen_height as int,
        ).1,
{
    let w0: i64 = bb.max_x - bb.min_x;
    let h0: i64 = bb.max_y - bb.min_y;
    let sw: i64 = screen_width as i64;
    let sh: i64 = screen_height as i64;
    proof {
        lemma_mul_bounds(w0 as int, sh as int, 6 * crate::COORD_LIMIT as int, 0x1_0000);
        lemma_mul_bounds(h0 as int, sw as int, 6 * crate::COORD_LIMIT as int, 0x1_0000);
    }
    let wide: bool = w0 * sh > h0 * sw;
    let w1: i64;
    let h1: i64;
    if wide {
        w1 = w0;
        h1 = div_floor(w0 * sh, sw);
        proof {
            vstd::arithmetic::div_mod::lemma_div_by_multiple(h0 as int, sw as int);
            vstd::arithmetic::div_mod::lemma_div_is_ordered(
                h0 as int * sw,
                w0 as int * sh,
                sw as int,
            );
        }
    } else {
        w1 = div_floor(h0 * sw, sh);
        h1 = h0;
        proof {
            vstd::arithmetic::div_mod::lemma_div_by_multiple(w0 as int, sh as int);
            vstd::arithmetic::div_mod::lemma_div_is_ordered(
                w0 as int * sh,
                h0 as int * sw,
                sh as int,
            );
        }
    }
    let cx: i64 = div_floor(bb.min_x + bb.max_x, 2);
    let cy: i64 = div_floor(bb.min_y + bb.max_y, 2);
    let hw: i64 = div_floor(w1, 2);
    let hh: i64 = div_floor(h1, 2);
    ((cx - hw, cy - hh), (cx - hw + w1, cy - hh + h1))
}

/// The colour of the `i`-th row-major pixel after one triangle's pass over
/// the planes `pix`/`dep` of width `w`.
pub open spec fn spec_step_pixel(
    pt: ProjectedTriangle,
    light: Point3D,
    w: int,
    pix: Seq<Rgb>,
    dep: Seq<DepthEntry>,
    i: int,
) -> Rgb {
    let p = ((i % w) as u16, (i / w) as u16);
    if spec_scan_written_at(pt, dep[i], p) {
        spec_shade_rgb(spec_shade(pt, light, p))
    } else {
        pix[i]
    }
}

/// The depth cell of the `i`-th row-major pixel after one triangle's pass.
pub open spec fn spec_step_entry(
    pt: ProjectedTriangle,
    w: int,
    dep: Seq<DepthEntry>,
    i: int,
) -> DepthEntry {
    let p = ((i % w) as u16, (i / w) as u16);
    if spec_scan_written_at(pt, dep[i], p) {
        spec_frag_entry(pt, p)
    } else {
        dep[i]
    }
}

/// Both planes after one triangle's pass.
pub open spec fn spec_render_step(
    pt: ProjectedTriangle,
    light: Point3D,
    w: int,
    pix: Seq<Rgb>,
    dep: Seq<DepthEntry>,
) -> (Seq<Rgb>, Seq<DepthEntry>) {
    (
        Seq::new(pix.len(), |i: int| spec_step_pixel(pt, light, w, pix, dep, i)),
        Seq::new(dep.len(), |i: int| spec_step_entry(pt, w, dep, i)),
    )
}

/// The pixel and depth planes after rasterizing the first `n` triangles of
/// the mesh, in order, starting from a black image and an empty depth
/// record: the whole shaded render is the fold of the per-triangle pass.
pub open spec fn spec_render(m: Mesh, cfg: RenderConfig, n: int) -> (Seq<Rgb>, Seq<DepthEntry>)
    decreases n,
{
    if n <= 0 {
        (
            Seq::new((cfg.width * cfg.height) as nat, |i: int| spec_shade_rgb(0)),
            Seq::new((cfg.width * cfg.height) as nat, |i: int| DepthEntry { num: 0, den: 0 }),
        )
    } else {
        let prev = spec_render(m, cfg, n - 1);
        let t = m.triangles@[n - 1];
        if spec_face_visible(m, t, cfg.light_direction) {
            spec_render_step(
                spec_projected(m, t, cfg),
                cfg.light_direction,
                cfg.width as int,
                prev.0,
                prev.1,
            )
        } else {
            prev
        }
    }
}

/// One triangle's buffer-level pass agrees with the seq-level fold step:
/// pixels and cells indexed row-major match the per-pixel description.
proof fn lemma_render_step_matches(
    pt: ProjectedTriangle,
    light: Point3D,
    img_prev: Image,
    zb_prev: DepthBuffer,
    img_cur: Image,
    zb_cur: DepthBuffer,
    j: int,
)
    requires
        img_prev.wf(),
        zb_prev.wf(),
        img_cur.wf(),
        zb_cur.wf(),
        zb_prev.width == img_prev.width,
        zb_prev.height == img_prev.height,
        img_cur.width == img_prev.width,
        img_cur.height == img_prev.height,
        zb_cur.width == img_prev.width,
        zb_cur.height == img_prev.height,
        0 <= j < img_prev.pixels@.len(),
        forall|pu: u16, pv: u16|
            img_prev.in_bounds(pu as int, pv as int) ==> #[trigger] img_cur.pixel_at(
                pu as int,
                pv as int,
            ) == spec_pixel_after(pt, light, img_prev, zb_prev, (pu, pv)),
        forall|pu: u16, pv: u16|
            img_prev.in_bounds(pu as int, pv as int) ==> #[trigger] zb_cur.entry_at(
                pu as int,
                pv as int,
            ) == spec_entry_after(pt, zb_prev, (pu, pv)),
    ensures
        img_cur.pixels@[j] == spec_step_pixel(
            pt,
            light,
            img_prev.width as int,
            img_prev.pixels@,
            zb_prev.entries@,
            j,
        ),
        zb_cur.entries@[j] == spec_step_entry(
            pt,
            img_prev.width as int,
            zb_prev.entries@,
            j,
        ),
{
    let w = img_prev.width as int;
    let h = img_prev.height as int;
    assert(w * h == img_prev.pixels@.len());
    assert(w > 0) by (nonlinear_arith)
        requires
            0 <= j < w * h && w >= 0,
    ;
    vstd::arithmetic::div_mod::lemma_fundamental_div_mod(j, w);
    vstd::arithmetic::div_mod::lemma_mod_bound(j, w);
    let u = j % w;
    let v = j / w;
    assert(v < h) by (nonlinear_arith)
        requires
            j == w * v + u && 0 <= u < w && j < w * h && w > 0,
    ;
    assert(v >= 0) by (nonlinear_arith)
        requires
            j == w * v + u && 0 <= u < w && j >= 0 && w > 0,
    ;
    let pu: u16 = u as u16;
    let pv: u16 = v as u16;
    assert(img_prev.in_bounds(pu as int, pv as int));
    assert(pix_index(w, pu as int, pv as int) == j);
    assert(img_cur.pixel_at(pu as int, pv as int) == spec_pixel_after(
        pt,
        light,
        img_prev,
        zb_prev,
        (pu, pv),
    ));
    assert(zb_cur.entry_at(pu as int, pv as int) == spec_entry_after(pt, zb_prev, (pu, pv)));
}

/// The projection of a valid triangle of a well-formed mesh is itself
/// well formed: depths and normals stay within the pipeline's bounds.
pub proof fn lemma_spec_projected_wf(m: Mesh, t: Triangle, cfg: RenderConfig)
    requires
        m.wf(),
        t.valid(m.v_positions.len(), m.v_normals.len(), m.v_textures.len()),
    ensures
        spec_projected(m, t, cfg).wf(),
{
}

/// Depth-test idempotence at the pass level: applying one triangle's pass
/// twice to any planes yields the same planes as applying it once — each
/// repeated fragment fails the strict depth test against its own depth.
pub proof fn lemma_render_step_idempotent(
    pt: ProjectedTriangle,
    light: Point3D,
    w: int,
    pix: Seq<Rgb>,
    dep: Seq<DepthEntry>,
)
    requires
        pt.wf(),
        pix.len() == dep.len(),
    ensures
        spec_render_step(
            pt,
            light,
            w,
            spec_render_step(pt, light, w, pix, dep).0,
            spec_render_step(pt, light, w, pix, dep).1,
        ) == spec_render_step(pt, light, w, pix, dep),
{
    let once = spec_render_step(pt, light, w, pix, dep);
    let twice = spec_render_step(pt, light, w, once.0, once.1);
    assert forall|i: int| 0 <= i < pix.len() implies twice.0[i] == once.0[i] && twice.1[i]
        == once.1[i] by {
        let p = ((i % w) as u16, (i / w) as u16);
        lemma_frag_entry_exact(pt, p);
        if spec_scan_written_at(pt, dep[i], p) {
            assert(once.1[i] == spec_frag_entry(pt, p));
            assert(!spec_depth_gt(spec_frag_depth_num(pt, p), spec_bary(pt, p).3, once.1[i]));
        }
    }
    assert(twice.0 =~= once.0);
    assert(twice.1 =~= once.1);
}

/// Rasterizing the same triangle twice in a row changes nothing: when
/// triangle `n` of the mesh repeats triangle `n - 1`, the planes after
/// `n + 1` passes equal the planes after `n` — the depth-test idempotence
/// law at the whole-render level.
pub proof fn lemma_render_duplicate_last(m: Mesh, cfg: RenderConfig, n: int)
    requires
        m.wf(),
        1 <= n < m.triangles@.len(),
        m.triangles@[n] == m.triangles@[n - 1],
    ensures
        spec_render(m, cfg, n + 1) == spec_render(m, cfg, n),
{
    let t = m.triangles@[n];
    assert(t.valid(m.v_positions.len(), m.v_normals.len(), m.v_textures.len()));
    lemma_spec_projected_wf(m, t, cfg);
    let before = spec_render(m, cfg, n - 1);
    if spec_face_visible(m, t, cfg.light_direction) {
        lemma_render_lens(m, cfg, n - 1);
        lemma_render_step_idempotent(
            spec_projected(m, t, cfg),
            cfg.light_direction,
            cfg.width as int,
            before.0,
            before.1,
        );
    }
}

/// Both planes of the render fold keep the full pixel count.
proof fn lemma_render_lens(m: Mesh, cfg: RenderConfig, n: int)
    ensures
        spec_render(m, cfg, n).0.len() == cfg.width * cfg.height,
        spec_render(m, cfg, n).1.len() == cfg.width * cfg.height,
    decreases n,
{
    if n > 0 {
        lemma_render_lens(m, cfg, n - 1);
    }
}

/// Order independence at the pass level: at a pixel covered by two
/// triangles whose depth record starts empty, with `pt_a`'s fragment
/// strictly nearer than `pt_b`'s, the pixel shows `pt_a`'s shade after
/// both passes, whichever ran first.
pub proof fn lemma_render_order_independent(
    pt_a: ProjectedTriangle,
    pt_b: ProjectedTriangle,
    light: Point3D,
    w: int,
    pix: Seq<Rgb>,
    dep: Seq<DepthEntry>,
    i: int,
)
    requires
        pt_a.wf(),
        pt_b.wf(),
        pix.len() == dep.len(),
        0 <= i < pix.len(),
        dep[i].den == 0,
        ({
            let p = ((i % w) as u16, (i / w) as u16);
            &&& spec_in_bbox(pt_a, p)
            &&& spec_covered(pt_a, p)
            &&& spec_in_bbox(pt_b, p)
            &&& spec_covered(pt_b, p)
            &&& spec_frag_depth_num(pt_a, p) * spec_bary(pt_b, p).3 > spec_frag_depth_num(
                pt_b,
                p,
            ) * spec_bary(pt_a, p).3
        }),
    ensures
        ({
            let p = ((i % w) as u16, (i / w) as u16);
            let after_a = spec_render_step(pt_a, light, w, pix, dep);
            let after_ab = spec_render_step(pt_b, light, w, after_a.0, after_a.1);
            let after_b = spec_render_step(pt_b, light, w, pix, dep);
            let after_ba = spec_render_step(pt_a, light, w, after_b.0, after_b.1);
            &&& after_ab.0[i] == spec_shade_rgb(spec_shade(pt_a, light, p))
            &&& after_ba.0[i] == spec_shade_rgb(spec_shade(pt_a, light, p))
        }),
{
    let p = ((i % w) as u16, (i / w) as u16);
    lemma_frag_entry_exact(pt_a, p);
    lemma_frag_entry_exact(pt_b, p);
    let after_a = spec_render_step(pt_a, light, w, pix, dep);
    assert(after_a.1[i] == spec_frag_entry(pt_a, p));
    assert(!spec_depth_gt(spec_frag_depth_num(pt_b, p), spec_bary(pt_b, p).3, after_a.1[i]));
    let after_b = spec_render_step(pt_b, light, w, pix, dep);
    assert(after_b.1[i] == spec_frag_entry(pt_b, p));
    assert(spec_depth_gt(spec_frag_depth_num(pt_a, p), spec_bary(pt_a, p).3, after_b.1[i]));
}

/// A triangle whose projection has zero doubled screen area leaves both
/// planes untouched: the degenerate-triangle law at the pass level.
pub proof fn lemma_render_step_degenerate(
    pt: ProjectedTriangle,
    light: Point3D,
    w: int,
    pix: Seq<Rgb>,
    dep: Seq<DepthEntry>,
)
    requires
        spec_bary_den(pt.corner(0), pt.corner(1), pt.corner(2)) == 0,
        pix.len() == dep.len(),
    ensures
        spec_render_step(pt, light, w, pix, dep) == (pix, dep),
{
    let step = spec_render_step(pt, light, w, pix, dep);
    assert forall|i: int| 0 <= i < pix.len() implies step.0[i] == pix[i] && step.1[i]
        == dep[i] by {
        let p = ((i % w) as u16, (i / w) as u16);
        assert(!spec_scan_written_at(pt, dep[i], p));
    }
    assert(step.0 =~= pix);
    assert(step.1 =~= dep);
}

/// Renders a shaded, depth-correct image of the mesh: every triangle is
/// scan-converted against one shared depth buffer, so at each pixel the
/// nearest lit fragment wins regardless of triangle order.  The resulting
/// pixels are exactly the fold of the per-triangle raster pass over the
/// mesh's triangles — the render is a deterministic function of the mesh
/// and the configuration.
pub fn mesh(m: &Mesh, cfg: &RenderConfig) -> (img: Image)
    requires
        m.wf(),
        cfg.wf(),
    ensures
        img.wf(),
        img.width == cfg.width,
        img.height == cfg.height,
        img.pixels@ == spec_render(*m, *cfg, m.triangles@.len() as int).0,
{
    let mut mesh_img: Image = Image::new(cfg.width, cfg.height, Rgb { r: 0, g: 0, b: 0 });
    let mut z_buffer: DepthBuffer = DepthBuffer::new(cfg.width, cfg.height);
    proof {
        assert(mesh_img.pixels@ =~= spec_render(*m, *cfg, 0).0);
        assert(z_buffer.entries@ =~= spec_render(*m, *cfg, 0).1);
    }
    let n: usize = m.triangles.len();
    for i in 0..n
        invariant
            mesh_img.wf(),
            mesh_img.width == cfg.width,
            mesh_img.height == cfg.height,
            z_buffer.wf(),
            z_buffer.width == cfg.width,
            z_buffer.height == cfg.height,
            m.wf(),
            cfg.wf(),
            n == m.triangles@.len(),
            mesh_img.pixels@ == spec_render(*m, *cfg, i as int).0,
            z_buffer.entries@ == spec_render(*m, *cfg, i as int).1,
    {
        let t: Triangle = m.triangles[i];
        let ghost img_prev: Image = mesh_img;
        let ghost zb_prev: DepthBuffer = z_buffer;
        raster_triangle(&t, m, &mut mesh_img, &mut z_buffer, cfg);
        proof {
            if spec_face_visible(*m, t, cfg.light_direction) {
                let pt = spec_projected(*m, t, *cfg);
                let step = spec_render_step(
                    pt,
                    cfg.light_direction,
                    cfg.width as int,
                    img_prev.pixels@,
                    zb_prev.entries@,
                );
                assert forall|j: int| 0 <= j < mesh_img.pixels@.len() implies mesh_img.pixels@[j]
                    == step.0[j] && z_buffer.entries@[j] == step.1[j] by {
                    lemma_render_step_matches(
                        pt,
                        cfg.light_direction,
                        img_prev,
                        zb_prev,
                        mesh_img,
                        z_buffer,
                        j,
                    );
                }
                assert(mesh_img.pixels@ =~= step.0);
                assert(z_buffer.entries@ =~= step.1);
            }
            assert(mesh_img.pixels@ == spec_render(*m, *cfg, i + 1).0);
            assert(z_buffer.entries@ == spec_render(*m, *cfg, i + 1).1);
        }
    }
    mesh_img
}

/// `x` clamped to `[lo, hi]`, at the spec level.
pub open spec fn spec_clamp(x: int, lo: int, hi: int) -> int {
    if x < lo {
        lo
    } else if x > hi {
        hi
    } else {
        x
    }
}

/// The tight bounding box of the mesh's vertex positions.
pub open spec fn spec_wire_box(m: Mesh) -> BoundingBox3D {
    BoundingBox3D {
        min_x: crate::mesh::seq_min(m.v_positions.xs@) as i64,
        min_y: crate::mesh::seq_min(m.v_positions.ys@) as i64,
        min_z: crate::mesh::seq_min(m.v_positions.zs@) as i64,
        max_x: crate::mesh::seq_max(m.v_positions.xs@) as i64,
        max_y: crate::mesh::seq_max(m.v_positions.ys@) as i64,
        max_z: crate::mesh::seq_max(m.v_positions.zs@) as i64,
    }
}

/// A bounding box grown by `pct` percent about its centre, as `pad` does.
pub open spec fn spec_padded(bb: BoundingBox3D, pct: int) -> BoundingBox3D {
    BoundingBox3D {
        min_x: (bb.min_x - crate::bounding_box::pad_amount(bb.max_x - bb.min_x, pct)) as i64,
        max_x: (bb.max_x + crate::bounding_box::pad_amount(bb.max_x - bb.min_x, pct)) as i64,
        min_y: (bb.min_y - crate::bounding_box::pad_amount(bb.max_y - bb.min_y, pct)) as i64,
        max_y: (bb.max_y + crate::bounding_box::pad_amount(bb.max_y - bb.min_y, pct)) as i64,
        min_z: (bb.min_z - crate::bounding_box::pad_amount(bb.max_z - bb.min_z, pct)) as i64,
        max_z: (bb.max_z + crate::bounding_box::pad_amount(bb.max_z - bb.min_z, pct)) as i64,
    }
}

/// The per-axis camera parameters the wireframe derives — `(offset,
/// scale numerator, scale denominator)` for `x` and for `y` — from the
/// 10-percent-padded bounding box framed into the viewport, with the
/// offset and extent clamped into the pipeline's coordinate bounds.
pub open spec fn spec_wire_params(m: Mesh, cfg: RenderConfig) -> ((int, int, int), (int, int, int)) {
    let cam = spec_camera(spec_padded(spec_wire_box(m), 10), cfg.width as int, cfg.height as int);
    let lim = 3 * crate::COORD_LIMIT as int;
    let off_x = -spec_clamp(cam.0.0, -lim, lim);
    let off_y = -spec_clamp(cam.0.1, -lim, lim);
    let num_x: int = if cfg.width >= 2 {
        cfg.width - 1
    } else {
        1
    };
    let num_y: int = if cfg.height >= 2 {
        cfg.height - 1
    } else {
        1
    };
    let den_x = spec_clamp(cam.1.0 - cam.0.0, 1, crate::COORD_LIMIT as int);
    let den_y = spec_clamp(cam.1.1 - cam.0.1, 1, crate::COORD_LIMIT as int);
    ((off_x, num_x, den_x), (off_y, num_y, den_y))
}

/// The screen position of corner `k` of a triangle under the wireframe's
/// camera map.
pub open spec fn spec_wire_vertex(m: Mesh, cfg: RenderConfig, t: Triangle, k: int) -> (u16, u16) {
    let px = spec_wire_params(m, cfg).0;
    let py = spec_wire_params(m, cfg).1;
    (
        spec_project(m.spec_position(t.vertices[k] as int).x as int, px.0, px.1, px.2) as u16,
        spec_project(m.spec_position(t.vertices[k] as int).y as int, py.0, py.1, py.2) as u16,
    )
}

/// Whether the drawn edge from corner `k` to the next corner of triangle
/// `t` covers the pixel `(u, v)`.
pub open spec fn spec_edge_covers(
    m: Mesh,
    cfg: RenderConfig,
    t: Triangle,
    k: int,
    u: int,
    v: int,
) -> bool {
    let a = spec_wire_vertex(m, cfg, t, k);
    let b = spec_wire_vertex(
        m,
        cfg,
        t,
        if k == 2 {
            0
        } else {
            k + 1
        },
    );
    crate::line_drawer::spec_line_covers(a.0, a.1, b.0, b.1, u, v)
}

/// Whether any edge of the first `n` triangles covers the pixel.
pub open spec fn spec_wire_covers_upto(m: Mesh, cfg: RenderConfig, n: int, u: int, v: int) -> bool {
    exists|ti: int, k: int|
        0 <= ti < n && 0 <= k < 3 && #[trigger] spec_edge_covers(
            m,
            cfg,
            m.triangles@[ti],
            k,
            u,
            v,
        )
}

/// Whether any triangle edge of the mesh covers the pixel.
pub open spec fn spec_wire_covers(m: Mesh, cfg: RenderConfig, u: int, v: int) -> bool {
    spec_wire_covers_upto(m, cfg, m.triangles@.len() as int, u, v)
}

/// Renders a wireframe projection of the mesh: the padded bounding box is
/// framed into the viewport, and each triangle's three edges are drawn as
/// white line segments on black.  A pixel is white exactly when some
/// triangle edge's rasterized segment covers it.
pub fn wireframe(m: &Mesh, cfg: &RenderConfig) -> (img: Image)
    requires
        m.wf(),
        m.v_positions.len() > 0,
        cfg.wf(),
        cfg.width >= 1,
        cfg.height >= 1,
    ensures
        img.wf(),
        img.width == cfg.width,
        img.height == cfg.height,
        forall|u: int, v: int|
            img.in_bounds(u, v) ==> #[trigger] img.pixel_at(u, v) == (if spec_wire_covers(
                *m,
                *cfg,
                u,
                v,
            ) {
                Rgb { r: 255, g: 255, b: 255 }
            } else {
                Rgb { r: 0, g: 0, b: 0 }
            }),
{
    let white = Rgb { r: 255, g: 255, b: 255 };
    let mut bb: BoundingBox3D = m.bounding_box();
    proof {
        assert(bb == spec_wire_box(*m));
    }
    let ghost bb0: BoundingBox3D = bb;
    bb.pad(10);
    proof {
        assert(bb == spec_padded(bb0, 10));
    }
    let ((cam_min_x, cam_min_y), (cam_max_x, cam_max_y)) = camera_box(&bb, cfg.width, cfg.height);

    let off_x: i64 = -clamp_i64(cam_min_x, -3 * crate::COORD_LIMIT, 3 * crate::COORD_LIMIT);
    let off_y: i64 = -clamp_i64(cam_min_y, -3 * crate::COORD_LIMIT, 3 * crate::COORD_LIMIT);
    let num_x: i64 = if cfg.width >= 2 {
        (cfg.width - 1) as i64
    } else {
        1
    };
    let num_y: i64 = if cfg.height >= 2 {
        (cfg.height - 1) as i64
    } else {
        1
    };
    let ex_wide: i128 = cam_max_x as i128 - cam_min_x as i128;
    let ey_wide: i128 = cam_max_y as i128 - cam_min_y as i128;
    let den_x: i64 = if ex_wide < 1 {
        1
    } else if ex_wide > crate::COORD_LIMIT as i128 {
        crate::COORD_LIMIT
    } else {
        ex_wide as i64
    };
    let den_y: i64 = if ey_wide < 1 {
        1
    } else if ey_wide > crate::COORD_LIMIT as i128 {
        crate::COORD_LIMIT
    } else {
        ey_wide as i64
    };

    proof {
        assert((off_x as int, num_x as int, den_x as int) == spec_wire_params(*m, *cfg).0);
        assert((off_y as int, num_y as int, den_y as int) == spec_wire_params(*m, *cfg).1);
    }
    let mut mesh_img: Image = Image::new(cfg.width, cfg.height, Rgb { r: 0, g: 0, b: 0 });
    let n: usize = m.triangles.len();
    for i in 0..n
        invariant
            mesh_img.wf(),
            mesh_img.width == cfg.width,
            mesh_img.height == cfg.height,
            m.wf(),
            cfg.wf(),
            n == m.triangles@.len(),
            -3 * crate::COORD_LIMIT <= off_x <= 3 * crate::COORD_LIMIT,
            -3 * crate::COORD_LIMIT <= off_y <= 3 * crate::COORD_LIMIT,
            0 < num_x <= 0x1_0000,
            0 < num_y <= 0x1_0000,
            0 < den_x <= crate::COORD_LIMIT,
            0 < den_y <= crate::COORD_LIMIT,
            (off_x as int, num_x as int, den_x as int) == spec_wire_params(*m, *cfg).0,
            (off_y as int, num_y as int, den_y as int) == spec_wire_params(*m, *cfg).1,
            white == (Rgb { r: 255, g: 255, b: 255 }),
            forall|u: int, v: int|
                mesh_img.in_bounds(u, v) ==> #[trigger] mesh_img.pixel_at(u, v) == (
                if spec_wire_covers_upto(*m, *cfg, i as int, u, v) {
                    Rgb { r: 255, g: 255, b: 255 }
                } else {
                    Rgb { r: 0, g: 0, b: 0 }
                }),
    {
        let t: Triangle = m.triangles[i];
        let p0 = m.v_positions.get_at(t.vertices[0]);
        let p1 = m.v_positions.get_at(t.vertices[1]);
        let p2 = m.v_positions.get_at(t.vertices[2]);
        let x0 = project_vertex(p0.x, off_x, num_x, den_x);
        let y0 = project_vertex(p0.y, off_y, num_y, den_y);
        let x1 = project_vertex(p1.x, off_x, num_x, den_x);
        let y1 = project_vertex(p1.y, off_y, num_y, den_y);
        let x2 = project_vertex(p2.x, off_x, num_x, den_x);
        let y2 = project_vertex(p2.y, off_y, num_y, den_y);
        proof {
            assert((x0, y0) == spec_wire_vertex(*m, *cfg, t, 0));
            assert((x1, y1) == spec_wire_vertex(*m, *cfg, t, 1));
            assert((x2, y2) == spec_wire_vertex(*m, *cfg, t, 2));
        }
        let ghost img_a: Image = mesh_img;
        line(x0, y0, x1, y1, &mut mesh_img, white);
        let ghost img_b: Image = mesh_img;
        line(x1, y1, x2, y2, &mut mesh_img, white);
        let ghost img_c: Image = mesh_img;
        line(x2, y2, x0, y0, &mut mesh_img, white);
        proof {
            assert forall|u: int, v: int| mesh_img.in_bounds(u, v) implies #[trigger] mesh_img.pixel_at(
                u,
                v,
            ) == (if spec_wire_covers_upto(*m, *cfg, i as int + 1, u, v) {
                Rgb { r: 255, g: 255, b: 255 }
            } else {
                Rgb { r: 0, g: 0, b: 0 }
            }) by {
                let lc0 = spec_edge_covers(*m, *cfg, m.triangles@[i as int], 0, u, v);
                let lc1 = spec_edge_covers(*m, *cfg, m.triangles@[i as int], 1, u, v);
                let lc2 = spec_edge_covers(*m, *cfg, m.triangles@[i as int], 2, u, v);
                assert(img_b.pixel_at(u, v) == (if lc0 {
                    white
                } else {
                    img_a.pixel_at(u, v)
                }));
                assert(img_c.pixel_at(u, v) == (if lc1 {
                    white
                } else {
                    img_b.pixel_at(u, v)
                }));
                assert(mesh_img.pixel_at(u, v) == (if lc2 {
                    white
                } else {
                    img_c.pixel_at(u, v)
                }));
                if spec_wire_covers_upto(*m, *cfg, i as int + 1, u, v) {
                    let (ti, k) = choose|ti: int, k: int|
                        0 <= ti < i as int + 1 && 0 <= k < 3 && #[trigger] spec_edge_covers(
                            *m,
                            *cfg,
                            m.triangles@[ti],
                            k,
                            u,
                            v,
                        );
                    if ti < i as int {
                        assert(spec_wire_covers_upto(*m, *cfg, i as int, u, v));
                    }
                } else {
                    assert(!lc0 && !lc1 && !lc2) by {
                        if lc0 {
                            assert(spec_wire_covers_upto(*m, *cfg, i as int + 1, u, v));
                        }
                        if lc1 {
                            assert(spec_wire_covers_upto(*m, *cfg, i as int + 1, u, v));
                        }
                        if lc2 {
                            assert(spec_wire_covers_upto(*m, *cfg, i as int + 1, u, v));
                        }
                    }
                    assert(!spec_wire_covers_upto(*m, *cfg, i as int, u, v));
                }
            }
        }
    }
    mesh_img
}

/// `x` clamped to `[lo, hi]`.
fn clamp_i64(x: i64, lo: i64, hi: i64) -> (r: i64)
    requires
        lo <= hi,
    ensures
        lo <= r <= hi,
        r == (if x < lo {
            lo
        } else if x > hi {
            hi
        } else {
            x
        }),
{
    if x < lo {
        lo
    } else if x > hi {
        hi
    } else {
        x
    }
}

/// One scan step preserves the visited-pixel description: after the pixel
/// `c` is processed, every pixel `p` matches the description with the
/// visited region grown by `c`.
proof fn lemma_scan_step(
    pt: ProjectedTriangle,
    light: Point3D,
    img0: Image,
    zb0: DepthBuffer,
    img_prev: Image,
    zb_prev: DepthBuffer,
    img_cur: Image,
    zb_cur: DepthBuffer,
    ucur: int,
    vcur: int,
    c: (u16, u16),
    p: (u16, u16),
)
    requires
        img0.wf(),
        zb0.wf(),
        img_prev.wf(),
        zb_prev.wf(),
        img_cur.width == img0.width,
        img_cur.height == img0.height,
        zb_cur.width == img0.width,
        zb_cur.height == img0.height,
        img_prev.width == img0.width,
        img_prev.height == img0.height,
        zb_prev.width == img0.width,
        zb_prev.height == img0.height,
        zb0.width == img0.width,
        zb0.height == img0.height,
        img0.in_bounds(p.0 as int, p.1 as int),
        c.0 as int == ucur,
        c.1 as int == vcur,
        spec_in_bbox(pt, c),
        img_prev.pixel_at(p.0 as int, p.1 as int) == (if scan_visited(pt, ucur, vcur, p) {
            spec_pixel_after(pt, light, img0, zb0, p)
        } else {
            img0.pixel_at(p.0 as int, p.1 as int)
        }),
        zb_prev.entry_at(p.0 as int, p.1 as int) == (if scan_visited(pt, ucur, vcur, p) {
            spec_entry_after(pt, zb0, p)
        } else {
            zb0.entry_at(p.0 as int, p.1 as int)
        }),
        img0.in_bounds(c.0 as int, c.1 as int) ==> zb_prev.entry_at(c.0 as int, c.1 as int)
            == zb0.entry_at(c.0 as int, c.1 as int),
        ({
            let wr = img0.in_bounds(c.0 as int, c.1 as int) && spec_pixel_written(
                pt,
                zb_prev.entry_at(c.0 as int, c.1 as int),
                c,
            );
            let idx = pix_index(img0.width as int, c.0 as int, c.1 as int);
            &&& img_cur.pixels@ == (if wr {
                img_prev.pixels@.update(idx, spec_shade_rgb(spec_shade(pt, light, c)))
            } else {
                img_prev.pixels@
            })
            &&& zb_cur.entries@ == (if wr {
                zb_prev.entries@.update(idx, spec_frag_entry(pt, c))
            } else {
                zb_prev.entries@
            })
        }),
    ensures
        img_cur.pixel_at(p.0 as int, p.1 as int) == (if scan_visited(pt, ucur, vcur + 1, p) {
            spec_pixel_after(pt, light, img0, zb0, p)
        } else {
            img0.pixel_at(p.0 as int, p.1 as int)
        }),
        zb_cur.entry_at(p.0 as int, p.1 as int) == (if scan_visited(pt, ucur, vcur + 1, p) {
            spec_entry_after(pt, zb0, p)
        } else {
            zb0.entry_at(p.0 as int, p.1 as int)
        }),
{
    let w = img0.width as int;
    let h = img0.height as int;
    crate::image::lemma_pix_index_in_range(w, h, p.0 as int, p.1 as int);
    let j = pix_index(w, p.0 as int, p.1 as int);
    let i = pix_index(w, c.0 as int, c.1 as int);
    if p == c {
        assert(!scan_visited(pt, ucur, vcur, c));
        assert(scan_visited(pt, ucur, vcur + 1, c));
        let wr = spec_pixel_written(pt, zb0.entry_at(c.0 as int, c.1 as int), c);
        if wr {
            assert(img_prev.pixels@.update(i, spec_shade_rgb(spec_shade(pt, light, c)))[i]
                == spec_shade_rgb(spec_shade(pt, light, c)));
            assert(zb_prev.entries@.update(i, spec_frag_entry(pt, c))[i] == spec_frag_entry(
                pt,
                c,
            ));
        }
    } else {
        assert(scan_visited(pt, ucur, vcur + 1, p) == scan_visited(pt, ucur, vcur, p)) by {
            if p.0 as int == ucur && p.1 as int == vcur {
                assert(p.0 == c.0 && p.1 == c.1);
            }
        }
        if img0.in_bounds(c.0 as int, c.1 as int) {
            crate::image::lemma_pix_index_in_range(w, h, c.0 as int, c.1 as int);
            crate::image::lemma_pix_index_injective(w, c.0 as int, c.1 as int, p.0 as int, p.1 as int);
            assert(img_prev.pixels@.update(i, spec_shade_rgb(spec_shade(pt, light, c)))[j]
                == img_prev.pixels@[j]);
            assert(zb_prev.entries@.update(i, spec_frag_entry(pt, c))[j] == zb_prev.entries@[j]);
        }
        assert(img_cur.pixels@[j] == img_prev.pixels@[j]);
        assert(zb_cur.entries@[j] == zb_prev.entries@[j]);
    }
}

/// The interpolated depth numerator and the barycentric values of a pixel
/// of a well-formed projected triangle stay within the depth-buffer
/// bounds, so the stored cell carries them exactly.
pub proof fn lemma_frag_entry_exact(pt: ProjectedTriangle, p: (u16, u16))
    requires
        pt.wf(),
    ensures
        spec_frag_entry(pt, p).num as int == spec_frag_depth_num(pt, p),
        spec_frag_entry(pt, p).den as int == spec_bary(pt, p).3,
        0 <= spec_bary(pt, p).3 <= DEPTH_DEN_LIMIT,
        -DEPTH_NUM_LIMIT <= spec_frag_depth_num(pt, p) <= DEPTH_NUM_LIMIT,
{
    crate::linear_algebra::lemma_bary_bounds(p, pt.corner(0), pt.corner(1), pt.corner(2));
    let (a, b, g, d) = spec_bary(pt, p);
    lemma_mul_bounds(a, pt.z[0] as int, 0x2_0000_0000, crate::COORD_LIMIT as int);
    lemma_mul_bounds(b, pt.z[1] as int, 0x2_0000_0000, crate::COORD_LIMIT as int);
    lemma_mul_bounds(g, pt.z[2] as int, 0x2_0000_0000, crate::COORD_LIMIT as int);
}

/// Depth-test idempotence: a second pass of the same triangle over the
/// buffers its first pass produced changes nothing — at every pixel the
/// repeated fragment fails the strict depth test against its own depth,
/// so rasterizing a triangle twice yields the same image as once.
pub proof fn lemma_raster_idempotent(
    pt: ProjectedTriangle,
    light: Point3D,
    img1: Image,
    zb0: DepthBuffer,
    zb1: DepthBuffer,
    p: (u16, u16),
)
    requires
        pt.wf(),
        zb1.width == zb0.width,
        zb1.height == zb0.height,
        zb1.entry_at(p.0 as int, p.1 as int) == spec_entry_after(pt, zb0, p),
    ensures
        spec_pixel_after(pt, light, img1, zb1, p) == img1.pixel_at(p.0 as int, p.1 as int),
        spec_entry_after(pt, zb1, p) == zb1.entry_at(p.0 as int, p.1 as int),
{
    lemma_frag_entry_exact(pt, p);
    if spec_scan_written(pt, zb0, p) {
        assert(!spec_depth_gt(
            spec_frag_depth_num(pt, p),
            spec_bary(pt, p).3,
            zb1.entry_at(p.0 as int, p.1 as int),
        ));
    }
}

/// Order independence of overlapping triangles: at a pixel covered by two
/// triangles where `pt_a`'s fragment is strictly nearer than `pt_b`'s, the
/// pixel shows `pt_a`'s shade whichever triangle was rasterized first.
/// `img_a`/`zb_a` are the buffers right after `pt_a`'s pass wrote the
/// pixel, `zb_b` right after `pt_b`'s pass wrote it.
pub proof fn lemma_raster_order_independent(
    pt_a: ProjectedTriangle,
    pt_b: ProjectedTriangle,
    light: Point3D,
    img_a: Image,
    zb_a: DepthBuffer,
    img_b: Image,
    zb_b: DepthBuffer,
    p: (u16, u16),
)
    requires
        pt_a.wf(),
        pt_b.wf(),
        spec_in_bbox(pt_a, p),
        spec_in_bbox(pt_b, p),
        spec_covered(pt_a, p),
        spec_covered(pt_b, p),
        // pt_a's fragment is strictly nearer, as rationals
        spec_frag_depth_num(pt_a, p) * spec_bary(pt_b, p).3 > spec_frag_depth_num(pt_b, p)
            * spec_bary(pt_a, p).3,
        // after pt_a was rasterized first:
        img_a.pixel_at(p.0 as int, p.1 as int) == spec_shade_rgb(spec_shade(pt_a, light, p)),
        zb_a.entry_at(p.0 as int, p.1 as int) == spec_frag_entry(pt_a, p),
        // after pt_b was rasterized first:
        zb_b.entry_at(p.0 as int, p.1 as int) == spec_frag_entry(pt_b, p),
    ensures
        spec_pixel_after(pt_b, light, img_a, zb_a, p) == spec_shade_rgb(
            spec_shade(pt_a, light, p),
        ),
        spec_pixel_after(pt_a, light, img_b, zb_b, p) == spec_shade_rgb(
            spec_shade(pt_a, light, p),
        ),
{
    lemma_frag_entry_exact(pt_a, p);
    lemma_frag_entry_exact(pt_b, p);
    assert(!spec_depth_gt(
        spec_frag_depth_num(pt_b, p),
        spec_bary(pt_b, p).3,
        zb_a.entry_at(p.0 as int, p.1 as int),
    ));
    assert(spec_depth_gt(
        spec_frag_depth_num(pt_a, p),
        spec_bary(pt_a, p).3,
        zb_b.entry_at(p.0 as int, p.1 as int),
    ));
}

/// A degenerate triangle — zero doubled screen area — covers no pixel, so
/// rasterizing it writes nothing, and the scan reaches no division by its
/// zero denominator.
pub proof fn lemma_degenerate_writes_nothing(pt: ProjectedTriangle, zb0: DepthBuffer, p: (u16, u16))
    requires
        spec_bary_den(pt.corner(0), pt.corner(1), pt.corner(2)) == 0,
    ensures
        !spec_scan_written(pt, zb0, p),
{
}

/// The pixels already handled when the scan stands at column `ucur`,
/// row `vcur`: the bounding-box pixels before that point in column-major
/// order.
pub open spec fn scan_visited(pt: ProjectedTriangle, ucur: int, vcur: int, p: (u16, u16)) -> bool {
    &&& spec_in_bbox(pt, p)
    &&& ((p.0 as int) < ucur || ((p.0 as int) == ucur && (p.1 as int) < vcur))
}

/// Scan-converts one projected triangle: every pixel of its screen
/// bounding box is tested, and exactly the covered pixels that pass the
/// depth test take their shade and depth.  Every other pixel of both
/// buffers keeps its value.
pub fn raster_projected(
    pt: &ProjectedTriangle,
    light: Point3D,
    img: &mut Image,
    zbuf: &mut DepthBuffer,
)
    requires
        old(img).wf(),
        old(zbuf).wf(),
        old(zbuf).width == old(img).width,
        old(zbuf).height == old(img).height,
        pt.wf(),
        -crate::NORMAL_LIMIT <= light.x <= crate::NORMAL_LIMIT,
        -crate::NORMAL_LIMIT <= light.y <= crate::NORMAL_LIMIT,
        -crate::NORMAL_LIMIT <= light.z <= crate::NORMAL_LIMIT,
    ensures
        final(img).wf(),
        final(img).width == old(img).width,
        final(img).height == old(img).height,
        final(zbuf).wf(),
        final(zbuf).width == old(zbuf).width,
        final(zbuf).height == old(zbuf).height,
        forall|pu: u16, pv: u16|
            old(img).in_bounds(pu as int, pv as int) ==> #[trigger] final(img).pixel_at(
                pu as int,
                pv as int,
            ) == spec_pixel_after(*pt, light, *old(img), *old(zbuf), (pu, pv)),
        forall|pu: u16, pv: u16|
            old(img).in_bounds(pu as int, pv as int) ==> #[trigger] final(zbuf).entry_at(
                pu as int,
                pv as int,
            ) == spec_entry_after(*pt, *old(zbuf), (pu, pv)),
{
    let ghost img0: Image = *img;
    let ghost zb0: DepthBuffer = *zbuf;
    let bb: BoundingBox2D = BoundingBox2D::get_bounding_box(&pt.sx, &pt.sy);
    let mut uu: u32 = bb.min_u as u32;
    while uu <= bb.max_u as u32
        invariant
            img.wf(),
            zbuf.wf(),
            img.width == img0.width,
            img.height == img0.height,
            zbuf.width == img0.width,
            zbuf.height == img0.height,
            img0.wf(),
            zb0.wf(),
            zb0.width == img0.width,
            zb0.height == img0.height,
            pt.wf(),
            -crate::NORMAL_LIMIT <= light.x <= crate::NORMAL_LIMIT,
            -crate::NORMAL_LIMIT <= light.y <= crate::NORMAL_LIMIT,
            -crate::NORMAL_LIMIT <= light.z <= crate::NORMAL_LIMIT,
            bb.min_u == spec_min3(pt.sx[0] as int, pt.sx[1] as int, pt.sx[2] as int),
            bb.max_u == spec_max3(pt.sx[0] as int, pt.sx[1] as int, pt.sx[2] as int),
            bb.min_v == spec_min3(pt.sy[0] as int, pt.sy[1] as int, pt.sy[2] as int),
            bb.max_v == spec_max3(pt.sy[0] as int, pt.sy[1] as int, pt.sy[2] as int),
            bb.min_u as int <= uu as int <= bb.max_u as int + 1,
            forall|pu: u16, pv: u16|
                img0.in_bounds(pu as int, pv as int) ==> #[trigger] img.pixel_at(
                    pu as int,
                    pv as int,
                ) == (if scan_visited(*pt, uu as int, bb.min_v as int, (pu, pv)) {
                    spec_pixel_after(*pt, light, img0, zb0, (pu, pv))
                } else {
                    img0.pixel_at(pu as int, pv as int)
                }),
            forall|pu: u16, pv: u16|
                img0.in_bounds(pu as int, pv as int) ==> #[trigger] zbuf.entry_at(
                    pu as int,
                    pv as int,
                ) == (if scan_visited(*pt, uu as int, bb.min_v as int, (pu, pv)) {
                    spec_entry_after(*pt, zb0, (pu, pv))
                } else {
                    zb0.entry_at(pu as int, pv as int)
                }),
        decreases bb.max_u as int + 1 - uu as int,
    {
        let cu: u16 = uu as u16;
        let mut vv: u32 = bb.min_v as u32;
        while vv <= bb.max_v as u32
            invariant
                img.wf(),
                zbuf.wf(),
                img.width == img0.width,
                img.height == img0.height,
                zbuf.width == img0.width,
                zbuf.height == img0.height,
                img0.wf(),
                zb0.wf(),
                zb0.width == img0.width,
                zb0.height == img0.height,
                pt.wf(),
                -crate::NORMAL_LIMIT <= light.x <= crate::NORMAL_LIMIT,
                -crate::NORMAL_LIMIT <= light.y <= crate::NORMAL_LIMIT,
                -crate::NORMAL_LIMIT <= light.z <= crate::NORMAL_LIMIT,
                bb.min_u == spec_min3(pt.sx[0] as int, pt.sx[1] as int, pt.sx[2] as int),
                bb.max_u == spec_max3(pt.sx[0] as int, pt.sx[1] as int, pt.sx[2] as int),
                bb.min_v == spec_min3(pt.sy[0] as int, pt.sy[1] as int, pt.sy[2] as int),
                bb.max_v == spec_max3(pt.sy[0] as int, pt.sy[1] as int, pt.sy[2] as int),
                cu == uu as u16,
                bb.min_u as int <= uu as int <= bb.max_u as int,
                bb.min_v as int <= vv as int <= bb.max_v as int + 1,
                forall|pu: u16, pv: u16|
                    img0.in_bounds(pu as int, pv as int) ==> #[trigger] img.pixel_at(
                        pu as int,
                        pv as int,
                    ) == (if scan_visited(*pt, uu as int, vv as int, (pu, pv)) {
                        spec_pixel_after(*pt, light, img0, zb0, (pu, pv))
                    } else {
                        img0.pixel_at(pu as int, pv as int)
                    }),
                forall|pu: u16, pv: u16|
                    img0.in_bounds(pu as int, pv as int) ==> #[trigger] zbuf.entry_at(
                        pu as int,
                        pv as int,
                    ) == (if scan_visited(*pt, uu as int, vv as int, (pu, pv)) {
                        spec_entry_after(*pt, zb0, (pu, pv))
                    } else {
                        zb0.entry_at(pu as int, pv as int)
                    }),
            decreases bb.max_v as int + 1 - vv as int,
        {
            let cv: u16 = vv as u16;
            let ghost img_prev: Image = *img;
            let ghost zb_prev: DepthBuffer = *zbuf;
            process_pixel(pt, light, cu, cv, img, zbuf);
            proof {
                let w = img.width as int;
                let h = img.height as int;
                assert(!scan_visited(*pt, uu as int, vv as int, (cu, cv)));
                assert(spec_in_bbox(*pt, (cu, cv)));
                if img0.in_bounds(cu as int, cv as int) {
                    crate::image::lemma_pix_index_in_range(w, h, cu as int, cv as int);
                    assert(zb_prev.entry_at(cu as int, cv as int) == zb0.entry_at(
                        cu as int,
                        cv as int,
                    ));
                }
                assert forall|pu: u16, pv: u16| img0.in_bounds(pu as int, pv as int)
                    implies #[trigger] img.pixel_at(pu as int, pv as int) == (if scan_visited(
                    *pt,
                    uu as int,
                    vv as int + 1,
                    (pu, pv),
                ) {
                    spec_pixel_after(*pt, light, img0, zb0, (pu, pv))
                } else {
                    img0.pixel_at(pu as int, pv as int)
                }) by {
                    lemma_scan_step(
                        *pt,
                        light,
                        img0,
                        zb0,
                        img_prev,
                        zb_prev,
                        *img,
                        *zbuf,
                        uu as int,
                        vv as int,
                        (cu, cv),
                        (pu, pv),
                    );
                }
                assert forall|pu: u16, pv: u16| img0.in_bounds(pu as int, pv as int)
                    implies #[trigger] zbuf.entry_at(pu as int, pv as int) == (if scan_visited(
                    *pt,
                    uu as int,
                    vv as int + 1,
                    (pu, pv),
                ) {
                    spec_entry_after(*pt, zb0, (pu, pv))
                } else {
                    zb0.entry_at(pu as int, pv as int)
                }) by {
                    lemma_scan_step(
                        *pt,
                        light,
                        img0,
                        zb0,
                        img_prev,
                        zb_prev,
                        *img,
                        *zbuf,
                        uu as int,
                        vv as int,
                        (cu, cv),
                        (pu, pv),
                    );
                }
            }
            vv = vv + 1;
        }
        proof {
            assert forall|pu: u16, pv: u16|
                #[trigger] scan_visited(*pt, uu as int, bb.max_v as int + 1, (pu, pv))
                    == scan_visited(*pt, uu as int + 1, bb.min_v as int, (pu, pv)) by {}
        }
        uu = uu + 1;
    }
    proof {
        assert forall|pu: u16, pv: u16| img0.in_bounds(pu as int, pv as int)
            implies #[trigger] img.pixel_at(pu as int, pv as int) == spec_pixel_after(
            *pt,
            light,
            img0,
            zb0,
            (pu, pv),
        ) && #[trigger] zbuf.entry_at(pu as int, pv as int) == spec_entry_after(
            *pt,
            zb0,
            (pu, pv),
        ) by {
            if spec_in_bbox(*pt, (pu, pv)) {
                assert(scan_visited(*pt, uu as int, bb.min_v as int, (pu, pv)));
            } else {
                assert(!spec_scan_written(*pt, zb0, (pu, pv)));
            }
        }
    }
}

} // verus!
