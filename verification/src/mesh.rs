//! The mesh data model: value types for points, parallel coordinate
//! collections, triangles that reference them by index, and the mesh itself
//! with its well-formedness invariant.

use crate::bounding_box::BoundingBox3D;
use vstd::prelude::*;

verus! {

/// A point or vector in 3D, in signed fixed-point coordinates.
#[derive(Clone, Copy, Debug, PartialEq, Eq, Structural)]
pub struct Point3D {
    pub x: i64,
    pub y: i64,
    pub z: i64,
}

/// A point or vector in 2D, in signed fixed-point coordinates.
#[derive(Clone, Copy, Debug, PartialEq, Eq, Structural)]
pub struct Point2D {
    pub x: i64,
    pub y: i64,
}

/// One triangle of a mesh: per-corner indices into the mesh's vertex
/// position, vertex normal and texture coordinate collections.  A corner can
/// use a different normal per adjacent face, hence the indirection.
#[derive(Clone, Copy, Debug)]
pub struct Triangle {
    pub vertices: [usize; 3],
    pub normals: [usize; 3],
    pub textures: [usize; 3],
}

/// Three parallel coordinate vectors: the `i`-th 3D entry is
/// `(xs[i], ys[i], zs[i])`.
#[derive(Clone, Debug)]
pub struct Coords3D {
    pub xs: Vec<i64>,
    pub ys: Vec<i64>,
    pub zs: Vec<i64>,
}

/// Two parallel coordinate vectors: the `i`-th 2D entry is `(us[i], vs[i])`.
#[derive(Clone, Debug)]
pub struct Coords2D {
    pub us: Vec<i64>,
    pub vs: Vec<i64>,
}

/// A triangulated mesh: coordinate data owned by the mesh, referenced by
/// index from its triangles.
#[derive(Clone, Debug)]
pub struct Mesh {
    pub v_positions: Coords3D,
    pub v_normals: Coords3D,
    pub v_textures: Coords2D,
    pub triangles: Vec<Triangle>,
}

impl Coords3D {
    /// The number of 3D entries.
    pub open spec fn len(self) -> nat {
        self.xs@.len()
    }

    /// The collection is well formed: the three vectors run in parallel and
    /// every component is bounded by `limit`.
    pub open spec fn wf(self, limit: int) -> bool {
        &&& self.ys@.len() == self.xs@.len()
        &&& self.zs@.len() == self.xs@.len()
        &&& forall|i: int|
            0 <= i < self.xs@.len() ==> -limit <= #[trigger] self.xs@[i] <= limit
        &&& forall|i: int|
            0 <= i < self.ys@.len() ==> -limit <= #[trigger] self.ys@[i] <= limit
        &&& forall|i: int|
            0 <= i < self.zs@.len() ==> -limit <= #[trigger] self.zs@[i] <= limit
    }

    /// An empty collection.
    pub fn new() -> (c: Self)
        ensures
            c.len() == 0,
            c.wf(crate::COORD_LIMIT as int),
            c.wf(crate::NORMAL_LIMIT as int),
    {
        Coords3D { xs: Vec::new(), ys: Vec::new(), zs: Vec::new() }
    }

    /// Appends one 3D entry.
    pub fn add_vector(&mut self, x: i64, y: i64, z: i64)
        requires
            old(self).ys@.len() == old(self).xs@.len(),
            old(self).zs@.len() == old(self).xs@.len(),
        ensures
            final(self).xs@ == old(self).xs@.push(x),
            final(self).ys@ == old(self).ys@.push(y),
            final(self).zs@ == old(self).zs@.push(z),
    {
        self.xs.push(x);
        self.ys.push(y);
        self.zs.push(z);
    }

    /// The `i`-th entry as a point.
    pub fn get_at(&self, i: usize) -> (p: Point3D)
        requires
            self.ys@.len() == self.xs@.len(),
            self.zs@.len() == self.xs@.len(),
            i < self.len(),
        ensures
            p.x == self.xs@[i as int],
            p.y == self.ys@[i as int],
            p.z == self.zs@[i as int],
    {
        Point3D { x: self.xs[i], y: self.ys[i], z: self.zs[i] }
    }

    /// The `i`-th entry mapped by perspective projection: scaled by
    /// `focal_length / (observer_distance - z)`, exactly in floor
    /// arithmetic.  `None` only when the entry lies exactly on the observer
    /// plane (`z == observer_distance`), where the projection diverges;
    /// behind the plane the formula mirrors the point, as written.
    pub fn get_at_in_projective_space(
        &self,
        i: usize,
        observer_distance: i64,
        focal_length: i64,
    ) -> (r: Option<(i64, i64)>)
        requires
            self.wf(crate::COORD_LIMIT as int),
            i < self.len(),
            -crate::COORD_LIMIT <= observer_distance <= crate::COORD_LIMIT,
            -crate::COORD_LIMIT <= focal_length <= crate::COORD_LIMIT,
        ensures
            r is Some <==> self.zs@[i as int] != observer_distance,
            r is Some ==> {
                let t = observer_distance - self.zs@[i as int];
                &&& r->Some_0.0 == crate::maths_utils::spec_floor_div(
                    self.xs@[i as int] * focal_length,
                    t,
                )
                &&& r->Some_0.1 == crate::maths_utils::spec_floor_div(
                    self.ys@[i as int] * focal_length,
                    t,
                )
            },
    {
        let p = self.get_at(i);
        if p.z == observer_distance {
            return None;
        }
        let t: i64 = observer_distance - p.z;
        proof {
            crate::maths_utils::lemma_mul_bounds(
                p.x as int,
                focal_length as int,
                crate::COORD_LIMIT as int,
                crate::COORD_LIMIT as int,
            );
            crate::maths_utils::lemma_mul_bounds(
                p.y as int,
                focal_length as int,
                crate::COORD_LIMIT as int,
                crate::COORD_LIMIT as int,
            );
        }
        let sx: i64 = crate::maths_utils::div_floor_signed(p.x * focal_length, t);
        let sy: i64 = crate::maths_utils::div_floor_signed(p.y * focal_length, t);
        Some((sx, sy))
    }

    /// The `i`-th entry mapped by orthonormal projection: depth is dropped.
    pub fn get_at_orthonormal_projection(&self, i: usize) -> (p: Point2D)
        requires
            self.ys@.len() == self.xs@.len(),
            self.zs@.len() == self.xs@.len(),
            i < self.len(),
        ensures
            p.x == self.xs@[i as int],
            p.y == self.ys@[i as int],
    {
        let p = self.get_at(i);
        Point2D { x: p.x, y: p.y }
    }
}

impl Coords2D {
    /// The number of 2D entries.
    pub open spec fn len(self) -> nat {
        self.us@.len()
    }

    /// The two vectors run in parallel and every component is bounded.
    pub open spec fn wf(self, limit: int) -> bool {
        &&& self.vs@.len() == self.us@.len()
        &&& forall|i: int|
            0 <= i < self.us@.len() ==> -limit <= #[trigger] self.us@[i] <= limit
        &&& forall|i: int|
            0 <= i < self.vs@.len() ==> -limit <= #[trigger] self.vs@[i] <= limit
    }

    /// An empty collection.
    pub fn new() -> (c: Self)
        ensures
            c.len() == 0,
            c.wf(crate::COORD_LIMIT as int),
    {
        Coords2D { us: Vec::new(), vs: Vec::new() }
    }

    /// Appends one 2D entry.
    pub fn add_vector(&mut self, u: i64, v: i64)
        requires
            old(self).vs@.len() == old(self).us@.len(),
        ensures
            final(self).us@ == old(self).us@.push(u),
            final(self).vs@ == old(self).vs@.push(v),
    {
        self.us.push(u);
        self.vs.push(v);
    }

    /// The `i`-th entry.
    pub fn get_at(&self, i: usize) -> (p: (i64, i64))
        requires
            self.vs@.len() == self.us@.len(),
            i < self.len(),
        ensures
            p.0 == self.us@[i as int],
            p.1 == self.vs@[i as int],
    {
        (self.us[i], self.vs[i])
    }
}

impl Triangle {
    /// Every index of the triangle is in bounds for the given collection
    /// sizes.
    pub open spec fn valid(self, n_positions: nat, n_normals: nat, n_textures: nat) -> bool {
        &&& forall|k: int| 0 <= k < 3 ==> #[trigger] self.vertices[k] < n_positions
        &&& forall|k: int| 0 <= k < 3 ==> #[trigger] self.normals[k] < n_normals
        &&& forall|k: int| 0 <= k < 3 ==> #[trigger] self.textures[k] < n_textures
    }
}

impl Mesh {
    /// The mesh invariant: parallel coordinate vectors with bounded
    /// components, and every triangle index in bounds.
    pub open spec fn wf(self) -> bool {
        &&& self.v_positions.wf(crate::COORD_LIMIT as int)
        &&& self.v_normals.wf(crate::NORMAL_LIMIT as int)
        &&& self.v_textures.wf(crate::COORD_LIMIT as int)
        &&& forall|t: int|
            0 <= t < self.triangles@.len() ==> (#[trigger] self.triangles@[t]).valid(
                self.v_positions.len(),
                self.v_normals.len(),
                self.v_textures.len(),
            )
    }

    /// The vertex position with index `i`, as a spec-level point.
    pub open spec fn spec_position(self, i: int) -> Point3D {
        Point3D {
            x: self.v_positions.xs@[i],
            y: self.v_positions.ys@[i],
            z: self.v_positions.zs@[i],
        }
    }

    /// The vertex normal with index `i`, as a spec-level point.
    pub open spec fn spec_normal(self, i: int) -> Point3D {
        Point3D { x: self.v_normals.xs@[i], y: self.v_normals.ys@[i], z: self.v_normals.zs@[i] }
    }

    /// The raw (unnormalized) face normal of a triangle: the plane cross
    /// product of its three vertex positions in corner order.
    pub open spec fn spec_face_cross(self, triangle: Triangle) -> (int, int, int) {
        crate::linear_algebra::spec_plane_cross(
            self.spec_position(triangle.vertices[0] as int),
            self.spec_position(triangle.vertices[1] as int),
            self.spec_position(triangle.vertices[2] as int),
        )
    }

    /// The normalized face normal of a triangle, scaled to length `SCALE`
    /// in floor arithmetic.
    pub fn triangle_normal(&self, triangle: &Triangle) -> (r: Point3D)
        requires
            self.wf(),
            triangle.valid(self.v_positions.len(), self.v_normals.len(), self.v_textures.len()),
        ensures
            crate::linear_algebra::spec_vec3(r) == crate::linear_algebra::spec_scaled_to_unit(
                self.spec_face_cross(*triangle),
            ),
            -crate::SCALE <= r.x <= crate::SCALE,
            -crate::SCALE <= r.y <= crate::SCALE,
            -crate::SCALE <= r.z <= crate::SCALE,
    {
        let p0 = self.v_positions.get_at(triangle.vertices[0]);
        let p1 = self.v_positions.get_at(triangle.vertices[1]);
        let p2 = self.v_positions.get_at(triangle.vertices[2]);
        crate::linear_algebra::get_plane_normal(p0, p1, p2)
    }

    /// Whether a triangle faces away from `view_direction`: the exact sign
    /// of the dot product of the raw face normal with the view vector.
    /// Normalizing the face normal only rescales it by a positive factor,
    /// so deciding on the raw cross product keeps the test exact.
    pub fn triangle_is_backface(&self, triangle: &Triangle, view_direction: Point3D) -> (r: bool)
        requires
            self.wf(),
            triangle.valid(self.v_positions.len(), self.v_normals.len(), self.v_textures.len()),
            -crate::COORD_LIMIT <= view_direction.x <= crate::COORD_LIMIT,
            -crate::COORD_LIMIT <= view_direction.y <= crate::COORD_LIMIT,
            -crate::COORD_LIMIT <= view_direction.z <= crate::COORD_LIMIT,
        ensures
            r == (crate::linear_algebra::spec_dot3(
                self.spec_face_cross(*triangle),
                crate::linear_algebra::spec_vec3(view_direction),
            ) > 0),
    {
        let p0 = self.v_positions.get_at(triangle.vertices[0]);
        let p1 = self.v_positions.get_at(triangle.vertices[1]);
        let p2 = self.v_positions.get_at(triangle.vertices[2]);
        let (cx, cy, cz): (i128, i128, i128) = crate::linear_algebra::plane_cross_wide(p0, p1, p2);
        proof {
            let big: int = 0x2000_0000_0000_0000;
            let lim: int = crate::COORD_LIMIT as int;
            crate::maths_utils::lemma_mul_bounds(cx as int, view_direction.x as int, big, lim);
            crate::maths_utils::lemma_mul_bounds(cy as int, view_direction.y as int, big, lim);
            crate::maths_utils::lemma_mul_bounds(cz as int, view_direction.z as int, big, lim);
        }
        let d: i128 = cx * (view_direction.x as i128) + cy * (view_direction.y as i128) + cz * (
        view_direction.z as i128);
        d > 0
    }

    /// The tight axis-aligned bounding box of the vertex positions.
    pub fn bounding_box(&self) -> (bb: BoundingBox3D)
        requires
            self.wf(),
            self.v_positions.len() > 0,
        ensures
            is_min_of(bb.min_x as int, self.v_positions.xs@),
            is_max_of(bb.max_x as int, self.v_positions.xs@),
            is_min_of(bb.min_y as int, self.v_positions.ys@),
            is_max_of(bb.max_y as int, self.v_positions.ys@),
            is_min_of(bb.min_z as int, self.v_positions.zs@),
            is_max_of(bb.max_z as int, self.v_positions.zs@),
            bb.min_x == seq_min(self.v_positions.xs@),
            bb.max_x == seq_max(self.v_positions.xs@),
            bb.min_y == seq_min(self.v_positions.ys@),
            bb.max_y == seq_max(self.v_positions.ys@),
            bb.min_z == seq_min(self.v_positions.zs@),
            bb.max_z == seq_max(self.v_positions.zs@),
    {
        let (min_x, max_x) = get_vec_min_max(&self.v_positions.xs);
        let (min_y, max_y) = get_vec_min_max(&self.v_positions.ys);
        let (min_z, max_z) = get_vec_min_max(&self.v_positions.zs);
        proof {
            lemma_min_max_unique(self.v_positions.xs@, min_x as int, max_x as int);
            lemma_min_max_unique(self.v_positions.ys@, min_y as int, max_y as int);
            lemma_min_max_unique(self.v_positions.zs@, min_z as int, max_z as int);
        }
        BoundingBox3D { min_x, min_y, min_z, max_x, max_y, max_z }
    }
}

/// The least value of a non-empty sequence, as a recursive definition; 0
/// for the empty sequence.
pub open spec fn seq_min(s: Seq<i64>) -> int
    decreases s.len(),
{
    if s.len() == 0 {
        0
    } else if s.len() == 1 {
        s[0] as int
    } else {
        crate::bounding_box::spec_min(s[0] as int, seq_min(s.drop_first()))
    }
}

/// The greatest value of a non-empty sequence; 0 for the empty sequence.
pub open spec fn seq_max(s: Seq<i64>) -> int
    decreases s.len(),
{
    if s.len() == 0 {
        0
    } else if s.len() == 1 {
        s[0] as int
    } else {
        crate::bounding_box::spec_max(s[0] as int, seq_max(s.drop_first()))
    }
}

/// `seq_min`/`seq_max` are an attained lower and upper bound.
pub proof fn lemma_seq_min_max_props(s: Seq<i64>)
    requires
        s.len() > 0,
    ensures
        is_min_of(seq_min(s), s),
        is_max_of(seq_max(s), s),
    decreases s.len(),
{
    if s.len() == 1 {
        assert(seq_min(s) == s[0]);
        assert(seq_max(s) == s[0]);
    } else {
        let tail = s.drop_first();
        lemma_seq_min_max_props(tail);
        assert(forall|j: int| 0 <= j < tail.len() ==> #[trigger] tail[j] == s[j + 1]);
        assert forall|i: int| 0 <= i < s.len() implies seq_min(s) <= #[trigger] s[i]
            && seq_max(s) >= s[i] by {
            if i > 0 {
                assert(tail[i - 1] == s[i]);
            }
        }
        if seq_min(s) == s[0] {
            assert(exists|i: int| 0 <= i < s.len() && seq_min(s) == s[i]);
        } else {
            let j = choose|j: int| 0 <= j < tail.len() && seq_min(tail) == tail[j];
            assert(seq_min(s) == s[j + 1]);
        }
        if seq_max(s) == s[0] {
            assert(exists|i: int| 0 <= i < s.len() && seq_max(s) == s[i]);
        } else {
            let j = choose|j: int| 0 <= j < tail.len() && seq_max(tail) == tail[j];
            assert(seq_max(s) == s[j + 1]);
        }
    }
}

/// An attained lower bound is the least value, and dually for the
/// greatest: the quantified characterisation pins `seq_min`/`seq_max`.
pub proof fn lemma_min_max_unique(s: Seq<i64>, mn: int, mx: int)
    requires
        is_min_of(mn, s),
        is_max_of(mx, s),
    ensures
        mn == seq_min(s),
        mx == seq_max(s),
{
    lemma_seq_min_max_props(s);
}

/// `m` is the least value of `s`: a lower bound that `s` attains.
pub open spec fn is_min_of(m: int, s: Seq<i64>) -> bool {
    &&& forall|i: int| 0 <= i < s.len() ==> m <= #[trigger] s[i]
    &&& exists|i: int| 0 <= i < s.len() && m == s[i]
}

/// `m` is the greatest value of `s`: an upper bound that `s` attains.
pub open spec fn is_max_of(m: int, s: Seq<i64>) -> bool {
    &&& forall|i: int| 0 <= i < s.len() ==> m >= #[trigger] s[i]
    &&& exists|i: int| 0 <= i < s.len() && m == s[i]
}

/// The least and greatest element of a non-empty vector, by linear scan.
fn get_vec_min_max(elements: &Vec<i64>) -> (r: (i64, i64))
    requires
        elements@.len() > 0,
    ensures
        is_min_of(r.0 as int, elements@),
        is_max_of(r.1 as int, elements@),
{
    let mut min: i64 = elements[0];
    let mut max: i64 = elements[0];
    let n: usize = elements.len();
    for k in 1..n
        invariant
            1 <= k <= n,
            n == elements@.len(),
            forall|i: int| 0 <= i < k ==> min <= #[trigger] elements@[i],
            forall|i: int| 0 <= i < k ==> max >= #[trigger] elements@[i],
            exists|i: int| 0 <= i < k && min == elements@[i],
            exists|i: int| 0 <= i < k && max == elements@[i],
    {
        let e: i64 = elements[k];
        if e < min {
            min = e;
        }
        if e > max {
            max = e;
        }
    }
    (min, max)
}

} // verus!
