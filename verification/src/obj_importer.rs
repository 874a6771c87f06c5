//! Turns parsed face records into mesh triangles: the interchange format
//! indexes vertices, texture coordinates and normals starting at one, so
//! each index is validated and converted to zero-based before the triangle
//! is stored.

use crate::mesh::Triangle;
use vstd::prelude::*;

verus! {

/// Appends one triangle built from one-based face indices.  Every index
/// must be at least one; on any zero index nothing is changed and `false`
/// comes back.
pub fn add_triangle(
    triangles: &mut Vec<Triangle>,
    vertices: &[usize; 3],
    textures: &[usize; 3],
    normals: &[usize; 3],
) -> (ok: bool)
    ensures
        ok == (forall|k: int|
            0 <= k < 3 ==> #[trigger] vertices[k] >= 1 && textures[k] >= 1 && normals[k] >= 1),
        ok ==> final(triangles)@.len() == old(triangles)@.len() + 1,
        ok ==> forall|i: int|
            0 <= i < old(triangles)@.len() ==> #[trigger] final(triangles)@[i] == old(
                triangles,
            )@[i],
        ok ==> forall|k: int|
            0 <= k < 3 ==> (#[trigger] final(triangles)@[old(triangles)@.len() as int].vertices[k])
                == vertices[k] - 1,
        ok ==> forall|k: int|
            0 <= k < 3 ==> (#[trigger] final(triangles)@[old(triangles)@.len() as int].textures[k])
                == textures[k] - 1,
        ok ==> forall|k: int|
            0 <= k < 3 ==> (#[trigger] final(triangles)@[old(triangles)@.len() as int].normals[k])
                == normals[k] - 1,
        !ok ==> final(triangles)@ == old(triangles)@,
{
    if vertices[0] < 1 || vertices[1] < 1 || vertices[2] < 1 || textures[0] < 1 || textures[1] < 1
        || textures[2] < 1 || normals[0] < 1 || normals[1] < 1 || normals[2] < 1 {
        return false;
    }
    let tri = Triangle {
        vertices: [vertices[0] - 1, vertices[1] - 1, vertices[2] - 1],
        normals: [normals[0] - 1, normals[1] - 1, normals[2] - 1],
        textures: [textures[0] - 1, textures[1] - 1, textures[2] - 1],
    };
    triangles.push(tri);
    true
}

} // verus!
