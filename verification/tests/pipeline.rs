use rasterizer::bounding_box::{BoundingBox2D, BoundingBox3D};
use rasterizer::drawers::{camera_box, mesh, raster_triangle, wireframe, DepthBuffer, RenderConfig};
use rasterizer::image::{Image, Rgb};
use rasterizer::linear_algebra::{
    barycentric_interpolation, cross_product, dot_product, norm, normalized,
    point_barycentric_coord_in_rast_triangle, point_is_in_rast_triangle, triangle_area,
};
use rasterizer::maths_utils::{div_floor, isqrt, space_point_in_proj_space};
use rasterizer::mesh::{Coords2D, Coords3D, Mesh, Point3D, Triangle};
use rasterizer::obj_importer::add_triangle;

fn black() -> Rgb {
    Rgb { r: 0, g: 0, b: 0 }
}

fn white() -> Rgb {
    Rgb { r: 255, g: 255, b: 255 }
}

fn small_config() -> RenderConfig {
    RenderConfig {
        width: 64,
        height: 64,
        light_direction: Point3D { x: 0, y: 0, z: -1024 },
        x_offset: 0,
        y_offset: 0,
        x_scale_num: 1,
        x_scale_den: 1,
        y_scale_num: 1,
        y_scale_den: 1,
    }
}

// One triangle spanning screen coordinates (5,5), (25,5), (5,25) at depth z,
// with all corner normals pointing at the viewer.
fn single_triangle_mesh(z: i64) -> Mesh {
    let mut positions = Coords3D::new();
    positions.add_vector(5, 5, z);
    positions.add_vector(25, 5, z);
    positions.add_vector(5, 25, z);
    let mut normals = Coords3D::new();
    normals.add_vector(0, 0, 1024);
    let mut textures = Coords2D::new();
    textures.add_vector(0, 0);
    let tri = Triangle { vertices: [0, 1, 2], normals: [0, 0, 0], textures: [0, 0, 0] };
    Mesh { v_positions: positions, v_normals: normals, v_textures: textures, triangles: vec![tri] }
}

#[test]
fn barycentric_coords_sum_to_denominator_inside() {
    let a = (0u16, 0u16);
    let b = (10u16, 0u16);
    let c = (0u16, 10u16);
    let bc = point_barycentric_coord_in_rast_triangle((2, 2), a, b, c);
    assert_eq!(bc.alpha + bc.beta + bc.gamma, bc.den);
    assert!(bc.den > 0);
    assert!(bc.alpha >= 0 && bc.beta >= 0 && bc.gamma >= 0);
    assert!(point_is_in_rast_triangle((2, 2), a, b, c));
}

#[test]
fn outside_point_has_negative_coordinate() {
    let a = (0u16, 0u16);
    let b = (10u16, 0u16);
    let c = (0u16, 10u16);
    let bc = point_barycentric_coord_in_rast_triangle((20, 20), a, b, c);
    assert!(bc.alpha < 0 || bc.beta < 0 || bc.gamma < 0);
    assert!(!point_is_in_rast_triangle((20, 20), a, b, c));
}

#[test]
fn triangle_area_is_twice_signed_area() {
    assert_eq!(triangle_area((0, 0), (4, 0), (0, 4)), 16);
    assert_eq!(triangle_area((0, 0), (0, 4), (4, 0)), -16);
    assert_eq!(triangle_area((1, 1), (5, 5), (9, 9)), 0);
}

#[test]
fn isqrt_exact_values() {
    assert_eq!(isqrt(0), 0);
    assert_eq!(isqrt(15), 3);
    assert_eq!(isqrt(16), 4);
    assert_eq!(isqrt(1 << 40), 1 << 20);
}

#[test]
fn div_floor_rounds_down() {
    assert_eq!(div_floor(7, 2), 3);
    assert_eq!(div_floor(-7, 2), -4);
    assert_eq!(div_floor(-8, 2), -4);
}

#[test]
fn vector_ops_exact() {
    let u = Point3D { x: 1, y: 0, z: 0 };
    let v = Point3D { x: 0, y: 1, z: 0 };
    let c = cross_product(u, v);
    assert_eq!((c.x, c.y, c.z), (0, 0, 1));
    assert_eq!(dot_product(u, v), 0);
    assert_eq!(norm(Point3D { x: 3, y: 4, z: 0 }), 5);
    let n = normalized(Point3D { x: 3, y: 4, z: 0 });
    assert_eq!((n.x, n.y, n.z), (3 * 1024 / 5, 4 * 1024 / 5, 0));
    let z = normalized(Point3D { x: 0, y: 0, z: 0 });
    assert_eq!((z.x, z.y, z.z), (0, 0, 0));
}

#[test]
fn perspective_point_rejected_on_observer_plane() {
    assert_eq!(space_point_in_proj_space((10, 20, 2), 2), None);
    assert_eq!(space_point_in_proj_space((10, 20, 1), 2), Some((20, 40)));
}

#[test]
fn perspective_point_behind_observer_mirrors() {
    // Behind the observer plane the scale factor d / (d - z) is negative:
    // the point comes back mirrored, exactly as the formula says.
    assert_eq!(space_point_in_proj_space((10, 20, 3), 2), Some((-20, -40)));
}

#[test]
fn bounding_box_2d_tight() {
    let bb = BoundingBox2D::get_bounding_box(&[5, 1, 9], &[7, 3, 4]);
    assert_eq!((bb.min_u, bb.max_u, bb.min_v, bb.max_v), (1, 9, 3, 7));
}

#[test]
fn pad_zero_is_identity() {
    let mut bb = BoundingBox3D { min_x: -3, min_y: 1, min_z: 0, max_x: 9, max_y: 5, max_z: 4 };
    let before = bb;
    bb.pad(0);
    assert_eq!(bb, before);
}

#[test]
fn pad_grows_about_centre() {
    let mut bb = BoundingBox3D { min_x: 0, min_y: 0, min_z: 0, max_x: 100, max_y: 100, max_z: 100 };
    bb.pad(100);
    assert_eq!((bb.min_x, bb.max_x), (-50, 150));
}

#[test]
fn camera_framing_grows_narrow_box() {
    let bb = BoundingBox3D { min_x: 0, min_y: 0, min_z: 0, max_x: 10, max_y: 10, max_z: 0 };
    let ((min_x, min_y), (max_x, max_y)) = camera_box(&bb, 20, 10);
    // Narrow box: width grows to height * ratio = 20, recentred on (5, 5).
    assert_eq!((min_x, min_y), (-5, 0));
    assert_eq!((max_x, max_y), (15, 10));
}

#[test]
fn camera_framing_keeps_odd_extents() {
    // A 3x3 box in a 1:1 viewport must come back exactly 3 wide and
    // 3 tall: framing never shrinks the box.
    let bb = BoundingBox3D { min_x: 0, min_y: 0, min_z: 0, max_x: 3, max_y: 3, max_z: 0 };
    let ((min_x, min_y), (max_x, max_y)) = camera_box(&bb, 1, 1);
    assert_eq!(max_x - min_x, 3);
    assert_eq!(max_y - min_y, 3);
}

#[test]
fn wireframe_pixels_are_black_or_white() {
    let cfg = small_config();
    let img = wireframe(&single_triangle_mesh(0), &cfg);
    for u in 0..64u16 {
        for v in 0..64u16 {
            let px = img.get(u, v).unwrap();
            assert!(px == black() || px == white());
        }
    }
}

#[test]
fn horizontal_line_covers_half_open_run() {
    let mut img = Image::new(20, 20, black());
    rasterizer::line_drawer::line(0, 0, 9, 0, &mut img, white());
    for x in 0..9u16 {
        assert_eq!(img.get(x, 0), Some(white()));
    }
    assert_eq!(img.get(9, 0), Some(black()));
    assert_eq!(img.get(0, 1), Some(black()));
}

#[test]
fn steep_line_is_transposed() {
    let mut img = Image::new(20, 20, black());
    rasterizer::line_drawer::line(0, 0, 0, 9, &mut img, white());
    for y in 0..9u16 {
        assert_eq!(img.get(0, y), Some(white()));
    }
    assert_eq!(img.get(0, 9), Some(black()));
}

#[test]
fn shaded_triangle_writes_lit_pixels() {
    let cfg = small_config();
    let img = mesh(&single_triangle_mesh(0), &cfg);
    // Interior pixel takes the full shade: normal (0,0,1024) against light
    // (0,0,-1024) gives intensity 1.0, i.e. 255.
    assert_eq!(img.get(10, 10), Some(white()));
    // A pixel outside the triangle stays background.
    assert_eq!(img.get(40, 40), Some(black()));
}

#[test]
fn backface_triangle_writes_nothing() {
    let cfg = small_config();
    let mut m = single_triangle_mesh(0);
    // Flip the winding so the face normal points away from the light.
    m.triangles[0].vertices = [0, 2, 1];
    let img = mesh(&m, &cfg);
    for u in 0..64u16 {
        for v in 0..64u16 {
            assert_eq!(img.get(u, v), Some(black()));
        }
    }
}

#[test]
fn degenerate_triangle_writes_nothing() {
    let cfg = small_config();
    let mut positions = Coords3D::new();
    positions.add_vector(1, 1, 0);
    positions.add_vector(5, 5, 0);
    positions.add_vector(9, 9, 0);
    let mut normals = Coords3D::new();
    normals.add_vector(0, 0, 1024);
    let mut textures = Coords2D::new();
    textures.add_vector(0, 0);
    let tri = Triangle { vertices: [0, 1, 2], normals: [0, 0, 0], textures: [0, 0, 0] };
    let m = Mesh {
        v_positions: positions,
        v_normals: normals,
        v_textures: textures,
        triangles: vec![tri],
    };
    let img = mesh(&m, &cfg);
    for u in 0..64u16 {
        for v in 0..64u16 {
            assert_eq!(img.get(u, v), Some(black()));
        }
    }
}

#[test]
fn rasterizing_twice_changes_nothing() {
    let cfg = small_config();
    let m = single_triangle_mesh(0);
    let once = mesh(&m, &cfg);
    let mut twice_mesh = m.clone();
    twice_mesh.triangles.push(m.triangles[0]);
    let twice = mesh(&twice_mesh, &cfg);
    for u in 0..64u16 {
        for v in 0..64u16 {
            assert_eq!(once.get(u, v), twice.get(u, v));
        }
    }
}

#[test]
fn nearer_triangle_wins_either_order() {
    let cfg = small_config();
    // Two identical footprints at different depths; greater z is nearer.
    let near = single_triangle_mesh(10);
    let far_positions = {
        let mut p = Coords3D::new();
        p.add_vector(5, 5, 2);
        p.add_vector(25, 5, 2);
        p.add_vector(5, 25, 2);
        p
    };
    let mut m_near_first = near.clone();
    let base = m_near_first.v_positions.xs.len();
    m_near_first.v_positions.xs.extend_from_slice(&far_positions.xs);
    m_near_first.v_positions.ys.extend_from_slice(&far_positions.ys);
    m_near_first.v_positions.zs.extend_from_slice(&far_positions.zs);
    let far_tri = Triangle {
        vertices: [base, base + 1, base + 2],
        normals: [0, 0, 0],
        textures: [0, 0, 0],
    };
    let mut m_far_first = m_near_first.clone();
    m_near_first.triangles.push(far_tri);
    m_far_first.triangles.insert(0, far_tri);
    let a = mesh(&m_near_first, &cfg);
    let b = mesh(&m_far_first, &cfg);
    for u in 0..64u16 {
        for v in 0..64u16 {
            assert_eq!(a.get(u, v), b.get(u, v));
        }
    }
}

#[test]
fn wireframe_draws_edges() {
    let cfg = small_config();
    let img = wireframe(&single_triangle_mesh(0), &cfg);
    assert_eq!(img.width, 64);
    assert_eq!(img.height, 64);
    let mut any_white = false;
    for u in 0..64u16 {
        for v in 0..64u16 {
            if img.get(u, v) == Some(white()) {
                any_white = true;
            }
        }
    }
    assert!(any_white);
}

#[test]
fn raster_triangle_direct_call() {
    let cfg = small_config();
    let m = single_triangle_mesh(0);
    let mut img = Image::new(cfg.width, cfg.height, black());
    let mut zb = DepthBuffer::new(cfg.width, cfg.height);
    let t = m.triangles[0];
    raster_triangle(&t, &m, &mut img, &mut zb, &cfg);
    assert_eq!(img.get(10, 10), Some(white()));
}

#[test]
fn add_triangle_converts_one_based_indices() {
    let mut tris: Vec<Triangle> = Vec::new();
    let ok = add_triangle(&mut tris, &[1, 2, 3], &[4, 5, 6], &[7, 8, 9]);
    assert!(ok);
    assert_eq!(tris.len(), 1);
    assert_eq!(tris[0].vertices, [0, 1, 2]);
    assert_eq!(tris[0].textures, [3, 4, 5]);
    assert_eq!(tris[0].normals, [6, 7, 8]);
}

#[test]
fn add_triangle_rejects_zero_index() {
    let mut tris: Vec<Triangle> = Vec::new();
    let ok = add_triangle(&mut tris, &[0, 2, 3], &[4, 5, 6], &[7, 8, 9]);
    assert!(!ok);
    assert!(tris.is_empty());
}

#[test]
fn mesh_bounding_box_is_tight() {
    let m = single_triangle_mesh(3);
    let bb = m.bounding_box();
    assert_eq!((bb.min_x, bb.max_x), (5, 25));
    assert_eq!((bb.min_y, bb.max_y), (5, 25));
    assert_eq!((bb.min_z, bb.max_z), (3, 3));
}

#[test]
fn image_set_out_of_bounds_is_noop() {
    let mut img = Image::new(4, 4, black());
    assert!(!img.set(4, 0, white()));
    assert!(!img.set(0, 4, white()));
    assert!(img.set(3, 3, white()));
    assert_eq!(img.get(3, 3), Some(white()));
    assert_eq!(img.get(4, 4), None);
}
