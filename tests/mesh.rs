use std::cell::RefCell;

use bevy::math::primitives::Triangle3d;
use bevy::math::{Vec2, Vec3};
use rand::rngs::StdRng;
use rand::{Rng, SeedableRng};
use triangle_mesh::builder::{OctahedronApexes, TriangleMeshBuilder};
use triangle_mesh::explode::{explode_mesh, explode_pass, explode_pass_with, ExplodeFragment};
use triangle_mesh::interchange::{Indices, IndexedMesh, MeshConversionError};
use triangle_mesh::triangle::{triangle_slice, Plane, Triangle, TriangleSliceResult};

fn side(plane: Plane<Vec3>, p: Vec3) -> bool {
    plane.normal.dot(p - plane.point) >= 0.0
}

fn intersect(plane: Plane<Vec3>, a: Vec3, b: Vec3) -> Vec3 {
    let ab = b - a;
    let t = (plane.point - a).dot(plane.normal) / ab.dot(plane.normal);
    a + ab * t
}

fn centroid(points: &Vec<Vec3>) -> Vec3 {
    points.iter().fold(Vec3::ZERO, |acc, v| acc + *v) / (points.len() as f32)
}

fn midpoint(a: Vec3, b: Vec3) -> Vec3 {
    a.slerp(b, 0.5)
}

fn normal_of(t: Triangle<Vec3>) -> Vec3 {
    let [a, b, c] = t.vertices;
    Triangle3d::new(a, b, c).normal().map(|d| *d).unwrap_or(Vec3::Y)
}

fn uv_of(t: Triangle<Vec3>) -> [Vec2; 3] {
    let [a, b, c] = t.vertices;
    let u_axis = (b - a).normalize();
    let v_axis = normal_of(t).cross(u_axis).normalize();
    [a, b, c].map(|v| {
        let local = v - a;
        Vec2::new(local.dot(u_axis), local.dot(v_axis))
    })
}

fn apexes() -> OctahedronApexes<Vec3> {
    OctahedronApexes {
        up: Vec3::Y,
        down: -Vec3::Y,
        left: -Vec3::X,
        right: Vec3::X,
        forward: Vec3::Z,
        back: -Vec3::Z,
    }
}

fn octahedron(resolution: u32) -> TriangleMeshBuilder<Vec3> {
    TriangleMeshBuilder::new_octahedron(resolution, apexes(), &midpoint)
}

fn horizontal_plane(height: f32) -> Plane<Vec3> {
    Plane { point: Vec3::new(0.0, height, 0.0), normal: Vec3::Y }
}

fn tri(a: Vec3, b: Vec3, c: Vec3) -> Triangle<Vec3> {
    Triangle::new(a, b, c)
}

#[test]
fn test_triangle_slice() {
    let t = tri(Vec3::new(0.0, 1.0, 0.0), Vec3::new(-1.0, -1.0, 0.0), Vec3::new(1.0, -1.0, 0.0));
    let plane = Plane { point: Vec3::new(0.0, 0.0, 0.0), normal: Vec3::new(0.0, 1.0, 0.0) };

    let (result, is_positive) = triangle_slice(t, plane, &side, &intersect);

    assert!(matches!(result, TriangleSliceResult::Split(_, _, _)), "Expected triangle to be split");
    assert!(is_positive, "Expected lonely vertex to be on positive side");
}

#[test]
fn triangle_slice_pieces_follow_the_winding() {
    let apex = Vec3::new(0.0, 1.0, 0.0);
    let left = Vec3::new(-1.0, -1.0, 0.0);
    let right = Vec3::new(1.0, -1.0, 0.0);
    let (result, is_positive) = triangle_slice(tri(apex, left, right), horizontal_plane(0.0), &side, &intersect);
    assert!(is_positive);
    let first_cut = Vec3::new(0.5, 0.0, 0.0);
    let second_cut = Vec3::new(-0.5, 0.0, 0.0);
    match result {
        TriangleSliceResult::Split(single, tri1, tri2) => {
            assert_eq!(single, tri(apex, second_cut, first_cut));
            assert_eq!(tri1, tri(right, first_cut, left));
            assert_eq!(tri2, tri(left, first_cut, second_cut));
        },
        TriangleSliceResult::Single(_) => panic!("expected a split"),
    }
}

#[test]
fn triangle_slice_keeps_one_sided_triangles_whole() {
    let t = tri(Vec3::new(0.0, 1.0, 0.0), Vec3::new(1.0, 2.0, 0.0), Vec3::new(0.0, 3.0, 1.0));
    let (result, is_positive) = triangle_slice(t, horizontal_plane(0.0), &side, &intersect);
    assert_eq!(result, TriangleSliceResult::Single(t));
    assert!(is_positive);
    let (result, is_positive) = triangle_slice(t, horizontal_plane(5.0), &side, &intersect);
    assert_eq!(result, TriangleSliceResult::Single(t));
    assert!(!is_positive);
}

#[test]
fn triangle_slice_counts_the_plane_as_positive() {
    // Two vertices lie on the plane itself: they count as positive, so the
    // vertex below is the lonely one, on the negative side.
    let t = tri(Vec3::new(-1.0, 0.0, 0.0), Vec3::new(1.0, 0.0, 0.0), Vec3::new(0.0, -1.0, 0.0));
    let (result, is_positive) = triangle_slice(t, horizontal_plane(0.0), &side, &intersect);
    assert!(matches!(result, TriangleSliceResult::Split(_, _, _)));
    assert!(!is_positive);
}

#[test]
fn octahedron_has_eight_times_four_to_the_resolution_triangles() {
    assert_eq!(octahedron(0).triangles.len(), 8);
    assert_eq!(octahedron(1).triangles.len(), 32);
    assert_eq!(octahedron(2).triangles.len(), 128);
    assert_eq!(octahedron(3).triangles.len(), 512);
}

#[test]
fn octahedron_faces_come_in_order() {
    let b = octahedron(0);
    assert_eq!(b.triangles[0], tri(Vec3::Y, -Vec3::Z, -Vec3::X));
    assert_eq!(b.triangles[7], tri(-Vec3::Y, Vec3::Z, -Vec3::X));
}

#[test]
fn subdivision_uses_spherical_midpoints() {
    let b = octahedron(1);
    let ab = Vec3::Y.slerp(-Vec3::Z, 0.5);
    let ca = (-Vec3::X).slerp(Vec3::Y, 0.5);
    assert_eq!(b.triangles[0], tri(Vec3::Y, ab, ca));
    for t in &b.triangles {
        for v in t.vertices {
            assert!((v.length() - 1.0).abs() < 1e-5);
        }
    }
}

#[test]
fn vertices_and_indices_are_flat() {
    let b = octahedron(1);
    let (vertices, indices) = b.vertices_and_indices();
    assert_eq!(vertices.len(), 96);
    assert_eq!(indices.len(), 96);
    for (j, index) in indices.iter().enumerate() {
        assert_eq!(*index as usize, j);
        assert_eq!(vertices[j], b.triangles[j / 3].vertices[j % 3]);
    }
}

#[test]
fn empty_builder_has_nothing() {
    let b: TriangleMeshBuilder<Vec3> = TriangleMeshBuilder::new_empty();
    assert!(b.is_empty());
    let (vertices, indices) = b.vertices_and_indices();
    assert!(vertices.is_empty());
    assert!(indices.is_empty());
}

#[test]
fn add_triangle_chains() {
    let mut b = TriangleMeshBuilder::new_empty();
    let t1 = tri(Vec3::X, Vec3::Y, Vec3::Z);
    let t2 = tri(Vec3::Z, Vec3::Y, Vec3::X);
    b.add_triangle(t1).add_triangle(t2);
    assert!(!b.is_empty());
    assert_eq!(b.triangles, vec![t1, t2]);
}

#[test]
fn normals_are_repeated_per_vertex() {
    let mut b = TriangleMeshBuilder::new_empty();
    b.add_triangle(tri(Vec3::ZERO, Vec3::X, Vec3::Y));
    b.add_triangle(tri(Vec3::ZERO, Vec3::X, Vec3::new(2.0, 0.0, 0.0)));
    let normals = b.normals(&normal_of);
    assert_eq!(normals, vec![Vec3::Z, Vec3::Z, Vec3::Z, Vec3::Y, Vec3::Y, Vec3::Y]);
}

#[test]
fn uvs_are_planar_per_triangle() {
    let mut b = TriangleMeshBuilder::new_empty();
    b.add_triangle(tri(Vec3::ZERO, Vec3::new(2.0, 0.0, 0.0), Vec3::new(0.0, 3.0, 0.0)));
    let uvs = b.uvs(&uv_of);
    assert_eq!(uvs, vec![Vec2::new(0.0, 0.0), Vec2::new(2.0, 0.0), Vec2::new(0.0, 3.0)]);
}

#[test]
fn apply_noise_moves_vertices_along_their_direction() {
    let mut b = octahedron(1);
    let noise = |p: Vec3| if p.y > 0.0 { 1.0f32 } else { 0.5f32 };
    let displace = |p: Vec3, h: f32| p + p.normalize() * h;
    let before = b.clone();
    b.apply_noise(&noise, &displace);
    assert_eq!(b.triangles.len(), before.triangles.len());
    for (t, old) in b.triangles.iter().zip(before.triangles.iter()) {
        for k in 0..3 {
            let expected = if old.vertices[k].y > 0.0 { 2.0 } else { 1.5 };
            assert!((t.vertices[k].length() - expected).abs() < 1e-5);
        }
    }
}

#[test]
fn fill_boundary_with_fewer_than_three_points_adds_nothing() {
    let mut b = octahedron(0);
    b.fill_boundary(&vec![], &centroid);
    assert_eq!(b.triangles.len(), 8);
    b.fill_boundary(&vec![Vec3::X], &centroid);
    assert_eq!(b.triangles.len(), 8);
    b.fill_boundary(&vec![Vec3::X, Vec3::Y], &centroid);
    assert_eq!(b.triangles.len(), 8);
}

#[test]
fn fill_boundary_fans_pairs_to_the_centroid() {
    let mut b = TriangleMeshBuilder::new_empty();
    let boundary = vec![Vec3::X, Vec3::Z, -Vec3::X, -Vec3::Z];
    b.fill_boundary(&boundary, &centroid);
    assert_eq!(b.triangles, vec![tri(Vec3::X, Vec3::Z, Vec3::ZERO), tri(-Vec3::X, -Vec3::Z, Vec3::ZERO)]);
}

#[test]
fn slice_of_a_one_sided_mesh_is_none() {
    let b = octahedron(1);
    assert!(b.slice(horizontal_plane(5.0), &side, &intersect, &centroid).is_none());
    assert!(b.slice(horizontal_plane(-5.0), &side, &intersect, &centroid).is_none());
}

#[test]
fn slice_of_an_octahedron_through_its_equator() {
    let b = octahedron(0);
    let (positive, negative) = b.slice(horizontal_plane(0.0), &side, &intersect, &centroid).unwrap();
    // The equator vertices lie on the plane and count as positive: the four
    // upper faces stay whole, each lower face splits into one negative and
    // two positive pieces, and each side is closed by a fan of four.
    assert_eq!(positive.triangles.len(), 4 + 8 + 4);
    assert_eq!(negative.triangles.len(), 4 + 4);
    for t in &negative.triangles {
        for v in t.vertices {
            assert!(v.y <= 0.0);
        }
    }
}

#[test]
fn slice_closes_each_side_with_opposite_fans() {
    let b = octahedron(1);
    let plane = Plane { point: Vec3::new(0.0, 0.1, 0.0), normal: Vec3::Y };
    let (positive, negative) = b.slice(plane, &side, &intersect, &centroid).unwrap();
    let last_pos = positive.triangles[positive.triangles.len() - 1];
    let last_neg = negative.triangles[negative.triangles.len() - 1];
    // Closing fans lie in the plane, wound in opposite directions.
    assert!(normal_of(last_pos).y < -0.99);
    assert!(normal_of(last_neg).y > 0.99);
}

#[test]
fn explode_reaches_the_fragment_count() {
    let rng = RefCell::new(StdRng::seed_from_u64(7));
    let random_normal = || {
        let mut rng = rng.borrow_mut();
        let u: f32 = rng.random_range(-1.0..1.0);
        let theta: f32 = rng.random_range(0.0..std::f32::consts::TAU);
        let r = (1.0 - u * u).sqrt();
        Vec3::new(r * theta.cos(), r * theta.sin(), u).normalize()
    };
    let negate = |n: Vec3| -n;
    let mesh = octahedron(2);
    let fragments =
        explode_mesh(&mesh, Vec3::ZERO, 4, 10, &random_normal, &negate, &side, &intersect, &centroid).unwrap();
    assert!(fragments.len() >= 4);
    assert_eq!(fragments.len() % 2, 0);
    for pair in fragments.chunks(2) {
        assert!(!pair[0].mesh.is_empty());
        assert!(!pair[1].mesh.is_empty());
        assert_eq!(pair[1].direction, -pair[0].direction);
    }
}

#[test]
fn explode_without_iterations_fails() {
    let random_normal = || Vec3::Y;
    let negate = |n: Vec3| -n;
    let mesh = octahedron(1);
    assert!(explode_mesh(&mesh, Vec3::ZERO, 4, 0, &random_normal, &negate, &side, &intersect, &centroid).is_none());
}

#[test]
fn explode_fails_when_nothing_slices() {
    // Every plane passes through the origin, far from this mesh.
    let mut mesh = TriangleMeshBuilder::new_empty();
    mesh.add_triangle(tri(Vec3::new(10.0, 10.0, 10.0), Vec3::new(11.0, 10.0, 10.0), Vec3::new(10.0, 11.0, 10.0)));
    let random_normal = || Vec3::Y;
    let negate = |n: Vec3| -n;
    assert!(explode_mesh(&mesh, Vec3::ZERO, 4, 10, &random_normal, &negate, &side, &intersect, &centroid).is_none());
}

#[test]
fn explode_pass_tags_halves_with_the_normal_and_its_opposite() {
    let queue = vec![ExplodeFragment { mesh: octahedron(0), direction: Vec3::ZERO }];
    let random_normal = || Vec3::Y;
    let negate = |n: Vec3| -n;
    let fragments = explode_pass(&queue, Vec3::ZERO, &random_normal, &negate, &side, &intersect, &centroid);
    assert_eq!(fragments.len(), 2);
    assert_eq!(fragments[0].direction, Vec3::Y);
    assert_eq!(fragments[1].direction, -Vec3::Y);
    assert_eq!(fragments[0].mesh.triangles.len(), 16);
    assert_eq!(fragments[1].mesh.triangles.len(), 8);
}

#[test]
fn build_then_read_back_gives_the_same_triangles() {
    let b = octahedron(2);
    let mesh = b.build(&normal_of, &uv_of);
    assert_eq!(mesh.normals.len(), 3 * 128);
    assert_eq!(mesh.uvs.len(), 3 * 128);
    let back = TriangleMeshBuilder::from_indexed(&mesh).unwrap();
    assert_eq!(back.triangles, b.triangles);
}

#[test]
fn from_indexed_widens_sixteen_bit_indices() {
    let mesh: IndexedMesh<Vec3, Vec2> = IndexedMesh {
        positions: Some(vec![Vec3::X, Vec3::Y, Vec3::Z]),
        normals: vec![],
        uvs: vec![],
        indices: Some(Indices::U16(vec![0, 1, 2, 2, 1, 0])),
    };
    let b = TriangleMeshBuilder::from_indexed(&mesh).unwrap();
    assert_eq!(b.triangles, vec![tri(Vec3::X, Vec3::Y, Vec3::Z), tri(Vec3::Z, Vec3::Y, Vec3::X)]);
}

#[test]
fn from_indexed_reports_each_error() {
    let positions = Some(vec![Vec3::X, Vec3::Y, Vec3::Z]);
    let missing_positions: IndexedMesh<Vec3, Vec2> =
        IndexedMesh { positions: None, normals: vec![], uvs: vec![], indices: Some(Indices::U32(vec![0, 1, 2])) };
    assert_eq!(TriangleMeshBuilder::from_indexed(&missing_positions).unwrap_err(), MeshConversionError::MissingPositions);
    let missing_indices: IndexedMesh<Vec3, Vec2> =
        IndexedMesh { positions: positions.clone(), normals: vec![], uvs: vec![], indices: None };
    assert_eq!(TriangleMeshBuilder::from_indexed(&missing_indices).unwrap_err(), MeshConversionError::MissingIndices);
    let incomplete: IndexedMesh<Vec3, Vec2> =
        IndexedMesh { positions: positions.clone(), normals: vec![], uvs: vec![], indices: Some(Indices::U32(vec![0, 1])) };
    assert_eq!(TriangleMeshBuilder::from_indexed(&incomplete).unwrap_err(), MeshConversionError::IncompleteTriangle);
    let out_of_range: IndexedMesh<Vec3, Vec2> =
        IndexedMesh { positions, normals: vec![], uvs: vec![], indices: Some(Indices::U16(vec![0, 1, 3])) };
    assert_eq!(TriangleMeshBuilder::from_indexed(&out_of_range).unwrap_err(), MeshConversionError::IndexOutOfRange);
}

#[test]
fn explode_gives_up_after_max_iterations() {
    let axes = [Vec3::Y, Vec3::X, Vec3::Z];
    let drawn = std::cell::Cell::new(0usize);
    let random_normal = || {
        let n = axes[drawn.get() % 3];
        drawn.set(drawn.get() + 1);
        n
    };
    let negate = |n: Vec3| -n;
    let mesh = octahedron(1);
    assert!(explode_mesh(&mesh, Vec3::ZERO, 1000, 2, &random_normal, &negate, &side, &intersect, &centroid).is_none());
    // One normal for the first pass, one per half in the second.
    assert_eq!(drawn.get(), 3);
    drawn.set(0);
    let fragments =
        explode_mesh(&mesh, Vec3::ZERO, 3, 2, &random_normal, &negate, &side, &intersect, &centroid).unwrap();
    assert_eq!(fragments.len(), 4);
}

#[test]
fn explode_pass_with_drops_only_meshes_that_do_not_slice() {
    let mut far = TriangleMeshBuilder::new_empty();
    far.add_triangle(tri(Vec3::new(10.0, 10.0, 10.0), Vec3::new(11.0, 10.0, 10.0), Vec3::new(10.0, 11.0, 10.0)));
    let queue = vec![
        ExplodeFragment { mesh: far, direction: Vec3::ZERO },
        ExplodeFragment { mesh: octahedron(0), direction: Vec3::ZERO },
    ];
    let negate = |n: Vec3| -n;
    let fragments =
        explode_pass_with(&queue, &vec![Vec3::Y, Vec3::X], Vec3::ZERO, &negate, &side, &intersect, &centroid);
    assert_eq!(fragments.len(), 2);
    assert_eq!(fragments[0].direction, Vec3::X);
    assert_eq!(fragments[1].direction, -Vec3::X);
    let (pos, neg) = octahedron(0).slice(Plane { point: Vec3::ZERO, normal: Vec3::X }, &side, &intersect, &centroid).unwrap();
    assert_eq!(fragments[0].mesh.triangles, pos.triangles);
    assert_eq!(fragments[1].mesh.triangles, neg.triangles);
}

#[test]
fn explode_with_a_first_cut_that_succeeds_gives_its_halves() {
    let random_normal = || Vec3::Z;
    let negate = |n: Vec3| -n;
    let mesh = octahedron(1);
    let fragments =
        explode_mesh(&mesh, Vec3::ZERO, 2, 10, &random_normal, &negate, &side, &intersect, &centroid).unwrap();
    let (pos, neg) = mesh.slice(Plane { point: Vec3::ZERO, normal: Vec3::Z }, &side, &intersect, &centroid).unwrap();
    assert_eq!(fragments.len(), 2);
    assert_eq!(fragments[0].mesh.triangles, pos.triangles);
    assert_eq!(fragments[0].direction, Vec3::Z);
    assert_eq!(fragments[1].mesh.triangles, neg.triangles);
    assert_eq!(fragments[1].direction, -Vec3::Z);
}
