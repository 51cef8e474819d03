use genmesh::generators::{Cube, Plane, PlanePoint};
use genmesh::{
    LruIndexer, MapToVertices, Neighbors, Stream, Triangle, Triangulate, Vertices,
};
use std::collections::HashSet;

/// A cube as twelve triangles over its eight corners.
fn cube_mesh() -> Neighbors<usize> {
    let triangles = Cube::new().vertex(|v| v.corner).triangulate().collect();
    Neighbors::new((0..8).collect(), triangles)
}

#[test]
fn closed_cube_edges_have_two_triangles() {
    let mesh = cube_mesh();
    assert_eq!(12, mesh.polygons().len());
    for t in mesh.polygons().iter() {
        for (a, b) in [(t.x, t.y), (t.y, t.z), (t.z, t.x)] {
            let faces = mesh.edge_neighbors(a, b).unwrap();
            assert_eq!(2, faces.len());
            assert_ne!(faces[0], faces[1]);
            // the edge is found whichever way round it is named
            assert_eq!(Some(faces), mesh.edge_neighbors(b, a));
        }
    }
    // a diagonal through the cube is no edge
    assert_eq!(None, mesh.edge_neighbors(0, 7));
}

#[test]
fn cube_triangles_have_three_neighbors() {
    let mesh = cube_mesh();
    for i in 0..12 {
        let near = mesh.polygon_neighbors(i).unwrap();
        assert_eq!(3, near.len());
        assert!(!near.contains(&i));
        for &j in near.iter() {
            assert!(mesh.polygon_neighbors(j).unwrap().contains(&i));
        }
    }
    assert_eq!(None, mesh.polygon_neighbors(12));
}

#[test]
fn polygon_neighbors_of_a_strip() {
    // three triangles in a row: the one in the middle touches both others
    let triangles = vec![
        Triangle::new(0usize, 1, 2),
        Triangle::new(2usize, 1, 3),
        Triangle::new(2usize, 3, 4),
    ];
    let mesh = Neighbors::new(vec!['a', 'b', 'c', 'd', 'e'], triangles);
    let set = |v: &[usize]| v.iter().copied().collect::<HashSet<usize>>();
    assert_eq!(Some(set(&[1])), mesh.polygon_neighbors(0));
    assert_eq!(Some(set(&[0, 2])), mesh.polygon_neighbors(1));
    assert_eq!(Some(set(&[1])), mesh.polygon_neighbors(2));
    assert_eq!(None, mesh.polygon_neighbors(3));
}

#[test]
fn vertex_neighbors_list_each_corner_twice() {
    let triangles = vec![
        Triangle::new(0usize, 1, 2),
        Triangle::new(2usize, 1, 3),
        Triangle::new(2usize, 3, 4),
    ];
    let mesh = Neighbors::new(vec![(); 5], triangles);
    // a triangle is listed once for each end of an edge that is the vertex
    assert_eq!(Some(&[0usize, 0][..]), mesh.vertex_neighbors(&0));
    assert_eq!(Some(&[0usize, 0, 1, 1][..]), mesh.vertex_neighbors(&1));
    assert_eq!(
        Some(&[0usize, 0, 1, 1, 2, 2][..]),
        mesh.vertex_neighbors(&2)
    );
    assert_eq!(Some(&[2usize, 2][..]), mesh.vertex_neighbors(&4));
    assert_eq!(None, mesh.vertex_neighbors(&5));
}

#[test]
fn empty_mesh_has_no_neighbors() {
    let mesh: Neighbors<u8> = Neighbors::new(Vec::new(), Vec::new());
    assert_eq!(None, mesh.vertex_neighbors(&0));
    assert_eq!(None, mesh.polygon_neighbors(0));
    assert_eq!(None, mesh.edge_neighbors(0, 1));
}

#[test]
fn split_hands_the_buffers_back() {
    let vertices = vec![10u8, 20, 30];
    let triangles = vec![Triangle::new(0usize, 1, 2)];
    let mesh = Neighbors::new(vertices.clone(), triangles.clone());
    assert_eq!(&vertices, mesh.vertices());
    assert_eq!(&triangles, mesh.polygons());
    let corners = mesh.face_vertices(0);
    assert_eq!((&10, &20, &30), (corners.x, corners.y, corners.z));
    let (v, p) = mesh.split();
    assert_eq!(vertices, v);
    assert_eq!(triangles, p);
}

fn sub(a: [f32; 3], b: [f32; 3]) -> [f32; 3] {
    [a[0] - b[0], a[1] - b[1], a[2] - b[2]]
}

fn cross(a: [f32; 3], b: [f32; 3]) -> [f32; 3] {
    [
        a[1] * b[2] - a[2] * b[1],
        a[2] * b[0] - a[0] * b[2],
        a[0] * b[1] - a[1] * b[0],
    ]
}

fn normalized(a: [f32; 3]) -> [f32; 3] {
    let mag = (a[0] * a[0] + a[1] * a[1] + a[2] * a[2]).sqrt();
    [a[0] / mag, a[1] / mag, a[2] / mag]
}

fn normal_for_face(mesh: &Neighbors<[f32; 3]>, i: usize) -> [f32; 3] {
    let Triangle { x, y, z } = mesh.face_vertices(i);
    normalized(cross(sub(*z, *x), sub(*z, *y)))
}

fn normal_for_vertex(mesh: &Neighbors<[f32; 3]>, i: usize) -> [f32; 3] {
    let mut sum = [0f32; 3];
    for &face in mesh.vertex_neighbors(&i).unwrap() {
        let n = normal_for_face(mesh, face);
        sum = [sum[0] + n[0], sum[1] + n[1], sum[2] + n[2]];
    }
    normalized(sum)
}

#[test]
fn flat_mesh_vertex_normals_are_face_normals() {
    // a plane of 2 by 2 quads, indexed and triangulated
    let mut points: Vec<PlanePoint> = Vec::new();
    let indices: Vec<usize> = {
        let mut indexer = LruIndexer::new(16, |_, v| points.push(v));
        Plane::subdivide(2, 2)
            .triangulate()
            .vertex(|v| indexer.index(v))
            .vertices()
            .collect()
    };
    assert_eq!(9, points.len());
    assert_eq!(8 * 3, indices.len());
    let positions: Vec<[f32; 3]> = points
        .iter()
        .map(|p| [p.x as f32 - 1., p.y as f32 - 1., 0.])
        .collect();
    let triangles: Vec<Triangle<usize>> = indices
        .chunks(3)
        .map(|c| Triangle::new(c[0], c[1], c[2]))
        .collect();
    let mesh = Neighbors::new(positions, triangles);
    for face in 0..8 {
        let n = normal_for_face(&mesh, face);
        assert!(n[0] == 0. && n[1] == 0. && n[2].abs() == 1.);
    }
    let up = normal_for_face(&mesh, 0);
    for v in 0..9 {
        assert_eq!(up, normal_for_vertex(&mesh, v));
    }
}
