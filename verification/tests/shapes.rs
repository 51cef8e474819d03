use genmesh::generators::{
    Circle, CircleVertex, Cone, Cube, Cylinder, IndexedPolygon, IndexedPolygons, SharedVertex,
    SharedVertices, SphereUv, Torus,
};
use genmesh::Polygon::PolyTri;
use genmesh::{Stream, Triangle};
use std::f32::consts::PI;

/// The position of a vertex of a circle with `sub_u` points round it.
fn circle_pos(v: CircleVertex, sub_u: usize) -> [f32; 3] {
    match v {
        CircleVertex::Center => [0., 0., 0.],
        CircleVertex::Rim(i) => {
            let u = (i as f32 / sub_u as f32) * PI * 2.;
            [u.cos(), u.sin(), 0.]
        }
    }
}

#[test]
#[allow(clippy::approx_constant)]
fn test_circle() {
    let circle = Circle::new(8);
    assert_eq!((8, Some(8)), circle.size_hint());
    assert_eq!(9, circle.shared_vertex_count());
    assert_eq!(8, circle.indexed_polygon_count());
    let vertices = circle.shared_vertex_iter().collect();
    assert_eq!(
        Some([0.707107, -0.70710653, 0.0]),
        vertices.last().map(|v| circle_pos(*v, 8))
    );
    let polys = circle.indexed_polygon_iter().collect();
    assert_eq!(PolyTri(Triangle { x: 0, y: 1, z: 2 }), polys[0]);
    assert_eq!(Some(&PolyTri(Triangle { x: 0, y: 8, z: 1 })), polys.last());
}

#[test]
fn test_cone_len() {
    let mut cone = Cone::new(5);
    assert_eq!(10, cone.len());
    cone.next();
    assert_eq!(9, cone.len());
    assert_eq!(9, cone.count());
}

#[test]
fn test_cube_len() {
    let mut cube = Cube::new();
    assert_eq!(6, cube.len());
    cube.next();
    assert_eq!(5, cube.len());
    assert_eq!(5, cube.count());
}

#[test]
fn test_cylinder_len() {
    let mut cylinder = Cylinder::new(5);
    assert_eq!(15, cylinder.len());
    cylinder.next();
    assert_eq!(14, cylinder.len());
    assert_eq!(14, cylinder.count());
}

#[test]
fn test_sphere_len() {
    let mut sphere = SphereUv::new(5, 5);
    assert_eq!(25, sphere.len());
    sphere.next();
    assert_eq!(24, sphere.len());
    assert_eq!(24, sphere.count());
}

#[test]
fn test_torus_len() {
    let mut torus = Torus::new(6, 5);
    assert_eq!(30, torus.len());
    torus.next();
    assert_eq!(29, torus.len());
    assert_eq!(29, torus.count());
}
