use genmesh::generators::{
    Circle, Cone, Cube, Cylinder, IcoSphere, IndexedPolygon, IndexedPolygons, Plane,
    SharedVertex, SharedVertices, SphereUv, Torus,
};
use genmesh::{EmitTriangles, MapVertex, Stream, Triangulate};
use std::fmt::Debug;

/// Test a generator by comparing two triangular meshes:
/// 1) by using the stream of the given generator
/// 2) by producing shared vertices and sampling them with the
///    produced indexed polygons.
fn test<F, P, G>(generator: G)
where
    F: EmitTriangles,
    F::Vertex: Clone + Copy + Debug + PartialEq,
    P: EmitTriangles<Vertex = usize>,
    G: SharedVertex<F::Vertex> + IndexedPolygon<P> + Stream<Item = F>,
{
    let vertices: Vec<_> = generator.shared_vertex_iter().collect();

    let f1: Vec<_> = generator
        .indexed_polygon_iter()
        .triangulate()
        .collect()
        .into_iter()
        .map(|f| f.map_vertex(|u| vertices[u]))
        .collect();
    // every index refers to a shared vertex
    for t in generator.indexed_polygon_iter().triangulate().collect() {
        assert!(t.x < vertices.len() && t.y < vertices.len() && t.z < vertices.len());
    }
    let f0: Vec<_> = generator.triangulate().collect();

    assert_eq!(f0.len(), f1.len());
    for (i, (p0, p1)) in f0.iter().zip(f1.iter()).enumerate() {
        assert_eq!(p0, p1, "Mismatched polygon[{}]", i);
    }
}

#[test]
fn gen_plane() {
    test(Plane::new());
    test(Plane::subdivide(3, 4));
}

#[test]
fn generate_gen_cube() {
    test(Cube::new());
}

#[test]
fn generate_gen_cylinder() {
    test(Cylinder::new(5));
    test(Cylinder::subdivide(3, 4));
}

#[test]
fn generate_gen_sphere_uv() {
    test(SphereUv::new(4, 3));
}

#[test]
fn generate_gen_ico_sphere() {
    test(IcoSphere::new());
    test(IcoSphere::subdivide(3));
}

#[test]
fn generate_gen_cone() {
    test(Cone::new(8));
}

#[test]
fn generate_gen_torus() {
    test(Torus::new(8, 8));
}

#[test]
fn generate_gen_circle() {
    test(Circle::new(4));
    test(Circle::new(9));
}

#[test]
fn dual_representation_holds_midway() {
    // what is left of a generator that has handed out some polygons is the
    // tail of its indexed form
    let mut sphere = SphereUv::new(5, 4);
    for _ in 0..7 {
        sphere.next();
    }
    let vertices = sphere.shared_vertex_iter().collect();
    let indexed = sphere.indexed_polygon_iter().collect();
    let rest = sphere.collect();
    assert_eq!(rest.len(), indexed.len() - 7);
    for (k, p) in rest.iter().enumerate() {
        assert_eq!(*p, indexed[k + 7].map_vertex(|u| vertices[u]));
    }
}
