use genmesh::examples::{first_corner_twice, odd_corners};
use genmesh::generator::triangle_indices;
use genmesh::generators::{
    Cone, Cube, CubeVertex, Cylinder, CylinderVertex, IcoSphere, IcoVertex, IndexedPolygon,
    IndexedPolygons, Plane, PlanePoint, SharedVertex, SharedVertices, SpherePoint, SphereUv,
    Torus, VertexSection,
};
use genmesh::Polygon::{PolyQuad, PolyTri};
use genmesh::{
    EmitLines, EmitTriangles, EmitVertices, Line, Lines, MapToVertices, MapVertex, Polygon, Quad,
    Stream, Triangle, Triangulate, VecStream, Vertices,
};

#[test]
fn emit_vertices_in_winding_order() {
    assert_eq!(vec![1, 2], Line::new(1, 2).emit_vertices());
    assert_eq!(vec![1, 2, 3], Triangle::new(1, 2, 3).emit_vertices());
    assert_eq!(vec![1, 2, 3, 4], Quad::new(1, 2, 3, 4).emit_vertices());
    assert_eq!(vec![1, 2, 3], PolyTri(Triangle::new(1, 2, 3)).emit_vertices());
    assert_eq!(
        vec![1, 2, 3, 4],
        PolyQuad(Quad::new(1, 2, 3, 4)).emit_vertices()
    );
}

#[test]
fn polygon_emits_as_what_it_wraps() {
    let quad = Quad::new('a', 'b', 'c', 'd');
    let tri = Triangle::new('a', 'b', 'c');
    assert_eq!(quad.emit_triangles(), PolyQuad(quad).emit_triangles());
    assert_eq!(tri.emit_triangles(), PolyTri(tri).emit_triangles());
    assert_eq!(quad.emit_lines(), PolyQuad(quad).emit_lines());
    assert_eq!(tri.emit_lines(), PolyTri(tri).emit_lines());
    assert_eq!(
        vec![Triangle::new('a', 'b', 'c'), Triangle::new('c', 'd', 'a')],
        quad.emit_triangles()
    );
}

#[test]
fn map_vertex_keeps_the_shape() {
    let double = |v: u8| v as u16 * 2;
    assert_eq!(Line::new(2u16, 4), Line::new(1u8, 2).map_vertex(double));
    assert_eq!(
        Triangle::new(2u16, 4, 6),
        Triangle::new(1u8, 2, 3).map_vertex(double)
    );
    assert_eq!(
        Quad::new(2u16, 4, 6, 8),
        Quad::new(1u8, 2, 3, 4).map_vertex(double)
    );
    assert_eq!(
        PolyTri(Triangle::new(2u16, 4, 6)),
        PolyTri(Triangle::new(1u8, 2, 3)).map_vertex(double)
    );
    assert_eq!(
        PolyQuad(Quad::new(2u16, 4, 6, 8)),
        PolyQuad(Quad::new(1u8, 2, 3, 4)).map_vertex(double)
    );
}

#[test]
fn map_vertex_calls_in_winding_order() {
    let mut seen = Vec::new();
    let out = Quad::new(4, 3, 2, 1).map_vertex(|v| {
        seen.push(v);
        seen.len()
    });
    assert_eq!(vec![4, 3, 2, 1], seen);
    assert_eq!(Quad::new(1, 2, 3, 4), out);
}

#[test]
fn triangulate_keeps_the_order_of_the_polygons() {
    let polys = vec![
        PolyQuad(Quad::new(0, 1, 2, 3)),
        PolyTri(Triangle::new(4, 5, 6)),
        PolyQuad(Quad::new(7, 8, 9, 10)),
    ];
    let mut triangles = VecStream::new(polys).triangulate();
    assert_eq!((3, None), triangles.size_hint());
    assert_eq!(Some(Triangle::new(0, 1, 2)), triangles.next());
    // one triangle of the first quad waits in the buffer
    assert_eq!((2, None), triangles.size_hint());
    assert_eq!(
        vec![
            Triangle::new(2, 3, 0),
            Triangle::new(4, 5, 6),
            Triangle::new(7, 8, 9),
            Triangle::new(9, 10, 7),
        ],
        triangles.collect()
    );
}

#[test]
fn streams_stay_empty_once_empty() {
    let mut triangles = VecStream::new(vec![Triangle::new(1, 2, 3)]).triangulate();
    assert_eq!(Some(Triangle::new(1, 2, 3)), triangles.next());
    assert_eq!(None, triangles.next());
    assert_eq!(None, triangles.next());
    let mut plane = Plane::new();
    assert!(plane.next().is_some());
    assert_eq!(None, plane.next());
    assert_eq!(None, plane.next());
    assert_eq!(0, plane.len());
    let empty: Vec<Quad<u8>> = Vec::new();
    assert_eq!(0, VecStream::new(empty).lines().count());
}

#[test]
fn vertices_and_lines_of_a_stream() {
    let polys = vec![
        PolyTri(Triangle::new(1, 2, 3)),
        PolyQuad(Quad::new(4, 5, 6, 7)),
    ];
    let mut vertices = VecStream::new(polys.clone()).vertices();
    assert_eq!((2, None), vertices.size_hint());
    assert_eq!(Some(1), vertices.next());
    // two vertices of the triangle wait in the buffer
    assert_eq!((1, None), vertices.size_hint());
    let vertices = VecStream::new(polys.clone()).vertices();
    assert_eq!(vec![1, 2, 3, 4, 5, 6, 7], vertices.collect());
    let lines = VecStream::new(polys.clone()).lines();
    assert_eq!((2, None), lines.size_hint());
    assert_eq!(
        vec![
            Line::new(1, 2),
            Line::new(2, 3),
            Line::new(3, 1),
            Line::new(4, 5),
            Line::new(5, 6),
            Line::new(6, 7),
            Line::new(7, 4),
        ],
        lines.collect()
    );
    let mapped = VecStream::new(polys).vertex(|v| v * 10);
    assert_eq!((2, Some(2)), mapped.size_hint());
    assert_eq!(
        vec![
            PolyTri(Triangle::new(10, 20, 30)),
            PolyQuad(Quad::new(40, 50, 60, 70)),
        ],
        mapped.collect()
    );
}

#[test]
fn unit_plane_first_quad() {
    let place = |p: PlanePoint| ([2. * p.x as f32 - 1., 2. * p.y as f32 - 1., 0.], [0., 0., 1.]);
    let quad = Plane::new().next().unwrap().map_vertex(place);
    let up = [0f32, 0., 1.];
    assert_eq!(
        Quad::new(
            ([-1f32, -1., 0.], up),
            ([1f32, -1., 0.], up),
            ([1f32, 1., 0.], up),
            ([-1f32, 1., 0.], up),
        ),
        quad
    );
    let triangles = Plane::new().triangulate().vertex(|p| place(p).0).collect();
    assert_eq!(
        vec![
            Triangle::new([-1f32, -1., 0.], [1f32, -1., 0.], [1f32, 1., 0.]),
            Triangle::new([1f32, 1., 0.], [-1f32, 1., 0.], [-1f32, -1., 0.]),
        ],
        triangles
    );
}

#[test]
fn plane_indexed_form() {
    let plane = Plane::subdivide(2, 3);
    assert_eq!(12, plane.shared_vertex_count());
    assert_eq!(6, plane.indexed_polygon_count());
    assert_eq!(PlanePoint { x: 2, y: 1 }, plane.shared_vertex(5));
    assert_eq!(Quad::new(4, 5, 8, 7), plane.indexed_polygon(3));
    assert_eq!((12, Some(12)), plane.shared_vertex_iter().size_hint());
    assert_eq!(6, plane.indexed_polygon_iter().len());
    assert_eq!(
        vec![0, 1, 4, 4, 3, 0, 1, 2, 5, 5, 4, 1],
        triangle_indices(&Plane::subdivide(2, 1))
    );
}

#[test]
fn cube_vertices() {
    let cube = Cube::new();
    assert_eq!(24, cube.shared_vertex_count());
    assert_eq!(6, cube.indexed_polygon_count());
    assert_eq!(Quad::new(8, 9, 10, 11), cube.indexed_polygon(2));
    let v = cube.shared_vertex(9);
    assert_eq!(CubeVertex { corner: 7, face: 2 }, v);
    assert_eq!((1, 1, 1), v.position());
    assert_eq!((0, 1, 0), v.normal());
    let w = CubeVertex { corner: 4, face: 5 };
    assert_eq!((1, -1, -1), w.position());
    assert_eq!((0, 0, -1), w.normal());
    // every corner of a face lies on the side of the cube that the normal
    // points to
    for face in cube.collect() {
        for v in face.emit_vertices() {
            let (p, n) = (v.position(), v.normal());
            assert_eq!(1, p.0 * n.0 + p.1 * n.1 + p.2 * n.2);
        }
    }
}

#[test]
fn cone_numbers_its_vertices() {
    let cone = Cone::new(4);
    assert_eq!(13, cone.shared_vertex_count());
    assert_eq!(8, cone.indexed_polygon_count());
    assert_eq!(2, cone.index(VertexSection::Tip(2)));
    assert_eq!(6, cone.index(VertexSection::TopRadius(2)));
    assert_eq!(10, cone.index(VertexSection::BottomRadius(2)));
    assert_eq!(12, cone.index(VertexSection::BottomCenter));
    for i in 0..13 {
        assert_eq!(i, cone.index(cone.rev_index(i)));
    }
    assert_eq!(Triangle::new(3, 7, 4), cone.indexed_polygon(3));
    assert_eq!(Triangle::new(12, 9, 8), cone.indexed_polygon(4));
    assert_eq!(Triangle::new(12, 8, 11), cone.indexed_polygon(7));
}

#[test]
fn cylinder_faces() {
    let ring = |u, ring| CylinderVertex::Ring { u, ring };
    let mut cylinder = Cylinder::subdivide(3, 2);
    assert_eq!(17, cylinder.shared_vertex_count());
    assert_eq!(12, cylinder.indexed_polygon_count());
    assert_eq!(
        Some(PolyTri(Triangle::new(
            ring(0, 0),
            CylinderVertex::Bottom,
            ring(1, 0)
        ))),
        cylinder.next()
    );
    let rest = cylinder.collect();
    assert_eq!(
        PolyQuad(Quad::new(ring(2, 1), ring(0, 1), ring(0, 2), ring(2, 2))),
        rest[4]
    );
    assert_eq!(
        PolyTri(Triangle::new(ring(2, 4), ring(0, 4), CylinderVertex::Top)),
        rest[10]
    );
    let cylinder = Cylinder::subdivide(3, 2);
    assert_eq!(CylinderVertex::Bottom, cylinder.shared_vertex(0));
    assert_eq!(ring(1, 2), cylinder.shared_vertex(8));
    assert_eq!(CylinderVertex::Top, cylinder.shared_vertex(16));
    assert_eq!(PolyTri(Triangle::new(3, 0, 1)), cylinder.indexed_polygon(2));
    assert_eq!(
        PolyQuad(Quad::new(6, 4, 7, 9)),
        cylinder.indexed_polygon(5)
    );
    assert_eq!(
        PolyTri(Triangle::new(13, 14, 16)),
        cylinder.indexed_polygon(9)
    );
}

#[test]
fn sphere_faces() {
    let sphere = SphereUv::new(3, 3);
    assert_eq!(8, sphere.shared_vertex_count());
    assert_eq!(9, sphere.indexed_polygon_count());
    let faces = sphere.collect();
    let at = |u, v| SpherePoint { u, v };
    // at the pole every step round the equator is the same point
    assert_eq!(PolyTri(Triangle::new(at(0, 0), at(1, 1), at(2, 1))), faces[1]);
    assert_eq!(
        PolyQuad(Quad::new(at(2, 1), at(2, 2), at(0, 2), at(0, 1))),
        faces[5]
    );
    assert_eq!(PolyTri(Triangle::new(at(0, 3), at(1, 2), at(0, 2))), faces[6]);
    let sphere = SphereUv::new(3, 3);
    assert_eq!(at(0, 0), sphere.shared_vertex(0));
    assert_eq!(at(1, 2), sphere.shared_vertex(5));
    assert_eq!(at(0, 3), sphere.shared_vertex(7));
    assert_eq!(PolyTri(Triangle::new(0, 2, 3)), sphere.indexed_polygon(1));
    assert_eq!(PolyQuad(Quad::new(3, 6, 4, 1)), sphere.indexed_polygon(5));
    assert_eq!(PolyTri(Triangle::new(7, 5, 4)), sphere.indexed_polygon(6));
}

#[test]
fn torus_quads_wrap_round() {
    let torus = Torus::new(3, 4);
    assert_eq!(13, torus.shared_vertex_count());
    assert_eq!(12, torus.indexed_polygon_count());
    assert_eq!(Quad::new(0, 4, 5, 1), torus.indexed_polygon(0));
    assert_eq!(Quad::new(3, 7, 4, 0), torus.indexed_polygon(3));
    assert_eq!(Quad::new(8, 0, 1, 9), torus.indexed_polygon(8));
    assert_eq!(Quad::new(11, 3, 0, 8), torus.indexed_polygon(11));
    let v = torus.shared_vertex(6);
    assert_eq!((1, 2), (v.h, v.u));
}

#[test]
fn ico_sphere_counts() {
    let sphere = IcoSphere::new();
    assert_eq!(12, sphere.shared_vertex_count());
    assert_eq!(20, sphere.indexed_polygon_count());
    assert_eq!(Triangle::new(0, 11, 5), sphere.indexed_polygon(0));
    assert_eq!(Triangle::new(9, 8, 1), sphere.indexed_polygon(19));
    assert_eq!(IcoVertex::Corner(7), sphere.shared_vertex(7));
    assert_eq!((20, Some(20)), sphere.size_hint());

    let once = IcoSphere::subdivide(1);
    // one new vertex for each of the 30 edges
    assert_eq!(42, once.shared_vertex_count());
    assert_eq!(80, once.indexed_polygon_count());
    assert_eq!(IcoVertex::Middle(0, 11), once.shared_vertex(12));
    assert_eq!(IcoVertex::Middle(5, 11), once.shared_vertex(13));
    assert_eq!(IcoVertex::Middle(0, 5), once.shared_vertex(14));
    // the second face has the edge between 0 and 5 too, and adds two
    assert_eq!(IcoVertex::Middle(1, 5), once.shared_vertex(15));
    assert_eq!(Triangle::new(0, 12, 14), once.indexed_polygon(0));
    assert_eq!(Triangle::new(11, 13, 12), once.indexed_polygon(1));
    assert_eq!(Triangle::new(5, 14, 13), once.indexed_polygon(2));
    assert_eq!(Triangle::new(12, 13, 14), once.indexed_polygon(3));
    assert_eq!(Triangle::new(0, 14, 16), once.indexed_polygon(4));

    let twice = IcoSphere::subdivide(2);
    assert_eq!(162, twice.shared_vertex_count());
    assert_eq!(320, twice.len());
    assert_eq!(320, twice.count());
}

#[test]
fn polygon_variants_compare() {
    let a: Polygon<u8> = PolyTri(Triangle::new(1, 2, 3));
    let b: Polygon<u8> = PolyQuad(Quad::new(1, 2, 3, 3));
    assert_ne!(a, b);
    assert_eq!(a, a.map_vertex(|v| v));
}

#[test]
fn worked_examples() {
    assert_eq!(
        vec![
            Quad::new(false, true, false, true),
            Quad::new(true, false, true, false),
        ],
        odd_corners()
    );
    assert_eq!((0, 0), first_corner_twice());
}

#[test]
fn equality_compares_the_points() {
    assert!(Line::new(1, 2) == Line::new(1, 2));
    assert!(Line::new(1, 2) != Line::new(2, 1));
    assert!(Triangle::new(1, 2, 3) != Triangle::new(1, 2, 4));
    assert!(Quad::new(1, 2, 3, 4) != Quad::new(0, 2, 3, 4));
    assert!(PolyTri(Triangle::new(1, 2, 3)) == PolyTri(Triangle::new(1, 2, 3)));
    assert!(PolyQuad(Quad::new(1, 2, 3, 4)) != PolyQuad(Quad::new(1, 2, 4, 3)));
    assert!(PlanePoint { x: 1, y: 2 } != PlanePoint { x: 2, y: 1 });
    assert!(CubeVertex { corner: 1, face: 2 } != CubeVertex { corner: 1, face: 3 });
    assert!(SpherePoint { u: 1, v: 2 } == SpherePoint { u: 1, v: 2 });
    assert!(VertexSection::Tip(1) != VertexSection::TopRadius(1));
    assert!(VertexSection::BottomRadius(2) != VertexSection::BottomRadius(3));
    assert!(VertexSection::BottomCenter == VertexSection::BottomCenter);
    assert!(CylinderVertex::Top != CylinderVertex::Bottom);
    assert!(CylinderVertex::Ring { u: 1, ring: 2 } != CylinderVertex::Ring { u: 1, ring: 3 });
    assert!(IcoVertex::Middle(1, 2) != IcoVertex::Middle(1, 3));
    assert!(IcoVertex::Corner(1) != IcoVertex::Middle(1, 1));
}
