use genmesh::generators::{IndexedPolygon, Plane, PlanePoint, SharedVertex};
use genmesh::{
    EmitLines, EmitTriangles, Line, Lines, LruIndexer, MapToVertices, Quad, Stream,
    Triangle, Triangulate, VecStream, Vertices,
};

#[test]
fn quad_vertex() {
    let input = vec![Quad::new(0usize, 1, 2, 3), Quad::new(1usize, 2, 3, 4)];

    let output = vec![
        Quad::new(false, true, false, true),
        Quad::new(true, false, true, false),
    ];

    let transformed = VecStream::new(input).vertex(|v| v % 2 != 0).collect();

    assert_eq!(transformed.len(), output.len());
    for (x, y) in transformed.into_iter().zip(output.iter().cloned()) {
        assert_eq!(x, y);
    }
}

#[test]
fn quad_vertex_two_stages() {
    let input = vec![Quad::new(0usize, 1, 2, 3), Quad::new(1usize, 2, 3, 4)];

    let output = vec![
        Quad::new(false, true, false, true),
        Quad::new(true, false, true, false),
    ];

    let transformed = VecStream::new(input)
        .vertex(|v| v as u8)
        .vertex(|v| v % 2 != 0)
        .collect();

    assert_eq!(transformed.len(), output.len());
    for (x, y) in transformed.into_iter().zip(output.iter().cloned()) {
        assert_eq!(x, y);
    }
}

#[test]
fn quad_poly_simple() {
    let input = vec![Quad::new(0usize, 1, 2, 3), Quad::new(1usize, 2, 3, 4)];

    let output = vec![Quad::new(0isize, 1, 2, 0), Quad::new(0isize, 2, 3, 0)];

    let transformed = VecStream::new(input)
        .collect()
        .into_iter()
        .map(|v| Quad::new(0isize, v.y as isize, v.z as isize, 0));

    for (x, y) in transformed.zip(output.iter().cloned()) {
        assert_eq!(x, y);
    }
}

#[test]
fn triangle_vertex() {
    let input = vec![Triangle::new(0usize, 1, 2), Triangle::new(1usize, 2, 3)];

    let output = vec![
        Triangle::new(false, true, false),
        Triangle::new(true, false, true),
    ];

    let transformed = VecStream::new(input).vertex(|v| v % 2 != 0).collect();

    assert_eq!(transformed.len(), output.len());
    for (x, y) in transformed.into_iter().zip(output.iter().cloned()) {
        assert_eq!(x, y);
    }
}

#[test]
fn triangle_vertex_two_stages() {
    let input = vec![Triangle::new(0usize, 1, 2), Triangle::new(1usize, 2, 3)];

    let output = vec![
        Triangle::new(false, true, false),
        Triangle::new(true, false, true),
    ];

    let transformed = VecStream::new(input)
        .vertex(|v| v as u8)
        .vertex(|v| v % 2 != 0)
        .collect();

    assert_eq!(transformed.len(), output.len());
    for (x, y) in transformed.into_iter().zip(output.iter().cloned()) {
        assert_eq!(x, y);
    }
}

#[test]
fn triangle_poly_simple() {
    let input = vec![Triangle::new(0usize, 1, 2), Triangle::new(1usize, 2, 3)];

    let output = vec![Triangle::new(0isize, 1, 2), Triangle::new(0isize, 2, 3)];

    let transformed = VecStream::new(input)
        .collect()
        .into_iter()
        .map(|v| Triangle::new(0isize, v.y as isize, v.z as isize));

    for (x, y) in transformed.zip(output.iter().cloned()) {
        assert_eq!(x, y);
    }
}

#[test]
fn to_triangles() {
    let q = Quad::new(0usize, 1, 2, 3);
    let result = q.emit_triangles();

    assert_eq!(
        result,
        vec![Triangle::new(0usize, 1, 2), Triangle::new(2usize, 3, 0)]
    );

    let t = Triangle::new(0usize, 1, 2);
    let result = t.emit_triangles();

    assert_eq!(result, vec![Triangle::new(0usize, 1, 2)]);
}

/// The position of a grid point of a plane with `sx` by `sy` quads.
fn plane_pos(p: PlanePoint, sx: usize, sy: usize) -> [f32; 3] {
    let x = (2. / sx as f32) * p.x as f32 - 1.;
    let y = (2. / sy as f32) * p.y as f32 - 1.;
    [x, y, 0.0]
}

#[test]
fn plane() {
    let mut plane = Plane::new();
    let a = plane.next().unwrap();

    assert_eq!(plane_pos(a.x, 1, 1), [-1f32, -1., 0.]);
    assert_eq!(plane_pos(a.y, 1, 1), [1f32, -1., 0.]);
    assert_eq!(plane_pos(a.z, 1, 1), [1f32, 1., 0.]);
    assert_eq!(plane_pos(a.w, 1, 1), [-1f32, 1., 0.]);
}

#[test]
fn lru_indexer() {
    let mut vectices: Vec<PlanePoint> = Vec::new();
    let indexes: Vec<usize> = {
        let mut indexer = LruIndexer::new(8, |_, v| vectices.push(v));

        Plane::subdivide(1, 3)
            .vertex(|v| indexer.index(v))
            .vertices()
            .collect()
    };

    assert_eq!(8, vectices.len());
    assert_eq!(3 * 4, indexes.len());

    let mut vectices: Vec<PlanePoint> = Vec::new();
    let indexes: Vec<usize> = {
        let mut indexer = LruIndexer::new(4, |_, v| vectices.push(v));

        Plane::subdivide(1, 3)
            .triangulate()
            .vertex(|v| indexer.index(v))
            .vertices()
            .collect()
    };

    assert_eq!(8, vectices.len());
    assert_eq!(3 * 3 * 2, indexes.len());
}

#[test]
fn emit_lines() {
    let triangle = Triangle::new(0i8, 1, 2);
    let lines = triangle.emit_lines();

    assert_eq!(3, lines.len());
    assert_eq!(Line::new(0, 1), lines[0]);
    assert_eq!(Line::new(1, 2), lines[1]);
    assert_eq!(Line::new(2, 0), lines[2]);

    let quad = Quad::new(0i8, 1, 2, 3);
    let lines = quad.emit_lines();

    assert_eq!(4, lines.len());
    assert_eq!(Line::new(0, 1), lines[0]);
    assert_eq!(Line::new(1, 2), lines[1]);
    assert_eq!(Line::new(2, 3), lines[2]);
    assert_eq!(Line::new(3, 0), lines[3]);

    let quads = vec![Quad::new(0i8, 1, 2, 3), Quad::new(4i8, 5, 6, 7)];
    let lines: Vec<Line<i8>> = VecStream::new(quads).lines().collect();

    assert_eq!(8, lines.len());
    assert_eq!(Line::new(0, 1), lines[0]);
    assert_eq!(Line::new(1, 2), lines[1]);
    assert_eq!(Line::new(2, 3), lines[2]);
    assert_eq!(Line::new(3, 0), lines[3]);
}

#[test]
fn test_shared_vertex_count() {
    let plane = Plane::new();
    assert_eq!(plane.shared_vertex_count(), 4);
    assert_eq!(plane.indexed_polygon_count(), 1);

    let plane = Plane::subdivide(2, 2);
    assert_eq!(plane.shared_vertex_count(), 9);
    assert_eq!(plane.indexed_polygon_count(), 4);

    let plane = Plane::subdivide(4, 4);
    assert_eq!(plane.shared_vertex_count(), 25);
    assert_eq!(plane.indexed_polygon_count(), 16);
}

#[test]
fn test_plane_len() {
    let mut plane = Plane::subdivide(2, 2);
    assert_eq!(4, plane.len());
    plane.next();
    assert_eq!(3, plane.len());
    assert_eq!(3, plane.count());
}
