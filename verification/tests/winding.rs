use cgmath::InnerSpace;
use genmesh::generators::{
    Cone, Cube, CubeVertex, Cylinder, CylinderVertex, IcoSphere, IcoVertex, IndexedPolygons,
    Plane, PlanePoint, SharedVertices, SpherePoint, SphereUv, Torus, TorusPoint, VertexSection,
};
use genmesh::{
    EmitLines, Line, Lines, MapToVertices, MapVertex, Stream, Triangle, VecStream,
};
use std::collections::HashSet;
use std::f32::consts::{FRAC_1_SQRT_2, PI};

/// A vertex with its position and normal as numbers.
#[derive(Clone, Copy, Debug, PartialEq)]
struct Vertex {
    pos: [f32; 3],
    normal: [f32; 3],
}

fn plane_vertex(p: PlanePoint, sx: usize, sy: usize) -> Vertex {
    let x = (2. / sx as f32) * p.x as f32 - 1.;
    let y = (2. / sy as f32) * p.y as f32 - 1.;
    Vertex {
        pos: [x, y, 0.0],
        normal: [0., 0., 1.],
    }
}

fn cube_vertex(v: CubeVertex) -> Vertex {
    let (x, y, z) = v.position();
    let (nx, ny, nz) = v.normal();
    Vertex {
        pos: [x as f32, y as f32, z as f32],
        normal: [nx as f32, ny as f32, nz as f32],
    }
}

fn cylinder_vertex(v: CylinderVertex, sub_u: usize, sub_h: usize) -> Vertex {
    match v {
        CylinderVertex::Bottom => Vertex {
            pos: [0., 0., -1.],
            normal: [0., 0., -1.],
        },
        CylinderVertex::Top => Vertex {
            pos: [0., 0., 1.],
            normal: [0., 0., 1.],
        },
        CylinderVertex::Ring { u, ring } => {
            let a = (u as f32 / sub_u as f32) * PI * 2.;
            let n = [a.cos(), a.sin(), 0.];
            let (hc, normal) = if ring == 0 {
                (0, [0., 0., -1.])
            } else if ring > sub_h + 1 {
                (sub_h, [0., 0., 1.])
            } else {
                (ring - 1, n)
            };
            let z = (hc as f32 / sub_h as f32) * 2. - 1.;
            Vertex {
                pos: [n[0], n[1], z],
                normal,
            }
        }
    }
}

fn sphere_vertex(p: SpherePoint, sub_u: usize, sub_v: usize) -> Vertex {
    let u = (p.u as f32 / sub_u as f32) * PI * 2.;
    let v = (p.v as f32 / sub_v as f32) * PI;

    let p = [u.cos() * v.sin(), u.sin() * v.sin(), v.cos()];
    Vertex { pos: p, normal: p }
}

fn cone_vertex(sec: VertexSection, sub_u: usize) -> Vertex {
    let divisions = PI * 2. / sub_u as f32;

    match sec {
        VertexSection::Tip(i) => {
            // the normal is in the middle of the two divisions
            // so we add half a subdivision
            let pos = divisions * i as f32 + divisions / 2.;
            Vertex {
                pos: [0., 0., 1.],
                normal: [
                    pos.cos() * FRAC_1_SQRT_2,
                    pos.sin() * FRAC_1_SQRT_2,
                    -FRAC_1_SQRT_2,
                ],
            }
        }
        VertexSection::TopRadius(i) => {
            let pos = divisions * i as f32;
            Vertex {
                pos: [pos.cos(), pos.sin(), -1.],
                normal: [
                    pos.cos() * FRAC_1_SQRT_2,
                    pos.sin() * FRAC_1_SQRT_2,
                    -FRAC_1_SQRT_2,
                ],
            }
        }
        VertexSection::BottomRadius(i) => {
            let pos = divisions * i as f32;
            Vertex {
                pos: [pos.cos(), pos.sin(), -1.],
                normal: [0., 0., -1.],
            }
        }
        VertexSection::BottomCenter => Vertex {
            pos: [0., 0., -1.],
            normal: [0., 0., -1.],
        },
    }
}

fn torus_vertex(
    p: TorusPoint,
    radius: f32,
    tubular_radius: f32,
    radial_segments: usize,
    tubular_segments: usize,
) -> Vertex {
    let (h, u) = (p.h as f32, p.u as f32);
    let alpha = u * 2. * PI / tubular_segments as f32;
    let beta = h * 2. * PI / radial_segments as f32;
    let gamma = radius + tubular_radius * alpha.cos();

    Vertex {
        pos: [
            gamma * beta.cos(),
            tubular_radius * alpha.sin(),
            -gamma * beta.sin(),
        ],
        normal: cgmath::Vector3::new(
            alpha.cos() * beta.cos(),
            alpha.sin(),
            -alpha.cos() * beta.sin(),
        )
        .normalize()
        .into(),
    }
}

const T: f32 = 0.85065080835204;
const X: f32 = 0.5257311121191336;

const VERTICES: [[f32; 3]; 12] = [
    // corners of the rectangle in the XY plane
    [-X, T, 0.],
    [X, T, 0.],
    [-X, -T, 0.],
    [X, -T, 0.],
    // corners of the rectangle in the YZ plane
    [0., -X, T],
    [0., X, T],
    [0., -X, -T],
    [0., X, -T],
    // corners of the rectangle in the XZ plane
    [T, 0., -X],
    [T, 0., X],
    [-T, 0., -X],
    [-T, 0., X],
];

/// The positions of the vertices of an icosahedral sphere, in their order.
fn ico_positions(sphere: &IcoSphere) -> Vec<[f32; 3]> {
    let mut positions: Vec<[f32; 3]> = Vec::new();
    for v in sphere.shared_vertex_iter().collect() {
        let p = match v {
            IcoVertex::Corner(k) => VERTICES[k],
            IcoVertex::Middle(a, b) => {
                let (start, end) = (positions[a], positions[b]);
                cgmath::Vector3::new(start[0] + end[0], start[1] + end[1], start[2] + end[2])
                    .normalize()
                    .into()
            }
        };
        positions.push(p);
    }
    positions
}

/// The faces of an icosahedral sphere with their vertices as numbers.
fn ico_faces(sphere: IcoSphere) -> VecStream<Triangle<Vertex>> {
    let positions = ico_positions(&sphere);
    let faces = sphere
        .indexed_polygon_iter()
        .collect()
        .into_iter()
        .map(|f| {
            f.map_vertex(|i| Vertex {
                pos: positions[i],
                normal: positions[i],
            })
        })
        .collect();
    VecStream::new(faces)
}

#[derive(Debug)]
struct Edge {
    dir: cgmath::Vector3<f32>,
    mid: cgmath::Vector3<f32>,
    nor: cgmath::Vector3<f32>,
}

impl Edge {
    fn new(line: Line<Vertex>) -> Self {
        let Line {
            x: Vertex { pos: x, normal: nx },
            y: Vertex { pos: y, normal: ny },
        } = line;

        Edge {
            dir: cgmath::vec3(y[0] - x[0], y[1] - x[1], y[2] - x[2]),
            mid: cgmath::vec3(y[0] + x[0], y[1] + x[1], y[2] + x[2]) * 0.5,
            nor: cgmath::vec3(nx[0] + ny[0], nx[1] + ny[1], nx[2] + ny[2]),
        }
    }

    /// Check that the corner `(self, e)` has outward winding order
    /// (thus, it's normal is in the same hemisphere as it's offset).
    fn check_to(&self, e: &Edge) {
        let normal = self.dir.cross(e.dir);
        let mid = (self.mid + e.mid) * 0.5;
        assert!(normal.dot(mid) > 0.0 && e.nor.dot(mid) > 0.0);
    }
}

/// Make sure that all the polygons in the `poly_iter` have the outward
/// winding order relative to the origin of the coordinate system.
/// This is a simplified (and incomplete) convex shape test.
fn test_outward<P, I>(poly_iter: I)
where
    P: EmitLines<Vertex = Vertex> + ::std::fmt::Debug,
    I: Stream<Item = P>,
{
    let mut edges = Vec::new();
    for poly in poly_iter.collect() {
        edges.clear();
        for l in poly.emit_lines() {
            edges.push(Edge::new(l));
        }
        // check last-first corner first, since it wraps
        edges.last().unwrap().check_to(&edges[0]);
        // check all the non-wrapping corners
        for (a, b) in edges.iter().zip(edges[1..].iter()) {
            a.check_to(b);
        }
    }
}

// this will check that a primitive is closed, and that every edge of
// every polygon making up the primitive has a paired neighbor. This
// does not test that a polygon has the correcting winding direction
// just that the winding directions are consistent for the polygon.
fn test_closed<P, I>(poly_iter: I)
where
    P: EmitLines<Vertex = Vertex> + ::std::fmt::Debug,
    I: Stream<Item = P>,
{
    // convert the vertex to something that we can use to find approximate
    // polygons. This is mostly to get past the fact that f32 is a cursed
    // type in rust and can not be used as a key.
    fn to_checkable(vertex: Vertex) -> [i32; 3] {
        [
            (vertex.pos[0] * 1000000.) as i32,
            (vertex.pos[1] * 1000000.) as i32,
            (vertex.pos[2] * 1000000.) as i32,
        ]
    }

    let mut lines = HashSet::new();
    for line in poly_iter.lines().vertex(to_checkable).collect() {
        // if the line was in the set we found the matching pair
        // which is one less pair that we are looking for
        if !lines.remove(&line) {
            // if didn't find the pair, we flip the line around and put it into
            // the search table.
            lines.insert(Line {
                x: line.y,
                y: line.x,
            });
        }
    }

    // if we found all the pairs, we should be valid and a closed geometry
    // this means that there is no polygon who's neighbor switches winding
    // direction, but it does not mean that the polygon is correct. They
    // all could be backwards. So this still requires a secondary inspection.
    assert!(lines.len() == 0);
}

#[test]
fn wind_plane() {
    // the plane is not closed, so no point in testing for a closed
    // shape.

    test_outward(Plane::new().vertex(|p| plane_vertex(p, 1, 1)).vertex(|mut v| {
        v.pos[2] = 1.;
        v
    }));
    test_outward(
        Plane::subdivide(3, 4)
            .vertex(|p| plane_vertex(p, 3, 4))
            .vertex(|mut v| {
                v.pos[2] = 1.;
                v
            }),
    );
}

#[test]
fn winding_gen_cube() {
    test_outward(Cube::new().vertex(cube_vertex));
    test_closed(Cube::new().vertex(cube_vertex));
}

#[test]
fn winding_gen_cylinder() {
    test_outward(Cylinder::new(5).vertex(|v| cylinder_vertex(v, 5, 1)));
    test_closed(Cylinder::new(5).vertex(|v| cylinder_vertex(v, 5, 1)));
    test_outward(Cylinder::subdivide(3, 4).vertex(|v| cylinder_vertex(v, 3, 4)));
    test_closed(Cylinder::subdivide(3, 4).vertex(|v| cylinder_vertex(v, 3, 4)));
}

#[test]
fn winding_gen_sphere_uv() {
    test_outward(SphereUv::new(4, 3).vertex(|p| sphere_vertex(p, 4, 3)));
    test_closed(SphereUv::new(4, 3).vertex(|p| sphere_vertex(p, 4, 3)));
}

#[test]
fn winding_gen_ico_sphere() {
    test_outward(ico_faces(IcoSphere::new()));
    test_closed(ico_faces(IcoSphere::new()));
    test_outward(ico_faces(IcoSphere::subdivide(3)));
    test_closed(ico_faces(IcoSphere::subdivide(3)));
}

#[test]
fn winding_gen_cone() {
    test_outward(Cone::new(8).vertex(|s| cone_vertex(s, 8)));
    test_closed(Cone::new(8).vertex(|s| cone_vertex(s, 8)));
}

#[test]
fn winding_gen_torus() {
    // we don't do an outward test because the primitive is not
    // convex and will fail this test.
    test_closed(Torus::new(8, 8).vertex(|p| torus_vertex(p, 10.0, 5.0, 8, 8)));
}
