//! Icosahedral sphere

use crate::generator::{resolved, DualRepresentation, IndexedPolygon, SharedVertex};
use crate::neighbors::{edge_key, key_of, lemma_edge_key};
use crate::poly::Triangle;
use crate::stream::Stream;
use std::collections::HashMap;
use vstd::laws_eq::obeys_concrete_eq;
use vstd::prelude::*;
use vstd::std_specs::cmp::PartialEqSpecImpl;

verus! {

broadcast use vstd::std_specs::hash::group_hash_axioms;

/// A vertex of an icosahedral sphere, by where it comes from. All vertices
/// lie on the unit sphere, and the normal of each is its position.
#[derive(Clone, Copy, Debug, Eq, Hash)]
pub enum IcoVertex {
    /// One of the twelve corners of the icosahedron: the corners of three
    /// golden rectangles that stand on each other, four in the XY plane,
    /// then four in the YZ plane, then four in the XZ plane.
    Corner(usize),
    /// The point of the sphere in the middle between the two vertices with
    /// these numbers, the lower number first. Both are below the number of
    /// this vertex.
    Middle(usize, usize),
}

impl PartialEq for IcoVertex {
    fn eq(&self, other: &Self) -> (r: bool) {
        match (*self, *other) {
            (IcoVertex::Corner(a), IcoVertex::Corner(b)) => a == b,
            (IcoVertex::Middle(a, b), IcoVertex::Middle(c, d)) => a == c && b == d,
            _ => false,
        }
    }
}

impl PartialEqSpecImpl for IcoVertex {
    open spec fn obeys_eq_spec() -> bool {
        true
    }

    /// Two vertices are equal where they are the same.
    open spec fn eq_spec(&self, other: &Self) -> bool {
        *self == *other
    }
}

/// `==` on `IcoVertex` is equality.
pub proof fn lemma_ico_vertex_eq()
    ensures
        obeys_concrete_eq::<IcoVertex>(),
{
    reveal(obeys_concrete_eq);
}

/// Icosahedral sphere with radius 1, centered at (0., 0., 0.)
#[derive(Clone, Debug)]
pub struct IcoSphere {
    i: usize,
    vertices: Vec<IcoVertex>,
    faces: Vec<Triangle<usize>>,
}

/// The vertex in the middle between the vertices `a` and `b`.
pub open spec fn middle(a: usize, b: usize) -> IcoVertex {
    if a <= b {
        IcoVertex::Middle(a, b)
    } else {
        IcoVertex::Middle(b, a)
    }
}

/// The first place at or after `base` where `vs` holds `v`, or the length of
/// `vs` where there is none.
pub open spec fn place_of(vs: Seq<IcoVertex>, base: int, v: IcoVertex) -> int
    decreases vs.len() - base,
{
    if base >= vs.len() {
        vs.len() as int
    } else if vs[base] == v {
        base
    } else {
        place_of(vs, base + 1, v)
    }
}

/// `vs`, with the vertex in the middle between `a` and `b` added at the end
/// unless `vs` holds it at or after `base`.
pub open spec fn with_middle(vs: Seq<IcoVertex>, base: int, a: usize, b: usize) -> Seq<
    IcoVertex,
> {
    if place_of(vs, base, middle(a, b)) < vs.len() {
        vs
    } else {
        vs.push(middle(a, b))
    }
}

/// The vertices and the four triangles that face `f` gives: a vertex is
/// added in the middle of each edge, unless `vs` holds it at or after
/// `base`; each corner of `f` gets a triangle with the two middles next to
/// it, and the three middles make the fourth.
pub open spec fn split_face(vs: Seq<IcoVertex>, base: int, f: Triangle<usize>) -> (
    Seq<IcoVertex>,
    Seq<Triangle<usize>>,
) {
    let v1 = with_middle(vs, base, f.x, f.y);
    let m0 = place_of(v1, base, middle(f.x, f.y)) as usize;
    let v2 = with_middle(v1, base, f.y, f.z);
    let m1 = place_of(v2, base, middle(f.y, f.z)) as usize;
    let v3 = with_middle(v2, base, f.z, f.x);
    let m2 = place_of(v3, base, middle(f.z, f.x)) as usize;
    (
        v3,
        seq![
            Triangle { x: f.x, y: m0, z: m2 },
            Triangle { x: f.y, y: m1, z: m0 },
            Triangle { x: f.z, y: m2, z: m1 },
            Triangle { x: m0, y: m1, z: m2 },
        ],
    )
}

/// The vertices and faces that one subdivision makes of the vertices `vs`
/// and the faces `faces`: the vertices of `vs` followed by the middles of
/// the edges, each once, in the order in which the faces come to them, and
/// four faces for each face.
pub open spec fn subdivided(vs: Seq<IcoVertex>, faces: Seq<Triangle<usize>>) -> (
    Seq<IcoVertex>,
    Seq<Triangle<usize>>,
)
    decreases faces.len(),
{
    if faces.len() == 0 {
        (vs, Seq::empty())
    } else {
        let before = subdivided(vs, faces.drop_last());
        let split = split_face(before.0, vs.len() as int, faces.last());
        (split.0, before.1 + split.1)
    }
}

/// The twelve corners of the icosahedron.
pub open spec fn base_vertices() -> Seq<IcoVertex> {
    Seq::new(12, |k: int| IcoVertex::Corner(k as usize))
}

/// The twenty faces of the icosahedron.
pub open spec fn base_faces() -> Seq<Triangle<usize>> {
    seq![
        Triangle { x: 0, y: 11, z: 5 },
        Triangle { x: 0, y: 5, z: 1 },
        Triangle { x: 0, y: 1, z: 7 },
        Triangle { x: 0, y: 7, z: 10 },
        Triangle { x: 0, y: 10, z: 11 },
        Triangle { x: 1, y: 5, z: 9 },
        Triangle { x: 5, y: 11, z: 4 },
        Triangle { x: 11, y: 10, z: 2 },
        Triangle { x: 10, y: 7, z: 6 },
        Triangle { x: 7, y: 1, z: 8 },
        Triangle { x: 3, y: 9, z: 4 },
        Triangle { x: 3, y: 4, z: 2 },
        Triangle { x: 3, y: 2, z: 6 },
        Triangle { x: 3, y: 6, z: 8 },
        Triangle { x: 3, y: 8, z: 9 },
        Triangle { x: 4, y: 9, z: 5 },
        Triangle { x: 2, y: 4, z: 11 },
        Triangle { x: 6, y: 2, z: 10 },
        Triangle { x: 8, y: 6, z: 7 },
        Triangle { x: 9, y: 8, z: 1 },
    ]
}

/// The vertices and faces of the sphere after `n` subdivisions of the
/// icosahedron.
pub open spec fn ico_level(n: nat) -> (Seq<IcoVertex>, Seq<Triangle<usize>>)
    decreases n,
{
    if n == 0 {
        (base_vertices(), base_faces())
    } else {
        let before = ico_level((n - 1) as nat);
        subdivided(before.0, before.1)
    }
}

/// Whether each vertex of `vs` is a corner of the icosahedron or lies
/// between two vertices before it.
pub open spec fn vertices_ok(vs: Seq<IcoVertex>) -> bool {
    forall|j: int|
        0 <= j < vs.len() ==> match #[trigger] vs[j] {
            IcoVertex::Corner(k) => k < 12,
            IcoVertex::Middle(a, b) => a <= b < j,
        }
}

/// Whether the vertices are in order and each corner of each face of
/// `faces` is a vertex of `vs`.
pub open spec fn mesh_ok(vs: Seq<IcoVertex>, faces: Seq<Triangle<usize>>) -> bool {
    &&& vertices_ok(vs)
    &&& forall|k: int|
        0 <= k < faces.len() ==> (#[trigger] faces[k]).x < vs.len() && faces[k].y < vs.len()
            && faces[k].z < vs.len()
}

/// `place_of` lies between `base` and the length of `vs`; `vs` holds `v`
/// there if it is within `vs`, and nowhere between `base` and there.
pub proof fn lemma_place_of(vs: Seq<IcoVertex>, base: int, v: IcoVertex)
    requires
        0 <= base <= vs.len(),
    ensures
        base <= place_of(vs, base, v) <= vs.len(),
        place_of(vs, base, v) < vs.len() ==> vs[place_of(vs, base, v)] == v,
        forall|j: int| base <= j < place_of(vs, base, v) ==> vs[j] != v,
    decreases vs.len() - base,
{
    if base < vs.len() && vs[base] != v {
        lemma_place_of(vs, base + 1, v);
    }
}

/// Where `vs` holds `v` at `p` and nowhere between `base` and `p`, `p` is
/// its place; where it holds `v` nowhere from `base` on, its place is the
/// length of `vs`.
proof fn lemma_place_is(vs: Seq<IcoVertex>, base: int, v: IcoVertex, p: int)
    requires
        0 <= base <= p <= vs.len(),
        p < vs.len() ==> vs[p] == v,
        forall|j: int| base <= j < p ==> vs[j] != v,
    ensures
        place_of(vs, base, v) == p,
    decreases vs.len() - base,
{
    if base < p {
        lemma_place_is(vs, base + 1, v, p);
    }
}

/// How the place of `w` changes when `v` is added at the end of `vs`.
proof fn lemma_place_push(vs: Seq<IcoVertex>, base: int, v: IcoVertex, w: IcoVertex)
    requires
        0 <= base <= vs.len(),
    ensures
        place_of(vs.push(v), base, w) == if place_of(vs, base, w) < vs.len() {
            place_of(vs, base, w)
        } else if w == v {
            vs.len() as int
        } else {
            vs.len() as int + 1
        },
{
    lemma_place_of(vs, base, w);
    let p = place_of(vs, base, w);
    let more = vs.push(v);
    if p < vs.len() {
        assert(more[p] == w);
        assert forall|j: int| base <= j < p implies more[j] != w by {
            assert(more[j] == vs[j]);
        }
        lemma_place_is(more, base, w, p);
    } else {
        assert forall|j: int| base <= j < vs.len() implies more[j] != w by {
            assert(more[j] == vs[j]);
        }
        if w == v {
            lemma_place_is(more, base, w, vs.len() as int);
        } else {
            lemma_place_is(more, base, w, vs.len() as int + 1);
        }
    }
}

/// Adding the middle of an edge keeps the vertices that were there and
/// keeps them in order, and the middle has a place afterwards.
proof fn lemma_with_middle(vs: Seq<IcoVertex>, base: int, a: usize, b: usize)
    requires
        0 <= base <= vs.len(),
        vertices_ok(vs),
        a < base,
        b < base,
    ensures
        vs.len() <= with_middle(vs, base, a, b).len() <= vs.len() + 1,
        with_middle(vs, base, a, b).take(vs.len() as int) == vs,
        vertices_ok(with_middle(vs, base, a, b)),
        base <= place_of(with_middle(vs, base, a, b), base, middle(a, b)) < with_middle(
            vs,
            base,
            a,
            b,
        ).len(),
{
    let v = middle(a, b);
    let more = with_middle(vs, base, a, b);
    lemma_place_of(vs, base, v);
    lemma_place_push(vs, base, v, v);
    assert(more.take(vs.len() as int) =~= vs);
    assert forall|j: int| 0 <= j < more.len() implies match #[trigger] more[j] {
        IcoVertex::Corner(k) => k < 12,
        IcoVertex::Middle(a, b) => a <= b < j,
    } by {
        if j < vs.len() {
            assert(more[j] == vs[j]);
        }
    }
}

/// Splitting a face keeps the vertices that were there and a mesh in order.
proof fn lemma_split_face(vs: Seq<IcoVertex>, base: int, f: Triangle<usize>)
    requires
        0 <= base <= vs.len(),
        vertices_ok(vs),
        f.x < base,
        f.y < base,
        f.z < base,
    ensures
        split_face(vs, base, f).1.len() == 4,
        split_face(vs, base, f).0.len() >= vs.len(),
        split_face(vs, base, f).0.take(vs.len() as int) == vs,
        mesh_ok(split_face(vs, base, f).0, split_face(vs, base, f).1),
{
    let v1 = with_middle(vs, base, f.x, f.y);
    lemma_with_middle(vs, base, f.x, f.y);
    let v2 = with_middle(v1, base, f.y, f.z);
    lemma_with_middle(v1, base, f.y, f.z);
    let v3 = with_middle(v2, base, f.z, f.x);
    lemma_with_middle(v2, base, f.z, f.x);
    assert(v3.take(vs.len() as int) =~= vs) by {
        assert forall|j: int| 0 <= j < vs.len() implies v3[j] == vs[j] by {
            assert(v3.take(v2.len() as int)[j] == v3[j]);
            assert(v2.take(v1.len() as int)[j] == v2[j]);
            assert(v1.take(vs.len() as int)[j] == v1[j]);
        }
    }
    let out = split_face(vs, base, f);
    assert(out.0 == v3);
    assert forall|k: int| 0 <= k < out.1.len() implies (#[trigger] out.1[k]).x < v3.len()
        && out.1[k].y < v3.len() && out.1[k].z < v3.len() by {
    }
}

/// One subdivision keeps the vertices that were there, makes four faces of
/// each face, and keeps a mesh in order.
pub proof fn lemma_subdivided(vs: Seq<IcoVertex>, faces: Seq<Triangle<usize>>)
    requires
        mesh_ok(vs, faces),
    ensures
        subdivided(vs, faces).1.len() == 4 * faces.len(),
        subdivided(vs, faces).0.len() >= vs.len(),
        subdivided(vs, faces).0.take(vs.len() as int) == vs,
        mesh_ok(subdivided(vs, faces).0, subdivided(vs, faces).1),
    decreases faces.len(),
{
    if faces.len() == 0 {
        assert(subdivided(vs, faces).0.take(vs.len() as int) =~= vs);
    } else {
        let front = faces.drop_last();
        let f = faces.last();
        assert forall|k: int| 0 <= k < front.len() implies (#[trigger] front[k]).x < vs.len()
            && front[k].y < vs.len() && front[k].z < vs.len() by {
            assert(front[k] == faces[k]);
        }
        lemma_subdivided(vs, front);
        let before = subdivided(vs, front);
        assert(faces[faces.len() - 1] == f);
        lemma_split_face(before.0, vs.len() as int, f);
        let split = split_face(before.0, vs.len() as int, f);
        let after = subdivided(vs, faces);
        assert(after.0 == split.0);
        assert(after.1 == before.1 + split.1);
        assert(after.0.take(vs.len() as int) =~= vs) by {
            assert(split.0.take(before.0.len() as int) == before.0);
            assert forall|j: int| 0 <= j < vs.len() implies after.0[j] == vs[j] by {
                assert(split.0.take(before.0.len() as int)[j] == split.0[j]);
                assert(before.0.take(vs.len() as int)[j] == before.0[j]);
            }
        }
        assert forall|k: int| 0 <= k < after.1.len() implies (#[trigger] after.1[k]).x
            < after.0.len() && after.1[k].y < after.0.len() && after.1[k].z < after.0.len() by {
            if k < before.1.len() {
                assert(after.1[k] == before.1[k]);
            } else {
                assert(after.1[k] == split.1[k - before.1.len()]);
            }
        }
    }
}

/// Four to the power of `n`.
pub open spec fn pow4(n: nat) -> nat
    decreases n,
{
    if n == 0 {
        1
    } else {
        4 * pow4((n - 1) as nat)
    }
}

/// After `n` subdivisions the sphere has 20 times four to the power of `n`
/// faces, and its mesh is in order.
pub proof fn lemma_ico_level(n: nat)
    ensures
        ico_level(n).1.len() == 20 * pow4(n),
        ico_level(n).0.len() >= 12,
        mesh_ok(ico_level(n).0, ico_level(n).1),
    decreases n,
{
    if n == 0 {
    } else {
        lemma_ico_level((n - 1) as nat);
        let before = ico_level((n - 1) as nat);
        lemma_subdivided(before.0, before.1);
    }
}

/// The number of the vertex in the middle between `a` and `b`: the one that
/// `lookup` has for the edge, or a new one at the end of `vertices`.
fn middle_of(
    vertices: &mut Vec<IcoVertex>,
    lookup: &mut HashMap<u128, usize>,
    Ghost(base): Ghost<int>,
    a: usize,
    b: usize,
) -> (m: usize)
    requires
        0 <= base <= old(vertices)@.len(),
        forall|c: usize, d: usize|
            #![trigger edge_key(c, d)]
            old(lookup)@.contains_key(edge_key(c, d)) <==> place_of(
                old(vertices)@,
                base,
                middle(c, d),
            ) < old(vertices)@.len(),
        forall|c: usize, d: usize|
            #![trigger edge_key(c, d)]
            old(lookup)@.contains_key(edge_key(c, d)) ==> old(lookup)@[edge_key(c, d)]
                == place_of(old(vertices)@, base, middle(c, d)),
    ensures
        final(vertices)@ == with_middle(old(vertices)@, base, a, b),
        m == place_of(final(vertices)@, base, middle(a, b)),
        m < final(vertices)@.len(),
        forall|c: usize, d: usize|
            #![trigger edge_key(c, d)]
            final(lookup)@.contains_key(edge_key(c, d)) <==> place_of(
                final(vertices)@,
                base,
                middle(c, d),
            ) < final(vertices)@.len(),
        forall|c: usize, d: usize|
            #![trigger edge_key(c, d)]
            final(lookup)@.contains_key(edge_key(c, d)) ==> final(lookup)@[edge_key(c, d)]
                == place_of(final(vertices)@, base, middle(c, d)),
{
    let key = key_of(a, b);
    let ghost vs = vertices@;
    let ghost held = lookup@;
    proof {
        lemma_place_of(vs, base, middle(a, b));
    }
    let found = match lookup.get(&key) {
        Some(m) => Some(*m),
        None => None,
    };
    match found {
        Some(m) => m,
        None => {
            let m = vertices.len();
            let v = if a <= b {
                IcoVertex::Middle(a, b)
            } else {
                IcoVertex::Middle(b, a)
            };
            lookup.insert(key, m);
            vertices.push(v);
            proof {
                lemma_place_push(vs, base, v, v);
                assert forall|c: usize, d: usize|
                    #![trigger edge_key(c, d)]
                    (lookup@.contains_key(edge_key(c, d)) <==> place_of(
                        vertices@,
                        base,
                        middle(c, d),
                    ) < vertices@.len()) && (lookup@.contains_key(edge_key(c, d)) ==> lookup@[edge_key(
                        c,
                        d,
                    )] == place_of(vertices@, base, middle(c, d))) by {
                    lemma_edge_key(a, b, c, d);
                    lemma_place_push(vs, base, v, middle(c, d));
                    lemma_place_of(vs, base, middle(c, d));
                    assert(held.contains_key(edge_key(c, d)) <==> place_of(
                        vs,
                        base,
                        middle(c, d),
                    ) < vs.len());
                }
            }
            m
        },
    }
}

/// Splits each face into four, with a new vertex in the middle of each
/// edge.
fn subdivide_impl(vertices: Vec<IcoVertex>, faces: Vec<Triangle<usize>>) -> (r: (
    Vec<IcoVertex>,
    Vec<Triangle<usize>>,
))
    ensures
        (r.0@, r.1@) == subdivided(vertices@, faces@),
{
    let ghost base = vertices@.len() as int;
    let ghost start = vertices@;
    let mut vertices = vertices;
    let mut lookup: HashMap<u128, usize> = HashMap::new();
    let mut new_faces: Vec<Triangle<usize>> = Vec::new();
    proof {
        assert forall|c: usize, d: usize|
            #![trigger edge_key(c, d)]
            place_of(vertices@, base, middle(c, d)) == vertices@.len() by {
            lemma_place_of(vertices@, base, middle(c, d));
        }
        assert(faces@.take(0) =~= Seq::empty());
    }
    let mut k: usize = 0;
    while k < faces.len()
        invariant
            k <= faces.len(),
            base == start.len(),
            base <= vertices@.len(),
            (vertices@, new_faces@) == subdivided(start, faces@.take(k as int)),
            forall|c: usize, d: usize|
                #![trigger edge_key(c, d)]
                lookup@.contains_key(edge_key(c, d)) <==> place_of(
                    vertices@,
                    base,
                    middle(c, d),
                ) < vertices@.len(),
            forall|c: usize, d: usize|
                #![trigger edge_key(c, d)]
                lookup@.contains_key(edge_key(c, d)) ==> lookup@[edge_key(c, d)] == place_of(
                    vertices@,
                    base,
                    middle(c, d),
                ),
        decreases faces.len() - k,
    {
        let face = faces[k];
        let ghost v0 = vertices@;
        let ghost f0 = new_faces@;
        let m0 = middle_of(&mut vertices, &mut lookup, Ghost(base), face.x, face.y);
        let ghost v1 = vertices@;
        let m1 = middle_of(&mut vertices, &mut lookup, Ghost(base), face.y, face.z);
        let ghost v2 = vertices@;
        let m2 = middle_of(&mut vertices, &mut lookup, Ghost(base), face.z, face.x);
        new_faces.push(Triangle::new(face.x, m0, m2));
        new_faces.push(Triangle::new(face.y, m1, m0));
        new_faces.push(Triangle::new(face.z, m2, m1));
        new_faces.push(Triangle::new(m0, m1, m2));
        proof {
            let done = faces@.take(k + 1);
            assert(done.drop_last() =~= faces@.take(k as int));
            assert(done.last() == face);
            let split = split_face(v0, base, face);
            assert(split.0 == vertices@);
            assert(new_faces@ =~= f0 + split.1);
        }
        k += 1;
    }
    assert(faces@.take(faces@.len() as int) =~= faces@);
    (vertices, new_faces)
}

/// The twelve corners of the icosahedron.
fn corners() -> (r: Vec<IcoVertex>)
    ensures
        r@ == base_vertices(),
{
    let mut r: Vec<IcoVertex> = Vec::new();
    let mut k: usize = 0;
    while k < 12
        invariant
            k <= 12,
            r@.len() == k,
            forall|j: int| 0 <= j < k ==> r@[j] == IcoVertex::Corner(j as usize),
        decreases 12 - k,
    {
        r.push(IcoVertex::Corner(k));
        k += 1;
    }
    assert(r@ =~= base_vertices());
    r
}

/// The twenty faces of the icosahedron.
fn icosahedron() -> (r: Vec<Triangle<usize>>)
    ensures
        r@ == base_faces(),
{
    let r = vec![
        // 5 faces around point 0
        Triangle { x: 0, y: 11, z: 5 },
        Triangle { x: 0, y: 5, z: 1 },
        Triangle { x: 0, y: 1, z: 7 },
        Triangle { x: 0, y: 7, z: 10 },
        Triangle { x: 0, y: 10, z: 11 },
        // 5 faces adjacent to the faces around point 0
        Triangle { x: 1, y: 5, z: 9 },
        Triangle { x: 5, y: 11, z: 4 },
        Triangle { x: 11, y: 10, z: 2 },
        Triangle { x: 10, y: 7, z: 6 },
        Triangle { x: 7, y: 1, z: 8 },
        // 5 faces around point 3
        Triangle { x: 3, y: 9, z: 4 },
        Triangle { x: 3, y: 4, z: 2 },
        Triangle { x: 3, y: 2, z: 6 },
        Triangle { x: 3, y: 6, z: 8 },
        Triangle { x: 3, y: 8, z: 9 },
        // 5 faces adjacent to the faces around point 3
        Triangle { x: 4, y: 9, z: 5 },
        Triangle { x: 2, y: 4, z: 11 },
        Triangle { x: 6, y: 2, z: 10 },
        Triangle { x: 8, y: 6, z: 7 },
        Triangle { x: 9, y: 8, z: 1 },
    ];
    assert(r@ =~= base_faces());
    r
}

impl IcoSphere {
    /// The vertices of the sphere.
    pub closed spec fn vertex_seq(&self) -> Seq<IcoVertex> {
        self.vertices@
    }

    /// The faces of the sphere, by the numbers of their vertices.
    pub closed spec fn face_seq(&self) -> Seq<Triangle<usize>> {
        self.faces@
    }

    /// The number of faces that have been handed out.
    pub closed spec fn position(&self) -> int {
        self.i as int
    }

    /// Create a unit sphere with 20 faces and 12 vertices.
    pub fn new() -> (s: Self)
        ensures
            s.wf(),
            s.vertex_seq() == base_vertices(),
            s.face_seq() == base_faces(),
            s.position() == 0,
    {
        proof {
            lemma_ico_level(0);
        }
        IcoSphere { i: 0, vertices: corners(), faces: icosahedron() }
    }

    /// Create a unit sphere with subdivision, resulting in 20 * 4^N faces,
    /// where N is the number of subdivisions.
    ///
    /// ## Parameters
    ///
    /// - `subdivides`: Number of subdivisions to perform.
    pub fn subdivide(subdivides: usize) -> (s: Self)
        ensures
            s.wf(),
            s.vertex_seq() == ico_level(subdivides as nat).0,
            s.face_seq() == ico_level(subdivides as nat).1,
            s.face_seq().len() == 20 * pow4(subdivides as nat),
            s.position() == 0,
    {
        let mut vertices = corners();
        let mut faces = icosahedron();
        let mut n: usize = 0;
        while n < subdivides
            invariant
                n <= subdivides,
                (vertices@, faces@) == ico_level(n as nat),
            decreases subdivides - n,
        {
            let (v, f) = subdivide_impl(vertices, faces);
            vertices = v;
            faces = f;
            n += 1;
        }
        proof {
            lemma_ico_level(subdivides as nat);
        }
        IcoSphere { i: 0, vertices, faces }
    }

    fn vert(&self, index: usize) -> (v: IcoVertex)
        requires
            index < self.vertex_seq().len(),
        ensures
            v == self.vertex_seq()[index as int],
    {
        self.vertices[index]
    }

    /// The number of faces that are still to come.
    pub fn len(&self) -> (n: usize)
        requires
            self.wf(),
        ensures
            n == self.pending().len(),
    {
        self.faces.len() - self.i
    }
}

/// Face `f` with the vertices of `vs` in place of their numbers.
pub open spec fn ico_face(vs: Seq<IcoVertex>, f: Triangle<usize>) -> Triangle<IcoVertex> {
    Triangle { x: vs[f.x as int], y: vs[f.y as int], z: vs[f.z as int] }
}

impl Stream for IcoSphere {
    type Item = Triangle<IcoVertex>;

    /// Whether the mesh is in order and no more faces have been handed out
    /// than there are.
    open spec fn wf(&self) -> bool {
        &&& mesh_ok(self.vertex_seq(), self.face_seq())
        &&& 0 <= self.position() <= self.face_seq().len()
    }

    open spec fn pending(&self) -> Seq<Triangle<IcoVertex>> {
        Seq::new(
            (self.face_seq().len() - self.position()) as nat,
            |k: int| ico_face(self.vertex_seq(), self.face_seq()[self.position() + k]),
        )
    }

    fn next(&mut self) -> (r: Option<Triangle<IcoVertex>>)
        ensures
            final(self).vertex_seq() == old(self).vertex_seq(),
            final(self).face_seq() == old(self).face_seq(),
            final(self).position() == old(self).position() + if r is Some { 1int } else { 0int },
    {
        if self.i == self.faces.len() {
            return None;
        }
        let face = self.faces[self.i];
        assert(face == self.face_seq()[self.position()]);
        let x = self.vert(face.x);
        let y = self.vert(face.y);
        let z = self.vert(face.z);
        self.i += 1;
        assert(self.pending() =~= old(self).pending().drop_first());
        Some(Triangle::new(x, y, z))
    }

    /// The number of pending items, as both bounds.
    open spec fn hint(&self) -> (usize, Option<usize>) {
        (self.pending().len() as usize, Some(self.pending().len() as usize))
    }

    fn size_hint(&self) -> (r: (usize, Option<usize>))
        ensures
            r.0 == self.pending().len(),
            r.1 == Some(r.0),
    {
        let n = self.len();
        (n, Some(n))
    }
}

impl SharedVertex<IcoVertex> for IcoSphere {
    open spec fn vertex_count(&self) -> nat {
        self.vertex_seq().len()
    }

    open spec fn vertex_at(&self, i: int) -> IcoVertex {
        self.vertex_seq()[i]
    }

    fn shared_vertex(&self, idx: usize) -> (v: IcoVertex) {
        self.vert(idx)
    }

    fn shared_vertex_count(&self) -> (n: usize) {
        self.vertices.len()
    }
}

impl IndexedPolygon<Triangle<usize>> for IcoSphere {
    open spec fn polygon_count(&self) -> nat {
        self.face_seq().len()
    }

    open spec fn polygon_at(&self, i: int) -> Triangle<usize> {
        self.face_seq()[i]
    }

    fn indexed_polygon(&self, idx: usize) -> (p: Triangle<usize>) {
        self.faces[idx]
    }

    fn indexed_polygon_count(&self) -> (n: usize) {
        self.faces.len()
    }
}

impl DualRepresentation<IcoVertex, Triangle<usize>> for IcoSphere {
    proof fn lemma_dual_representation(&self) {
        let s = *self;
        let all = resolved::<IcoVertex, Triangle<usize>, IcoSphere>(s);
        assert(s.pending() =~= all.skip(s.position()));
    }
}

} // verus!
