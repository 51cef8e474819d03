//! This is a utility to search out and work in the mesh as a whole rather
//! than polygon by polygon.

use crate::poly::{EmitLines, Line, Triangle};
use std::collections::{HashMap, HashSet};
use std::hash::Hash;
use vstd::prelude::*;
use vstd::std_specs::hash::obeys_key_model;

verus! {

broadcast use vstd::std_specs::hash::group_hash_axioms;

/// The key under which the edge between the vertices `a` and `b` is filed:
/// the same for `(a, b)` and `(b, a)`, and for no other pair.
pub open spec fn edge_key(a: usize, b: usize) -> u128 {
    if a <= b {
        (a * 0x1_0000_0000_0000_0000 + b) as u128
    } else {
        (b * 0x1_0000_0000_0000_0000 + a) as u128
    }
}

/// Two edges have the same key exactly if they join the same two vertices.
pub proof fn lemma_edge_key(a: usize, b: usize, c: usize, d: usize)
    ensures
        edge_key(a, b) == edge_key(c, d) <==> (a == c && b == d) || (a == d && b == c),
{
}

/// `n` times the index `i`.
pub open spec fn repeat(i: usize, n: nat) -> Seq<usize> {
    Seq::new(n, |k: int| i)
}

/// How many ends of `line` are the vertex `v`.
pub open spec fn line_vertex_hits(line: Line<usize>, v: usize) -> nat {
    (if line.x == v { 1nat } else { 0nat }) + (if line.y == v { 1nat } else { 0nat })
}

/// How many ends of the lines of `lines` are the vertex `v`.
pub open spec fn vertex_hits(lines: Seq<Line<usize>>, v: usize) -> nat
    decreases lines.len(),
{
    if lines.len() == 0 {
        0
    } else {
        vertex_hits(lines.drop_last(), v) + line_vertex_hits(lines.last(), v)
    }
}

/// How many lines of `lines` have the key `e`.
pub open spec fn edge_hits(lines: Seq<Line<usize>>, e: u128) -> nat
    decreases lines.len(),
{
    if lines.len() == 0 {
        0
    } else {
        edge_hits(lines.drop_last(), e) + if edge_key(lines.last().x, lines.last().y) == e {
            1nat
        } else {
            0nat
        }
    }
}

/// The indices of the triangles of `polys` that touch the vertex `v`, in
/// rising order. A triangle is listed once for each end of one of its
/// edges that is `v`: twice for each of its corners that is `v`.
pub open spec fn vertex_faces(polys: Seq<Triangle<usize>>, v: usize) -> Seq<usize>
    decreases polys.len(),
{
    if polys.len() == 0 {
        Seq::empty()
    } else {
        vertex_faces(polys.drop_last(), v) + repeat(
            (polys.len() - 1) as usize,
            vertex_hits(polys.last().line_seq(), v),
        )
    }
}

/// The indices of the triangles of `polys` that have an edge with the key
/// `e`, in rising order, each listed once for each such edge.
pub open spec fn edge_faces(polys: Seq<Triangle<usize>>, e: u128) -> Seq<usize>
    decreases polys.len(),
{
    if polys.len() == 0 {
        Seq::empty()
    } else {
        edge_faces(polys.drop_last(), e) + repeat(
            (polys.len() - 1) as usize,
            edge_hits(polys.last().line_seq(), e),
        )
    }
}

/// How many edges of the triangles of `polys` have the key `e`.
pub open spec fn edge_uses(polys: Seq<Triangle<usize>>, e: u128) -> nat
    decreases polys.len(),
{
    if polys.len() == 0 {
        0
    } else {
        edge_uses(polys.drop_last(), e) + edge_hits(polys.last().line_seq(), e)
    }
}

/// Whether every edge of the mesh is an edge of exactly two of its
/// triangles: the mesh is closed and 2-manifold.
pub open spec fn closed_manifold(polys: Seq<Triangle<usize>>) -> bool {
    forall|e: u128| edge_uses(polys, e) == 0 || #[trigger] edge_uses(polys, e) == 2
}

/// Whether `line` joins the same two vertices as an edge of `b`.
pub open spec fn has_edge(b: Triangle<usize>, line: Line<usize>) -> bool {
    edge_hits(b.line_seq(), edge_key(line.x, line.y)) > 0
}

/// Whether one of the first `k` lines of `lines` joins the same two vertices
/// as an edge of `b`.
pub open spec fn shares_one_of(lines: Seq<Line<usize>>, k: int, b: Triangle<usize>) -> bool {
    exists|n: int| 0 <= n < k && n < lines.len() && #[trigger] has_edge(b, lines[n])
}

/// Whether an edge of `a` joins the same two vertices as an edge of `b`.
pub open spec fn adjacent(a: Triangle<usize>, b: Triangle<usize>) -> bool {
    shares_one_of(a.line_seq(), 3, b)
}

/// A triangle has an edge with the key `e` exactly if one of its three
/// lines has that key.
pub proof fn lemma_edge_hits(t: Triangle<usize>, e: u128)
    ensures
        edge_hits(t.line_seq(), e) > 0 <==> edge_key(t.x, t.y) == e || edge_key(t.y, t.z) == e
            || edge_key(t.z, t.x) == e,
{
    let lines = t.line_seq();
    let two = lines.drop_last();
    let one = two.drop_last();
    assert(lines.last() == Line { x: t.z, y: t.x });
    assert(two.last() == Line { x: t.y, y: t.z });
    assert(one.last() == Line { x: t.x, y: t.y });
    assert(one.drop_last().len() == 0);
    assert(edge_hits(one.drop_last(), e) == 0);
    assert(edge_hits(one, e) == if edge_key(t.x, t.y) == e { 1nat } else { 0nat });
    assert(edge_hits(two, e) == edge_hits(one, e) + if edge_key(t.y, t.z) == e {
        1nat
    } else {
        0nat
    });
    assert(edge_hits(lines, e) == edge_hits(two, e) + if edge_key(t.z, t.x) == e {
        1nat
    } else {
        0nat
    });
}

/// Sharing an edge goes both ways.
pub proof fn lemma_adjacent_symmetric(a: Triangle<usize>, b: Triangle<usize>)
    ensures
        adjacent(a, b) == adjacent(b, a),
{
    let la = a.line_seq();
    let lb = b.line_seq();
    lemma_edge_hits(b, edge_key(a.x, a.y));
    lemma_edge_hits(b, edge_key(a.y, a.z));
    lemma_edge_hits(b, edge_key(a.z, a.x));
    lemma_edge_hits(a, edge_key(b.x, b.y));
    lemma_edge_hits(a, edge_key(b.y, b.z));
    lemma_edge_hits(a, edge_key(b.z, b.x));
    assert(la[0] == Line { x: a.x, y: a.y } && la[1] == Line { x: a.y, y: a.z } && la[2] == Line {
        x: a.z,
        y: a.x,
    });
    assert(lb[0] == Line { x: b.x, y: b.y } && lb[1] == Line { x: b.y, y: b.z } && lb[2] == Line {
        x: b.z,
        y: b.x,
    });
    if adjacent(a, b) {
        let k = choose|k: int| 0 <= k < 3 && k < la.len() && #[trigger] has_edge(b, la[k]);
        let e = edge_key(la[k].x, la[k].y);
        if edge_key(b.x, b.y) == e {
            assert(has_edge(a, lb[0]));
        } else if edge_key(b.y, b.z) == e {
            assert(has_edge(a, lb[1]));
        } else {
            assert(has_edge(a, lb[2]));
        }
    }
    if adjacent(b, a) {
        let k = choose|k: int| 0 <= k < 3 && k < lb.len() && #[trigger] has_edge(a, lb[k]);
        let e = edge_key(lb[k].x, lb[k].y);
        if edge_key(a.x, a.y) == e {
            assert(has_edge(b, la[0]));
        } else if edge_key(a.y, a.z) == e {
            assert(has_edge(b, la[1]));
        } else {
            assert(has_edge(b, la[2]));
        }
    }
}

/// The indices of the triangles other than `i` that share an edge with
/// triangle `i`.
pub open spec fn neighbor_set(polys: Seq<Triangle<usize>>, i: usize) -> Set<usize> {
    Set::new(
        |j: usize| j != i && j < polys.len() && adjacent(polys[i as int], polys[j as int]),
    )
}

/// `edge_faces` lists as many indices as there are uses of the edge, and an
/// index is listed exactly if that triangle has such an edge.
pub proof fn lemma_edge_faces(polys: Seq<Triangle<usize>>, e: u128)
    requires
        polys.len() <= usize::MAX,
    ensures
        edge_faces(polys, e).len() == edge_uses(polys, e),
        forall|j: usize| #[trigger]
            edge_faces(polys, e).contains(j) <==> j < polys.len() && edge_hits(
                polys[j as int].line_seq(),
                e,
            ) > 0,
    decreases polys.len(),
{
    if polys.len() > 0 {
        let front = polys.drop_last();
        let last = (polys.len() - 1) as usize;
        let tail = repeat(last, edge_hits(polys.last().line_seq(), e));
        let all = edge_faces(polys, e);
        let head = edge_faces(front, e);
        lemma_edge_faces(front, e);
        assert(all == head + tail);
        assert forall|j: usize| #[trigger]
            all.contains(j) <==> j < polys.len() && edge_hits(polys[j as int].line_seq(), e)
                > 0 by {
            if all.contains(j) {
                let k = choose|k: int| 0 <= k < all.len() && all[k] == j;
                if k < head.len() {
                    assert(head[k] == j);
                    assert(head.contains(j));
                    assert(j < front.len());
                    assert(polys[j as int] == front[j as int]);
                } else {
                    assert(tail[k - head.len()] == j);
                }
            }
            if j < polys.len() && edge_hits(polys[j as int].line_seq(), e) > 0 {
                if j < front.len() {
                    assert(polys[j as int] == front[j as int]);
                    assert(head.contains(j));
                    let k = choose|k: int| 0 <= k < head.len() && head[k] == j;
                    assert(all[k] == j);
                } else {
                    assert(tail[0] == j);
                    assert(all[head.len() as int] == j);
                }
            }
        }
    }
}

/// A triangle touches a vertex twice for each of its corners that is the
/// vertex: once as the end of the edge that comes to the corner and once as
/// the start of the edge that leaves it.
pub proof fn lemma_vertex_hits(t: Triangle<usize>, v: usize)
    ensures
        vertex_hits(t.line_seq(), v) == 2 * ((if t.x == v { 1nat } else { 0nat }) + (if t.y == v {
            1nat
        } else {
            0nat
        }) + (if t.z == v { 1nat } else { 0nat })),
{
    let lines = t.line_seq();
    let two = lines.drop_last();
    let one = two.drop_last();
    assert(lines.last() == Line { x: t.z, y: t.x });
    assert(two.last() == Line { x: t.y, y: t.z });
    assert(one.last() == Line { x: t.x, y: t.y });
    assert(one.drop_last().len() == 0);
    assert(vertex_hits(one.drop_last(), v) == 0);
    assert(vertex_hits(one, v) == line_vertex_hits(one.last(), v));
    assert(vertex_hits(two, v) == vertex_hits(one, v) + line_vertex_hits(two.last(), v));
    assert(vertex_hits(lines, v) == vertex_hits(two, v) + line_vertex_hits(lines.last(), v));
}

/// `vertex_faces` lists an index exactly if that triangle touches the
/// vertex.
pub proof fn lemma_vertex_faces(polys: Seq<Triangle<usize>>, v: usize)
    requires
        polys.len() <= usize::MAX,
    ensures
        forall|j: usize| #[trigger]
            vertex_faces(polys, v).contains(j) <==> j < polys.len() && vertex_hits(
                polys[j as int].line_seq(),
                v,
            ) > 0,
    decreases polys.len(),
{
    if polys.len() > 0 {
        let front = polys.drop_last();
        let last = (polys.len() - 1) as usize;
        let tail = repeat(last, vertex_hits(polys.last().line_seq(), v));
        let all = vertex_faces(polys, v);
        let head = vertex_faces(front, v);
        lemma_vertex_faces(front, v);
        assert(all == head + tail);
        assert forall|j: usize| #[trigger]
            all.contains(j) <==> j < polys.len() && vertex_hits(polys[j as int].line_seq(), v)
                > 0 by {
            if all.contains(j) {
                let k = choose|k: int| 0 <= k < all.len() && all[k] == j;
                if k < head.len() {
                    assert(head[k] == j);
                    assert(head.contains(j));
                    assert(j < front.len());
                    assert(polys[j as int] == front[j as int]);
                } else {
                    assert(tail[k - head.len()] == j);
                }
            }
            if j < polys.len() && vertex_hits(polys[j as int].line_seq(), v) > 0 {
                if j < front.len() {
                    assert(polys[j as int] == front[j as int]);
                    assert(head.contains(j));
                    let k = choose|k: int| 0 <= k < head.len() && head[k] == j;
                    assert(all[k] == j);
                } else {
                    assert(tail[0] == j);
                    assert(all[head.len() as int] == j);
                }
            }
        }
    }
}

/// The list that `map` holds for `k`, empty where it holds none.
pub open spec fn list_at<K>(map: Map<K, Vec<usize>>, k: K) -> Seq<usize> {
    if map.contains_key(k) {
        map[k]@
    } else {
        Seq::empty()
    }
}

/// Adds `i` to the back of the list that `map` holds for `key`, starting a
/// list where it holds none.
fn register<K: Hash + Eq + Copy>(map: &mut HashMap<K, Vec<usize>>, key: K, i: usize)
    requires
        obeys_key_model::<K>(),
    ensures
        forall|k: K|
            #[trigger] list_at(final(map)@, k) == if k == key {
                list_at(old(map)@, k).push(i)
            } else {
                list_at(old(map)@, k)
            },
        forall|k: K| #[trigger]
            final(map)@.contains_key(k) <==> (k == key || old(map)@.contains_key(k)),
{
    let mut list = match map.remove(&key) {
        Some(list) => list,
        None => Vec::new(),
    };
    list.push(i);
    map.insert(key, list);
}

/// The key of the edge between `a` and `b`.
pub(crate) fn key_of(a: usize, b: usize) -> (k: u128)
    ensures
        k == edge_key(a, b),
{
    if a <= b {
        (a as u128) * 0x1_0000_0000_0000_0000u128 + (b as u128)
    } else {
        (b as u128) * 0x1_0000_0000_0000_0000u128 + (a as u128)
    }
}

/// Neighbors search accelerating structure.
pub struct Neighbors<T> {
    vertices: Vec<T>,
    polygons: Vec<Triangle<usize>>,
    shares_edge: HashMap<u128, Vec<usize>>,
    shares_vertex: HashMap<usize, Vec<usize>>,
}

impl<T> Neighbors<T> {
    /// The vertices of the mesh.
    pub closed spec fn vertex_seq(&self) -> Seq<T> {
        self.vertices@
    }

    /// The triangles of the mesh, as indices into the vertices.
    pub closed spec fn polygon_seq(&self) -> Seq<Triangle<usize>> {
        self.polygons@
    }

    /// For the key of each edge that a triangle has, the triangles that have
    /// it.
    pub closed spec fn edge_map(&self) -> Map<u128, Seq<usize>> {
        Map::new(|e: u128| self.shares_edge@.contains_key(e), |e: u128| self.shares_edge@[e]@)
    }

    /// For each vertex that a triangle has, the triangles that have it.
    pub closed spec fn vertex_map(&self) -> Map<usize, Seq<usize>> {
        Map::new(
            |v: usize| self.shares_vertex@.contains_key(v),
            |v: usize| self.shares_vertex@[v]@,
        )
    }

    /// Whether the two maps hold what the triangles give: a list for each
    /// edge and each vertex that a triangle has, and for no other.
    pub open spec fn wf(&self) -> bool {
        &&& self.polygon_seq().len() <= usize::MAX
        &&& forall|e: u128| #[trigger]
            self.edge_map().contains_key(e) <==> edge_faces(self.polygon_seq(), e).len() > 0
        &&& forall|e: u128| #[trigger]
            self.edge_map().contains_key(e) ==> self.edge_map()[e] == edge_faces(
                self.polygon_seq(),
                e,
            )
        &&& forall|v: usize| #[trigger]
            self.vertex_map().contains_key(v) <==> vertex_faces(self.polygon_seq(), v).len() > 0
        &&& forall|v: usize| #[trigger]
            self.vertex_map().contains_key(v) ==> self.vertex_map()[v] == vertex_faces(
                self.polygon_seq(),
                v,
            )
    }

    /// Builds a Neighbors search based on the supplied vertices
    /// and supplied triangle list.
    pub fn new(vertices: Vec<T>, polygons: Vec<Triangle<usize>>) -> (r: Self)
        ensures
            r.wf(),
            r.vertex_seq() == vertices@,
            r.polygon_seq() == polygons@,
    {
        let mut shares_edge: HashMap<u128, Vec<usize>> = HashMap::new();
        let mut shares_vertex: HashMap<usize, Vec<usize>> = HashMap::new();
        let mut i: usize = 0;
        while i < polygons.len()
            invariant
                i <= polygons.len(),
                forall|v: usize| #[trigger]
                    list_at(shares_vertex@, v) == vertex_faces(polygons@.take(i as int), v),
                forall|e: u128| #[trigger]
                    list_at(shares_edge@, e) == edge_faces(polygons@.take(i as int), e),
                forall|v: usize| #[trigger]
                    shares_vertex@.contains_key(v) ==> list_at(shares_vertex@, v).len() > 0,
                forall|e: u128| #[trigger]
                    shares_edge@.contains_key(e) ==> list_at(shares_edge@, e).len() > 0,
            decreases polygons.len() - i,
        {
            let ghost done = polygons@.take(i as int);
            let lines = polygons[i].emit_lines();
            let mut j: usize = 0;
            while j < lines.len()
                invariant
                    j <= lines.len(),
                    forall|v: usize| #[trigger]
                        list_at(shares_vertex@, v) == vertex_faces(done, v) + repeat(
                            i,
                            vertex_hits(lines@.take(j as int), v),
                        ),
                    forall|e: u128| #[trigger]
                        list_at(shares_edge@, e) == edge_faces(done, e) + repeat(
                            i,
                            edge_hits(lines@.take(j as int), e),
                        ),
                    forall|v: usize| #[trigger]
                        shares_vertex@.contains_key(v) ==> list_at(shares_vertex@, v).len() > 0,
                    forall|e: u128| #[trigger]
                        shares_edge@.contains_key(e) ==> list_at(shares_edge@, e).len() > 0,
                decreases lines.len() - j,
            {
                let line = lines[j];
                let ghost sv = shares_vertex@;
                let ghost se = shares_edge@;
                register(&mut shares_vertex, line.x, i);
                let ghost sv1 = shares_vertex@;
                register(&mut shares_vertex, line.y, i);
                register(&mut shares_edge, key_of(line.x, line.y), i);
                proof {
                    let before = lines@.take(j as int);
                    let after = lines@.take(j + 1);
                    assert(after.drop_last() =~= before);
                    assert(after.last() == line);
                    assert forall|v: usize| #[trigger]
                        list_at(shares_vertex@, v) == vertex_faces(done, v) + repeat(
                            i,
                            vertex_hits(after, v),
                        ) by {
                        let a = list_at(sv, v);
                        let b = list_at(sv1, v);
                        let c = list_at(shares_vertex@, v);
                        assert(a == vertex_faces(done, v) + repeat(i, vertex_hits(before, v)));
                        assert(c =~= vertex_faces(done, v) + repeat(i, vertex_hits(after, v)));
                    }
                    assert forall|e: u128| #[trigger]
                        list_at(shares_edge@, e) == edge_faces(done, e) + repeat(
                            i,
                            edge_hits(after, e),
                        ) by {
                        let a = list_at(se, e);
                        let c = list_at(shares_edge@, e);
                        assert(a == edge_faces(done, e) + repeat(i, edge_hits(before, e)));
                        assert(c =~= edge_faces(done, e) + repeat(i, edge_hits(after, e)));
                    }
                }
                j += 1;
            }
            proof {
                let next = polygons@.take(i + 1);
                assert(next.drop_last() =~= done);
                assert(next.last() == polygons@[i as int]);
                assert(lines@.take(lines@.len() as int) =~= lines@);
            }
            i += 1;
        }
        assert(polygons@.take(polygons@.len() as int) =~= polygons@);
        let r = Neighbors { vertices, polygons, shares_edge, shares_vertex };
        proof {
            assert forall|e: u128| #[trigger]
                r.edge_map().contains_key(e) <==> edge_faces(r.polygon_seq(), e).len() > 0 by {
                assert(list_at(shares_edge@, e) == edge_faces(polygons@, e));
            }
            assert forall|e: u128| #[trigger]
                r.edge_map().contains_key(e) implies r.edge_map()[e] == edge_faces(
                r.polygon_seq(),
                e,
            ) by {
                assert(list_at(shares_edge@, e) == edge_faces(polygons@, e));
            }
            assert forall|v: usize| #[trigger]
                r.vertex_map().contains_key(v) <==> vertex_faces(r.polygon_seq(), v).len()
                    > 0 by {
                assert(list_at(shares_vertex@, v) == vertex_faces(polygons@, v));
            }
            assert forall|v: usize| #[trigger]
                r.vertex_map().contains_key(v) implies r.vertex_map()[v] == vertex_faces(
                r.polygon_seq(),
                v,
            ) by {
                assert(list_at(shares_vertex@, v) == vertex_faces(polygons@, v));
            }
        }
        r
    }

    /// Returns the vector and triangle list used to create the Neighbors.
    pub fn split(self) -> (r: (Vec<T>, Vec<Triangle<usize>>))
        ensures
            r.0@ == self.vertex_seq(),
            r.1@ == self.polygon_seq(),
    {
        (self.vertices, self.polygons)
    }

    /// The vertices of the mesh.
    pub fn vertices(&self) -> (r: &Vec<T>)
        ensures
            r@ == self.vertex_seq(),
    {
        &self.vertices
    }

    /// The triangles of the mesh.
    pub fn polygons(&self) -> (r: &Vec<Triangle<usize>>)
        ensures
            r@ == self.polygon_seq(),
    {
        &self.polygons
    }

    /// The vertices at the corners of the polygon at index `i`: what the
    /// normal of the face is calculated from.
    pub fn face_vertices(&self, i: usize) -> (r: Triangle<&T>)
        requires
            i < self.polygon_seq().len(),
            self.polygon_seq()[i as int].x < self.vertex_seq().len(),
            self.polygon_seq()[i as int].y < self.vertex_seq().len(),
            self.polygon_seq()[i as int].z < self.vertex_seq().len(),
        ensures
            *r.x == self.vertex_seq()[self.polygon_seq()[i as int].x as int],
            *r.y == self.vertex_seq()[self.polygon_seq()[i as int].y as int],
            *r.z == self.vertex_seq()[self.polygon_seq()[i as int].z as int],
    {
        let t = self.polygons[i];
        Triangle::new(&self.vertices[t.x], &self.vertices[t.y], &self.vertices[t.z])
    }

    /// Looks up the index of every polygon that contains
    /// vertex `t`, this can be used to calculate new faces.
    ///
    /// Gives `None` for a vertex that no polygon contains.
    pub fn vertex_neighbors(&self, t: &usize) -> (r: Option<&[usize]>)
        requires
            self.wf(),
        ensures
            match r {
                Some(list) => list@ == vertex_faces(self.polygon_seq(), *t) && list@.len() > 0,
                None => vertex_faces(self.polygon_seq(), *t).len() == 0,
            },
    {
        assert(self.vertex_map().contains_key(*t) <==> self.shares_vertex@.contains_key(*t));
        match self.shares_vertex.get(t) {
            Some(list) => {
                assert(self.vertex_map()[*t] == list@);
                Some(list.as_slice())
            },
            None => None,
        }
    }

    /// Looks up the index of every polygon that has the edge between the
    /// vertices `a` and `b`, whichever way round.
    ///
    /// Gives `None` for an edge that no polygon has.
    pub fn edge_neighbors(&self, a: usize, b: usize) -> (r: Option<&[usize]>)
        requires
            self.wf(),
        ensures
            match r {
                Some(list) => list@ == edge_faces(self.polygon_seq(), edge_key(a, b))
                    && list@.len() > 0,
                None => edge_faces(self.polygon_seq(), edge_key(a, b)).len() == 0,
            },
    {
        let key = key_of(a, b);
        assert(self.edge_map().contains_key(key) <==> self.shares_edge@.contains_key(key));
        match self.shares_edge.get(&key) {
            Some(list) => {
                assert(self.edge_map()[key] == list@);
                Some(list.as_slice())
            },
            None => None,
        }
    }

    /// Looks up the index of every polygon that is a neighbor of the
    /// polygon at index `i`: one that shares an edge with it. This can be
    /// used to prep data for a geometry shader (eg triangle_adjacency).
    ///
    /// Gives `None` where there is no polygon at index `i`.
    pub fn polygon_neighbors(&self, i: usize) -> (r: Option<HashSet<usize>>)
        requires
            self.wf(),
        ensures
            r is Some <==> i < self.polygon_seq().len(),
            r matches Some(set) ==> set@ == neighbor_set(self.polygon_seq(), i),
    {
        if i >= self.polygons.len() {
            return None;
        }
        let ghost polys = self.polygons@;
        let tri = self.polygons[i];
        let lines = tri.emit_lines();
        let mut v: HashSet<usize> = HashSet::new();
        let mut k: usize = 0;
        while k < lines.len()
            invariant
                self.wf(),
                polys == self.polygon_seq(),
                polys == self.polygons@,
                i < polys.len(),
                lines@ == polys[i as int].line_seq(),
                k <= lines.len(),
                forall|j: usize| #[trigger]
                    v@.contains(j) <==> j < polys.len() && shares_one_of(
                        lines@,
                        k as int,
                        polys[j as int],
                    ),
            decreases lines.len() - k,
        {
            let line = lines[k];
            let key = key_of(line.x, line.y);
            let ghost start = v@;
            proof {
                lemma_edge_faces(polys, key);
            }
            assert(self.edge_map().contains_key(key) <==> self.shares_edge@.contains_key(key));
            match self.shares_edge.get(&key) {
                Some(list) => {
                    assert(self.edge_map()[key] == list@);
                    assert(list@ == edge_faces(polys, key));
                    let mut m: usize = 0;
                    while m < list.len()
                        invariant
                            m <= list.len(),
                            forall|j: usize| #[trigger]
                                v@.contains(j) <==> start.contains(j) || list@.take(
                                    m as int,
                                ).contains(j),
                        decreases list.len() - m,
                    {
                        let ghost pre = list@.take(m as int);
                        let ghost held = v@;
                        let x = list[m];
                        v.insert(x);
                        proof {
                            let post = list@.take(m + 1);
                            assert(v@ == held.insert(x));
                            assert(post =~= pre.push(x));
                            assert forall|j: usize| #[trigger]
                                v@.contains(j) <==> start.contains(j) || post.contains(j) by {
                                if pre.contains(j) {
                                    let w = choose|w: int| 0 <= w < pre.len() && pre[w] == j;
                                    assert(post[w] == j);
                                }
                                if j == x {
                                    assert(post[m as int] == j);
                                }
                                if post.contains(j) {
                                    let w = choose|w: int| 0 <= w < post.len() && post[w] == j;
                                    if w < m {
                                        assert(pre[w] == j);
                                    }
                                }
                            }
                        }
                        m += 1;
                    }
                    assert(list@.take(list@.len() as int) =~= list@);
                },
                None => {
                    assert(edge_faces(polys, key).len() == 0);
                },
            }
            proof {
                assert forall|j: usize| #[trigger]
                    v@.contains(j) <==> j < polys.len() && shares_one_of(
                        lines@,
                        k + 1,
                        polys[j as int],
                    ) by {
                    let b = polys[j as int];
                    assert(v@.contains(j) <==> start.contains(j) || edge_faces(
                        polys,
                        key,
                    ).contains(j));
                    if j < polys.len() {
                        assert(edge_faces(polys, key).contains(j) <==> has_edge(b, lines@[k as int]));
                        if shares_one_of(lines@, k as int, b) {
                            let n = choose|n: int|
                                0 <= n < k && n < lines@.len() && #[trigger] has_edge(b, lines@[n]);
                            assert(0 <= n < k + 1 && has_edge(b, lines@[n]));
                        }
                        if shares_one_of(lines@, k + 1, b) {
                            let n = choose|n: int|
                                0 <= n < k + 1 && n < lines@.len() && #[trigger] has_edge(
                                    b,
                                    lines@[n],
                                );
                            if n < k {
                                assert(shares_one_of(lines@, k as int, b));
                            }
                        }
                    }
                }
            }
            k += 1;
        }
        let ghost full = v@;
        v.remove(&i);
        assert(v@ == full.remove(i));
        assert(v@ =~= neighbor_set(polys, i));
        Some(v)
    }
}

/// In a closed, 2-manifold mesh every edge that the structure knows has
/// exactly two triangles.
pub proof fn lemma_closed_mesh_edges<T>(n: Neighbors<T>, e: u128)
    requires
        n.wf(),
        closed_manifold(n.polygon_seq()),
        n.edge_map().contains_key(e),
    ensures
        n.edge_map()[e].len() == 2,
{
    lemma_edge_faces(n.polygon_seq(), e);
}

} // verus!
