//! The indexed form of a mesh: a table of shared vertices and a list of
//! polygons that refer to the table by index.

use crate::poly::{vertices_of, EmitVertices, MapVertex, Triangle, Vertices};
use crate::stream::Stream;
use crate::triangulate::{triangles_of, EmitTriangles, Triangulate};
use std::marker::PhantomData;
use vstd::arithmetic::div_mod::lemma_fundamental_div_mod_converse;
use vstd::prelude::*;

verus! {

/// The `SharedVertex` trait is meant to be used with the `IndexedPolygon`
/// trait. This trait is meant as a way to calculate the shared vertices that
/// are required to build the implementors mesh.
pub trait SharedVertex<V>: Sized {
    /// The number of shared vertices.
    spec fn vertex_count(&self) -> nat;

    /// The shared vertex at offset `i`.
    spec fn vertex_at(&self, i: int) -> V;

    /// Returns the shared vertex at offset `i`.
    fn shared_vertex(&self, i: usize) -> (v: V)
        requires
            i < self.vertex_count(),
        ensures
            v == self.vertex_at(i as int),
    ;

    /// Returns the number of shared vertices required to represent the mesh.
    fn shared_vertex_count(&self) -> (n: usize)
        ensures
            n == self.vertex_count(),
    ;
}

/// Gives every `SharedVertex` a stream of its shared vertices.
pub trait SharedVertices<V>: SharedVertex<V> {
    /// Create a stream that returns each shared vertex that is required to
    /// build the mesh.
    fn shared_vertex_iter(&self) -> (r: SharedVertexIterator<'_, Self, V>)
        ensures
            r.wf(),
            r.pending() == Seq::new(self.vertex_count(), |i: int| self.vertex_at(i)),
    ;
}

impl<V, T: SharedVertex<V>> SharedVertices<V> for T {
    fn shared_vertex_iter(&self) -> (r: SharedVertexIterator<'_, T, V>) {
        let end = self.shared_vertex_count();
        let r = SharedVertexIterator { base: self, at: 0, end, phantom_v: PhantomData };
        assert(r.pending() =~= Seq::new(self.vertex_count(), |i: int| self.vertex_at(i)));
        r
    }
}

/// A stream that yields the shared vertices of the mesh.
///
/// This `struct` is created by the `shared_vertex_iter` method on
/// `SharedVertex`.
#[verifier::reject_recursive_types(V)]
pub struct SharedVertexIterator<'a, T, V> {
    base: &'a T,
    at: usize,
    end: usize,
    phantom_v: PhantomData<V>,
}

impl<'a, T: SharedVertex<V>, V> SharedVertexIterator<'a, T, V> {
    /// The number of vertices that are still to come.
    pub fn len(&self) -> (n: usize)
        requires
            self.wf(),
        ensures
            n == self.pending().len(),
    {
        self.end - self.at
    }
}

impl<'a, T: SharedVertex<V>, V> Stream for SharedVertexIterator<'a, T, V> {
    type Item = V;

    closed spec fn wf(&self) -> bool {
        self.at <= self.end <= self.base.vertex_count()
    }

    closed spec fn pending(&self) -> Seq<V> {
        Seq::new((self.end - self.at) as nat, |i: int| self.base.vertex_at(self.at + i))
    }

    fn next(&mut self) -> (r: Option<V>) {
        if self.at < self.end {
            let v = self.base.shared_vertex(self.at);
            self.at = self.at + 1;
            assert(self.pending() =~= old(self).pending().drop_first());
            Some(v)
        } else {
            None
        }
    }

    /// The number of pending items, as both bounds.
    open spec fn hint(&self) -> (usize, Option<usize>) {
        (self.pending().len() as usize, Some(self.pending().len() as usize))
    }

    fn size_hint(&self) -> (r: (usize, Option<usize>))
        ensures
            r.0 == self.pending().len(),
            r.1 == Some(r.0),
    {
        let n = self.end - self.at;
        (n, Some(n))
    }
}

/// The `IndexedPolygon` trait is used with the `SharedVertex` trait in order
/// to build a mesh. `IndexedPolygon` calculates each polygon face required to
/// build an implementors mesh. Each face is always returned in indexed form
/// that points to the correct vertice supplied by the `SharedVertex` trait.
pub trait IndexedPolygon<V>: Sized {
    /// The number of polygons.
    spec fn polygon_count(&self) -> nat;

    /// The polygon at offset `i`, with indices to the shared vertices.
    spec fn polygon_at(&self, i: int) -> V;

    /// Returns a polygon with indices to the shared vertex.
    fn indexed_polygon(&self, i: usize) -> (p: V)
        requires
            i < self.polygon_count(),
        ensures
            p == self.polygon_at(i as int),
    ;

    /// Returns the number of polygons that are needed to represent this mesh.
    fn indexed_polygon_count(&self) -> (n: usize)
        ensures
            n == self.polygon_count(),
    ;
}

/// Gives every `IndexedPolygon` a stream of its polygons.
pub trait IndexedPolygons<V>: IndexedPolygon<V> {
    /// Creates a stream that will return a polygon for each face in the
    /// source mesh.
    fn indexed_polygon_iter(&self) -> (r: IndexedPolygonIterator<'_, Self, V>)
        ensures
            r.wf(),
            r.pending() == Seq::new(self.polygon_count(), |i: int| self.polygon_at(i)),
    ;
}

impl<V, T: IndexedPolygon<V>> IndexedPolygons<V> for T {
    fn indexed_polygon_iter(&self) -> (r: IndexedPolygonIterator<'_, T, V>) {
        let end = self.indexed_polygon_count();
        let r = IndexedPolygonIterator { base: self, at: 0, end, phantom_v: PhantomData };
        assert(r.pending() =~= Seq::new(self.polygon_count(), |i: int| self.polygon_at(i)));
        r
    }
}

/// A stream that yields the indices of the mesh.
///
/// This `struct` is created by the `indexed_polygon_iter` method on
/// `IndexedPolygon`.
#[verifier::reject_recursive_types(V)]
pub struct IndexedPolygonIterator<'a, T, V> {
    base: &'a T,
    at: usize,
    end: usize,
    phantom_v: PhantomData<V>,
}

impl<'a, T: IndexedPolygon<V>, V> IndexedPolygonIterator<'a, T, V> {
    /// The number of polygons that are still to come.
    pub fn len(&self) -> (n: usize)
        requires
            self.wf(),
        ensures
            n == self.pending().len(),
    {
        self.end - self.at
    }
}

impl<'a, T: IndexedPolygon<V>, V> Stream for IndexedPolygonIterator<'a, T, V> {
    type Item = V;

    closed spec fn wf(&self) -> bool {
        self.at <= self.end <= self.base.polygon_count()
    }

    closed spec fn pending(&self) -> Seq<V> {
        Seq::new((self.end - self.at) as nat, |i: int| self.base.polygon_at(self.at + i))
    }

    fn next(&mut self) -> (r: Option<V>) {
        if self.at < self.end {
            let v = self.base.indexed_polygon(self.at);
            self.at = self.at + 1;
            assert(self.pending() =~= old(self).pending().drop_first());
            Some(v)
        } else {
            None
        }
    }

    /// The number of pending items, as both bounds.
    open spec fn hint(&self) -> (usize, Option<usize>) {
        (self.pending().len() as usize, Some(self.pending().len() as usize))
    }

    fn size_hint(&self) -> (r: (usize, Option<usize>))
        ensures
            r.0 == self.pending().len(),
            r.1 == Some(r.0),
    {
        let n = self.end - self.at;
        (n, Some(n))
    }
}

/// The polygons of the indexed form of `g`, with each index replaced by the
/// shared vertex that it stands for.
pub open spec fn resolved<V, P: MapVertex<usize, V>, G: SharedVertex<V> + IndexedPolygon<P>>(
    g: G,
) -> Seq<P::Output> {
    Seq::new(
        g.polygon_count(),
        |i: int| g.polygon_at(i).map_spec(|k: usize| g.vertex_at(k as int)),
    )
}

/// Whether every corner of every polygon of the indexed form of `g` is the
/// index of one of its shared vertices.
pub open spec fn indices_in_range<V, P: EmitVertices<usize>, G: SharedVertex<V> + IndexedPolygon<P>>(
    g: G,
) -> bool {
    forall|i: int, k: int|
        0 <= i < g.polygon_count() && 0 <= k < g.polygon_at(i).vertex_seq().len() ==> (
        #[trigger] g.polygon_at(i).vertex_seq()[k]) < g.vertex_count()
}

/// A generator in both forms: a stream of polygons, and shared vertices
/// with polygons that refer to them by index. The two describe the same
/// mesh, which whoever implements the trait has to prove.
pub trait DualRepresentation<V, P: MapVertex<usize, V>>: Stream<
    Item = <P as MapVertex<usize, V>>::Output,
> + SharedVertex<V> + IndexedPolygon<P> {
    /// Every index of the indexed polygons is that of a shared vertex. The
    /// polygons that the stream has still to hand out are the last of
    /// the indexed polygons, in order, with each index replaced by its
    /// shared vertex. A stream that has handed out nothing yet has all of
    /// them to hand out.
    proof fn lemma_dual_representation(&self)
        requires
            self.wf(),
        ensures
            indices_in_range::<V, P, Self>(*self),
            self.pending().len() <= self.polygon_count(),
            self.pending() == resolved::<V, P, Self>(*self).skip(
                self.polygon_count() - self.pending().len(),
            ),
    ;
}

/// Triangulating the polygons that a generator has still to hand out gives
/// the same triangles, in the same order, as looking the corners of its
/// last indexed polygons up among the shared vertices and triangulating
/// them.
pub proof fn lemma_triangulated_forms_agree<V, P: MapVertex<usize, V>, G: DualRepresentation<V, P>>(
    g: G,
) where <P as MapVertex<usize, V>>::Output: EmitTriangles
    requires
        g.wf(),
    ensures
        indices_in_range::<V, P, G>(g),
        g.pending().len() <= g.polygon_count(),
        triangles_of(g.pending()) == triangles_of(
            resolved::<V, P, G>(g).skip(g.polygon_count() - g.pending().len()),
        ),
{
    g.lemma_dual_representation();
}

/// The polygons of the indexed form of `g`, in order.
pub open spec fn indexed_polygons<P, G: IndexedPolygon<P>>(g: G) -> Seq<P> {
    Seq::new(g.polygon_count(), |i: int| g.polygon_at(i))
}

/// The index buffer of the mesh of `generator` as a list of triangles:
/// the polygons of the indexed form are broken down into triangles, and
/// the triangles into the indices of their corners.
pub fn triangle_indices<P: EmitTriangles<Vertex = usize>, G: IndexedPolygon<P>>(
    generator: &G,
) -> (r: Vec<usize>)
    ensures
        r@ == vertices_of::<usize, Triangle<usize>>(
            triangles_of(indexed_polygons::<P, G>(*generator)),
        ),
{
    generator.indexed_polygon_iter().triangulate().vertices().collect()
}

/// Dividing `q * d + r` by `d` gives `q` and leaves `r`, where `r` is below
/// `d`.
pub proof fn lemma_div_mod(q: int, d: int, r: int)
    requires
        0 <= r < d,
    ensures
        (q * d + r) / d == q,
        (q * d + r) % d == r,
{
    lemma_fundamental_div_mod_converse(q * d + r, d, q, r);
}

/// What holds of place `u` in row `row` of a grid with `n` places in a row
/// and `rows` rows.
pub proof fn lemma_grid(n: int, rows: int, row: int, u: int)
    requires
        n > 0,
        0 <= row < rows,
        0 <= u <= n,
    ensures
        0 <= row * n,
        row * n + n <= rows * n,
        (row * n + u) % n == u % n,
        u < n ==> (row * n + u) / n == row,
        u < n ==> u % n == u,
        0 <= u % n < n,
        n % n == 0,
        (row + 1) * n == row * n + n,
        (rows - row - 1) * n == rows * n - row * n - n,
        rows <= rows * n,
{
    assert(rows <= rows * n) by (nonlinear_arith)
        requires
            n > 0,
            rows > 0,
    ;
    assert(0 <= row * n) by (nonlinear_arith)
        requires
            0 <= row,
            n > 0,
    ;
    assert((row + 1) * n <= rows * n) by (nonlinear_arith)
        requires
            row + 1 <= rows,
            n > 0,
    ;
    assert((row + 1) * n == row * n + n) by (nonlinear_arith);
    assert((rows - row - 1) * n == rows * n - row * n - n) by (nonlinear_arith);
    if u < n {
        lemma_div_mod(row, n, u);
        lemma_div_mod(0, n, u);
    } else {
        lemma_div_mod(row + 1, n, 0);
        lemma_div_mod(1, n, 0);
    }
}

/// The row and the place in it of entry `idx` of a grid with `n` places in
/// a row and `rows` rows.
pub proof fn lemma_grid_place(n: int, rows: int, idx: int)
    requires
        n > 0,
        0 <= idx < rows * n,
    ensures
        0 <= idx / n < rows,
        0 <= idx % n < n,
        idx == (idx / n) * n + idx % n,
{
    assert(0 <= idx / n < rows && 0 <= idx % n < n && idx == (idx / n) * n + idx % n)
        by (nonlinear_arith)
        requires
            n > 0,
            0 <= idx < rows * n,
    ;
}

} // verus!
