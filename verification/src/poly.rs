//! The polygon model and the operators that take one polygon apart or map
//! its vertices.

use crate::stream::{concat, extend_back, lemma_concat_first, lemma_concat_len, Stream};
use std::collections::VecDeque;
use std::marker::PhantomData;
use vstd::laws_eq::obeys_concrete_eq;
use vstd::prelude::*;
use vstd::std_specs::cmp::{PartialEqSpec, PartialEqSpecImpl};

verus! {

/// A polygon with 4 points, listed in winding order.
#[derive(Clone, Debug, Eq, Copy)]
pub struct Quad<T> {
    /// The first point of the quad
    pub x: T,
    /// The second point of the quad
    pub y: T,
    /// The third point of the quad
    pub z: T,
    /// The fourth point of the quad
    pub w: T,
}

impl<T: PartialEq> PartialEq for Quad<T> {
    fn eq(&self, other: &Self) -> (r: bool) {
        self.x == other.x && self.y == other.y && self.z == other.z && self.w == other.w
    }
}

impl<T: PartialEq> PartialEqSpecImpl for Quad<T> {
    open spec fn obeys_eq_spec() -> bool {
        T::obeys_eq_spec()
    }

    /// Two of them are equal where their points are, place for place.
    open spec fn eq_spec(&self, other: &Self) -> bool {
        self.x.eq_spec(&other.x) && self.y.eq_spec(&other.y) && self.z.eq_spec(&other.z) && self.w.eq_spec(&other.w)
    }
}

impl<T> Quad<T> {
    /// Create a new `Quad` with the supplied vertices.
    pub fn new(v0: T, v1: T, v2: T, v3: T) -> (q: Self)
        ensures
            q == (Quad { x: v0, y: v1, z: v2, w: v3 }),
    {
        Quad { x: v0, y: v1, z: v2, w: v3 }
    }
}

/// A polygon with 3 points, listed in winding order.
#[derive(Clone, Debug, Eq, Copy)]
pub struct Triangle<T> {
    /// the first point of the triangle
    pub x: T,
    /// the second point of the triangle
    pub y: T,
    /// the third point of the triangle
    pub z: T,
}

impl<T: PartialEq> PartialEq for Triangle<T> {
    fn eq(&self, other: &Self) -> (r: bool) {
        self.x == other.x && self.y == other.y && self.z == other.z
    }
}

impl<T: PartialEq> PartialEqSpecImpl for Triangle<T> {
    open spec fn obeys_eq_spec() -> bool {
        T::obeys_eq_spec()
    }

    /// Two of them are equal where their points are, place for place.
    open spec fn eq_spec(&self, other: &Self) -> bool {
        self.x.eq_spec(&other.x) && self.y.eq_spec(&other.y) && self.z.eq_spec(&other.z)
    }
}

impl<T> Triangle<T> {
    /// Create a new `Triangle` with the supplied vertices.
    pub fn new(v0: T, v1: T, v2: T) -> (t: Self)
        ensures
            t == (Triangle { x: v0, y: v1, z: v2 }),
    {
        Triangle { x: v0, y: v1, z: v2 }
    }
}

/// Either a triangle or a quad: some generators produce both.
#[derive(Debug, Clone, Copy)]
pub enum Polygon<T> {
    /// A wrapped triangle
    PolyTri(Triangle<T>),
    /// A wrapped quad
    PolyQuad(Quad<T>),
}

impl<T: PartialEq> PartialEq for Polygon<T> {
    fn eq(&self, other: &Self) -> (r: bool) {
        match (self, other) {
            (Polygon::PolyTri(a), Polygon::PolyTri(b)) => a == b,
            (Polygon::PolyQuad(a), Polygon::PolyQuad(b)) => a == b,
            _ => false,
        }
    }
}

impl<T: PartialEq> PartialEqSpecImpl for Polygon<T> {
    open spec fn obeys_eq_spec() -> bool {
        T::obeys_eq_spec()
    }

    /// Two polygons are equal where they are of one kind and what they wrap
    /// is equal.
    open spec fn eq_spec(&self, other: &Self) -> bool {
        match (self, other) {
            (Polygon::PolyTri(a), Polygon::PolyTri(b)) => a.x.eq_spec(&b.x) && a.y.eq_spec(&b.y)
                && a.z.eq_spec(&b.z),
            (Polygon::PolyQuad(a), Polygon::PolyQuad(b)) => a.x.eq_spec(&b.x) && a.y.eq_spec(&b.y)
                && a.z.eq_spec(&b.z) && a.w.eq_spec(&b.w),
            _ => false,
        }
    }
}

/// Represents a line.
#[derive(Clone, Debug, Eq, Copy, Hash)]
pub struct Line<T> {
    /// The first point
    pub x: T,
    /// The second point
    pub y: T,
}

impl<T: PartialEq> PartialEq for Line<T> {
    fn eq(&self, other: &Self) -> (r: bool) {
        self.x == other.x && self.y == other.y
    }
}

impl<T: PartialEq> PartialEqSpecImpl for Line<T> {
    open spec fn obeys_eq_spec() -> bool {
        T::obeys_eq_spec()
    }

    /// Two of them are equal where their points are, place for place.
    open spec fn eq_spec(&self, other: &Self) -> bool {
        self.x.eq_spec(&other.x) && self.y.eq_spec(&other.y)
    }
}

impl<T> Line<T> {
    /// Create a new line using point x and y.
    pub fn new(x: T, y: T) -> (l: Self)
        ensures
            l == (Line { x, y }),
    {
        Line { x, y }
    }
}

/// Where `==` on the points is equality, `==` on a quad of them is.
pub proof fn lemma_quad_eq<T: PartialEq>()
    requires
        obeys_concrete_eq::<T>(),
    ensures
        obeys_concrete_eq::<Quad<T>>(),
{
    reveal(obeys_concrete_eq);
}

/// Where `==` on the points is equality, `==` on a triangle of them is.
pub proof fn lemma_triangle_eq<T: PartialEq>()
    requires
        obeys_concrete_eq::<T>(),
    ensures
        obeys_concrete_eq::<Triangle<T>>(),
{
    reveal(obeys_concrete_eq);
}

/// Where `==` on the points is equality, `==` on a polygon of them is.
pub proof fn lemma_polygon_eq<T: PartialEq>()
    requires
        obeys_concrete_eq::<T>(),
    ensures
        obeys_concrete_eq::<Polygon<T>>(),
{
    reveal(obeys_concrete_eq);
}

/// Where `==` on the points is equality, `==` on a line of them is.
pub proof fn lemma_line_eq<T: PartialEq>()
    requires
        obeys_concrete_eq::<T>(),
    ensures
        obeys_concrete_eq::<Line<T>>(),
{
    reveal(obeys_concrete_eq);
}

/// Unwraps a polygon into the vertices that it binds together.
pub trait EmitVertices<T>: Sized {
    /// The vertices of the polygon, in winding order.
    spec fn vertex_seq(self) -> Seq<T>;

    /// Every polygon has a vertex.
    proof fn lemma_has_vertex(self)
        ensures
            self.vertex_seq().len() >= 1,
    ;

    /// Consume a polygon and hand out its vertices, first to last.
    fn emit_vertices(self) -> (r: Vec<T>)
        ensures
            r@ == self.vertex_seq(),
    ;
}

impl<T> EmitVertices<T> for Line<T> {
    open spec fn vertex_seq(self) -> Seq<T> {
        seq![self.x, self.y]
    }

    proof fn lemma_has_vertex(self) {
    }

    fn emit_vertices(self) -> (r: Vec<T>) {
        let Line { x, y } = self;
        let mut r = Vec::with_capacity(2);
        r.push(x);
        r.push(y);
        assert(r@ =~= self.vertex_seq());
        r
    }
}

impl<T> EmitVertices<T> for Triangle<T> {
    open spec fn vertex_seq(self) -> Seq<T> {
        seq![self.x, self.y, self.z]
    }

    proof fn lemma_has_vertex(self) {
    }

    fn emit_vertices(self) -> (r: Vec<T>) {
        let Triangle { x, y, z } = self;
        let mut r = Vec::with_capacity(3);
        r.push(x);
        r.push(y);
        r.push(z);
        assert(r@ =~= self.vertex_seq());
        r
    }
}

impl<T> EmitVertices<T> for Quad<T> {
    open spec fn vertex_seq(self) -> Seq<T> {
        seq![self.x, self.y, self.z, self.w]
    }

    proof fn lemma_has_vertex(self) {
    }

    fn emit_vertices(self) -> (r: Vec<T>) {
        let Quad { x, y, z, w } = self;
        let mut r = Vec::with_capacity(4);
        r.push(x);
        r.push(y);
        r.push(z);
        r.push(w);
        assert(r@ =~= self.vertex_seq());
        r
    }
}

impl<T> EmitVertices<T> for Polygon<T> {
    open spec fn vertex_seq(self) -> Seq<T> {
        match self {
            Polygon::PolyTri(p) => p.vertex_seq(),
            Polygon::PolyQuad(p) => p.vertex_seq(),
        }
    }

    proof fn lemma_has_vertex(self) {
    }

    fn emit_vertices(self) -> (r: Vec<T>) {
        match self {
            Polygon::PolyTri(p) => p.emit_vertices(),
            Polygon::PolyQuad(p) => p.emit_vertices(),
        }
    }
}

/// The vertices of `polys`, polygon after polygon.
pub open spec fn vertices_of<V, P: EmitVertices<V>>(polys: Seq<P>) -> Seq<V> {
    concat(polys.map_values(|p: P| p.vertex_seq()))
}

/// The vertices of a list of polygons are those of the first polygon followed
/// by those of the others, and there are at least as many as polygons.
pub proof fn lemma_vertices_of<V, P: EmitVertices<V>>(polys: Seq<P>)
    ensures
        vertices_of::<V, P>(polys).len() >= polys.len(),
        polys.len() > 0 ==> vertices_of::<V, P>(polys) == polys[0].vertex_seq() + vertices_of::<
            V,
            P,
        >(polys.drop_first()),
{
    let parts = polys.map_values(|p: P| p.vertex_seq());
    assert forall|i: int| 0 <= i < parts.len() implies (#[trigger] parts[i]).len() >= 1 by {
        polys[i].lemma_has_vertex();
    }
    lemma_concat_len(parts);
    if polys.len() > 0 {
        lemma_concat_first(parts);
        assert(parts.drop_first() =~= polys.drop_first().map_values(|p: P| p.vertex_seq()));
    }
}

/// Supplies a way to convert a stream of polygons to a stream of vertices.
pub trait Vertices<V>: Stream where Self::Item: EmitVertices<V> {
    /// Convert a polygon stream to a stream of the polygons' vertices.
    fn vertices(self) -> (r: VerticesIterator<Self, V>)
        requires
            self.wf(),
        ensures
            r.wf(),
            r.pending() == vertices_of::<V, Self::Item>(self.pending()),
            r.hint() == (self.hint().0, None::<usize>),
    ;
}

impl<V, SRC: Stream> Vertices<V> for SRC where SRC::Item: EmitVertices<V> {
    fn vertices(self) -> (r: VerticesIterator<SRC, V>) {
        let r = VerticesIterator { source: self, buffer: VecDeque::new() };
        assert(r.pending() =~= vertices_of::<V, SRC::Item>(self.pending()));
        r
    }
}

/// A stream that breaks polygons down into their individual vertices.
///
/// This `struct` is created by the `vertices` method on `Vertices`.
pub struct VerticesIterator<SRC, V> {
    source: SRC,
    buffer: VecDeque<V>,
}

impl<V, SRC: Stream> Stream for VerticesIterator<SRC, V> where SRC::Item: EmitVertices<V> {
    type Item = V;

    closed spec fn wf(&self) -> bool {
        self.source.wf()
    }

    closed spec fn pending(&self) -> Seq<V> {
        self.buffer@ + vertices_of::<V, SRC::Item>(self.source.pending())
    }

    fn next(&mut self) -> (r: Option<V>) {
        loop
            invariant
                self.source.wf(),
                self.pending() == old(self).pending(),
            decreases self.source.pending().len(), self.buffer@.len(),
        {
            if let Some(v) = self.buffer.pop_front() {
                assert(self.pending() =~= old(self).pending().drop_first());
                return Some(v);
            }
            let ghost polys = self.source.pending();
            proof {
                lemma_vertices_of::<V, SRC::Item>(polys);
            }
            match self.source.next() {
                None => {
                    assert(polys.map_values(|p: SRC::Item| p.vertex_seq()) =~= Seq::empty());
                    return None;
                },
                Some(p) => {
                    let emitted = p.emit_vertices();
                    extend_back(&mut self.buffer, emitted);
                    assert(self.pending() =~= old(self).pending());
                },
            }
        }
    }

    /// The lower bound is that of the source: each polygon gives at least
    /// one vertex. No upper bound is given.
    closed spec fn hint(&self) -> (usize, Option<usize>) {
        (self.source.hint().0, None::<usize>)
    }

    fn size_hint(&self) -> (r: (usize, Option<usize>))
        ensures
            r.1 is None,
    {
        let (n, _) = self.source.size_hint();
        proof {
            lemma_vertices_of::<V, SRC::Item>(self.source.pending());
        }
        (n, None)
    }
}

/// Whether `f` can be called on each of `vs`.
pub open spec fn accepts_each<T, U, F: FnMut(T) -> U>(f: F, vs: Seq<T>) -> bool {
    forall|i: int| 0 <= i < vs.len() ==> f.requires((#[trigger] vs[i],))
}

/// Whether `us` holds, place for place, a result of `f` on each of `vs`.
pub open spec fn maps_each<T, U, F: FnMut(T) -> U>(f: F, vs: Seq<T>, us: Seq<U>) -> bool {
    &&& us.len() == vs.len()
    &&& forall|i: int| 0 <= i < vs.len() ==> f.ensures((vs[i],), #[trigger] us[i])
}

/// Whether `f` can give at most one result for an argument.
pub open spec fn single_valued<T, U, F: FnMut(T) -> U>(f: F) -> bool {
    forall|v: T, a: U, b: U| #[trigger]
        f.ensures((v,), a) && #[trigger] f.ensures((v,), b) ==> a == b
}

/// The function that a single-valued `f` computes.
pub open spec fn graph_of<T, U, F: FnMut(T) -> U>(f: F) -> spec_fn(T) -> U {
    |v: T| choose|u: U| f.ensures((v,), u)
}

/// What a single-valued `f` maps a list of vertices to is the list of the
/// values of the function it computes.
pub proof fn lemma_maps_each_single_valued<T, U, F: FnMut(T) -> U>(f: F, vs: Seq<T>, us: Seq<U>)
    requires
        maps_each(f, vs, us),
        single_valued(f),
    ensures
        us == vs.map_values(graph_of(f)),
{
    assert forall|i: int| 0 <= i < vs.len() implies us[i] == graph_of(f)(vs[i]) by {
        let c = choose|u: U| f.ensures((vs[i],), u);
        assert(f.ensures((vs[i],), us[i]));
        assert(f.ensures((vs[i],), c));
    }
    assert(us =~= vs.map_values(graph_of(f)));
}

/// Equivalent of `map` but per-vertex.
pub trait MapVertex<T, U>: EmitVertices<T> {
    /// A container of the same shape as `Self`, holding the mapped vertices.
    type Output: EmitVertices<U>;

    /// The polygon of the same shape whose vertices are `g` of the vertices
    /// of `self`.
    spec fn map_spec(self, g: spec_fn(T) -> U) -> Self::Output;

    /// `map_spec` is the one value of the output type whose vertices are
    /// `g` of the vertices of `self`: the number of vertices fixes the shape.
    proof fn lemma_map_spec(self, g: spec_fn(T) -> U, out: Self::Output)
        ensures
            out == self.map_spec(g) <==> out.vertex_seq() == self.vertex_seq().map_values(g),
    ;

    /// As `map_vertex`, with the function borrowed, so that the caller has
    /// it for the next polygon. A function value stands for what it accepts
    /// and returns, and a call leaves that as it was.
    fn map_vertex_with<F: FnMut(T) -> U>(self, f: &mut F) -> (r: Self::Output)
        requires
            accepts_each(*old(f), self.vertex_seq()),
        ensures
            maps_each(*old(f), self.vertex_seq(), r.vertex_seq()),
            *final(f) == *old(f),
    ;

    /// Map a function to each vertex in a polygon creating a new polygon
    /// with as many vertices.
    fn map_vertex<F: FnMut(T) -> U>(self, f: F) -> (r: Self::Output)
        requires
            accepts_each(f, self.vertex_seq()),
        ensures
            maps_each(f, self.vertex_seq(), r.vertex_seq()),
    {
        let mut f = f;
        self.map_vertex_with(&mut f)
    }
}

impl<T, U> MapVertex<T, U> for Line<T> {
    type Output = Line<U>;

    open spec fn map_spec(self, g: spec_fn(T) -> U) -> Line<U> {
        Line { x: g(self.x), y: g(self.y) }
    }

    proof fn lemma_map_spec(self, g: spec_fn(T) -> U, out: Line<U>) {
        let a = out.vertex_seq();
        let b = self.vertex_seq().map_values(g);
        assert(a[0] == out.x && a[1] == out.y);
        assert(b[0] == g(self.x) && b[1] == g(self.y));
        assert(out == self.map_spec(g) ==> a =~= b);
    }

    fn map_vertex_with<F: FnMut(T) -> U>(self, f: &mut F) -> (r: Line<U>) {
        let ghost vs = self.vertex_seq();
        assert(vs[0] == self.x && vs[1] == self.y);
        let Line { x, y } = self;
        let x = f(x);
        let y = f(y);
        Line { x, y }
    }
}

impl<T, U> MapVertex<T, U> for Triangle<T> {
    type Output = Triangle<U>;

    open spec fn map_spec(self, g: spec_fn(T) -> U) -> Triangle<U> {
        Triangle { x: g(self.x), y: g(self.y), z: g(self.z) }
    }

    proof fn lemma_map_spec(self, g: spec_fn(T) -> U, out: Triangle<U>) {
        let a = out.vertex_seq();
        let b = self.vertex_seq().map_values(g);
        assert(a[0] == out.x && a[1] == out.y && a[2] == out.z);
        assert(b[0] == g(self.x) && b[1] == g(self.y) && b[2] == g(self.z));
        assert(out == self.map_spec(g) ==> a =~= b);
    }

    fn map_vertex_with<F: FnMut(T) -> U>(self, f: &mut F) -> (r: Triangle<U>) {
        let ghost vs = self.vertex_seq();
        assert(vs[0] == self.x && vs[1] == self.y && vs[2] == self.z);
        let Triangle { x, y, z } = self;
        let x = f(x);
        let y = f(y);
        let z = f(z);
        Triangle { x, y, z }
    }
}

impl<T, U> MapVertex<T, U> for Quad<T> {
    type Output = Quad<U>;

    open spec fn map_spec(self, g: spec_fn(T) -> U) -> Quad<U> {
        Quad { x: g(self.x), y: g(self.y), z: g(self.z), w: g(self.w) }
    }

    proof fn lemma_map_spec(self, g: spec_fn(T) -> U, out: Quad<U>) {
        let a = out.vertex_seq();
        let b = self.vertex_seq().map_values(g);
        assert(a[0] == out.x && a[1] == out.y && a[2] == out.z && a[3] == out.w);
        assert(b[0] == g(self.x) && b[1] == g(self.y) && b[2] == g(self.z) && b[3] == g(self.w));
        assert(out == self.map_spec(g) ==> a =~= b);
    }

    fn map_vertex_with<F: FnMut(T) -> U>(self, f: &mut F) -> (r: Quad<U>) {
        let ghost vs = self.vertex_seq();
        assert(vs[0] == self.x && vs[1] == self.y && vs[2] == self.z && vs[3] == self.w);
        let Quad { x, y, z, w } = self;
        let x = f(x);
        let y = f(y);
        let z = f(z);
        let w = f(w);
        Quad { x, y, z, w }
    }
}

impl<T, U> MapVertex<T, U> for Polygon<T> {
    type Output = Polygon<U>;

    open spec fn map_spec(self, g: spec_fn(T) -> U) -> Polygon<U> {
        match self {
            Polygon::PolyTri(p) => Polygon::PolyTri(p.map_spec(g)),
            Polygon::PolyQuad(p) => Polygon::PolyQuad(p.map_spec(g)),
        }
    }

    proof fn lemma_map_spec(self, g: spec_fn(T) -> U, out: Polygon<U>) {
        match (self, out) {
            (Polygon::PolyTri(p), Polygon::PolyTri(q)) => {
                p.lemma_map_spec(g, q);
            },
            (Polygon::PolyQuad(p), Polygon::PolyQuad(q)) => {
                p.lemma_map_spec(g, q);
            },
            _ => {
                assert(out.vertex_seq().len() != self.vertex_seq().map_values(g).len());
            },
        }
    }

    fn map_vertex_with<F: FnMut(T) -> U>(self, f: &mut F) -> (r: Polygon<U>) {
        match self {
            Polygon::PolyTri(p) => Polygon::PolyTri(p.map_vertex_with(f)),
            Polygon::PolyQuad(p) => Polygon::PolyQuad(p.map_vertex_with(f)),
        }
    }
}

/// Mapping the vertices of a line with `g` and then with `h` gives what
/// mapping them with `h` after `g` gives.
pub proof fn lemma_map_twice_line<T, U, W>(p: Line<T>, g: spec_fn(T) -> U, h: spec_fn(U) -> W)
    ensures
        MapVertex::<U, W>::map_spec(MapVertex::<T, U>::map_spec(p, g), h) == MapVertex::<
            T,
            W,
        >::map_spec(p, |v: T| h(g(v))),
{
}

/// Mapping the vertices of a triangle with `g` and then with `h` gives what
/// mapping them with `h` after `g` gives.
pub proof fn lemma_map_twice_triangle<T, U, W>(p: Triangle<T>, g: spec_fn(T) -> U, h: spec_fn(U) -> W)
    ensures
        MapVertex::<U, W>::map_spec(MapVertex::<T, U>::map_spec(p, g), h) == MapVertex::<
            T,
            W,
        >::map_spec(p, |v: T| h(g(v))),
{
}

/// Mapping the vertices of a quad with `g` and then with `h` gives what
/// mapping them with `h` after `g` gives.
pub proof fn lemma_map_twice_quad<T, U, W>(p: Quad<T>, g: spec_fn(T) -> U, h: spec_fn(U) -> W)
    ensures
        MapVertex::<U, W>::map_spec(MapVertex::<T, U>::map_spec(p, g), h) == MapVertex::<
            T,
            W,
        >::map_spec(p, |v: T| h(g(v))),
{
}

/// Mapping the vertices of a polygon with `g` and then with `h` gives what
/// mapping them with `h` after `g` gives.
pub proof fn lemma_map_twice_polygon<T, U, W>(p: Polygon<T>, g: spec_fn(T) -> U, h: spec_fn(U) -> W)
    ensures
        MapVertex::<U, W>::map_spec(MapVertex::<T, U>::map_spec(p, g), h) == MapVertex::<
            T,
            W,
        >::map_spec(p, |v: T| h(g(v))),
{
}

/// The polygons of `polys` with `g` applied to each vertex.
pub open spec fn mapped_polygons<T, U, P: MapVertex<T, U>>(
    polys: Seq<P>,
    g: spec_fn(T) -> U,
) -> Seq<P::Output> {
    polys.map_values(|p: P| p.map_spec(g))
}

/// Whether `f` can be called on every vertex of every polygon of `polys`.
pub open spec fn accepts_polygons<T, U, P: MapVertex<T, U>, F: FnMut(T) -> U>(
    f: F,
    polys: Seq<P>,
) -> bool {
    forall|i: int| 0 <= i < polys.len() ==> accepts_each(f, (#[trigger] polys[i]).vertex_seq())
}

/// This acts very similar to a vertex shader. It gives a way to manipulate
/// and modify the vertices of the polygons in a stream: to scale the mesh, or
/// to change the type of each vertex.
pub trait MapToVertices<T, U>: Stream where Self::Item: MapVertex<T, U> {
    /// Produces a stream of mapped polygons from a stream of polygons.
    /// Each polygon keeps its shape; each vertex is replaced by what `map`
    /// gives for it.
    fn vertex<F: FnMut(T) -> U>(self, map: F) -> (r: MapToVerticesIter<Self, T, U, F>)
        requires
            self.wf(),
            single_valued(map),
            accepts_polygons(map, self.pending()),
        ensures
            r.wf(),
            r.mapper() == map,
            r.source_pending() == self.pending(),
            r.pending() == mapped_polygons(self.pending(), graph_of(map)),
            r.hint() == self.hint(),
    ;
}

impl<T, U, SRC: Stream> MapToVertices<T, U> for SRC where SRC::Item: MapVertex<T, U> {
    fn vertex<F: FnMut(T) -> U>(self, map: F) -> (r: MapToVerticesIter<SRC, T, U, F>) {
        MapToVerticesIter { src: self, f: map, phantom: PhantomData }
    }
}

/// A stream that maps vertices with a given function.
///
/// This `struct` is created by the `vertex` method on `MapToVertices`.
#[verifier::reject_recursive_types(T)]
#[verifier::reject_recursive_types(U)]
pub struct MapToVerticesIter<SRC, T, U, F: FnMut(T) -> U> {
    src: SRC,
    f: F,
    phantom: PhantomData<(T, U)>,
}

impl<SRC: Stream, T, U, F: FnMut(T) -> U> MapToVerticesIter<SRC, T, U, F> where
    SRC::Item: MapVertex<T, U>,
 {
    /// The function that maps the vertices.
    pub closed spec fn mapper(&self) -> F {
        self.f
    }

    /// The polygons of the source that are still to be mapped.
    pub closed spec fn source_pending(&self) -> Seq<SRC::Item> {
        self.src.pending()
    }

    /// Hands out the next polygon of the source with its vertices mapped, or
    /// `None` when the source has none left: each vertex of the result is
    /// what the function gave for the vertex in the same place.
    pub fn next(&mut self) -> (r: Option<<SRC::Item as MapVertex<T, U>>::Output>)
        requires
            old(self).wf(),
        ensures
            final(self).wf(),
            final(self).mapper() == old(self).mapper(),
            r is Some <==> old(self).source_pending().len() > 0,
            r is None ==> final(self).source_pending() == old(self).source_pending()
                && final(self).pending() == old(self).pending(),
            r matches Some(out) ==> {
                &&& final(self).source_pending() == old(self).source_pending().drop_first()
                &&& maps_each(
                    old(self).mapper(),
                    old(self).source_pending()[0].vertex_seq(),
                    out.vertex_seq(),
                )
                &&& old(self).pending().len() > 0
                &&& out == old(self).pending()[0]
                &&& final(self).pending() == old(self).pending().drop_first()
            },
    {
        let ghost polys = self.src.pending();
        match self.src.next() {
            None => None,
            Some(p) => {
                assert(p == polys[0]);
                let out = p.map_vertex_with(&mut self.f);
                proof {
                    lemma_maps_each_single_valued(self.f, p.vertex_seq(), out.vertex_seq());
                    p.lemma_map_spec(graph_of(self.f), out);
                    assert(self.pending() =~= old(self).pending().drop_first());
                    assert forall|i: int| 0 <= i < self.src.pending().len() implies accepts_each(
                        self.f,
                        (#[trigger] self.src.pending()[i]).vertex_seq(),
                    ) by {
                        assert(self.src.pending()[i] == polys[i + 1]);
                    }
                }
                Some(out)
            },
        }
    }

    /// Drains the stream into a `Vec`: one polygon for each polygon of the
    /// source, in order, each vertex being what the function gave for the
    /// vertex in the same place.
    pub fn collect(self) -> (r: Vec<<SRC::Item as MapVertex<T, U>>::Output>)
        requires
            self.wf(),
        ensures
            r@ == self.pending(),
            r@.len() == self.source_pending().len(),
            forall|i: int|
                0 <= i < r@.len() ==> maps_each(
                    self.mapper(),
                    self.source_pending()[i].vertex_seq(),
                    (#[trigger] r@[i]).vertex_seq(),
                ),
    {
        let mut s = self;
        let mut r: Vec<<SRC::Item as MapVertex<T, U>>::Output> = Vec::new();
        loop
            invariant
                s.wf(),
                s.mapper() == self.mapper(),
                r@ + s.pending() == self.pending(),
                r@.len() + s.source_pending().len() == self.source_pending().len(),
                s.source_pending() == self.source_pending().skip(r@.len() as int),
                forall|i: int|
                    0 <= i < r@.len() ==> maps_each(
                        self.mapper(),
                        self.source_pending()[i].vertex_seq(),
                        (#[trigger] r@[i]).vertex_seq(),
                    ),
            ensures
                r@ == self.pending(),
                r@.len() == self.source_pending().len(),
                forall|i: int|
                    0 <= i < r@.len() ==> maps_each(
                        self.mapper(),
                        self.source_pending()[i].vertex_seq(),
                        (#[trigger] r@[i]).vertex_seq(),
                    ),
            decreases s.source_pending().len(),
        {
            let ghost before = s.pending();
            let ghost done = r@;
            match s.next() {
                Some(x) => {
                    r.push(x);
                    assert(r@ + s.pending() =~= done + before);
                    assert(s.source_pending() =~= self.source_pending().skip(r@.len() as int));
                    assert forall|i: int| 0 <= i < r@.len() implies maps_each(
                        self.mapper(),
                        self.source_pending()[i].vertex_seq(),
                        (#[trigger] r@[i]).vertex_seq(),
                    ) by {
                        if i < done.len() {
                            assert(r@[i] == done[i]);
                        }
                    }
                },
                None => {
                    assert(r@ + s.pending() =~= r@);
                    break ;
                },
            }
        }
        r
    }
}

impl<P: EmitVertices<U>, SRC: Stream, T, U, F: FnMut(T) -> U> Stream for MapToVerticesIter<
    SRC,
    T,
    U,
    F,
> where SRC::Item: MapVertex<T, U, Output = P>,
 {
    type Item = P;

    closed spec fn wf(&self) -> bool {
        &&& self.src.wf()
        &&& single_valued(self.f)
        &&& accepts_polygons(self.f, self.src.pending())
    }

    closed spec fn pending(&self) -> Seq<P> {
        mapped_polygons(self.src.pending(), graph_of(self.f))
    }

    fn next(&mut self) -> (r: Option<P>)
        ensures
            final(self).mapper() == old(self).mapper(),
            r is Some <==> old(self).source_pending().len() > 0,
            r is None ==> final(self).source_pending() == old(self).source_pending(),
            r matches Some(out) ==> final(self).source_pending() == old(
                self,
            ).source_pending().drop_first() && maps_each(
                old(self).mapper(),
                old(self).source_pending()[0].vertex_seq(),
                out.vertex_seq(),
            ),
    {
        MapToVerticesIter::next(self)
    }

    /// The bounds of the source: each polygon gives one polygon.
    closed spec fn hint(&self) -> (usize, Option<usize>) {
        self.src.hint()
    }

    fn size_hint(&self) -> (r: (usize, Option<usize>)) {
        self.src.size_hint()
    }
}

/// Convert a polygon into its boundary edges.
pub trait EmitLines: Sized {
    /// The Vertex defines the corners of a polygon.
    type Vertex;

    /// The boundary edges of the polygon as a closed loop, starting with the
    /// edge that leaves the first vertex.
    spec fn line_seq(self) -> Seq<Line<Self::Vertex>>;

    /// Every polygon has an edge.
    proof fn lemma_has_line(self)
        ensures
            self.line_seq().len() >= 1,
    ;

    /// Convert a polygon into lines, first to last.
    fn emit_lines(self) -> (r: Vec<Line<Self::Vertex>>)
        ensures
            r@ == self.line_seq(),
    ;
}

impl<T: Copy> EmitLines for Triangle<T> {
    type Vertex = T;

    open spec fn line_seq(self) -> Seq<Line<T>> {
        seq![
            Line { x: self.x, y: self.y },
            Line { x: self.y, y: self.z },
            Line { x: self.z, y: self.x },
        ]
    }

    proof fn lemma_has_line(self) {
    }

    fn emit_lines(self) -> (r: Vec<Line<T>>) {
        let mut r = Vec::with_capacity(3);
        r.push(Line::new(self.x, self.y));
        r.push(Line::new(self.y, self.z));
        r.push(Line::new(self.z, self.x));
        assert(r@ =~= self.line_seq());
        r
    }
}

impl<T: Copy> EmitLines for Quad<T> {
    type Vertex = T;

    open spec fn line_seq(self) -> Seq<Line<T>> {
        seq![
            Line { x: self.x, y: self.y },
            Line { x: self.y, y: self.z },
            Line { x: self.z, y: self.w },
            Line { x: self.w, y: self.x },
        ]
    }

    proof fn lemma_has_line(self) {
    }

    fn emit_lines(self) -> (r: Vec<Line<T>>) {
        let mut r = Vec::with_capacity(4);
        r.push(Line::new(self.x, self.y));
        r.push(Line::new(self.y, self.z));
        r.push(Line::new(self.z, self.w));
        r.push(Line::new(self.w, self.x));
        assert(r@ =~= self.line_seq());
        r
    }
}

impl<T: Copy> EmitLines for Polygon<T> {
    type Vertex = T;

    open spec fn line_seq(self) -> Seq<Line<T>> {
        match self {
            Polygon::PolyTri(p) => p.line_seq(),
            Polygon::PolyQuad(p) => p.line_seq(),
        }
    }

    proof fn lemma_has_line(self) {
    }

    fn emit_lines(self) -> (r: Vec<Line<T>>) {
        match self {
            Polygon::PolyTri(p) => p.emit_lines(),
            Polygon::PolyQuad(p) => p.emit_lines(),
        }
    }
}

/// The boundary edges of `polys`, polygon after polygon.
pub open spec fn lines_of<P: EmitLines>(polys: Seq<P>) -> Seq<Line<P::Vertex>> {
    concat(polys.map_values(|p: P| p.line_seq()))
}

/// The edges of a list of polygons are those of the first polygon followed
/// by those of the others, and there are at least as many as polygons.
pub proof fn lemma_lines_of<P: EmitLines>(polys: Seq<P>)
    ensures
        lines_of(polys).len() >= polys.len(),
        polys.len() > 0 ==> lines_of(polys) == polys[0].line_seq() + lines_of(polys.drop_first()),
{
    let parts = polys.map_values(|p: P| p.line_seq());
    assert forall|i: int| 0 <= i < parts.len() implies (#[trigger] parts[i]).len() >= 1 by {
        polys[i].lemma_has_line();
    }
    lemma_concat_len(parts);
    if polys.len() > 0 {
        lemma_concat_first(parts);
        assert(parts.drop_first() =~= polys.drop_first().map_values(|p: P| p.line_seq()));
    }
}

/// Supplies a way to convert a stream of polygons into a stream of the
/// polygons' lines.
pub trait Lines: Stream where Self::Item: EmitLines {
    /// Convert the stream into a `LinesIterator`.
    fn lines(self) -> (r: LinesIterator<Self, <Self::Item as EmitLines>::Vertex>)
        requires
            self.wf(),
        ensures
            r.wf(),
            r.pending() == lines_of(self.pending()),
            r.hint() == (self.hint().0, None::<usize>),
    ;
}

impl<SRC: Stream> Lines for SRC where SRC::Item: EmitLines {
    fn lines(self) -> (r: LinesIterator<SRC, <SRC::Item as EmitLines>::Vertex>) {
        let r = LinesIterator { source: self, buffer: VecDeque::new() };
        assert(r.pending() =~= lines_of(self.pending()));
        r
    }
}

/// A stream that turns polygons into their lines.
///
/// This `struct` is created by the `lines` method on `Lines`.
pub struct LinesIterator<I, V> {
    source: I,
    buffer: VecDeque<Line<V>>,
}

impl<I: Stream, V> Stream for LinesIterator<I, V> where I::Item: EmitLines<Vertex = V> {
    type Item = Line<V>;

    closed spec fn wf(&self) -> bool {
        self.source.wf()
    }

    closed spec fn pending(&self) -> Seq<Line<V>> {
        self.buffer@ + lines_of(self.source.pending())
    }

    fn next(&mut self) -> (r: Option<Line<V>>) {
        loop
            invariant
                self.source.wf(),
                self.pending() == old(self).pending(),
            decreases self.source.pending().len(), self.buffer@.len(),
        {
            if let Some(v) = self.buffer.pop_front() {
                assert(self.pending() =~= old(self).pending().drop_first());
                return Some(v);
            }
            let ghost polys = self.source.pending();
            proof {
                lemma_lines_of(polys);
            }
            match self.source.next() {
                None => {
                    assert(polys.map_values(|p: I::Item| p.line_seq()) =~= Seq::empty());
                    return None;
                },
                Some(p) => {
                    let emitted = p.emit_lines();
                    extend_back(&mut self.buffer, emitted);
                    assert(self.pending() =~= old(self).pending());
                },
            }
        }
    }

    /// The lower bound is that of the source: each polygon gives at least
    /// one line. No upper bound is given.
    closed spec fn hint(&self) -> (usize, Option<usize>) {
        (self.source.hint().0, None::<usize>)
    }

    fn size_hint(&self) -> (r: (usize, Option<usize>))
        ensures
            r.1 is None,
    {
        let (n, _) = self.source.size_hint();
        proof {
            lemma_lines_of(self.source.pending());
        }
        (n, None)
    }
}

} // verus!
