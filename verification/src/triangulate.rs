//! Conversion of polygons, and of streams of polygons, down to triangles.

use crate::poly::{Polygon, Quad, Triangle};
use crate::stream::{concat, extend_back, lemma_concat_first, lemma_concat_len, Stream};
use std::collections::VecDeque;
use vstd::prelude::*;

verus! {

/// Provides a way to convert a polygon down to triangles.
pub trait EmitTriangles: Sized {
    /// The content of each point in the face
    type Vertex;

    /// The triangles that make up the polygon, in the order in which they
    /// are handed out.
    spec fn triangle_seq(&self) -> Seq<Triangle<Self::Vertex>>;

    /// Every polygon has a triangle.
    proof fn lemma_has_triangle(&self)
        ensures
            self.triangle_seq().len() >= 1,
    ;

    /// Convert a polygon to one or more triangles.
    fn emit_triangles(&self) -> (r: Vec<Triangle<Self::Vertex>>)
        ensures
            r@ == self.triangle_seq(),
    ;
}

impl<T: Copy> EmitTriangles for Quad<T> {
    type Vertex = T;

    /// A quad is split along the diagonal from its third to its first
    /// point, whatever its shape.
    open spec fn triangle_seq(&self) -> Seq<Triangle<T>> {
        seq![
            Triangle { x: self.x, y: self.y, z: self.z },
            Triangle { x: self.z, y: self.w, z: self.x },
        ]
    }

    proof fn lemma_has_triangle(&self) {
    }

    fn emit_triangles(&self) -> (r: Vec<Triangle<T>>) {
        let mut r = Vec::with_capacity(2);
        r.push(Triangle::new(self.x, self.y, self.z));
        r.push(Triangle::new(self.z, self.w, self.x));
        assert(r@ =~= self.triangle_seq());
        r
    }
}

impl<T: Copy> EmitTriangles for Triangle<T> {
    type Vertex = T;

    open spec fn triangle_seq(&self) -> Seq<Triangle<T>> {
        seq![*self]
    }

    proof fn lemma_has_triangle(&self) {
    }

    fn emit_triangles(&self) -> (r: Vec<Triangle<T>>) {
        let mut r = Vec::with_capacity(1);
        r.push(*self);
        assert(r@ =~= self.triangle_seq());
        r
    }
}

impl<T: Copy> EmitTriangles for Polygon<T> {
    type Vertex = T;

    open spec fn triangle_seq(&self) -> Seq<Triangle<T>> {
        match self {
            Polygon::PolyTri(t) => t.triangle_seq(),
            Polygon::PolyQuad(q) => q.triangle_seq(),
        }
    }

    proof fn lemma_has_triangle(&self) {
    }

    fn emit_triangles(&self) -> (r: Vec<Triangle<T>>) {
        match self {
            Polygon::PolyTri(t) => t.emit_triangles(),
            Polygon::PolyQuad(q) => q.emit_triangles(),
        }
    }
}

/// The triangles of `polys`, polygon after polygon.
pub open spec fn triangles_of<P: EmitTriangles>(polys: Seq<P>) -> Seq<Triangle<P::Vertex>> {
    concat(polys.map_values(|p: P| p.triangle_seq()))
}

/// The triangles of a list of polygons are those of the first polygon
/// followed by those of the others, and there are at least as many as
/// polygons.
pub proof fn lemma_triangles_of<P: EmitTriangles>(polys: Seq<P>)
    ensures
        triangles_of(polys).len() >= polys.len(),
        polys.len() > 0 ==> triangles_of(polys) == polys[0].triangle_seq() + triangles_of(
            polys.drop_first(),
        ),
{
    let parts = polys.map_values(|p: P| p.triangle_seq());
    assert forall|i: int| 0 <= i < parts.len() implies (#[trigger] parts[i]).len() >= 1 by {
        polys[i].lemma_has_triangle();
    }
    lemma_concat_len(parts);
    if polys.len() > 0 {
        lemma_concat_first(parts);
        assert(parts.drop_first() =~= polys.drop_first().map_values(|p: P| p.triangle_seq()));
    }
}

/// `Triangulate` is an easy way to convert any polygon stream to a stream of
/// triangles. This is useful since quads and other geometry are not
/// supported by modern graphics pipelines.
pub trait Triangulate<V>: Stream where Self::Item: EmitTriangles<Vertex = V> {
    /// Convert a stream of polygons to a stream of triangles.
    fn triangulate(self) -> (r: TriangulateIterator<Self, V>)
        requires
            self.wf(),
        ensures
            r.wf(),
            r.pending() == triangles_of(self.pending()),
            r.hint() == (self.hint().0, None::<usize>),
    ;
}

impl<V, SRC: Stream> Triangulate<V> for SRC where SRC::Item: EmitTriangles<Vertex = V> {
    fn triangulate(self) -> (r: TriangulateIterator<SRC, V>) {
        TriangulateIterator::new(self)
    }
}

/// Turns a stream of polygons into a stream of triangles.
pub struct TriangulateIterator<SRC, V> {
    source: SRC,
    buffer: VecDeque<Triangle<V>>,
}

impl<V, SRC: Stream> TriangulateIterator<SRC, V> where SRC::Item: EmitTriangles<Vertex = V> {
    /// A stream of the triangles of the polygons of `src`.
    pub fn new(src: SRC) -> (r: TriangulateIterator<SRC, V>)
        requires
            src.wf(),
        ensures
            r.wf(),
            r.pending() == triangles_of(src.pending()),
            r.hint() == (src.hint().0, None::<usize>),
    {
        let r = TriangulateIterator { source: src, buffer: VecDeque::new() };
        assert(r.pending() =~= triangles_of(src.pending()));
        r
    }
}

impl<V, SRC: Stream> Stream for TriangulateIterator<SRC, V> where
    SRC::Item: EmitTriangles<Vertex = V>,
 {
    type Item = Triangle<V>;

    closed spec fn wf(&self) -> bool {
        self.source.wf()
    }

    closed spec fn pending(&self) -> Seq<Triangle<V>> {
        self.buffer@ + triangles_of(self.source.pending())
    }

    fn next(&mut self) -> (r: Option<Triangle<V>>) {
        loop
            invariant
                self.source.wf(),
                self.pending() == old(self).pending(),
            decreases self.source.pending().len(), self.buffer@.len(),
        {
            if let Some(v) = self.buffer.pop_front() {
                assert(self.pending() =~= old(self).pending().drop_first());
                return Some(v);
            }
            let ghost polys = self.source.pending();
            proof {
                lemma_triangles_of(polys);
            }
            match self.source.next() {
                None => {
                    assert(polys.map_values(|p: SRC::Item| p.triangle_seq()) =~= Seq::empty());
                    return None;
                },
                Some(p) => {
                    let emitted = p.emit_triangles();
                    extend_back(&mut self.buffer, emitted);
                    assert(self.pending() =~= old(self).pending());
                },
            }
        }
    }

    /// The lower bound is that of the source: each polygon gives at least
    /// one triangle. No upper bound is given.
    closed spec fn hint(&self) -> (usize, Option<usize>) {
        (self.source.hint().0, None::<usize>)
    }

    fn size_hint(&self) -> (r: (usize, Option<usize>))
        ensures
            r.1 is None,
    {
        let (n, _) = self.source.size_hint();
        proof {
            lemma_triangles_of(self.source.pending());
        }
        (n, None)
    }
}

} // verus!
