//! A torus of quads.

use crate::generator::{resolved, DualRepresentation, IndexedPolygon, SharedVertex};
use crate::poly::{EmitVertices, MapVertex, Quad};
use crate::stream::Stream;
use vstd::laws_eq::obeys_concrete_eq;
use vstd::prelude::*;
use vstd::std_specs::cmp::PartialEqSpecImpl;

verus! {

/// A point of a torus with `r` segments round its axis and `t` segments
/// round its tube. With the angles `a = 2 pi u / t` round the tube and
/// `b = 2 pi h / r` round the axis, and with `g` for the radius of the torus
/// plus `cos a` times the radius of the tube, it lies at
/// `(g cos b, sin a times the radius of the tube, -g sin b)`.
#[derive(Clone, Copy, Debug, Eq, Hash)]
pub struct TorusPoint {
    /// The step round the axis.
    pub h: usize,
    /// The step round the tube.
    pub u: usize,
}

impl PartialEq for TorusPoint {
    fn eq(&self, other: &Self) -> (r: bool) {
        self.h == other.h && self.u == other.u
    }
}

impl PartialEqSpecImpl for TorusPoint {
    open spec fn obeys_eq_spec() -> bool {
        true
    }

    /// Two vertices are equal where they are the same.
    open spec fn eq_spec(&self, other: &Self) -> bool {
        *self == *other
    }
}

/// `==` on `TorusPoint` is equality.
pub proof fn lemma_torus_point_eq()
    ensures
        obeys_concrete_eq::<TorusPoint>(),
{
    reveal(obeys_concrete_eq);
}

/// A torus round the y axis, centered at (0, 0, 0).
#[derive(Clone, Copy)]
pub struct Torus {
    idx: usize,
    radial_segments: usize,
    tubular_segments: usize,
}

/// Shared vertex `i` of a torus with `t` segments round its tube.
pub open spec fn torus_vertex(t: int, i: int) -> TorusPoint {
    TorusPoint { h: (i / t) as usize, u: (i % t) as usize }
}

/// Quad `idx` of a torus with `r` segments round its axis and `t` round its
/// tube, by the numbers of its vertices: from a vertex to the one a step on
/// round the axis, then a step on round the tube, then back round the
/// axis, each step going back to the start where it passes the end.
pub open spec fn torus_quad(r: int, t: int, idx: int) -> Quad<usize> {
    let count = t * r;
    let ncol = if count - idx > t { t } else { t - count };
    let nrow = if idx % t != t - 1 { 1 } else { 1 - t };
    Quad {
        x: idx as usize,
        y: (idx + ncol) as usize,
        z: (idx + nrow + ncol) as usize,
        w: (idx + nrow) as usize,
    }
}

/// Quad `idx` of such a torus, with its corners as points.
pub open spec fn torus_face(r: int, t: int, idx: int) -> Quad<TorusPoint> {
    let q = torus_quad(r, t, idx);
    Quad {
        x: torus_vertex(t, q.x as int),
        y: torus_vertex(t, q.y as int),
        z: torus_vertex(t, q.z as int),
        w: torus_vertex(t, q.w as int),
    }
}

/// Where quad `idx` of a torus with `r` by `t` segments lies, and that the
/// numbers of its corners are numbers of quads.
proof fn lemma_torus_quad(r: int, t: int, idx: int)
    requires
        r > 2,
        t > 2,
        0 <= idx < t * r,
    ensures
        0 <= idx % t < t,
        t * r - idx > t ==> idx + t < t * r,
        t * r - idx <= t ==> 0 <= idx + t - t * r,
        idx % t == t - 1 ==> idx + 1 - t >= 0 && ((t * r - idx > t) <==> (t * r - (idx + 1 - t)
            > t)),
        idx % t != t - 1 ==> idx + 1 < t * r && ((t * r - idx > t) <==> (t * r - (idx + 1) > t)),
        0 <= torus_quad(r, t, idx).x < t * r,
        0 <= torus_quad(r, t, idx).y < t * r,
        0 <= torus_quad(r, t, idx).z < t * r,
        0 <= torus_quad(r, t, idx).w < t * r,
        t < t * r,
{
    let row = idx / t;
    let u = idx % t;
    assert(0 <= row < r && 0 <= u < t && idx == row * t + u) by (nonlinear_arith)
        requires
            t > 0,
            0 <= idx < t * r,
            row == idx / t,
            u == idx % t,
    ;
    assert(t * r == (r - 1) * t + t) by (nonlinear_arith);
    assert((row + 1) * t == row * t + t) by (nonlinear_arith);
    assert(0 <= row * t) by (nonlinear_arith)
        requires
            0 <= row,
            t > 0,
    ;
    assert(t < t * r) by (nonlinear_arith)
        requires
            r > 2,
            t > 2,
    ;
    if row < r - 1 {
        assert((row + 1) * t <= (r - 1) * t) by (nonlinear_arith)
            requires
                row + 1 <= r - 1,
                t > 0,
        ;
    } else {
        assert(row * t == (r - 1) * t);
    }
}

impl Torus {
    /// The number of segments round the axis.
    pub closed spec fn radial(&self) -> int {
        self.radial_segments as int
    }

    /// The number of segments round the tube.
    pub closed spec fn tubular(&self) -> int {
        self.tubular_segments as int
    }

    /// The number of quads that have been handed out.
    pub closed spec fn position(&self) -> int {
        self.idx as int
    }

    #[verifier::type_invariant]
    closed spec fn inv(self) -> bool {
        &&& self.radial_segments > 2
        &&& self.tubular_segments > 2
        &&& self.tubular_segments * self.radial_segments + 1 <= usize::MAX
        &&& self.idx <= self.tubular_segments * self.radial_segments
    }

    /// Creates a new torus.
    /// `radial_segments` the number of tube segments requested to generate,
    /// must be at least 3
    /// `tubular_segments` the number of segments that wrap around the tube,
    /// must be at least 3
    pub fn new(radial_segments: usize, tubular_segments: usize) -> (t: Self)
        requires
            tubular_segments > 2,
            radial_segments > 2,
            tubular_segments * radial_segments + 1 <= usize::MAX,
        ensures
            t.wf(),
            t.radial() == radial_segments,
            t.tubular() == tubular_segments,
            t.position() == 0,
    {
        assert(0 <= tubular_segments * radial_segments) by (nonlinear_arith);
        Torus { idx: 0, radial_segments, tubular_segments }
    }

    /// The number of quads that are still to come.
    pub fn len(&self) -> (n: usize)
        ensures
            n == self.pending().len(),
    {
        proof {
            use_type_invariant(self);
        }
        self.tubular_segments * self.radial_segments - self.idx
    }
}

impl Stream for Torus {
    type Item = Quad<TorusPoint>;

    /// Whether the torus has more than two segments each way, its vertices
    /// can be counted, and no more quads have been handed out than it has.
    closed spec fn wf(&self) -> bool {
        self.inv()
    }

    /// The quads from the one that the torus has come to.
    open spec fn pending(&self) -> Seq<Quad<TorusPoint>> {
        Seq::new(
            (self.tubular() * self.radial() - self.position()) as nat,
            |k: int| torus_face(self.radial(), self.tubular(), self.position() + k),
        )
    }

    fn next(&mut self) -> (r: Option<Quad<TorusPoint>>)
        ensures
            final(self).radial() == old(self).radial(),
            final(self).tubular() == old(self).tubular(),
            final(self).position() == old(self).position() + if r is Some { 1int } else { 0int },
    {
        proof {
            use_type_invariant(&*self);
        }
        if self.idx < self.tubular_segments * self.radial_segments {
            let idx = self.idx;
            *self = Torus {
                idx: idx + 1,
                radial_segments: self.radial_segments,
                tubular_segments: self.tubular_segments,
            };
            proof {
                assert(self.pending() =~= old(self).pending().drop_first());
                assert(self.polygon_count() == self.tubular_segments * self.radial_segments);
                assert(self.vertex_count() == self.tubular_segments * self.radial_segments + 1);
                lemma_torus_quad(
                    self.radial_segments as int,
                    self.tubular_segments as int,
                    idx as int,
                );
            }
            let q = self.indexed_polygon(idx);
            proof {
                assert(q == torus_quad(
                    self.radial_segments as int,
                    self.tubular_segments as int,
                    idx as int,
                ));
                assert(self.vertex_at(q.x as int) == torus_vertex(
                    self.tubular_segments as int,
                    q.x as int,
                ));
                assert(self.vertex_at(q.y as int) == torus_vertex(
                    self.tubular_segments as int,
                    q.y as int,
                ));
                assert(self.vertex_at(q.z as int) == torus_vertex(
                    self.tubular_segments as int,
                    q.z as int,
                ));
                assert(self.vertex_at(q.w as int) == torus_vertex(
                    self.tubular_segments as int,
                    q.w as int,
                ));
            }
            Some(
                Quad::new(
                    self.shared_vertex(q.x),
                    self.shared_vertex(q.y),
                    self.shared_vertex(q.z),
                    self.shared_vertex(q.w),
                ),
            )
        } else {
            None
        }
    }

    /// The number of pending items, as both bounds.
    open spec fn hint(&self) -> (usize, Option<usize>) {
        (self.pending().len() as usize, Some(self.pending().len() as usize))
    }

    fn size_hint(&self) -> (r: (usize, Option<usize>))
        ensures
            r.0 == self.pending().len(),
            r.1 == Some(r.0),
    {
        let n = self.len();
        (n, Some(n))
    }
}

impl SharedVertex<TorusPoint> for Torus {
    /// A vertex for each step round the axis and round the tube, and one
    /// more that no quad uses.
    open spec fn vertex_count(&self) -> nat {
        (self.tubular() * self.radial() + 1) as nat
    }

    open spec fn vertex_at(&self, i: int) -> TorusPoint {
        torus_vertex(self.tubular(), i)
    }

    fn shared_vertex(&self, idx: usize) -> (v: TorusPoint) {
        proof {
            use_type_invariant(self);
            assert(self.vertex_at(idx as int) == torus_vertex(
                self.tubular_segments as int,
                idx as int,
            ));
        }
        TorusPoint { h: idx / self.tubular_segments, u: idx % self.tubular_segments }
    }

    fn shared_vertex_count(&self) -> (n: usize) {
        proof {
            use_type_invariant(self);
        }
        self.tubular_segments * self.radial_segments + 1
    }
}

impl IndexedPolygon<Quad<usize>> for Torus {
    open spec fn polygon_count(&self) -> nat {
        (self.tubular() * self.radial()) as nat
    }

    open spec fn polygon_at(&self, i: int) -> Quad<usize> {
        torus_quad(self.radial(), self.tubular(), i)
    }

    fn indexed_polygon(&self, idx: usize) -> (p: Quad<usize>) {
        proof {
            use_type_invariant(self);
            assert(self.polygon_count() == self.tubular_segments * self.radial_segments);
            assert(self.polygon_at(idx as int) == torus_quad(
                self.radial_segments as int,
                self.tubular_segments as int,
                idx as int,
            ));
            lemma_torus_quad(
                self.radial_segments as int,
                self.tubular_segments as int,
                idx as int,
            );
        }
        let t = self.tubular_segments;
        let count = self.indexed_polygon_count();
        // check for wrap around the end end
        let last_column = count - idx <= t;
        let last_row = idx % t == t - 1;
        let across = if last_column { idx - (count - t) } else { idx + t };
        let along = if last_row { idx + 1 - t } else { idx + 1 };
        let both = if last_column { along - (count - t) } else { along + t };
        Quad::new(idx, across, both, along)
    }

    fn indexed_polygon_count(&self) -> (n: usize) {
        proof {
            use_type_invariant(self);
        }
        self.tubular_segments * self.radial_segments
    }
}

impl DualRepresentation<TorusPoint, Quad<usize>> for Torus {
    proof fn lemma_dual_representation(&self) {
        let t = *self;
        let all = resolved::<TorusPoint, Quad<usize>, Torus>(t);
        let r = t.radial_segments as int;
        let n = t.tubular_segments as int;
        assert forall|i: int| 0 <= i < n * r implies #[trigger] all[i] == torus_face(r, n, i) by {
            assert(all[i] == t.polygon_at(i).map_spec(|k: usize| t.vertex_at(k as int)));
        }
        assert forall|i: int, k: int|
            0 <= i < t.polygon_count() && 0 <= k < t.polygon_at(i).vertex_seq().len() implies (
        #[trigger] t.polygon_at(i).vertex_seq()[k]) < t.vertex_count() by {
            lemma_torus_quad(r, n, i);
        }
        assert(t.pending() =~= all.skip(t.position()));
    }
}

} // verus!
