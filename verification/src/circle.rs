//! A disc of triangles round a center.

use crate::generator::{resolved, DualRepresentation, IndexedPolygon, SharedVertex};
use crate::poly::{Polygon, Triangle};
use crate::stream::Stream;
use vstd::laws_eq::obeys_concrete_eq;
use vstd::prelude::*;
use vstd::std_specs::cmp::PartialEqSpecImpl;

verus! {

/// A vertex of a circle with `n` points round it. All normals are
/// `(0, 0, 1)`.
#[derive(Clone, Copy, Debug, Eq, Hash)]
pub enum CircleVertex {
    /// The center, at `(0, 0, 0)`.
    Center,
    /// The point at the angle `2 pi i / n` on the unit circle, for the `i`
    /// that the variant holds.
    Rim(usize),
}

impl PartialEq for CircleVertex {
    fn eq(&self, other: &Self) -> (r: bool) {
        match (*self, *other) {
            (CircleVertex::Center, CircleVertex::Center) => true,
            (CircleVertex::Rim(a), CircleVertex::Rim(b)) => a == b,
            _ => false,
        }
    }
}

impl PartialEqSpecImpl for CircleVertex {
    open spec fn obeys_eq_spec() -> bool {
        true
    }

    /// Two vertices are equal where they are the same.
    open spec fn eq_spec(&self, other: &Self) -> bool {
        *self == *other
    }
}

/// `==` on `CircleVertex` is equality.
pub proof fn lemma_circle_vertex_eq()
    ensures
        obeys_concrete_eq::<CircleVertex>(),
{
    reveal(obeys_concrete_eq);
}

/// Represents a circle in the XY plane with radius of 1, centered at
/// (0, 0, 0)
#[derive(Clone, Copy)]
pub struct Circle {
    u: usize,
    sub_u: usize,
}

/// Vertex `u` of a circle: the center, then the points round it.
pub open spec fn circle_vertex(u: int) -> CircleVertex {
    if u == 0 {
        CircleVertex::Center
    } else {
        CircleVertex::Rim((u - 1) as usize)
    }
}

/// Triangle `k` of a circle with `n` points round it, by the numbers of its
/// vertices: from the center to point `k` and on to the next point, which
/// for the last triangle is the first point again.
pub open spec fn circle_triangle(n: int, k: int) -> Triangle<usize> {
    if k == n - 1 {
        Triangle { x: 0, y: n as usize, z: 1 }
    } else {
        Triangle { x: 0, y: (k + 1) as usize, z: (k + 2) as usize }
    }
}

/// Triangle `k` of a circle with `n` points round it.
pub open spec fn circle_face(n: int, k: int) -> Polygon<CircleVertex> {
    let t = circle_triangle(n, k);
    Polygon::PolyTri(
        Triangle {
            x: circle_vertex(t.x as int),
            y: circle_vertex(t.y as int),
            z: circle_vertex(t.z as int),
        },
    )
}

impl Circle {
    /// The number of points round the circle.
    pub closed spec fn points(&self) -> int {
        self.sub_u as int
    }

    /// The number of triangles that have been handed out.
    pub closed spec fn position(&self) -> int {
        self.u - 1
    }

    #[verifier::type_invariant]
    closed spec fn inv(self) -> bool {
        &&& 3 < self.sub_u < usize::MAX
        &&& 1 <= self.u <= self.sub_u + 1
    }

    /// Creates a new circle.
    /// `u` is the number of points around the circle, must be > 3
    pub fn new(u: usize) -> (c: Self)
        requires
            3 < u < usize::MAX,
        ensures
            c.wf(),
            c.points() == u,
            c.position() == 0,
    {
        Circle { u: 1, sub_u: u }
    }

    fn vert(&self, u: usize) -> (v: CircleVertex)
        ensures
            v == circle_vertex(u as int),
    {
        if u == 0 {
            CircleVertex::Center
        } else {
            CircleVertex::Rim(u - 1)
        }
    }

    /// The number of triangles that are still to come.
    pub fn len(&self) -> (n: usize)
        ensures
            n == self.pending().len(),
    {
        proof {
            use_type_invariant(self);
        }
        self.sub_u + 1 - self.u
    }
}

impl Stream for Circle {
    type Item = Polygon<CircleVertex>;

    /// Whether the circle has more than three points, whose number can be
    /// counted with the center, and no more triangles have been handed out
    /// than it has.
    closed spec fn wf(&self) -> bool {
        self.inv()
    }

    /// The triangles from the one that the circle has come to.
    open spec fn pending(&self) -> Seq<Polygon<CircleVertex>> {
        Seq::new(
            (self.points() - self.position()) as nat,
            |k: int| circle_face(self.points(), self.position() + k),
        )
    }

    fn next(&mut self) -> (r: Option<Polygon<CircleVertex>>)
        ensures
            final(self).points() == old(self).points(),
            final(self).position() == old(self).position() + if r is Some { 1int } else { 0int },
    {
        proof {
            use_type_invariant(&*self);
        }
        let u = self.u;
        let sub_u = self.sub_u;
        if u < sub_u {
            *self = Circle { u: u + 1, sub_u };
            assert(self.pending() =~= old(self).pending().drop_first());
            Some(Polygon::PolyTri(Triangle::new(self.vert(0), self.vert(u), self.vert(u + 1))))
        } else if u == sub_u {
            *self = Circle { u: u + 1, sub_u };
            assert(self.pending() =~= old(self).pending().drop_first());
            Some(Polygon::PolyTri(Triangle::new(self.vert(0), self.vert(u), self.vert(1))))
        } else {
            None
        }
    }

    /// The number of pending items, as both bounds.
    open spec fn hint(&self) -> (usize, Option<usize>) {
        (self.pending().len() as usize, Some(self.pending().len() as usize))
    }

    fn size_hint(&self) -> (r: (usize, Option<usize>))
        ensures
            r.0 == self.pending().len(),
            r.1 == Some(r.0),
    {
        let n = self.len();
        (n, Some(n))
    }
}

impl SharedVertex<CircleVertex> for Circle {
    /// The center and the points round it.
    open spec fn vertex_count(&self) -> nat {
        (self.points() + 1) as nat
    }

    open spec fn vertex_at(&self, i: int) -> CircleVertex {
        circle_vertex(i)
    }

    fn shared_vertex(&self, idx: usize) -> (v: CircleVertex) {
        self.vert(idx)
    }

    fn shared_vertex_count(&self) -> (n: usize) {
        proof {
            use_type_invariant(self);
        }
        self.sub_u + 1
    }
}

impl IndexedPolygon<Polygon<usize>> for Circle {
    open spec fn polygon_count(&self) -> nat {
        self.points() as nat
    }

    open spec fn polygon_at(&self, i: int) -> Polygon<usize> {
        Polygon::PolyTri(circle_triangle(self.points(), i))
    }

    fn indexed_polygon(&self, idx: usize) -> (p: Polygon<usize>) {
        proof {
            use_type_invariant(self);
        }
        proof {
            vstd::arithmetic::div_mod::lemma_small_mod((idx + 1) as nat, (self.sub_u + 1) as nat);
            if idx + 2 <= self.sub_u {
                vstd::arithmetic::div_mod::lemma_small_mod(
                    (idx + 2) as nat,
                    (self.sub_u + 1) as nat,
                );
            }
        }
        if idx == self.sub_u - 1 {
            Polygon::PolyTri(Triangle::new(0, self.sub_u, 1))
        } else {
            Polygon::PolyTri(
                Triangle::new(0, (idx + 1) % (self.sub_u + 1), (idx + 2) % (self.sub_u + 1)),
            )
        }
    }

    fn indexed_polygon_count(&self) -> (n: usize) {
        self.sub_u
    }
}

impl DualRepresentation<CircleVertex, Polygon<usize>> for Circle {
    proof fn lemma_dual_representation(&self) {
        let c = *self;
        let all = resolved::<CircleVertex, Polygon<usize>, Circle>(c);
        let n = c.sub_u as int;
        assert forall|i: int| 0 <= i < n implies #[trigger] all[i] == circle_face(n, i) by {
        }
        assert(c.pending() =~= all.skip(c.position()));
    }
}

} // verus!
