//! A cone of triangles: a mantle and a bottom.

use crate::generator::{resolved, DualRepresentation, IndexedPolygon, SharedVertex};
use crate::poly::Triangle;
use crate::stream::Stream;
use vstd::laws_eq::obeys_concrete_eq;
use vstd::prelude::*;
use vstd::std_specs::cmp::PartialEqSpecImpl;

verus! {

/// A vertex of a cone with `n` divisions round its axis, by the part of the
/// cone that it belongs to. The angle of division `i` is `2 pi i / n`.
#[derive(Clone, Copy, Debug, Eq, Hash)]
pub enum VertexSection {
    /// The tip, at `(0, 0, 1)`, as a corner of the mantle triangle of the
    /// division that the variant holds: its normal points out of the middle
    /// of that triangle.
    Tip(usize),
    /// The point of the bottom circle at the angle of the division that the
    /// variant holds, as a corner of the mantle.
    TopRadius(usize),
    /// The same point as a corner of the bottom: its normal points down.
    BottomRadius(usize),
    /// The center of the bottom, at `(0, 0, -1)`.
    BottomCenter,
}

impl PartialEq for VertexSection {
    fn eq(&self, other: &Self) -> (r: bool) {
        match (*self, *other) {
            (VertexSection::Tip(a), VertexSection::Tip(b)) => a == b,
            (VertexSection::TopRadius(a), VertexSection::TopRadius(b)) => a == b,
            (VertexSection::BottomRadius(a), VertexSection::BottomRadius(b)) => a == b,
            (VertexSection::BottomCenter, VertexSection::BottomCenter) => true,
            _ => false,
        }
    }
}

impl PartialEqSpecImpl for VertexSection {
    open spec fn obeys_eq_spec() -> bool {
        true
    }

    /// Two vertices are equal where they are the same.
    open spec fn eq_spec(&self, other: &Self) -> bool {
        *self == *other
    }
}

/// `==` on `VertexSection` is equality.
pub proof fn lemma_vertex_section_eq()
    ensures
        obeys_concrete_eq::<VertexSection>(),
{
    reveal(obeys_concrete_eq);
}

/// The `Cone` mesh will create a mesh that goes from 1 to -1.
/// The bottom will be a circle around [0, 0, -1] with a radius
/// of 1, all coords on the bottom will follow the plane equation `-z-1=0`.
/// The tip of the cone will always be at coord [0, 0, 1].
#[derive(Clone, Copy)]
pub struct Cone {
    u: usize,
    sub_u: usize,
}

/// The number of the vertex `sec` of a cone with `n` divisions: the tips
/// come first, then the mantle's points, then the bottom's, then the center.
pub open spec fn section_index(n: int, sec: VertexSection) -> int {
    match sec {
        VertexSection::Tip(i) => i as int,
        VertexSection::TopRadius(i) => i + n,
        VertexSection::BottomRadius(i) => i + n * 2,
        VertexSection::BottomCenter => n * 3,
    }
}

/// The vertex with the number `idx` of a cone with `n` divisions.
pub open spec fn index_section(n: int, idx: int) -> VertexSection {
    if idx < n {
        VertexSection::Tip(idx as usize)
    } else if idx < n * 2 {
        VertexSection::TopRadius((idx - n) as usize)
    } else if idx < n * 3 {
        VertexSection::BottomRadius((idx - n * 2) as usize)
    } else {
        VertexSection::BottomCenter
    }
}

/// Triangle `idx` of a cone with `n` divisions, by its vertices: the mantle
/// first, then the bottom, each going round once.
pub open spec fn cone_sections(n: int, idx: int) -> Triangle<VertexSection> {
    if idx < n {
        let next = if idx != n - 1 { idx + 1 } else { 0 };
        Triangle {
            x: VertexSection::Tip(idx as usize),
            y: VertexSection::TopRadius(idx as usize),
            z: VertexSection::TopRadius(next as usize),
        }
    } else {
        let i = idx - n;
        let next = if i != n - 1 { i + 1 } else { 0 };
        Triangle {
            x: VertexSection::BottomCenter,
            y: VertexSection::BottomRadius(next as usize),
            z: VertexSection::BottomRadius(i as usize),
        }
    }
}

/// Triangle `idx` of a cone with `n` divisions, by the numbers of its
/// vertices.
pub open spec fn cone_triangle(n: int, idx: int) -> Triangle<usize> {
    let t = cone_sections(n, idx);
    Triangle {
        x: section_index(n, t.x) as usize,
        y: section_index(n, t.y) as usize,
        z: section_index(n, t.z) as usize,
    }
}

/// Numbering the vertices and looking the numbers up again gives the
/// vertices back, and the other way round.
pub proof fn lemma_section_index(n: int, idx: int)
    requires
        n >= 2,
        0 <= idx <= 3 * n <= usize::MAX,
    ensures
        section_index(n, index_section(n, idx)) == idx,
{
}

impl Cone {
    /// The number of divisions round the axis.
    pub closed spec fn divisions(&self) -> int {
        self.sub_u as int
    }

    /// The number of triangles that have been handed out.
    pub closed spec fn position(&self) -> int {
        self.u as int
    }

    #[verifier::type_invariant]
    closed spec fn inv(self) -> bool {
        &&& self.sub_u >= 2
        &&& self.sub_u * 3 + 1 <= usize::MAX
        &&& self.u <= self.sub_u * 2
    }

    /// Creates a new cone.
    ///
    /// # Arguments
    ///
    /// - `u` is the number of subdivisions around the radius of the cone,
    ///     it must be at least 2
    pub fn new(u: usize) -> (c: Self)
        requires
            u >= 2,
            u * 3 + 1 <= usize::MAX,
        ensures
            c.wf(),
            c.divisions() == u,
            c.position() == 0,
    {
        Cone { u: 0, sub_u: u }
    }

    /// The number of the vertex `sec`.
    pub fn index(&self, sec: VertexSection) -> (r: usize)
        requires
            self.wf(),
            match sec {
                VertexSection::Tip(i) => i < self.divisions(),
                VertexSection::TopRadius(i) => i < self.divisions(),
                VertexSection::BottomRadius(i) => i < self.divisions(),
                VertexSection::BottomCenter => true,
            },
        ensures
            r == section_index(self.divisions(), sec),
    {
        proof {
            use_type_invariant(self);
        }
        match sec {
            VertexSection::Tip(i) => i,
            VertexSection::TopRadius(i) => i + self.sub_u,
            VertexSection::BottomRadius(i) => i + self.sub_u * 2,
            VertexSection::BottomCenter => self.sub_u * 3,
        }
    }

    /// The vertex with the number `idx`.
    pub fn rev_index(&self, idx: usize) -> (r: VertexSection)
        requires
            self.wf(),
        ensures
            r == index_section(self.divisions(), idx as int),
    {
        proof {
            use_type_invariant(self);
        }
        if idx < self.sub_u {
            VertexSection::Tip(idx)
        } else if idx < self.sub_u * 2 {
            VertexSection::TopRadius(idx - self.sub_u)
        } else if idx < self.sub_u * 3 {
            VertexSection::BottomRadius(idx - self.sub_u * 2)
        } else {
            VertexSection::BottomCenter
        }
    }

    /// The number of triangles that are still to come.
    pub fn len(&self) -> (n: usize)
        ensures
            n == self.pending().len(),
    {
        proof {
            use_type_invariant(self);
        }
        self.sub_u * 2 - self.u
    }
}

impl Stream for Cone {
    type Item = Triangle<VertexSection>;

    /// Whether the cone has at least two divisions, its vertices can be
    /// counted, and no more triangles have been handed out than it has.
    closed spec fn wf(&self) -> bool {
        self.inv()
    }

    /// The triangles from the one that the cone has come to.
    open spec fn pending(&self) -> Seq<Triangle<VertexSection>> {
        Seq::new(
            (self.divisions() * 2 - self.position()) as nat,
            |k: int| cone_sections(self.divisions(), self.position() + k),
        )
    }

    fn next(&mut self) -> (r: Option<Triangle<VertexSection>>)
        ensures
            final(self).divisions() == old(self).divisions(),
            final(self).position() == old(self).position() + if r is Some { 1int } else { 0int },
    {
        proof {
            use_type_invariant(&*self);
        }
        if self.u < self.sub_u * 2 {
            let idx = self.u;
            *self = Cone { u: idx + 1, sub_u: self.sub_u };
            assert(self.pending() =~= old(self).pending().drop_first());
            let t = self.indexed_polygon(idx);
            Some(
                Triangle::new(
                    self.shared_vertex(t.x),
                    self.shared_vertex(t.y),
                    self.shared_vertex(t.z),
                ),
            )
        } else {
            None
        }
    }

    /// The number of pending items, as both bounds.
    open spec fn hint(&self) -> (usize, Option<usize>) {
        (self.pending().len() as usize, Some(self.pending().len() as usize))
    }

    fn size_hint(&self) -> (r: (usize, Option<usize>))
        ensures
            r.0 == self.pending().len(),
            r.1 == Some(r.0),
    {
        let n = self.len();
        (n, Some(n))
    }
}

impl SharedVertex<VertexSection> for Cone {
    /// A tip for every division, a point for every division of the
    /// mantle, one for every division of the bottom, and the center.
    open spec fn vertex_count(&self) -> nat {
        (self.divisions() * 3 + 1) as nat
    }

    open spec fn vertex_at(&self, i: int) -> VertexSection {
        index_section(self.divisions(), i)
    }

    fn shared_vertex(&self, idx: usize) -> (v: VertexSection) {
        proof {
            use_type_invariant(self);
        }
        assert(self.vertex_at(idx as int) == index_section(self.sub_u as int, idx as int));
        self.rev_index(idx)
    }

    fn shared_vertex_count(&self) -> (n: usize) {
        proof {
            use_type_invariant(self);
        }
        self.sub_u * 3 + 1
    }
}

impl IndexedPolygon<Triangle<usize>> for Cone {
    /// A triangle for every division of the mantle, and one for every
    /// division of the bottom.
    open spec fn polygon_count(&self) -> nat {
        (self.divisions() * 2) as nat
    }

    open spec fn polygon_at(&self, i: int) -> Triangle<usize> {
        cone_triangle(self.divisions(), i)
    }

    fn indexed_polygon(&self, idx: usize) -> (p: Triangle<usize>) {
        proof {
            use_type_invariant(self);
            assert(self.polygon_count() == self.sub_u * 2);
            assert(self.polygon_at(idx as int) == cone_triangle(self.sub_u as int, idx as int));
        }
        if idx < self.sub_u {
            let next = if idx != self.sub_u - 1 { idx + 1 } else { 0 };
            Triangle::new(
                self.index(VertexSection::Tip(idx)),
                self.index(VertexSection::TopRadius(idx)),
                self.index(VertexSection::TopRadius(next)),
            )
        } else {
            let at = idx - self.sub_u;
            let next = if at != self.sub_u - 1 { at + 1 } else { 0 };
            Triangle::new(
                self.index(VertexSection::BottomCenter),
                self.index(VertexSection::BottomRadius(next)),
                self.index(VertexSection::BottomRadius(at)),
            )
        }
    }

    fn indexed_polygon_count(&self) -> (n: usize) {
        proof {
            use_type_invariant(self);
        }
        self.sub_u * 2
    }
}

impl DualRepresentation<VertexSection, Triangle<usize>> for Cone {
    proof fn lemma_dual_representation(&self) {
        let c = *self;
        let all = resolved::<VertexSection, Triangle<usize>, Cone>(c);
        let n = c.sub_u as int;
        assert forall|i: int| 0 <= i < 2 * n implies #[trigger] all[i] == cone_sections(n, i) by {
        }
        assert(c.pending() =~= all.skip(c.position()));
    }
}

} // verus!
