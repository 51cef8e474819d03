//! A cube of six quads.

use crate::generator::{resolved, DualRepresentation, IndexedPolygon, SharedVertex};
use crate::poly::Quad;
use crate::stream::Stream;
use vstd::laws_eq::obeys_concrete_eq;
use vstd::prelude::*;
use vstd::std_specs::cmp::PartialEqSpecImpl;

verus! {

/// A corner of one face of the cube. Corners of different faces that lie at
/// the same place are different vertices: they have different normals.
#[derive(Clone, Copy, Debug, Eq, Hash)]
pub struct CubeVertex {
    /// The corner of the cube, from 0 to 7: bit 2 is set where x is 1, bit 1
    /// where y is 1, and bit 0 where z is 1; the coordinate is -1 otherwise.
    pub corner: usize,
    /// The face, from 0 to 5: +x, -x, +y, -y, +z, -z.
    pub face: usize,
}

impl PartialEq for CubeVertex {
    fn eq(&self, other: &Self) -> (r: bool) {
        self.corner == other.corner && self.face == other.face
    }
}

impl PartialEqSpecImpl for CubeVertex {
    open spec fn obeys_eq_spec() -> bool {
        true
    }

    /// Two vertices are equal where they are the same.
    open spec fn eq_spec(&self, other: &Self) -> bool {
        *self == *other
    }
}

/// `==` on `CubeVertex` is equality.
pub proof fn lemma_cube_vertex_eq()
    ensures
        obeys_concrete_eq::<CubeVertex>(),
{
    reveal(obeys_concrete_eq);
}

/// The corners of face `idx` of the cube, wound so that the face looks
/// outward.
pub open spec fn face_corners(idx: int) -> Quad<usize> {
    if idx == 0 {
        Quad { x: 6, y: 7, z: 5, w: 4 }
    } else if idx == 1 {
        Quad { x: 0, y: 1, z: 3, w: 2 }
    } else if idx == 2 {
        Quad { x: 3, y: 7, z: 6, w: 2 }
    } else if idx == 3 {
        Quad { x: 4, y: 5, z: 1, w: 0 }
    } else if idx == 4 {
        Quad { x: 5, y: 7, z: 3, w: 1 }
    } else {
        Quad { x: 0, y: 2, z: 6, w: 4 }
    }
}

/// Face `idx` of the cube, with its corners as vertices of that face.
pub open spec fn cube_face(idx: int) -> Quad<CubeVertex> {
    let q = face_corners(idx);
    Quad {
        x: CubeVertex { corner: q.x, face: idx as usize },
        y: CubeVertex { corner: q.y, face: idx as usize },
        z: CubeVertex { corner: q.z, face: idx as usize },
        w: CubeVertex { corner: q.w, face: idx as usize },
    }
}

impl CubeVertex {
    /// Where the vertex lies: each coordinate is 1 or -1.
    pub open spec fn position_spec(self) -> (i8, i8, i8) {
        (
            if self.corner & 4 == 4 { 1i8 } else { -1i8 },
            if self.corner & 2 == 2 { 1i8 } else { -1i8 },
            if self.corner & 1 == 1 { 1i8 } else { -1i8 },
        )
    }

    /// The outward normal of the face of the vertex.
    pub open spec fn normal_spec(self) -> (i8, i8, i8) {
        if self.face == 0 {
            (1i8, 0i8, 0i8)
        } else if self.face == 1 {
            (-1i8, 0i8, 0i8)
        } else if self.face == 2 {
            (0i8, 1i8, 0i8)
        } else if self.face == 3 {
            (0i8, -1i8, 0i8)
        } else if self.face == 4 {
            (0i8, 0i8, 1i8)
        } else {
            (0i8, 0i8, -1i8)
        }
    }

    /// Where the vertex lies: each coordinate is 1 or -1.
    pub fn position(&self) -> (r: (i8, i8, i8))
        ensures
            r == self.position_spec(),
    {
        let x: i8 = if self.corner & 4 == 4 { 1 } else { -1 };
        let y: i8 = if self.corner & 2 == 2 { 1 } else { -1 };
        let z: i8 = if self.corner & 1 == 1 { 1 } else { -1 };
        (x, y, z)
    }

    /// The outward normal of the face of the vertex.
    pub fn normal(&self) -> (r: (i8, i8, i8))
        ensures
            r == self.normal_spec(),
    {
        if self.face == 0 {
            (1, 0, 0)
        } else if self.face == 1 {
            (-1, 0, 0)
        } else if self.face == 2 {
            (0, 1, 0)
        } else if self.face == 3 {
            (0, -1, 0)
        } else if self.face == 4 {
            (0, 0, 1)
        } else {
            (0, 0, -1)
        }
    }
}

/// A perfect cube, centered at (0, 0, 0) with each face starting at 1/-1
/// away from the origin
#[derive(Clone, Copy)]
pub struct Cube {
    at: usize,
}

impl Cube {
    /// The number of faces that have been handed out.
    pub closed spec fn position(&self) -> int {
        self.at as int
    }

    #[verifier::type_invariant]
    closed spec fn inv(self) -> bool {
        self.at <= 6
    }

    /// Creates a new cube generator.
    pub fn new() -> (c: Self)
        ensures
            c.wf(),
            c.position() == 0,
    {
        Cube { at: 0 }
    }

    fn face_indexed(&self, idx: usize) -> (q: Quad<usize>)
        requires
            idx < 6,
        ensures
            q == face_corners(idx as int),
    {
        if idx == 0 {
            Quad::new(0b110, 0b111, 0b101, 0b100)
        } else if idx == 1 {
            Quad::new(0b000, 0b001, 0b011, 0b010)
        } else if idx == 2 {
            Quad::new(0b011, 0b111, 0b110, 0b010)
        } else if idx == 3 {
            Quad::new(0b100, 0b101, 0b001, 0b000)
        } else if idx == 4 {
            Quad::new(0b101, 0b111, 0b011, 0b001)
        } else {
            Quad::new(0b000, 0b010, 0b110, 0b100)
        }
    }

    fn face(&self, idx: usize) -> (q: Quad<CubeVertex>)
        requires
            idx < 6,
        ensures
            q == cube_face(idx as int),
    {
        let quad = self.face_indexed(idx);
        Quad::new(
            CubeVertex { corner: quad.x, face: idx },
            CubeVertex { corner: quad.y, face: idx },
            CubeVertex { corner: quad.z, face: idx },
            CubeVertex { corner: quad.w, face: idx },
        )
    }

    /// The number of faces that are still to come.
    pub fn len(&self) -> (n: usize)
        ensures
            n == self.pending().len(),
    {
        proof {
            use_type_invariant(self);
        }
        6 - self.at
    }
}

impl Stream for Cube {
    type Item = Quad<CubeVertex>;

    /// Whether no more than the six faces have been handed out.
    closed spec fn wf(&self) -> bool {
        self.inv()
    }

    /// The faces from the one that the cube has come to.
    open spec fn pending(&self) -> Seq<Quad<CubeVertex>> {
        Seq::new((6 - self.position()) as nat, |k: int| cube_face(self.position() + k))
    }

    fn next(&mut self) -> (r: Option<Quad<CubeVertex>>)
        ensures
            final(self).position() == old(self).position() + if r is Some { 1int } else { 0int },
    {
        proof {
            use_type_invariant(&*self);
        }
        if self.at < 6 {
            let idx = self.at;
            self.at = idx + 1;
            assert(self.pending() =~= old(self).pending().drop_first());
            Some(self.face(idx))
        } else {
            None
        }
    }

    /// The number of pending items, as both bounds.
    open spec fn hint(&self) -> (usize, Option<usize>) {
        (self.pending().len() as usize, Some(self.pending().len() as usize))
    }

    fn size_hint(&self) -> (r: (usize, Option<usize>))
        ensures
            r.0 == self.pending().len(),
            r.1 == Some(r.0),
    {
        let n = self.len();
        (n, Some(n))
    }
}

impl SharedVertex<CubeVertex> for Cube {
    /// Each face has four vertices of its own.
    open spec fn vertex_count(&self) -> nat {
        24
    }

    /// The vertices are counted face by face, and within a face in the
    /// order of its corners.
    open spec fn vertex_at(&self, i: int) -> CubeVertex {
        let q = face_corners(i / 4);
        let corner = if i % 4 == 0 {
            q.x
        } else if i % 4 == 1 {
            q.y
        } else if i % 4 == 2 {
            q.z
        } else {
            q.w
        };
        CubeVertex { corner, face: (i / 4) as usize }
    }

    fn shared_vertex(&self, idx: usize) -> (v: CubeVertex) {
        let quad = self.face_indexed(idx / 4);
        let m = idx % 4;
        let vid = if m == 0 {
            quad.x
        } else if m == 1 {
            quad.y
        } else if m == 2 {
            quad.z
        } else {
            quad.w
        };
        CubeVertex { corner: vid, face: idx / 4 }
    }

    fn shared_vertex_count(&self) -> (n: usize) {
        24
    }
}

impl IndexedPolygon<Quad<usize>> for Cube {
    open spec fn polygon_count(&self) -> nat {
        6
    }

    open spec fn polygon_at(&self, i: int) -> Quad<usize> {
        Quad {
            x: (i * 4) as usize,
            y: (i * 4 + 1) as usize,
            z: (i * 4 + 2) as usize,
            w: (i * 4 + 3) as usize,
        }
    }

    fn indexed_polygon(&self, idx: usize) -> (p: Quad<usize>) {
        Quad::new(idx * 4, idx * 4 + 1, idx * 4 + 2, idx * 4 + 3)
    }

    fn indexed_polygon_count(&self) -> (n: usize) {
        6
    }
}

impl DualRepresentation<CubeVertex, Quad<usize>> for Cube {
    proof fn lemma_dual_representation(&self) {
        let c = *self;
        let all = resolved::<CubeVertex, Quad<usize>, Cube>(c);
        assert forall|i: int| 0 <= i < 6 implies #[trigger] all[i] == cube_face(i) by {
        }
        assert(c.pending() =~= all.skip(c.position()));
    }
}

} // verus!
