//! A cylinder: a bottom, a mantle of quads and a top.

use crate::generator::{lemma_grid, lemma_grid_place, resolved, DualRepresentation, IndexedPolygon, SharedVertex};
use crate::poly::{EmitVertices, MapVertex, Polygon, Quad, Triangle};
use crate::stream::Stream;
use vstd::laws_eq::obeys_concrete_eq;
use vstd::prelude::*;
use vstd::std_specs::cmp::PartialEqSpecImpl;

verus! {

/// A vertex of a cylinder with `n` points round it and `m` segments along
/// its height.
#[derive(Clone, Copy, Debug, Eq, Hash)]
pub enum CylinderVertex {
    /// The center of the bottom, at `(0, 0, -1)`, with the normal down.
    Bottom,
    /// The center of the top, at `(0, 0, 1)`, with the normal up.
    Top,
    /// The point at the angle `2 pi u / n` on a ring. Ring 0 is the rim of
    /// the bottom, with the normal down. The rings from 1 to `m + 1` lie at
    /// the height `2 (ring - 1) / m - 1` and their normals point outward.
    /// Ring `m + 2` is the rim of the top, with the normal up.
    Ring {
        /// The point on the ring, from 0.
        u: usize,
        /// The ring, from 0.
        ring: usize,
    },
}

impl PartialEq for CylinderVertex {
    fn eq(&self, other: &Self) -> (r: bool) {
        match (*self, *other) {
            (CylinderVertex::Bottom, CylinderVertex::Bottom) => true,
            (CylinderVertex::Top, CylinderVertex::Top) => true,
            (CylinderVertex::Ring { u: a, ring: b }, CylinderVertex::Ring { u: c, ring: d }) => a == c
                && b == d,
            _ => false,
        }
    }
}

impl PartialEqSpecImpl for CylinderVertex {
    open spec fn obeys_eq_spec() -> bool {
        true
    }

    /// Two vertices are equal where they are the same.
    open spec fn eq_spec(&self, other: &Self) -> bool {
        *self == *other
    }
}

/// `==` on `CylinderVertex` is equality.
pub proof fn lemma_cylinder_vertex_eq()
    ensures
        obeys_concrete_eq::<CylinderVertex>(),
{
    reveal(obeys_concrete_eq);
}

/// Represents a cylinder with radius of 1, height of 2,
/// and centered at (0, 0, 0) pointing up (to 0, 0, 1).
#[derive(Clone, Copy)]
pub struct Cylinder {
    u: usize,
    row: usize,
    sub_u: usize,
    sub_h: usize,
}

/// Polygon `idx` of a cylinder with `n` points round it and `m` segments
/// along its height: the triangles of the bottom, then the quads of the
/// mantle ring by ring, then the triangles of the top.
pub open spec fn cylinder_face(n: int, m: int, idx: int) -> Polygon<CylinderVertex> {
    let u = (idx % n) as usize;
    let u1 = ((idx + 1) % n) as usize;
    let row = idx / n;
    if row == 0 {
        Polygon::PolyTri(
            Triangle {
                x: CylinderVertex::Ring { u, ring: 0 },
                y: CylinderVertex::Bottom,
                z: CylinderVertex::Ring { u: u1, ring: 0 },
            },
        )
    } else if row == m + 1 {
        Polygon::PolyTri(
            Triangle {
                x: CylinderVertex::Ring { u, ring: (m + 2) as usize },
                y: CylinderVertex::Ring { u: u1, ring: (m + 2) as usize },
                z: CylinderVertex::Top,
            },
        )
    } else {
        Polygon::PolyQuad(
            Quad {
                x: CylinderVertex::Ring { u, ring: row as usize },
                y: CylinderVertex::Ring { u: u1, ring: row as usize },
                z: CylinderVertex::Ring { u: u1, ring: (row + 1) as usize },
                w: CylinderVertex::Ring { u, ring: (row + 1) as usize },
            },
        )
    }
}

/// Shared vertex `i` of a cylinder with `n` points round it and `m`
/// segments: the center of the bottom, the rings from the lowest, the center
/// of the top.
pub open spec fn cylinder_vertex(n: int, m: int, i: int) -> CylinderVertex {
    if i == 0 {
        CylinderVertex::Bottom
    } else if i == (3 + m) * n + 1 {
        CylinderVertex::Top
    } else {
        CylinderVertex::Ring { u: ((i - 1) % n) as usize, ring: ((i - 1) / n) as usize }
    }
}

/// Polygon `idx` of a cylinder with `n` points round it and `m` segments,
/// by the numbers of its vertices.
pub open spec fn cylinder_indexed(n: int, m: int, idx: int) -> Polygon<usize> {
    let u = idx % n;
    let u1 = (idx + 1) % n;
    let row = idx / n;
    let base = 1 + idx - u;
    if row == 0 {
        Polygon::PolyTri(Triangle { x: (base + u) as usize, y: 0, z: (base + u1) as usize })
    } else if row == m + 1 {
        Polygon::PolyTri(
            Triangle {
                x: (base + n + u) as usize,
                y: (base + n + u1) as usize,
                z: ((3 + m) * n + 1) as usize,
            },
        )
    } else {
        Polygon::PolyQuad(
            Quad {
                x: (base + u) as usize,
                y: (base + u1) as usize,
                z: (base + u1 + n) as usize,
                w: (base + u + n) as usize,
            },
        )
    }
}

impl Cylinder {
    /// The number of points round the cylinder.
    pub closed spec fn points(&self) -> int {
        self.sub_u as int
    }

    /// The number of segments along the height.
    pub closed spec fn segments(&self) -> int {
        self.sub_h as int
    }

    /// The number of polygons that have been handed out.
    pub closed spec fn position(&self) -> int {
        self.row * self.sub_u + self.u
    }

    #[verifier::type_invariant]
    closed spec fn inv(self) -> bool {
        &&& self.sub_u > 1
        &&& self.sub_h > 0
        &&& (3 + self.sub_h) * self.sub_u + 2 <= usize::MAX
        &&& self.u <= self.sub_u
        &&& self.row <= self.sub_h + 1
    }

    /// Create a new cylinder.
    /// `u` is the number of points across the radius.
    pub fn new(u: usize) -> (c: Self)
        requires
            u > 1,
            4 * u + 2 <= usize::MAX,
        ensures
            c.wf(),
            c.points() == u,
            c.segments() == 1,
            c.position() == 0,
    {
        assert(0 * u == 0) by (nonlinear_arith);
        Cylinder { u: 0, row: 0, sub_u: u, sub_h: 1 }
    }

    /// Create a new subdivided cylinder.
    /// `u` is the number of points across the radius.
    /// `h` is the number of segments across the height.
    pub fn subdivide(u: usize, h: usize) -> (c: Self)
        requires
            u > 1,
            h > 0,
            (3 + h) * u + 2 <= usize::MAX,
        ensures
            c.wf(),
            c.points() == u,
            c.segments() == h,
            c.position() == 0,
    {
        assert(0 * u == 0) by (nonlinear_arith);
        Cylinder { u: 0, row: 0, sub_u: u, sub_h: h }
    }

    fn vert(&self, u: usize, ring: usize) -> (v: CylinderVertex)
        ensures
            v == (CylinderVertex::Ring { u, ring }),
    {
        CylinderVertex::Ring { u, ring }
    }

    /// The number of polygons that are still to come.
    pub fn len(&self) -> (n: usize)
        ensures
            n == self.pending().len(),
    {
        proof {
            use_type_invariant(self);
            let n = self.sub_u as int;
            let m = self.sub_h as int;
            lemma_grid(n, m + 2, self.row as int, self.u as int);
            assert(n * (m + 2 - self.row) == (m + 2) * n - self.row * n) by (nonlinear_arith);
            assert((m + 2) * n <= (3 + m) * n) by (nonlinear_arith)
                requires
                    n > 0,
            ;
            assert(0 <= n * (m + 2 - self.row)) by (nonlinear_arith)
                requires
                    n > 0,
                    m + 2 - self.row >= 0,
            ;
            assert(n * (m + 2 - self.row) - self.u >= 0) by (nonlinear_arith)
                requires
                    n > 0,
                    m + 2 - self.row >= 1,
                    self.u <= n,
            ;
        }
        self.sub_u * (self.sub_h + 2 - self.row) - self.u
    }
}

impl Stream for Cylinder {
    type Item = Polygon<CylinderVertex>;

    /// Whether the cylinder has more than one point round it and a
    /// segment, its vertices can be counted, and the place that it has come
    /// to lies within it.
    closed spec fn wf(&self) -> bool {
        self.inv()
    }

    /// The polygons from the place that the cylinder has come to.
    open spec fn pending(&self) -> Seq<Polygon<CylinderVertex>> {
        Seq::new(
            ((2 + self.segments()) * self.points() - self.position()) as nat,
            |k: int| cylinder_face(self.points(), self.segments(), self.position() + k),
        )
    }

    fn next(&mut self) -> (r: Option<Polygon<CylinderVertex>>)
        ensures
            final(self).points() == old(self).points(),
            final(self).segments() == old(self).segments(),
            final(self).position() == old(self).position() + if r is Some { 1int } else { 0int },
    {
        proof {
            use_type_invariant(&*self);
            lemma_grid(self.sub_u as int, self.sub_h + 2, self.row as int, self.u as int);
            lemma_grid(self.sub_u as int, self.sub_h + 3, 0, 0);
        }
        let sub_u = self.sub_u;
        let sub_h = self.sub_h;
        let mut u = self.u;
        let mut row = self.row;
        if u == sub_u {
            if row >= sub_h + 1 {
                assert(self.pending().len() == 0);
                return None;
            }
            u = 0;
            row = row + 1;
        }
        proof {
            lemma_grid(sub_u as int, sub_h + 2, row as int, u as int);
            lemma_grid(sub_u as int, sub_h + 2, row as int, u + 1);
            assert(row * sub_u + u == old(self).position());
        }
        let u1 = (u + 1) % sub_u;
        *self = Cylinder { u: u + 1, row, sub_u, sub_h };
        let r = if row == 0 {
            let x = self.vert(u, 0);
            let y = self.vert(u1, 0);
            Polygon::PolyTri(Triangle::new(x, CylinderVertex::Bottom, y))
        } else if row == sub_h + 1 {
            let x = self.vert(u, row + 1);
            let y = self.vert(u1, row + 1);
            Polygon::PolyTri(Triangle::new(x, y, CylinderVertex::Top))
        } else {
            let x = self.vert(u, row);
            let y = self.vert(u1, row);
            let z = self.vert(u1, row + 1);
            let w = self.vert(u, row + 1);
            Polygon::PolyQuad(Quad::new(x, y, z, w))
        };
        proof {
            assert(r == cylinder_face(sub_u as int, sub_h as int, old(self).position()));
            assert(self.position() == old(self).position() + 1);
            assert(self.pending() =~= old(self).pending().drop_first());
        }
        Some(r)
    }

    /// The number of pending items, as both bounds.
    open spec fn hint(&self) -> (usize, Option<usize>) {
        (self.pending().len() as usize, Some(self.pending().len() as usize))
    }

    fn size_hint(&self) -> (r: (usize, Option<usize>))
        ensures
            r.0 == self.pending().len(),
            r.1 == Some(r.0),
    {
        let n = self.len();
        (n, Some(n))
    }
}

impl SharedVertex<CylinderVertex> for Cylinder {
    /// The two centers and a ring of points for the rim of the bottom, for
    /// each end of each segment, and for the rim of the top.
    open spec fn vertex_count(&self) -> nat {
        ((3 + self.segments()) * self.points() + 2) as nat
    }

    open spec fn vertex_at(&self, i: int) -> CylinderVertex {
        cylinder_vertex(self.points(), self.segments(), i)
    }

    fn shared_vertex(&self, idx: usize) -> (v: CylinderVertex) {
        proof {
            use_type_invariant(self);
            assert(self.vertex_at(idx as int) == cylinder_vertex(
                self.sub_u as int,
                self.sub_h as int,
                idx as int,
            ));
            assert(self.vertex_count() == (3 + self.sub_h) * self.sub_u + 2);
        }
        if idx == 0 {
            CylinderVertex::Bottom
        } else if idx == self.shared_vertex_count() - 1 {
            CylinderVertex::Top
        } else {
            // skip the bottom center
            let at = idx - 1;
            proof {
                lemma_grid_place(self.sub_u as int, 3 + self.sub_h, at as int);
            }
            let u = at % self.sub_u;
            let ring = at / self.sub_u;
            self.vert(u, ring)
        }
    }

    fn shared_vertex_count(&self) -> (n: usize) {
        proof {
            use_type_invariant(self);
            lemma_grid(self.sub_u as int, 3 + self.sub_h, 0, 0);
        }
        (3 + self.sub_h) * self.sub_u + 2
    }
}

impl IndexedPolygon<Polygon<usize>> for Cylinder {
    /// A ring of polygons for the bottom, for each segment, and for the
    /// top.
    open spec fn polygon_count(&self) -> nat {
        ((2 + self.segments()) * self.points()) as nat
    }

    open spec fn polygon_at(&self, i: int) -> Polygon<usize> {
        cylinder_indexed(self.points(), self.segments(), i)
    }

    fn indexed_polygon(&self, idx: usize) -> (p: Polygon<usize>) {
        proof {
            use_type_invariant(self);
            assert(self.polygon_at(idx as int) == cylinder_indexed(
                self.sub_u as int,
                self.sub_h as int,
                idx as int,
            ));
            assert(self.polygon_count() == (2 + self.sub_h) * self.sub_u);
            lemma_grid_place(self.sub_u as int, 2 + self.sub_h, idx as int);
            lemma_grid(
                self.sub_u as int,
                3 + self.sub_h,
                idx as int / self.sub_u as int,
                idx as int % self.sub_u as int,
            );
            lemma_grid(
                self.sub_u as int,
                3 + self.sub_h,
                idx as int / self.sub_u as int,
                idx as int % self.sub_u as int + 1,
            );
            lemma_grid(self.sub_u as int, 3 + self.sub_h, 2 + self.sub_h, 0);
        }
        let sub_u = self.sub_u;
        let u = idx % sub_u;
        let u1 = (idx + 1) % sub_u;
        let row = idx / sub_u;
        let base = 1 + idx - u;
        if row == 0 {
            let start: usize = 0;
            Polygon::PolyTri(Triangle::new(base + u, start, base + u1))
        } else if row == self.sub_h + 1 {
            // We need to to select the next vertex loop over, which
            // has the correct normals.
            let base = base + sub_u;
            let end = self.shared_vertex_count() - 1;
            Polygon::PolyTri(Triangle::new(base + u, base + u1, end))
        } else {
            Polygon::PolyQuad(
                Quad::new(base + u, base + u1, base + u1 + sub_u, base + u + sub_u),
            )
        }
    }

    fn indexed_polygon_count(&self) -> (n: usize) {
        proof {
            use_type_invariant(self);
            lemma_grid(self.sub_u as int, 3 + self.sub_h, 0, 0);
            assert((2 + self.sub_h) * self.sub_u <= (3 + self.sub_h) * self.sub_u)
                by (nonlinear_arith)
                requires
                    self.sub_u > 0,
            ;
        }
        (2 + self.sub_h) * self.sub_u
    }
}

impl DualRepresentation<CylinderVertex, Polygon<usize>> for Cylinder {
    proof fn lemma_dual_representation(&self) {
        let c = *self;
        let all = resolved::<CylinderVertex, Polygon<usize>, Cylinder>(c);
        let n = c.sub_u as int;
        let m = c.sub_h as int;
        lemma_grid(n, m + 2, c.row as int, c.u as int);
        assert forall|i: int| 0 <= i < (2 + m) * n implies #[trigger] all[i] == cylinder_face(
            n,
            m,
            i,
        ) by {
            lemma_grid_place(n, 2 + m, i);
            let row = i / n;
            let u = i % n;
            let u1 = (i + 1) % n;
            lemma_grid(n, 3 + m, row, u);
            lemma_grid(n, 3 + m, row, u + 1);
            lemma_grid(n, 3 + m, row + 1, u);
            lemma_grid(n, 3 + m, row + 1, u + 1);
            lemma_grid(n, 3 + m, 2 + m, 0);
            assert(0 <= u1 < n) by (nonlinear_arith)
                requires
                    n > 0,
                    u1 == (i + 1) % n,
            ;
            lemma_grid(n, 3 + m, row, u1);
            lemma_grid(n, 3 + m, row + 1, u1);
            assert(all[i] == c.polygon_at(i).map_spec(|k: usize| c.vertex_at(k as int)));
            assert(c.polygon_at(i) == cylinder_indexed(n, m, i));
            let base = 1 + i - u;
            assert(base == 1 + row * n);
            assert(cylinder_vertex(n, m, base + u) == (CylinderVertex::Ring {
                u: u as usize,
                ring: row as usize,
            }));
            assert(cylinder_vertex(n, m, base + u1) == (CylinderVertex::Ring {
                u: u1 as usize,
                ring: row as usize,
            }));
            assert(cylinder_vertex(n, m, base + n + u) == (CylinderVertex::Ring {
                u: u as usize,
                ring: (row + 1) as usize,
            }));
            assert(cylinder_vertex(n, m, base + n + u1) == (CylinderVertex::Ring {
                u: u1 as usize,
                ring: (row + 1) as usize,
            }));
        }
        assert forall|i: int, k: int|
            0 <= i < c.polygon_count() && 0 <= k < c.polygon_at(i).vertex_seq().len() implies (
        #[trigger] c.polygon_at(i).vertex_seq()[k]) < c.vertex_count() by {
            lemma_grid_place(n, 2 + m, i);
            let row = i / n;
            let u = i % n;
            let u1 = (i + 1) % n;
            assert(0 <= u1 < n) by (nonlinear_arith)
                requires
                    n > 0,
                    u1 == (i + 1) % n,
            ;
            lemma_grid(n, 3 + m, row + 1, u);
            lemma_grid(n, 3 + m, row, u);
            lemma_grid(n, 3 + m, 2 + m, 0);
        }
        assert(c.pending() =~= all.skip(c.position()));
    }
}

} // verus!
