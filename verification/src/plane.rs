//! A flat grid of quads.

use crate::generator::{
    lemma_div_mod, resolved, DualRepresentation, IndexedPolygon, SharedVertex,
};
use crate::poly::{EmitVertices, Quad};
use crate::stream::Stream;
use vstd::laws_eq::obeys_concrete_eq;
use vstd::prelude::*;
use vstd::std_specs::cmp::PartialEqSpecImpl;

verus! {

/// A point of the grid of a plane with `sx` by `sy` quads: it lies at
/// `(2 x / sx - 1, 2 y / sy - 1, 0)` and its normal is `(0, 0, 1)`.
#[derive(Clone, Copy, Debug, Eq, Hash)]
pub struct PlanePoint {
    /// The column of the point, from 0 to the number of quads in a row.
    pub x: usize,
    /// The row of the point, from 0 to the number of rows of quads.
    pub y: usize,
}

impl PartialEq for PlanePoint {
    fn eq(&self, other: &Self) -> (r: bool) {
        self.x == other.x && self.y == other.y
    }
}

impl PartialEqSpecImpl for PlanePoint {
    open spec fn obeys_eq_spec() -> bool {
        true
    }

    /// Two vertices are equal where they are the same.
    open spec fn eq_spec(&self, other: &Self) -> bool {
        *self == *other
    }
}

/// `==` on `PlanePoint` is equality.
pub proof fn lemma_plane_point_eq()
    ensures
        obeys_concrete_eq::<PlanePoint>(),
{
    reveal(obeys_concrete_eq);
}

/// Represents a 2D plane with origin of (0, 0), from 1 to -1
#[derive(Clone, Copy)]
pub struct Plane {
    subdivide_x: usize,
    subdivide_y: usize,
    x: usize,
    y: usize,
}

/// The quad at place `idx` of a plane with `sx` quads in a row, rows from
/// the bottom, with its corners as grid points.
pub open spec fn plane_quad(sx: int, idx: int) -> Quad<PlanePoint> {
    let x = idx % sx;
    let y = idx / sx;
    Quad {
        x: PlanePoint { x: x as usize, y: y as usize },
        y: PlanePoint { x: (x + 1) as usize, y: y as usize },
        z: PlanePoint { x: (x + 1) as usize, y: (y + 1) as usize },
        w: PlanePoint { x: x as usize, y: (y + 1) as usize },
    }
}

impl Plane {
    /// The number of quads in a row.
    pub closed spec fn columns(&self) -> int {
        self.subdivide_x as int
    }

    /// The number of rows of quads.
    pub closed spec fn rows(&self) -> int {
        self.subdivide_y as int
    }

    /// The number of quads that have been handed out.
    pub closed spec fn position(&self) -> int {
        self.y * self.subdivide_x + self.x
    }

    #[verifier::type_invariant]
    closed spec fn inv(self) -> bool {
        &&& self.subdivide_x > 0
        &&& self.subdivide_y > 0
        &&& (self.subdivide_x + 1) * (self.subdivide_y + 1) <= usize::MAX
        &&& self.x <= self.subdivide_x
        &&& self.y < self.subdivide_y
    }

    /// Creates a plane of one quad.
    pub fn new() -> (p: Plane)
        ensures
            p.wf(),
            p.columns() == 1,
            p.rows() == 1,
            p.position() == 0,
    {
        Plane { subdivide_x: 1, subdivide_y: 1, x: 0, y: 0 }
    }

    /// Creates a subdivided plane. This can be used to build a grid of
    /// points.
    /// `x` is the number of subdivisions in the x axis
    /// `y` is the number of subdivisions in the y axis
    pub fn subdivide(x: usize, y: usize) -> (p: Plane)
        requires
            x > 0,
            y > 0,
            (x + 1) * (y + 1) <= usize::MAX,
        ensures
            p.wf(),
            p.columns() == x,
            p.rows() == y,
            p.position() == 0,
    {
        assert(0 * x + 0 == 0) by (nonlinear_arith);
        Plane { subdivide_x: x, subdivide_y: y, x: 0, y: 0 }
    }

    fn vert(&self, x: usize, y: usize) -> (v: PlanePoint)
        ensures
            v == (PlanePoint { x, y }),
    {
        PlanePoint { x, y }
    }

    /// The number of quads that are still to come.
    pub fn len(&self) -> (n: usize)
        ensures
            n == self.pending().len(),
    {
        proof {
            use_type_invariant(self);
            lemma_plane_bounds(
                self.subdivide_x as int,
                self.subdivide_y as int,
                self.x as int,
                self.y as int,
            );
        }
        (self.subdivide_y - self.y - 1) * self.subdivide_x + (self.subdivide_x - self.x)
    }
}

/// In a grid of `sx` by `sy` quads, what lies at or above row `y` and at or
/// right of column `x` is within the grid.
proof fn lemma_plane_bounds(sx: int, sy: int, x: int, y: int)
    requires
        sx > 0,
        sy > 0,
        0 <= x <= sx,
        0 <= y < sy,
    ensures
        (sy - y - 1) * sx + (sx - x) == sx * sy - (y * sx + x),
        0 <= y * sx + x <= sx * sy,
        0 <= (sy - y - 1) * sx <= sx * sy,
        sx * sy <= (sx + 1) * (sy + 1),
        y * (sx + 1) + x + sx + 2 <= (sx + 1) * (sy + 1),
        0 <= y * (sx + 1),
        sx + 1 <= (sx + 1) * (sy + 1),
        sy + 1 <= (sx + 1) * (sy + 1),
        y == sy - 1 && x == sx ==> y * sx + x == sx * sy,
{
    assert((sy - y - 1) * sx + (sx - x) == sx * sy - (y * sx + x)) by (nonlinear_arith);
    assert(0 <= y * sx) by (nonlinear_arith)
        requires
            0 <= y,
            sx > 0,
    ;
    assert((y + 1) * sx <= sy * sx) by (nonlinear_arith)
        requires
            y + 1 <= sy,
            sx > 0,
    ;
    assert((y + 1) * sx == y * sx + sx) by (nonlinear_arith);
    assert(sy * sx == sx * sy) by (nonlinear_arith);
    assert((sy - y - 1) * sx == sy * sx - (y + 1) * sx) by (nonlinear_arith);
    assert((sx + 1) * (sy + 1) == sx * sy + sx + sy + 1) by (nonlinear_arith);
    assert(y * (sx + 1) == y * sx + y) by (nonlinear_arith);
    assert(0 < sx * sy) by (nonlinear_arith)
        requires
            sx > 0,
            sy > 0,
    ;
}

impl Stream for Plane {
    type Item = Quad<PlanePoint>;

    /// Whether the plane has a quad, its grid points can be counted, and
    /// the place that it has come to lies within it.
    closed spec fn wf(&self) -> bool {
        self.inv()
    }

    /// The quads from the place that the plane has come to, row by row.
    open spec fn pending(&self) -> Seq<Quad<PlanePoint>> {
        Seq::new(
            (self.columns() * self.rows() - self.position()) as nat,
            |k: int| plane_quad(self.columns(), self.position() + k),
        )
    }

    fn next(&mut self) -> (r: Option<Quad<PlanePoint>>)
        ensures
            final(self).columns() == old(self).columns(),
            final(self).rows() == old(self).rows(),
            final(self).position() == old(self).position() + if r is Some { 1int } else { 0int },
    {
        proof {
            use_type_invariant(&*self);
            lemma_plane_bounds(
                self.subdivide_x as int,
                self.subdivide_y as int,
                self.x as int,
                self.y as int,
            );
        }
        let sx = self.subdivide_x;
        let sy = self.subdivide_y;
        let mut x = self.x;
        let mut y = self.y;
        if x == sx {
            if y + 1 >= sy {
                assert(self.pending().len() == 0);
                return None;
            }
            let ghost y0 = y as int;
            let ghost pos = self.position();
            x = 0;
            y = y + 1;
            assert(y * sx + x == pos) by (nonlinear_arith)
                requires
                    x == 0,
                    y == y0 + 1,
                    pos == y0 * sx + sx,
            ;
        }
        proof {
            lemma_plane_bounds(sx as int, sy as int, x as int, y as int);
            lemma_div_mod(y as int, sx as int, x as int);
            assert((sx + 1) * (sy + 1) == sx * sy + sx + sy + 1) by (nonlinear_arith);
        }
        let a = self.vert(x, y);
        let b = self.vert(x + 1, y);
        let c = self.vert(x + 1, y + 1);
        let d = self.vert(x, y + 1);
        *self = Plane { subdivide_x: sx, subdivide_y: sy, x: x + 1, y };
        let quad = Quad::new(a, b, c, d);
        proof {
            assert(quad == plane_quad(sx as int, old(self).position()));
            assert(self.position() == old(self).position() + 1);
            assert(self.pending() =~= old(self).pending().drop_first());
        }
        Some(quad)
    }

    /// The number of pending items, as both bounds.
    open spec fn hint(&self) -> (usize, Option<usize>) {
        (self.pending().len() as usize, Some(self.pending().len() as usize))
    }

    fn size_hint(&self) -> (r: (usize, Option<usize>))
        ensures
            r.0 == self.pending().len(),
            r.1 == Some(r.0),
    {
        let n = self.len();
        (n, Some(n))
    }
}

impl SharedVertex<PlanePoint> for Plane {
    /// The grid has one point more in each direction than it has quads.
    open spec fn vertex_count(&self) -> nat {
        ((self.columns() + 1) * (self.rows() + 1)) as nat
    }

    /// The points are counted row by row from the bottom, and from the
    /// left in each row.
    open spec fn vertex_at(&self, i: int) -> PlanePoint {
        PlanePoint { x: (i % (self.columns() + 1)) as usize, y: (i / (self.columns() + 1)) as usize }
    }

    fn shared_vertex(&self, idx: usize) -> (v: PlanePoint) {
        proof {
            use_type_invariant(self);
            lemma_plane_bounds(
                self.subdivide_x as int,
                self.subdivide_y as int,
                self.x as int,
                self.y as int,
            );
        }
        let y = idx / (self.subdivide_x + 1);
        let x = idx % (self.subdivide_x + 1);
        self.vert(x, y)
    }

    fn shared_vertex_count(&self) -> (n: usize) {
        proof {
            use_type_invariant(self);
            lemma_plane_bounds(
                self.subdivide_x as int,
                self.subdivide_y as int,
                self.x as int,
                self.y as int,
            );
        }
        (self.subdivide_x + 1) * (self.subdivide_y + 1)
    }
}

impl IndexedPolygon<Quad<usize>> for Plane {
    open spec fn polygon_count(&self) -> nat {
        (self.columns() * self.rows()) as nat
    }

    /// The quads are counted row by row from the bottom, and from the left
    /// in each row; the corners go round from the lower left one.
    open spec fn polygon_at(&self, i: int) -> Quad<usize> {
        let y = i / self.columns();
        let x = i % self.columns();
        let base = y * (self.columns() + 1) + x;
        Quad {
            x: base as usize,
            y: (base + 1) as usize,
            z: (base + self.columns() + 2) as usize,
            w: (base + self.columns() + 1) as usize,
        }
    }

    fn indexed_polygon(&self, idx: usize) -> (p: Quad<usize>) {
        proof {
            use_type_invariant(self);
        }
        let sx = self.subdivide_x;
        let y = idx / sx;
        let x = idx % sx;
        proof {
            let sy = self.subdivide_y as int;
            assert(y < sy) by (nonlinear_arith)
                requires
                    idx < sx * sy,
                    y == idx as int / sx as int,
                    sx > 0,
            ;
            lemma_plane_bounds(sx as int, sy, x as int, y as int);
        }
        let base = y * (sx + 1) + x;
        Quad::new(base, base + 1, base + sx + 2, base + sx + 1)
    }

    fn indexed_polygon_count(&self) -> (n: usize) {
        proof {
            use_type_invariant(self);
            lemma_plane_bounds(
                self.subdivide_x as int,
                self.subdivide_y as int,
                self.x as int,
                self.y as int,
            );
        }
        self.subdivide_x * self.subdivide_y
    }
}

impl DualRepresentation<PlanePoint, Quad<usize>> for Plane {
    proof fn lemma_dual_representation(&self) {
        let p = *self;
        let sx = p.subdivide_x as int;
        let sy = p.subdivide_y as int;
        lemma_plane_bounds(sx, sy, p.x as int, p.y as int);
        let all = resolved::<PlanePoint, Quad<usize>, Plane>(p);
        assert forall|i: int| 0 <= i < sx * sy implies #[trigger] all[i] == plane_quad(sx, i) by {
            let y = i / sx;
            let x = i % sx;
            assert(0 <= y < sy && 0 <= x < sx && i == y * sx + x) by (nonlinear_arith)
                requires
                    0 <= i < sx * sy,
                    sx > 0,
                    y == i / sx,
                    x == i % sx,
            ;
            let base = y * (sx + 1) + x;
            lemma_plane_bounds(sx, sy, x, y);
            lemma_div_mod(y, sx + 1, x);
            lemma_div_mod(y, sx + 1, x + 1);
            lemma_div_mod(y + 1, sx + 1, x + 1);
            lemma_div_mod(y + 1, sx + 1, x);
            assert((y + 1) * (sx + 1) == y * (sx + 1) + sx + 1) by (nonlinear_arith);
        }
        assert forall|i: int, k: int|
            0 <= i < p.polygon_count() && 0 <= k < p.polygon_at(i).vertex_seq().len() implies (
        #[trigger] p.polygon_at(i).vertex_seq()[k]) < p.vertex_count() by {
            let y = i / sx;
            let x = i % sx;
            assert(0 <= y < sy && 0 <= x < sx && i == y * sx + x) by (nonlinear_arith)
                requires
                    0 <= i < sx * sy,
                    sx > 0,
                    y == i / sx,
                    x == i % sx,
            ;
            lemma_plane_bounds(sx, sy, x + 1, y);
        }
        assert(p.pending() =~= all.skip(p.position()));
    }
}

} // verus!
