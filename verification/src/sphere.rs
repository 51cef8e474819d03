//! A sphere of rings between two poles.

use crate::generator::{lemma_grid, lemma_grid_place, resolved, DualRepresentation, IndexedPolygon, SharedVertex};
use crate::poly::{EmitVertices, MapVertex, Polygon, Quad, Triangle};
use crate::stream::Stream;
use vstd::laws_eq::obeys_concrete_eq;
use vstd::prelude::*;
use vstd::std_specs::cmp::PartialEqSpecImpl;

verus! {

/// A point of a sphere with `n` points round the equator and `m` steps
/// from pole to pole: with the angles `a = 2 pi u / n` and `b = pi v / m` it
/// lies at `(cos a sin b, sin a sin b, cos b)`, and that is its normal too.
/// At the pole where `v` is 0 every `u` gives the same point, which is
/// held with `u` as 0.
#[derive(Clone, Copy, Debug, Eq, Hash)]
pub struct SpherePoint {
    /// The step round the equator.
    pub u: usize,
    /// The step from the pole.
    pub v: usize,
}

impl PartialEq for SpherePoint {
    fn eq(&self, other: &Self) -> (r: bool) {
        self.u == other.u && self.v == other.v
    }
}

impl PartialEqSpecImpl for SpherePoint {
    open spec fn obeys_eq_spec() -> bool {
        true
    }

    /// Two vertices are equal where they are the same.
    open spec fn eq_spec(&self, other: &Self) -> bool {
        *self == *other
    }
}

/// `==` on `SpherePoint` is equality.
pub proof fn lemma_sphere_point_eq()
    ensures
        obeys_concrete_eq::<SpherePoint>(),
{
    reveal(obeys_concrete_eq);
}

/// Represents a sphere with radius of 1, centered at (0, 0, 0)
#[derive(Clone, Copy)]
pub struct SphereUv {
    u: usize,
    v: usize,
    sub_u: usize,
    sub_v: usize,
}

/// The point at step `u` round the equator and step `v` from the pole.
pub open spec fn sphere_point(u: int, v: int) -> SpherePoint {
    if v == 0 {
        SpherePoint { u: 0, v: 0 }
    } else {
        SpherePoint { u: u as usize, v: v as usize }
    }
}

/// Polygon `idx` of a sphere with `n` points round the equator and `m`
/// steps from pole to pole: ring by ring from the first pole, with
/// triangles in the two rings at the poles and quads between them.
pub open spec fn sphere_face(n: int, m: int, idx: int) -> Polygon<SpherePoint> {
    let u = idx % n;
    let v = idx / n;
    let u1 = (u + 1) % n;
    let x = sphere_point(u, v);
    let y = sphere_point(u, v + 1);
    let z = sphere_point(u1, v + 1);
    let w = sphere_point(u1, v);
    if v == 0 {
        Polygon::PolyTri(Triangle { x, y, z })
    } else if v == m - 1 {
        Polygon::PolyTri(Triangle { x: sphere_point(0, m), y: w, z: x })
    } else {
        Polygon::PolyQuad(Quad { x, y, z, w })
    }
}

/// Shared vertex `i` of such a sphere: the first pole, the rings between the
/// poles, the last pole.
pub open spec fn sphere_vertex(n: int, m: int, i: int) -> SpherePoint {
    if i == 0 {
        sphere_point(0, 0)
    } else if i == (m - 1) * n + 1 {
        sphere_point(0, m)
    } else {
        sphere_point((i - 1) % n, (i - 1) / n + 1)
    }
}

/// The number of the shared vertex at step `u` round the equator, which may
/// be `n` for the first step again, and step `v` from the pole.
pub open spec fn sphere_index(n: int, m: int, u: int, v: int) -> int {
    if v == 0 {
        0
    } else if v == m {
        (m - 1) * n + 1
    } else {
        (v - 1) * n + (u % n) + 1
    }
}

/// Polygon `idx` of such a sphere, by the numbers of its vertices.
pub open spec fn sphere_indexed(n: int, m: int, idx: int) -> Polygon<usize> {
    let u = idx % n;
    let v = idx / n;
    if v == 0 {
        Polygon::PolyTri(
            Triangle {
                x: sphere_index(n, m, u, v) as usize,
                y: sphere_index(n, m, u, v + 1) as usize,
                z: sphere_index(n, m, u + 1, v + 1) as usize,
            },
        )
    } else if v == m - 1 {
        Polygon::PolyTri(
            Triangle {
                x: sphere_index(n, m, u + 1, v + 1) as usize,
                y: sphere_index(n, m, u + 1, v) as usize,
                z: sphere_index(n, m, u, v) as usize,
            },
        )
    } else {
        Polygon::PolyQuad(
            Quad {
                x: sphere_index(n, m, u, v) as usize,
                y: sphere_index(n, m, u, v + 1) as usize,
                z: sphere_index(n, m, u + 1, v + 1) as usize,
                w: sphere_index(n, m, u + 1, v) as usize,
            },
        )
    }
}

/// The number of a shared vertex is below the number of shared vertices.
proof fn lemma_sphere_index(n: int, m: int, u: int, v: int)
    requires
        n > 1,
        m > 1,
        0 <= u <= n,
        0 <= v <= m,
    ensures
        0 <= sphere_index(n, m, u, v) <= (m - 1) * n + 1,
{
    lemma_grid(n, m, m - 1, u);
    if 0 < v < m {
        lemma_grid(n, m - 1, v - 1, u);
    }
}

impl SphereUv {
    /// The number of points round the equator.
    pub closed spec fn points(&self) -> int {
        self.sub_u as int
    }

    /// The number of steps from pole to pole.
    pub closed spec fn steps(&self) -> int {
        self.sub_v as int
    }

    /// The number of polygons that have been handed out.
    pub closed spec fn position(&self) -> int {
        self.v * self.sub_u + self.u
    }

    #[verifier::type_invariant]
    closed spec fn inv(self) -> bool {
        &&& self.sub_u > 1
        &&& self.sub_v > 1
        &&& self.sub_v * self.sub_u <= usize::MAX
        &&& self.u <= self.sub_u
        &&& self.v < self.sub_v
    }

    /// Create a new sphere.
    /// `u` is the number of points across the equator of the sphere.
    /// `v` is the number of points from pole to pole.
    pub fn new(u: usize, v: usize) -> (s: Self)
        requires
            u > 1,
            v > 1,
            v * u <= usize::MAX,
        ensures
            s.wf(),
            s.points() == u,
            s.steps() == v,
            s.position() == 0,
    {
        assert(0 * u == 0) by (nonlinear_arith);
        SphereUv { u: 0, v: 0, sub_u: u, sub_v: v }
    }

    fn vert(&self, u: usize, v: usize) -> (p: SpherePoint)
        ensures
            p == sphere_point(u as int, v as int),
    {
        if v == 0 {
            SpherePoint { u: 0, v: 0 }
        } else {
            SpherePoint { u, v }
        }
    }

    /// The number of the shared vertex at step `u` round the equator and
    /// step `v` from the pole.
    fn vertex_index(&self, u: usize, v: usize) -> (r: usize)
        requires
            u <= self.sub_u,
            v <= self.sub_v,
        ensures
            r == sphere_index(self.sub_u as int, self.sub_v as int, u as int, v as int),
            r <= (self.sub_v - 1) * self.sub_u + 1,
    {
        proof {
            use_type_invariant(self);
            lemma_grid(self.sub_u as int, self.sub_v as int, self.sub_v - 1, u as int);
            if 0 < v < self.sub_v {
                lemma_grid(self.sub_u as int, self.sub_v - 1, v - 1, u as int);
            }
        }
        if v == 0 {
            0
        } else if self.sub_v == v {
            (self.sub_v - 1) * self.sub_u + 1
        } else {
            (v - 1) * self.sub_u + (u % self.sub_u) + 1
        }
    }

    /// The number of polygons that are still to come.
    pub fn len(&self) -> (n: usize)
        ensures
            n == self.pending().len(),
    {
        proof {
            use_type_invariant(self);
            lemma_grid(self.sub_u as int, self.sub_v as int, self.v as int, self.u as int);
            assert(self.sub_v * self.sub_u == self.sub_u * self.sub_v) by (nonlinear_arith);
        }
        (self.sub_v - self.v - 1) * self.sub_u + (self.sub_u - self.u)
    }
}

impl Stream for SphereUv {
    type Item = Polygon<SpherePoint>;

    /// Whether the sphere has more than one point round the equator and
    /// more than one step between the poles, its polygons can be counted,
    /// and the place that it has come to lies within it.
    closed spec fn wf(&self) -> bool {
        self.inv()
    }

    /// The polygons from the place that the sphere has come to.
    open spec fn pending(&self) -> Seq<Polygon<SpherePoint>> {
        Seq::new(
            (self.steps() * self.points() - self.position()) as nat,
            |k: int| sphere_face(self.points(), self.steps(), self.position() + k),
        )
    }

    fn next(&mut self) -> (r: Option<Polygon<SpherePoint>>)
        ensures
            final(self).points() == old(self).points(),
            final(self).steps() == old(self).steps(),
            final(self).position() == old(self).position() + if r is Some { 1int } else { 0int },
    {
        proof {
            use_type_invariant(&*self);
            lemma_grid(self.sub_u as int, self.sub_v as int, self.v as int, self.u as int);
        }
        let sub_u = self.sub_u;
        let sub_v = self.sub_v;
        let mut u = self.u;
        let mut v = self.v;
        if u == sub_u {
            if v + 1 >= sub_v {
                assert(self.pending().len() == 0);
                return None;
            }
            u = 0;
            v = v + 1;
        }
        proof {
            lemma_grid(sub_u as int, sub_v as int, v as int, u as int);
            lemma_grid(sub_u as int, sub_v as int, v as int, u + 1);
            assert(v * sub_u + u == old(self).position());
        }
        // mathematically, reaching `u + 1 == sub_u` should trivially resolve,
        // because sin(2pi) == sin(0), but rounding errors go in the way.
        let u1 = (u + 1) % sub_u;
        let x = self.vert(u, v);
        let y = self.vert(u, v + 1);
        let z = self.vert(u1, v + 1);
        let w = self.vert(u1, v);
        *self = SphereUv { u: u + 1, v, sub_u, sub_v };
        let r = if v == 0 {
            Polygon::PolyTri(Triangle::new(x, y, z))
        } else if v == sub_v - 1 {
            // overriding z to force u == 0 for consistency
            let z = self.vert(0, sub_v);
            Polygon::PolyTri(Triangle::new(z, w, x))
        } else {
            Polygon::PolyQuad(Quad::new(x, y, z, w))
        };
        proof {
            assert(r == sphere_face(sub_u as int, sub_v as int, old(self).position()));
            assert(self.position() == old(self).position() + 1);
            assert(self.pending() =~= old(self).pending().drop_first());
        }
        Some(r)
    }

    /// The number of pending items, as both bounds.
    open spec fn hint(&self) -> (usize, Option<usize>) {
        (self.pending().len() as usize, Some(self.pending().len() as usize))
    }

    fn size_hint(&self) -> (r: (usize, Option<usize>))
        ensures
            r.0 == self.pending().len(),
            r.1 == Some(r.0),
    {
        let n = self.len();
        (n, Some(n))
    }
}

impl SharedVertex<SpherePoint> for SphereUv {
    /// The two poles and a ring of points for each step between them.
    open spec fn vertex_count(&self) -> nat {
        ((self.steps() - 1) * self.points() + 2) as nat
    }

    open spec fn vertex_at(&self, i: int) -> SpherePoint {
        sphere_vertex(self.points(), self.steps(), i)
    }

    fn shared_vertex(&self, idx: usize) -> (v: SpherePoint) {
        proof {
            use_type_invariant(self);
            assert(self.vertex_at(idx as int) == sphere_vertex(
                self.sub_u as int,
                self.sub_v as int,
                idx as int,
            ));
            assert(self.vertex_count() == (self.sub_v - 1) * self.sub_u + 2);
        }
        if idx == 0 {
            self.vert(0, 0)
        } else if idx == self.shared_vertex_count() - 1 {
            self.vert(0, self.sub_v)
        } else {
            // since the bottom verts all map to the same
            // we jump over them in index space
            let at = idx - 1;
            proof {
                lemma_grid_place(self.sub_u as int, self.sub_v - 1, at as int);
            }
            let u = at % self.sub_u;
            let v = at / self.sub_u;
            self.vert(u, v + 1)
        }
    }

    fn shared_vertex_count(&self) -> (n: usize) {
        proof {
            use_type_invariant(self);
            lemma_grid(self.sub_u as int, self.sub_v as int, self.sub_v - 1, 0);
        }
        (self.sub_v - 1) * self.sub_u + 2
    }
}

impl IndexedPolygon<Polygon<usize>> for SphereUv {
    /// A ring of polygons for each step from pole to pole.
    open spec fn polygon_count(&self) -> nat {
        (self.steps() * self.points()) as nat
    }

    open spec fn polygon_at(&self, i: int) -> Polygon<usize> {
        sphere_indexed(self.points(), self.steps(), i)
    }

    fn indexed_polygon(&self, idx: usize) -> (p: Polygon<usize>) {
        proof {
            use_type_invariant(self);
            assert(self.polygon_at(idx as int) == sphere_indexed(
                self.sub_u as int,
                self.sub_v as int,
                idx as int,
            ));
            assert(self.polygon_count() == self.sub_v * self.sub_u);
            lemma_grid_place(self.sub_u as int, self.sub_v as int, idx as int);
        }
        let u = idx % self.sub_u;
        let v = idx / self.sub_u;
        if v == 0 {
            Polygon::PolyTri(
                Triangle::new(
                    self.vertex_index(u, v),
                    self.vertex_index(u, v + 1),
                    self.vertex_index(u + 1, v + 1),
                ),
            )
        } else if self.sub_v - 1 == v {
            Polygon::PolyTri(
                Triangle::new(
                    self.vertex_index(u + 1, v + 1),
                    self.vertex_index(u + 1, v),
                    self.vertex_index(u, v),
                ),
            )
        } else {
            Polygon::PolyQuad(
                Quad::new(
                    self.vertex_index(u, v),
                    self.vertex_index(u, v + 1),
                    self.vertex_index(u + 1, v + 1),
                    self.vertex_index(u + 1, v),
                ),
            )
        }
    }

    fn indexed_polygon_count(&self) -> (n: usize) {
        proof {
            use_type_invariant(self);
        }
        self.sub_v * self.sub_u
    }
}

impl DualRepresentation<SpherePoint, Polygon<usize>> for SphereUv {
    proof fn lemma_dual_representation(&self) {
        let s = *self;
        let all = resolved::<SpherePoint, Polygon<usize>, SphereUv>(s);
        let n = s.sub_u as int;
        let m = s.sub_v as int;
        lemma_grid(n, m, s.v as int, s.u as int);
        assert forall|i: int| 0 <= i < m * n implies #[trigger] all[i] == sphere_face(n, m, i) by {
            lemma_grid_place(n, m, i);
            let v = i / n;
            let u = i % n;
            let u1 = (u + 1) % n;
            lemma_grid(n, m, v, u);
            lemma_grid(n, m, v, u + 1);
            lemma_grid(n, m, v, u1);
            lemma_grid(n, m, m - 1, 0);
            if v > 0 {
                lemma_grid(n, m, v - 1, u);
                lemma_grid(n, m, v - 1, u1);
            }
            assert(all[i] == s.polygon_at(i).map_spec(|k: usize| s.vertex_at(k as int)));
            assert(s.polygon_at(i) == sphere_indexed(n, m, i));
            assert(sphere_vertex(n, m, sphere_index(n, m, u, v)) == sphere_point(u, v));
            assert(sphere_vertex(n, m, sphere_index(n, m, u + 1, v)) == sphere_point(u1, v));
            if v + 1 < m {
                assert(sphere_vertex(n, m, sphere_index(n, m, u, v + 1)) == sphere_point(u, v + 1));
                assert(sphere_vertex(n, m, sphere_index(n, m, u + 1, v + 1)) == sphere_point(
                    u1,
                    v + 1,
                ));
            } else {
                assert(sphere_vertex(n, m, sphere_index(n, m, u + 1, v + 1)) == sphere_point(0, m));
            }
        }
        assert forall|i: int, k: int|
            0 <= i < s.polygon_count() && 0 <= k < s.polygon_at(i).vertex_seq().len() implies (
        #[trigger] s.polygon_at(i).vertex_seq()[k]) < s.vertex_count() by {
            lemma_grid_place(n, m, i);
            let v = i / n;
            let u = i % n;
            lemma_sphere_index(n, m, u, v);
            lemma_sphere_index(n, m, u + 1, v);
            lemma_sphere_index(n, m, u, v + 1);
            lemma_sphere_index(n, m, u + 1, v + 1);
        }
        assert(s.pending() =~= all.skip(s.position()));
    }
}

} // verus!
