//! Small pipelines worked through: what each gives is stated and proved from
//! the contracts of the library alone.

use crate::indexer::{first_match, lemma_index_twice, LruIndexer, LruState};
use crate::plane::{lemma_plane_point_eq, Plane, PlanePoint};
use crate::poly::{EmitVertices, MapToVertices, Quad};
use crate::stream::{Stream, VecStream};
use vstd::prelude::*;

verus! {

/// Maps each corner of the quads `(0, 1, 2, 3)` and `(1, 2, 3, 4)` to whether
/// it is odd: the quads keep their shape and their order.
pub fn odd_corners() -> (r: Vec<Quad<bool>>)
    ensures
        r@ == seq![
            Quad { x: false, y: true, z: false, w: true },
            Quad { x: true, y: false, z: true, w: false },
        ],
{
    let mut quads: Vec<Quad<usize>> = Vec::new();
    quads.push(Quad::new(0usize, 1, 2, 3));
    quads.push(Quad::new(1usize, 2, 3, 4));
    let ghost (a, b) = (quads@[0].vertex_seq(), quads@[1].vertex_seq());
    assert(a[0] == 0 && a[1] == 1 && a[2] == 2 && a[3] == 3);
    assert(b[0] == 1 && b[1] == 2 && b[2] == 3 && b[3] == 4);
    let odd = |v: usize| -> (r: bool)
        ensures
            r == (v % 2 != 0),
        { v % 2 != 0 };
    let r = VecStream::new(quads).vertex(odd).collect();
    proof {
        let (c, d) = (r@[0].vertex_seq(), r@[1].vertex_seq());
        assert(c[0] == r@[0].x && c[1] == r@[0].y && c[2] == r@[0].z && c[3] == r@[0].w);
        assert(d[0] == r@[1].x && d[1] == r@[1].y && d[2] == r@[1].z && d[3] == r@[1].w);
        assert(r@ =~= seq![
            Quad { x: false, y: true, z: false, w: true },
            Quad { x: true, y: false, z: true, w: false },
        ]);
    }
    r
}

/// Takes a vertex as it comes and keeps nothing.
fn discard(index: usize, vertex: PlanePoint) {
}

/// Indexes the first corner of the unit plane twice: both times it gets the
/// index 0, and it is emitted once.
pub fn first_corner_twice() -> (r: (usize, usize))
    ensures
        r == (0usize, 0usize),
{
    let mut plane = Plane::new();
    let corner = match plane.next() {
        Some(quad) => quad.x,
        None => PlanePoint { x: 0, y: 0 },
    };
    let mut indexer = LruIndexer::new(2, discard);
    assert(first_match(Seq::<(PlanePoint, usize)>::empty(), corner) == 0);
    let first = indexer.index(corner);
    proof {
        lemma_plane_point_eq();
        lemma_index_twice(LruState::<PlanePoint>::empty(2), corner);
    }
    let second = indexer.index(corner);
    assert(indexer@.emitted.len() == 1);
    (first, second)
}

} // verus!
