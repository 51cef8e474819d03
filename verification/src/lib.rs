//! A library that offers ways to generate and manipulate polygon streams.
//!
//! A mesh is built as a pipeline: a generator hands out polygons one by one,
//! adapters map their vertices or break them down into triangles, lines or
//! vertices, and an indexer turns the vertices into an index buffer.

pub use crate::indexer::{Indexer, LruIndexer};
pub use crate::neighbors::Neighbors;
pub use crate::poly::{
    EmitLines, EmitVertices, Line, Lines, LinesIterator, MapToVertices, MapToVerticesIter,
    MapVertex, Polygon, Quad, Triangle, Vertices, VerticesIterator,
};
pub use crate::stream::{Stream, VecStream};
pub use crate::triangulate::{EmitTriangles, Triangulate, TriangulateIterator};

pub mod circle;
pub mod cone;
pub mod cube;
pub mod cylinder;
pub mod generator;
pub mod generators;
pub mod icosphere;
pub mod indexer;
pub mod neighbors;
pub mod plane;
pub mod poly;
pub mod sphere;
pub mod examples;
pub mod stream;
pub mod torus;
pub mod triangulate;
