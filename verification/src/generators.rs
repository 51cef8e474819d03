//! A collection of utilities that can be used to build meshes
//! programmatically.

pub use crate::circle::{Circle, CircleVertex};
pub use crate::cone::{Cone, VertexSection};
pub use crate::cube::{Cube, CubeVertex};
pub use crate::cylinder::{Cylinder, CylinderVertex};
pub use crate::generator::{
    DualRepresentation, IndexedPolygon, IndexedPolygonIterator, IndexedPolygons, SharedVertex,
    SharedVertexIterator, SharedVertices,
};
pub use crate::icosphere::{IcoSphere, IcoVertex};
pub use crate::plane::{Plane, PlanePoint};
pub use crate::sphere::{SpherePoint, SphereUv};
pub use crate::torus::{Torus, TorusPoint};
