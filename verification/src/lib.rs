//! Scene model of a hierarchical 3D asset: a tree of spatial transforms with
//! lazily cached world matrices, the flat drawable and light lists built from
//! the asset's node graph, and the per-frame draw commands derived from them.
//!
//! The library is generic over the scalar its matrices hold, so every rule is
//! stated and proved over the ring operations alone.

pub mod error;
pub mod scalar;
pub mod matrix;
pub mod transform;
pub mod params;
pub mod texture;
pub mod scene;
pub mod node_graph;
pub mod hierarchy_build;
pub mod resources;
pub mod model;
