use vstd::prelude::*;

verus! {

/// Why an import was abandoned. An import yields a whole model or none.
#[derive(Clone, Copy, Debug, PartialEq, Eq, Structural)]
pub enum ImportError {
    /// The node graph is malformed: a node is reached twice, a parent does
    /// not precede its child, or two nodes carry one source index.
    Parse,
    /// An index into the images, materials, meshes, skins or nodes names
    /// nothing.
    Reference,
    /// A skin has more joints than the joint block of the GPU can take.
    Resource,
    /// Two animations share a name.
    NameCollision,
    /// The metadata that applies to a drawable could not be read.
    Metadata,
}

/// Why a drawable was left out of a frame.
#[derive(Clone, Copy, Debug, PartialEq, Eq, Structural)]
pub enum RenderError {
    /// Yaw-only billboarding was asked for; it is not offered.
    UprightBillboard,
}

} // verus!
