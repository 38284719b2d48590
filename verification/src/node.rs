//! Mesh nodes.

use vstd::prelude::*;

verus! {

/// One mesh node.  Coordinates are carried as the exact float-literal text
/// the document supplied (the store accepts coordinates as given and never
/// computes with them); outside code converts them to machine floats when it
/// needs to.
#[derive(Debug, Clone, PartialEq)]
pub struct Node {
    pub x: Vec<u8>,
    pub y: Vec<u8>,
    pub z: Vec<u8>,
}

/// The mathematical value of a [`Node`].
pub struct SpecNode {
    pub x: Seq<u8>,
    pub y: Seq<u8>,
    pub z: Seq<u8>,
}

impl View for Node {
    type V = SpecNode;

    open spec fn view(&self) -> SpecNode {
        SpecNode { x: self.x@, y: self.y@, z: self.z@ }
    }
}

} // verus!
