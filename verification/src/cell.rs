//! Mesh cells.

use vstd::prelude::*;

use crate::mesh::MeshError;
use crate::mesh_enums::CellType;

verus! {

/// One mesh cell: its type and its connectivity, the ordered node
/// identifiers that define its shape.  A cell only ever exists with a
/// connectivity whose length equals the arity of its type.
#[derive(Debug, Clone, PartialEq)]
pub struct MeshCell {
    pub ty: CellType,
    pub co: Vec<usize>,
}

/// The mathematical value of a [`MeshCell`].
pub struct SpecMeshCell {
    pub ty: CellType,
    pub co: Seq<usize>,
}

impl View for MeshCell {
    type V = SpecMeshCell;

    open spec fn view(&self) -> SpecMeshCell {
        SpecMeshCell { ty: self.ty, co: self.co@ }
    }
}

impl MeshCell {
    /// Whether the connectivity length matches the arity of the cell type.
    pub open spec fn wf(self) -> bool {
        self.co@.len() == self.ty.spec_arity()
    }

    /// Constructs a cell after checking the connectivity against the fixed
    /// arity of the cell type; a mismatch fails and nothing is constructed.
    pub fn new(cell_type: CellType, connectivity: &Vec<usize>) -> (r: Result<
        MeshCell,
        MeshError,
    >)
        ensures
            r is Ok <==> connectivity@.len() == cell_type.spec_arity(),
            r matches Ok(c) ==> c.ty == cell_type && c.co@ == connectivity@ && c.wf(),
            r matches Err(e) ==> e == MeshError::ArityMismatch,
    {
        if connectivity.len() != cell_type.get_nb_of_connectivities() {
            return Err(MeshError::ArityMismatch);
        }
        Ok(MeshCell { ty: cell_type, co: clone_usizes(connectivity) })
    }

    /// The connectivity of this cell, as an owned vector.
    pub fn get_co(&self) -> (r: Vec<usize>)
        ensures
            r@ == self.co@,
    {
        clone_usizes(&self.co)
    }
}

/// Copies a vector of identifiers.
fn clone_usizes(v: &Vec<usize>) -> (r: Vec<usize>)
    ensures
        r@ == v@,
{
    let mut r: Vec<usize> = Vec::new();
    let mut i: usize = 0;
    while i < v.len()
        invariant
            0 <= i <= v@.len(),
            r@ == v@.take(i as int),
        decreases v@.len() - i,
    {
        r.push(v[i]);
        proof {
            assert(r@ =~= v@.take(i + 1 as int));
        }
        i += 1;
    }
    proof {
        assert(v@.take(v@.len() as int) =~= v@);
    }
    r
}

} // verus!
