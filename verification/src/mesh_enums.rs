//! The fixed cell-type taxonomy and the mesh text formats.

use vstd::prelude::*;
use vstd::string::StringSliceAdditionalSpecFns;

use crate::byte_ops::bytes_eq;

verus! {

/// The mesh text formats the reader understands.
#[derive(Debug, Clone, Copy, PartialEq, Eq, Structural)]
pub enum MeshFormat {
    Mail,
}

/// The closed taxonomy of element kinds: points, segments, triangles,
/// quadrangles, hexahedra, pentahedra, tetrahedra and pyramids, each with a
/// fixed connectivity arity.
#[derive(Debug, Clone, Copy, PartialEq, Eq, Structural)]
pub enum CellType {
    POI1,
    SEG2,
    SEG3,
    SEG4,
    TRIA3,
    TRIA6,
    TRIA7,
    QUAD4,
    QUAD8,
    QUAD9,
    HEXA8,
    HEXA20,
    HEXA27,
    PENTA6,
    PENTA15,
    PENTA18,
    TETRA4,
    TETRA10,
    PYRAM5,
    PYRAM13,
}

impl CellType {
    /// The number of node references a connectivity of this type must hold.
    pub open spec fn spec_arity(self) -> nat {
        match self {
            CellType::POI1 => 1,
            CellType::SEG2 => 2,
            CellType::SEG3 => 3,
            CellType::SEG4 => 4,
            CellType::TRIA3 => 3,
            CellType::TRIA6 => 6,
            CellType::TRIA7 => 7,
            CellType::QUAD4 => 4,
            CellType::QUAD8 => 8,
            CellType::QUAD9 => 9,
            CellType::HEXA8 => 8,
            CellType::HEXA20 => 20,
            CellType::HEXA27 => 27,
            CellType::PENTA6 => 6,
            CellType::PENTA15 => 15,
            CellType::PENTA18 => 18,
            CellType::TETRA4 => 4,
            CellType::TETRA10 => 10,
            CellType::PYRAM5 => 5,
            CellType::PYRAM13 => 13,
        }
    }

    /// The section-header literal of this type, as ASCII bytes.
    pub open spec fn spec_tag(self) -> Seq<u8> {
        match self {
            CellType::POI1 => seq![80u8, 79, 73, 49],
            CellType::SEG2 => seq![83u8, 69, 71, 50],
            CellType::SEG3 => seq![83u8, 69, 71, 51],
            CellType::SEG4 => seq![83u8, 69, 71, 52],
            CellType::TRIA3 => seq![84u8, 82, 73, 65, 51],
            CellType::TRIA6 => seq![84u8, 82, 73, 65, 54],
            CellType::TRIA7 => seq![84u8, 82, 73, 65, 55],
            CellType::QUAD4 => seq![81u8, 85, 65, 68, 52],
            CellType::QUAD8 => seq![81u8, 85, 65, 68, 56],
            CellType::QUAD9 => seq![81u8, 85, 65, 68, 57],
            CellType::HEXA8 => seq![72u8, 69, 88, 65, 56],
            CellType::HEXA20 => seq![72u8, 69, 88, 65, 50, 48],
            CellType::HEXA27 => seq![72u8, 69, 88, 65, 50, 55],
            CellType::PENTA6 => seq![80u8, 69, 78, 84, 65, 54],
            CellType::PENTA15 => seq![80u8, 69, 78, 84, 65, 49, 53],
            CellType::PENTA18 => seq![80u8, 69, 78, 84, 65, 49, 56],
            CellType::TETRA4 => seq![84u8, 69, 84, 82, 65, 52],
            CellType::TETRA10 => seq![84u8, 69, 84, 82, 65, 49, 48],
            CellType::PYRAM5 => seq![80u8, 89, 82, 65, 77, 53],
            CellType::PYRAM13 => seq![80u8, 89, 82, 65, 77, 49, 51],
        }
    }

    /// The connectivity arity of this cell type, from the fixed table.
    pub fn get_nb_of_connectivities(&self) -> (n: usize)
        ensures
            n as nat == self.spec_arity(),
    {
        match self {
            CellType::POI1 => 1,
            CellType::SEG2 => 2,
            CellType::SEG3 => 3,
            CellType::SEG4 => 4,
            CellType::TRIA3 => 3,
            CellType::TRIA6 => 6,
            CellType::TRIA7 => 7,
            CellType::QUAD4 => 4,
            CellType::QUAD8 => 8,
            CellType::QUAD9 => 9,
            CellType::HEXA8 => 8,
            CellType::HEXA20 => 20,
            CellType::HEXA27 => 27,
            CellType::PENTA6 => 6,
            CellType::PENTA15 => 15,
            CellType::PENTA18 => 18,
            CellType::TETRA4 => 4,
            CellType::TETRA10 => 10,
            CellType::PYRAM5 => 5,
            CellType::PYRAM13 => 13,
        }
    }

    /// The section-header literal of this type, as owned bytes.
    pub fn tag_bytes(&self) -> (r: Vec<u8>)
        ensures
            r@ == self.spec_tag(),
    {
        let v: Vec<u8> = match self {
            CellType::POI1 => vec![80u8, 79, 73, 49],
            CellType::SEG2 => vec![83u8, 69, 71, 50],
            CellType::SEG3 => vec![83u8, 69, 71, 51],
            CellType::SEG4 => vec![83u8, 69, 71, 52],
            CellType::TRIA3 => vec![84u8, 82, 73, 65, 51],
            CellType::TRIA6 => vec![84u8, 82, 73, 65, 54],
            CellType::TRIA7 => vec![84u8, 82, 73, 65, 55],
            CellType::QUAD4 => vec![81u8, 85, 65, 68, 52],
            CellType::QUAD8 => vec![81u8, 85, 65, 68, 56],
            CellType::QUAD9 => vec![81u8, 85, 65, 68, 57],
            CellType::HEXA8 => vec![72u8, 69, 88, 65, 56],
            CellType::HEXA20 => vec![72u8, 69, 88, 65, 50, 48],
            CellType::HEXA27 => vec![72u8, 69, 88, 65, 50, 55],
            CellType::PENTA6 => vec![80u8, 69, 78, 84, 65, 54],
            CellType::PENTA15 => vec![80u8, 69, 78, 84, 65, 49, 53],
            CellType::PENTA18 => vec![80u8, 69, 78, 84, 65, 49, 56],
            CellType::TETRA4 => vec![84u8, 69, 84, 82, 65, 52],
            CellType::TETRA10 => vec![84u8, 69, 84, 82, 65, 49, 48],
            CellType::PYRAM5 => vec![80u8, 89, 82, 65, 77, 53],
            CellType::PYRAM13 => vec![80u8, 89, 82, 65, 77, 49, 51],
        };
        proof {
            assert(v@ =~= self.spec_tag());
        }
        v
    }

    /// Looks a cell-type literal up in the taxonomy, given as a string.
    pub fn from_string(value: &str) -> (r: Result<Self, &'static str>)
        ensures
            match spec_cell_type_of(value.spec_bytes()) {
                Some(t) => r == Ok::<CellType, &'static str>(t),
                None => r is Err,
            },
    {
        Self::from_bytes(value.as_bytes())
    }

    /// Looks a cell-type literal up in the taxonomy, given as bytes.
    pub fn from_bytes(value: &[u8]) -> (r: Result<Self, &'static str>)
        ensures
            match spec_cell_type_of(value@) {
                Some(t) => r == Ok::<CellType, &'static str>(t),
                None => r is Err,
            },
    {
        let candidates: [CellType; 20] = [
            CellType::POI1,
            CellType::SEG2,
            CellType::SEG3,
            CellType::SEG4,
            CellType::TRIA3,
            CellType::TRIA6,
            CellType::TRIA7,
            CellType::QUAD4,
            CellType::QUAD8,
            CellType::QUAD9,
            CellType::HEXA8,
            CellType::HEXA20,
            CellType::HEXA27,
            CellType::PENTA6,
            CellType::PENTA15,
            CellType::PENTA18,
            CellType::TETRA4,
            CellType::TETRA10,
            CellType::PYRAM5,
            CellType::PYRAM13,
        ];
        let mut i: usize = 0;
        while i < 20
            invariant
                i <= 20,
                candidates@.len() == 20,
                forall|j: int| 0 <= j < i ==> (#[trigger] candidates@[j]).spec_tag() != value@,
                forall|t: CellType| candidates@.contains(t),
            decreases 20 - i,
        {
            let t = candidates[i];
            let tag = t.tag_bytes();
            if bytes_eq(value, tag.as_slice()) {
                proof {
                    lemma_cell_type_of_tag(t);
                }
                return Ok(t);
            }
            i += 1;
        }
        proof {
            assert(forall|t: CellType| (#[trigger] t.spec_tag()) != value@) by {
                assert(forall|t: CellType| candidates@.contains(t));
            }
            lemma_cell_type_of_none(value@);
        }
        Err("cell_type not implemented")
    }
}

/// The cell type whose section-header literal is exactly `s`, if any.
pub open spec fn spec_cell_type_of(s: Seq<u8>) -> Option<CellType> {
    if exists|t: CellType| (#[trigger] t.spec_tag()) == s {
        Some(choose|t: CellType| (#[trigger] t.spec_tag()) == s)
    } else {
        None
    }
}

/// A cell type is recovered from its own tag.
pub proof fn lemma_cell_type_of_tag(t: CellType)
    ensures
        spec_cell_type_of(t.spec_tag()) == Some(t),
{
    let s = t.spec_tag();
    assert(exists|u: CellType| (#[trigger] u.spec_tag()) == s);
    let u = choose|u: CellType| (#[trigger] u.spec_tag()) == s;
    assert(u.spec_tag() == t.spec_tag());
    assert(u == t) by {
        lemma_tags_distinct(u, t);
    }
}

/// Bytes that match no tag name no cell type.
pub proof fn lemma_cell_type_of_none(s: Seq<u8>)
    requires
        forall|t: CellType| (#[trigger] t.spec_tag()) != s,
    ensures
        spec_cell_type_of(s) is None,
{
}

/// Distinct cell types have distinct section-header literals.
proof fn lemma_tags_distinct(a: CellType, b: CellType)
    requires
        a.spec_tag() == b.spec_tag(),
    ensures
        a == b,
{
    if a != b {
        assert(a.spec_tag()[0] == b.spec_tag()[0]);
        assert(false);
    }
}

/// Every cell type has a fixed, positive arity, bounded by the largest entry
/// of the table.
pub proof fn lemma_arity_positive()
    ensures
        forall|t: CellType| 1 <= (#[trigger] t.spec_arity()) <= 27,
{
}

} // verus!
