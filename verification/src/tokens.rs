//! The intermediate, name-addressed parse output of the mail grammar.
//!
//! Values here are purely textual: names and coordinate literals are carried
//! as byte strings taken from the input, with no identifier resolution.

use vstd::prelude::*;

use crate::mesh_enums::CellType;

verus! {

/// Why a document failed to parse.  The offset is the byte position at which
/// the grammar stopped recognizing input.
#[derive(Debug, Clone, Copy, PartialEq, Eq, Structural)]
pub enum ParseError {
    /// The grammar could not match the input at the given offset; this
    /// includes unconsumed trailing input.
    Syntax { offset: usize },
    /// The input at the given offset looks like a cell-section header but is
    /// not in the fixed taxonomy.
    UnsupportedCellType { offset: usize },
}

/// Whether a group collects node names or cell names.
#[derive(Debug, Clone, Copy, PartialEq, Eq, Structural)]
pub enum GroupType {
    Node,
    Cell,
}

/// One parsed node description: a name and three coordinate literals, all as
/// byte strings copied out of the document text.
#[derive(Debug, Clone, PartialEq)]
pub struct NodeProp {
    pub name: Option<Vec<u8>>,
    pub x: Vec<u8>,
    pub y: Vec<u8>,
    pub z: Vec<u8>,
}

/// The mathematical value of a [`NodeProp`].
pub struct SpecNodeProp {
    pub name: Option<Seq<u8>>,
    pub x: Seq<u8>,
    pub y: Seq<u8>,
    pub z: Seq<u8>,
}

impl View for NodeProp {
    type V = SpecNodeProp;

    open spec fn view(&self) -> SpecNodeProp {
        SpecNodeProp {
            name: match self.name {
                Some(n) => Some(n@),
                None => None,
            },
            x: self.x@,
            y: self.y@,
            z: self.z@,
        }
    }
}

/// One parsed cell description: the section's cell type, the cell's name and
/// the referenced node names.
#[derive(Debug, Clone, PartialEq)]
pub struct CellProp {
    pub cell_type: CellType,
    pub name: Option<Vec<u8>>,
    pub nodes: Vec<Vec<u8>>,
}

/// The mathematical value of a [`CellProp`].
pub struct SpecCellProp {
    pub cell_type: CellType,
    pub name: Option<Seq<u8>>,
    pub nodes: Seq<Seq<u8>>,
}

impl View for CellProp {
    type V = SpecCellProp;

    open spec fn view(&self) -> SpecCellProp {
        SpecCellProp {
            cell_type: self.cell_type,
            name: match self.name {
                Some(n) => Some(n@),
                None => None,
            },
            nodes: self.nodes@.map_values(|n: Vec<u8>| n@),
        }
    }
}

/// One parsed group section: its kind, its name and the referenced member
/// names.
#[derive(Debug, Clone, PartialEq)]
pub struct Group {
    pub group_type: GroupType,
    pub name: Vec<u8>,
    pub elems: Vec<Vec<u8>>,
}

/// The mathematical value of a [`Group`].
pub struct SpecGroup {
    pub group_type: GroupType,
    pub name: Seq<u8>,
    pub elems: Seq<Seq<u8>>,
}

impl View for Group {
    type V = SpecGroup;

    open spec fn view(&self) -> SpecGroup {
        SpecGroup {
            group_type: self.group_type,
            name: self.name@,
            elems: self.elems@.map_values(|n: Vec<u8>| n@),
        }
    }
}

/// The contribution of one parsed section to the document accumulator.
#[derive(Debug, Clone, PartialEq)]
pub enum MailValue {
    /// The node records of a coordinate section.
    NodeElts(Vec<NodeProp>),
    /// The cell records of a cell section.
    Cells(Vec<CellProp>),
    /// A group section.
    Group(Group),
    /// A document title.  The grammar recognizes no title section, so the
    /// accumulator ignores this value.
    Title(Vec<u8>),
}

/// The mathematical value of a [`MailValue`].
pub enum SpecMailValue {
    NodeElts(Seq<SpecNodeProp>),
    Cells(Seq<SpecCellProp>),
    Group(SpecGroup),
    Title(Seq<u8>),
}

impl View for MailValue {
    type V = SpecMailValue;

    open spec fn view(&self) -> SpecMailValue {
        match self {
            MailValue::NodeElts(ns) => SpecMailValue::NodeElts(
                ns@.map_values(|n: NodeProp| n@),
            ),
            MailValue::Cells(cs) => SpecMailValue::Cells(cs@.map_values(|c: CellProp| c@)),
            MailValue::Group(g) => SpecMailValue::Group(g@),
            MailValue::Title(t) => SpecMailValue::Title(t@),
        }
    }
}

/// The accumulated result of parsing a whole document: node, cell and group
/// records in document order.
#[derive(Debug, Clone, PartialEq)]
pub struct MailParseOutput {
    pub nodes: Vec<NodeProp>,
    pub cells: Vec<CellProp>,
    pub groups: Vec<Group>,
}

/// The mathematical value of a [`MailParseOutput`].
pub struct SpecParseOutput {
    pub nodes: Seq<SpecNodeProp>,
    pub cells: Seq<SpecCellProp>,
    pub groups: Seq<SpecGroup>,
}

impl View for MailParseOutput {
    type V = SpecParseOutput;

    open spec fn view(&self) -> SpecParseOutput {
        SpecParseOutput {
            nodes: self.nodes@.map_values(|n: NodeProp| n@),
            cells: self.cells@.map_values(|c: CellProp| c@),
            groups: self.groups@.map_values(|g: Group| g@),
        }
    }
}

impl MailParseOutput {
    /// An empty accumulator.
    pub fn new() -> (r: Self)
        ensures
            r@.nodes == Seq::<SpecNodeProp>::empty(),
            r@.cells == Seq::<SpecCellProp>::empty(),
            r@.groups == Seq::<SpecGroup>::empty(),
    {
        let r = MailParseOutput { nodes: Vec::new(), cells: Vec::new(), groups: Vec::new() };
        proof {
            assert(r@.nodes =~= Seq::<SpecNodeProp>::empty());
            assert(r@.cells =~= Seq::<SpecCellProp>::empty());
            assert(r@.groups =~= Seq::<SpecGroup>::empty());
        }
        r
    }
}

impl Default for MailParseOutput {
    fn default() -> (r: Self)
        ensures
            r@.nodes == Seq::<SpecNodeProp>::empty(),
            r@.cells == Seq::<SpecCellProp>::empty(),
            r@.groups == Seq::<SpecGroup>::empty(),
    {
        Self::new()
    }
}

} // verus!
