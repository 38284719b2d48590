//! The mesh store: the identifier-indexed entity graph of nodes, cells and
//! groups, with its mutation API, and the builder that turns a parse output
//! into a mesh.

use vstd::prelude::*;
use vstd::string::StringSliceAdditionalSpecFns;

use crate::cell::MeshCell;
use crate::cell::SpecMeshCell;
use crate::grammar::cells_have_exact_arity;
use crate::grammar::lemma_parsed_cells_have_exact_arity;
use crate::grammar::spec_parse_error;
use crate::grammar::spec_parse_mail;
use crate::index::GroupMap;
use crate::index::NameMap;
use crate::mesh_enums::CellType;
use crate::node::Node;
use crate::node::SpecNode;
use crate::tokens::CellProp;
use crate::tokens::Group;
use crate::tokens::GroupType;
use crate::tokens::MailParseOutput;
use crate::tokens::NodeProp;
use crate::tokens::ParseError;
use crate::tokens::SpecCellProp;
use crate::tokens::SpecGroup;
use crate::tokens::SpecNodeProp;
use crate::tokens::SpecParseOutput;

verus! {

/// The errors of the mesh store and of the mesh builder.
#[derive(Debug, Clone, Copy, PartialEq, Eq, Structural)]
pub enum MeshError {
    /// A connectivity length disagrees with the fixed arity of its cell
    /// type.
    ArityMismatch,
    /// A lookup named a cell identifier that the store does not hold.
    NotFound,
    /// A group creation referenced an identifier that the store does not
    /// hold.
    MissingGroupMember,
    /// A cell or group referenced a name absent from the name index.
    UnknownReference,
}

impl MeshError {
    /// A short description of the error, for callers that print it.
    pub fn message(&self) -> (r: &'static str)
        ensures
            r@ == self.spec_message(),
    {
        match self {
            MeshError::ArityMismatch => "connectivity length does not match the cell type arity",
            MeshError::NotFound => "cell_id not found in cells",
            MeshError::MissingGroupMember => "at least one id is not contained in the mesh",
            MeshError::UnknownReference => "a referenced name is not defined in the mesh",
        }
    }

    /// The description [`Self::message`] returns.
    pub open spec fn spec_message(self) -> Seq<char> {
        match self {
            MeshError::ArityMismatch => "connectivity length does not match the cell type arity"@,
            MeshError::NotFound => "cell_id not found in cells"@,
            MeshError::MissingGroupMember => "at least one id is not contained in the mesh"@,
            MeshError::UnknownReference => "a referenced name is not defined in the mesh"@,
        }
    }
}

/// The node a parsed node record stores: its three coordinate literals.
pub open spec fn spec_node_of(p: SpecNodeProp) -> SpecNode {
    SpecNode { x: p.x, y: p.y, z: p.z }
}

/// The name index after adding `records` in order, the record at position
/// `k` getting identifier `base + k`; a named record shadows any earlier
/// binding of the same name.
pub open spec fn spec_index_nodes(
    m: Map<Seq<u8>, usize>,
    records: Seq<SpecNodeProp>,
    base: nat,
) -> Map<Seq<u8>, usize>
    decreases records.len(),
{
    if records.len() == 0 {
        m
    } else {
        let m2 = spec_index_nodes(m, records.drop_last(), base);
        match records.last().name {
            Some(nm) => m2.insert(nm, (base + records.len() - 1) as usize),
            None => m2,
        }
    }
}

/// The view of an optional byte vector.
pub open spec fn spec_opt_bytes(o: Option<Vec<u8>>) -> Option<Seq<u8>> {
    match o {
        Some(v) => Some(v@),
        None => None,
    }
}

/// A node after a partial in-place edit: each supplied coordinate replaces
/// the stored one.
pub open spec fn spec_edit_node(
    n: SpecNode,
    x: Option<Seq<u8>>,
    y: Option<Seq<u8>>,
    z: Option<Seq<u8>>,
) -> SpecNode {
    SpecNode {
        x: match x {
            Some(v) => v,
            None => n.x,
        },
        y: match y {
            Some(v) => v,
            None => n.y,
        },
        z: match z {
            Some(v) => v,
            None => n.z,
        },
    }
}

// ---------------------------------------------------------------------------
// Sorted, de-duplicated identifier lists
// ---------------------------------------------------------------------------

/// Whether a sequence of identifiers is strictly ascending.
pub open spec fn strictly_sorted(s: Seq<usize>) -> bool {
    forall|i: int, j: int| 0 <= i < j < s.len() ==> s[i] < s[j]
}

/// Inserts `v` into a strictly ascending sequence, keeping it strictly
/// ascending; a value already present is not duplicated.
pub open spec fn spec_sorted_insert(s: Seq<usize>, v: usize) -> Seq<usize>
    decreases s.len(),
{
    if s.len() == 0 {
        seq![v]
    } else if s.last() < v {
        s.push(v)
    } else if s.last() == v {
        s
    } else {
        spec_sorted_insert(s.drop_last(), v).push(s.last())
    }
}

/// The strictly ascending sequence holding exactly the identifiers of `ids`.
pub open spec fn spec_sorted_dedup(ids: Seq<usize>) -> Seq<usize>
    decreases ids.len(),
{
    if ids.len() == 0 {
        Seq::empty()
    } else {
        spec_sorted_insert(spec_sorted_dedup(ids.drop_last()), ids.last())
    }
}

/// Inserting into a strictly ascending sequence keeps it strictly ascending
/// and adds exactly the inserted value to its contents.
pub proof fn lemma_sorted_insert_props(s: Seq<usize>, v: usize)
    requires
        strictly_sorted(s),
    ensures
        strictly_sorted(spec_sorted_insert(s, v)),
        forall|x: usize| spec_sorted_insert(s, v).contains(x) <==> s.contains(x) || x == v,
    decreases s.len(),
{
    let r = spec_sorted_insert(s, v);
    if s.len() == 0 {
        assert forall|x: usize| r.contains(x) <==> s.contains(x) || x == v by {
            if x == v {
                assert(r[0] == v);
            }
        }
    } else if s.last() < v {
        assert forall|x: usize| r.contains(x) <==> s.contains(x) || x == v by {
            if x == v {
                assert(r[r.len() - 1] == v);
            }
            if s.contains(x) {
                let i = choose|i: int| 0 <= i < s.len() && s[i] == x;
                assert(r[i] == x);
            }
            if r.contains(x) && x != v {
                let i = choose|i: int| 0 <= i < r.len() && r[i] == x;
                assert(i < s.len());
                assert(s[i] == x);
            }
        }
    } else if s.last() == v {
        assert forall|x: usize| r.contains(x) <==> s.contains(x) || x == v by {
            if x == v {
                assert(s[s.len() - 1] == v);
            }
        }
    } else {
        let inner = spec_sorted_insert(s.drop_last(), v);
        assert(strictly_sorted(s.drop_last())) by {
            assert(forall|i: int, j: int|
                0 <= i < j < s.drop_last().len() ==> s.drop_last()[i] == s[i] && s.drop_last()[j]
                    == s[j]);
        }
        lemma_sorted_insert_props(s.drop_last(), v);
        // Everything in `inner` is below the last element of `s`.
        assert forall|i: int| 0 <= i < inner.len() implies inner[i] < s.last() by {
            assert(inner.contains(inner[i]));
            if s.drop_last().contains(inner[i]) {
                let j = choose|j: int| 0 <= j < s.drop_last().len() && s.drop_last()[j] == inner[i];
                assert(s[j] == inner[i]);
                assert(s[j] < s.last());
            }
        }
        assert(strictly_sorted(r)) by {
            assert(r == inner.push(s.last()));
            assert(forall|i: int| 0 <= i < inner.len() ==> r[i] == inner[i]);
        }
        assert forall|x: usize| r.contains(x) <==> s.contains(x) || x == v by {
            if r.contains(x) {
                let i = choose|i: int| 0 <= i < r.len() && r[i] == x;
                if i < inner.len() {
                    assert(inner.contains(x));
                    if s.drop_last().contains(x) {
                        let j = choose|j: int|
                            0 <= j < s.drop_last().len() && s.drop_last()[j] == x;
                        assert(s[j] == x);
                        assert(s.contains(x));
                    }
                } else {
                    assert(x == s.last());
                    assert(s[s.len() - 1] == x);
                    assert(s.contains(x));
                }
            }
            if s.contains(x) {
                let i = choose|i: int| 0 <= i < s.len() && s[i] == x;
                if i == s.len() - 1 {
                    assert(r[r.len() - 1] == x);
                    assert(r.contains(x));
                } else {
                    assert(s.drop_last()[i] == x);
                    assert(s.drop_last().contains(x));
                    assert(inner.contains(x));
                    let j = choose|j: int| 0 <= j < inner.len() && inner[j] == x;
                    assert(r[j] == x);
                    assert(r.contains(x));
                }
            }
            if x == v {
                assert(inner.contains(v));
                let j = choose|j: int| 0 <= j < inner.len() && inner[j] == v;
                assert(r[j] == v);
                assert(r.contains(x));
            }
        }
    }
}

/// Law: the identifier list a group stores is strictly ascending and holds
/// exactly the identifiers that were supplied, each once.
pub proof fn lemma_sorted_dedup_props(ids: Seq<usize>)
    ensures
        strictly_sorted(spec_sorted_dedup(ids)),
        forall|x: usize| spec_sorted_dedup(ids).contains(x) <==> ids.contains(x),
    decreases ids.len(),
{
    if ids.len() > 0 {
        lemma_sorted_dedup_props(ids.drop_last());
        lemma_sorted_insert_props(spec_sorted_dedup(ids.drop_last()), ids.last());
        assert forall|x: usize| spec_sorted_dedup(ids).contains(x) <==> ids.contains(x) by {
            if ids.contains(x) {
                let i = choose|i: int| 0 <= i < ids.len() && ids[i] == x;
                if i < ids.len() - 1 {
                    assert(ids.drop_last()[i] == x);
                    assert(ids.drop_last().contains(x));
                }
            }
            if ids.drop_last().contains(x) {
                let i = choose|i: int| 0 <= i < ids.drop_last().len() && ids.drop_last()[i] == x;
                assert(ids[i] == x);
            }
            if x == ids.last() {
                assert(ids[ids.len() - 1] == x);
            }
        }
    }
}

/// Inserts `v` into a strictly ascending vector, keeping it strictly
/// ascending.
fn insert_sorted(tgt: &mut Vec<usize>, v: usize)
    requires
        strictly_sorted(old(tgt)@),
        old(tgt)@.len() < usize::MAX,
    ensures
        final(tgt)@ == spec_sorted_insert(old(tgt)@, v),
        strictly_sorted(final(tgt)@),
{
    proof {
        lemma_sorted_insert_props(old(tgt)@, v);
    }
    let ghost s = tgt@;
    let mut j: usize = tgt.len();
    proof {
        assert(s.take(j as int) =~= s);
        assert(s.skip(j as int) =~= Seq::<usize>::empty());
        assert(spec_sorted_insert(s, v) + Seq::<usize>::empty() =~= spec_sorted_insert(s, v));
    }
    while j > 0 && tgt[j - 1] > v
        invariant
            0 <= j <= s.len(),
            s == tgt@,
            strictly_sorted(s),
            forall|idx: int| j <= idx < s.len() ==> s[idx] > v,
            spec_sorted_insert(s, v) == spec_sorted_insert(s.take(j as int), v) + s.skip(j as int),
        decreases j,
    {
        j -= 1;
        proof {
            assert(s.take(j + 1).drop_last() =~= s.take(j as int));
            assert(s.take(j + 1).last() == s[j as int]);
            assert(spec_sorted_insert(s.take(j + 1), v) == spec_sorted_insert(
                s.take(j as int),
                v,
            ).push(s[j as int]));
            assert(spec_sorted_insert(s.take(j as int), v).push(s[j as int]) + s.skip(j + 1)
                =~= spec_sorted_insert(s.take(j as int), v) + s.skip(j as int));
        }
    }
    if j > 0 && tgt[j - 1] == v {
        proof {
            assert(s.take(j as int).last() == s[j - 1]);
            assert(spec_sorted_insert(s.take(j as int), v) == s.take(j as int));
            assert(s.take(j as int) + s.skip(j as int) =~= s);
        }
        return ;
    }
    tgt.insert(j, v);
    proof {
        if j > 0 {
            assert(s.take(j as int).last() == s[j - 1]);
            assert(s[j - 1] < v);
            assert(spec_sorted_insert(s.take(j as int), v) == s.take(j as int).push(v));
        } else {
            assert(s.take(0) =~= Seq::<usize>::empty());
            assert(spec_sorted_insert(s.take(0), v) =~= seq![v]);
            assert(Seq::<usize>::empty().push(v) =~= seq![v]);
        }
        assert(tgt@ =~= s.take(j as int).push(v) + s.skip(j as int));
    }
}

/// The strictly ascending vector holding exactly the identifiers of `ids`.
fn sorted_dedup_vec(ids: &Vec<usize>) -> (r: Vec<usize>)
    ensures
        r@ == spec_sorted_dedup(ids@),
        strictly_sorted(r@),
{
    let mut tgt: Vec<usize> = Vec::new();
    proof {
        assert(ids@.take(0) =~= Seq::<usize>::empty());
    }
    let mut i: usize = 0;
    while i < ids.len()
        invariant
            0 <= i <= ids@.len(),
            tgt@ == spec_sorted_dedup(ids@.take(i as int)),
            strictly_sorted(tgt@),
            tgt@.len() <= i,
        decreases ids@.len() - i,
    {
        proof {
            lemma_sorted_insert_len(tgt@, ids@[i as int]);
        }
        insert_sorted(&mut tgt, ids[i]);
        proof {
            assert(ids@.take(i + 1).drop_last() =~= ids@.take(i as int));
            assert(ids@.take(i + 1).last() == ids@[i as int]);
        }
        i += 1;
    }
    proof {
        assert(ids@.take(ids@.len() as int) =~= ids@);
    }
    tgt
}

/// Inserting grows a sequence by at most one element.
proof fn lemma_sorted_insert_len(s: Seq<usize>, v: usize)
    ensures
        spec_sorted_insert(s, v).len() <= s.len() + 1,
    decreases s.len(),
{
    if s.len() > 0 && !(s.last() < v) && s.last() != v {
        lemma_sorted_insert_len(s.drop_last(), v);
    }
}

// ---------------------------------------------------------------------------
// The mesh store
// ---------------------------------------------------------------------------

/// The identifier-indexed mesh: nodes and cells in dense storage (the
/// identifier is the position, assigned sequentially and never reused),
/// groups of node and cell identifiers by name, and the name-to-identifier
/// index built while adding nodes.
#[derive(Debug, Clone, PartialEq)]
pub struct Mesh {
    /// The identifier the next added node receives.
    pub next_node_id: usize,
    /// The identifier the next added cell receives.
    pub next_cell_id: usize,
    /// The nodes, by identifier.
    pub nodes: Vec<Node>,
    /// The cells, by identifier.
    pub cells: Vec<MeshCell>,
    /// The node groups, by name.
    pub gno: GroupMap,
    /// The cell groups, by name.
    pub gma: GroupMap,
    /// The node-name index.
    pub nodes_name_to_id: NameMap,
}

impl Mesh {
    /// The identifier counters always sit one past the dense storage.
    pub open spec fn wf(self) -> bool {
        self.next_node_id == self.nodes@.len() && self.next_cell_id == self.cells@.len()
    }

    /// The nodes the store holds, as mathematical values.
    pub open spec fn spec_nodes(self) -> Seq<SpecNode> {
        self.nodes@.map_values(|n: Node| n@)
    }

    /// The cells the store holds, as mathematical values.
    pub open spec fn spec_cells(self) -> Seq<SpecMeshCell> {
        self.cells@.map_values(|c: MeshCell| c@)
    }

    /// An empty mesh.
    pub fn new() -> (r: Self)
        ensures
            r.wf(),
            r.nodes@.len() == 0,
            r.cells@.len() == 0,
            r.next_node_id == 0,
            r.next_cell_id == 0,
            r.gno@ == Map::<Seq<u8>, Seq<usize>>::empty(),
            r.gno.spec_len() == 0,
            r.gma@ == Map::<Seq<u8>, Seq<usize>>::empty(),
            r.gma.spec_len() == 0,
            r.nodes_name_to_id@ == Map::<Seq<u8>, usize>::empty(),
    {
        Mesh {
            next_node_id: 0,
            next_cell_id: 0,
            nodes: Vec::new(),
            cells: Vec::new(),
            gno: GroupMap::new(),
            gma: GroupMap::new(),
            nodes_name_to_id: NameMap::new(),
        }
    }

    /// Appends the parsed node records in order.  Each receives the next
    /// sequential identifier, and each named record binds its name in the
    /// name index.  There is no failure mode: coordinates are accepted as
    /// given.
    pub fn add_nodes(&mut self, nodes: Vec<NodeProp>)
        requires
            old(self).wf(),
            old(self).nodes@.len() + nodes@.len() <= usize::MAX,
        ensures
            final(self).wf(),
            final(self).spec_nodes() == old(self).spec_nodes() + nodes@.map_values(
                |p: NodeProp| spec_node_of(p@),
            ),
            final(self).nodes_name_to_id@ == spec_index_nodes(
                old(self).nodes_name_to_id@,
                nodes@.map_values(|p: NodeProp| p@),
                old(self).next_node_id as nat,
            ),
            final(self).next_node_id == old(self).next_node_id + nodes@.len(),
            final(self).cells == old(self).cells,
            final(self).next_cell_id == old(self).next_cell_id,
            final(self).gno == old(self).gno,
            final(self).gma == old(self).gma,
    {
        let ghost base = old(self).next_node_id as nat;
        let ghost m0 = old(self).nodes_name_to_id@;
        let ghost recs = nodes@.map_values(|p: NodeProp| p@);
        proof {
            assert(nodes@.take(0).map_values(|p: NodeProp| p@) =~= Seq::<SpecNodeProp>::empty());
            assert(old(self).spec_nodes() + nodes@.take(0).map_values(
                |p: NodeProp| spec_node_of(p@),
            ) =~= old(self).spec_nodes());
        }
        let mut i: usize = 0;
        while i < nodes.len()
            invariant
                0 <= i <= nodes@.len(),
                self.wf(),
                old(self).wf(),
                base == old(self).next_node_id as nat,
                m0 == old(self).nodes_name_to_id@,
                self.next_node_id == old(self).next_node_id + i,
                old(self).nodes@.len() + nodes@.len() <= usize::MAX,
                self.spec_nodes() == old(self).spec_nodes() + nodes@.take(i as int).map_values(
                    |p: NodeProp| spec_node_of(p@),
                ),
                self.nodes_name_to_id@ == spec_index_nodes(
                    m0,
                    nodes@.take(i as int).map_values(|p: NodeProp| p@),
                    base,
                ),
                self.cells == old(self).cells,
                self.next_cell_id == old(self).next_cell_id,
                self.gno == old(self).gno,
                self.gma == old(self).gma,
            decreases nodes@.len() - i,
        {
            let node_tmp = Node {
                x: clone_bytes(&nodes[i].x),
                y: clone_bytes(&nodes[i].y),
                z: clone_bytes(&nodes[i].z),
            };
            let ghost pre_nodes = self.spec_nodes();
            let ghost pre_map = self.nodes_name_to_id@;
            self.nodes.push(node_tmp);
            proof {
                assert(self.spec_nodes() =~= pre_nodes.push(spec_node_of(nodes@[i as int]@)));
            }
            match &nodes[i].name {
                Some(nm) => {
                    let owned = clone_bytes(nm);
                    self.nodes_name_to_id.insert(owned, self.next_node_id);
                },
                None => {},
            }
            proof {
                let taken = nodes@.take(i + 1).map_values(|p: NodeProp| p@);
                assert(taken.drop_last() =~= nodes@.take(i as int).map_values(|p: NodeProp| p@));
                assert(taken.last() == nodes@[i as int]@);
                assert(base + taken.len() - 1 == base + i);
                assert((base + i) as usize == self.next_node_id);
                assert(self.nodes_name_to_id@ == spec_index_nodes(m0, taken, base));
                assert(old(self).spec_nodes() + nodes@.take(i + 1).map_values(
                    |p: NodeProp| spec_node_of(p@),
                ) =~= (old(self).spec_nodes() + nodes@.take(i as int).map_values(
                    |p: NodeProp| spec_node_of(p@),
                )).push(spec_node_of(nodes@[i as int]@)));
            }
            self.next_node_id += 1;
            i += 1;
        }
        proof {
            assert(nodes@.take(nodes@.len() as int) =~= nodes@);
        }
    }

    /// Edits only the supplied coordinates of the node at `index`, in place.
    /// Returns false, changing nothing, when no node has that identifier.
    pub fn edit_node(&mut self, index: &usize, x: Option<Vec<u8>>, y: Option<Vec<u8>>, z: Option<
        Vec<u8>,
    >) -> (r: bool)
        requires
            old(self).wf(),
        ensures
            final(self).wf(),
            r == (*index < old(self).nodes@.len()),
            r ==> final(self).spec_nodes() == old(self).spec_nodes().update(
                *index as int,
                spec_edit_node(
                    old(self).spec_nodes()[*index as int],
                    spec_opt_bytes(x),
                    spec_opt_bytes(y),
                    spec_opt_bytes(z),
                ),
            ),
            r ==> final(self).cells == old(self).cells && final(self).gno == old(self).gno
                && final(self).gma == old(self).gma && final(self).nodes_name_to_id == old(self).nodes_name_to_id && final(self).next_node_id == old(self).next_node_id && final(self).next_cell_id == old(self).next_cell_id,
            !r ==> *final(self) == *old(self),
    {
        if *index < self.nodes.len() {
            let i = *index;
            match x {
                Some(val) => {
                    self.nodes[i].x = val;
                },
                None => {},
            }
            match y {
                Some(val) => {
                    self.nodes[i].y = val;
                },
                None => {},
            }
            match z {
                Some(val) => {
                    self.nodes[i].z = val;
                },
                None => {},
            }
            proof {
                assert(self.nodes@ =~= old(self).nodes@.update(
                    i as int,
                    self.nodes@[i as int],
                ));
                assert(self.nodes@[i as int]@ == spec_edit_node(
                    old(self).spec_nodes()[i as int],
                    spec_opt_bytes(x),
                    spec_opt_bytes(y),
                    spec_opt_bytes(z),
                ));
                assert(self.spec_nodes() =~= old(self).spec_nodes().update(
                    i as int,
                    spec_edit_node(
                        old(self).spec_nodes()[i as int],
                        spec_opt_bytes(x),
                        spec_opt_bytes(y),
                        spec_opt_bytes(z),
                    ),
                ));
            }
            true
        } else {
            false
        }
    }

    /// Constructs one cell after validating the connectivity length against
    /// the arity of the cell type.
    pub fn create_one_cell(cell_type: CellType, connectivity: &Vec<usize>) -> (r: Result<
        MeshCell,
        MeshError,
    >)
        ensures
            r is Ok <==> connectivity@.len() == cell_type.spec_arity(),
            r matches Ok(c) ==> c.ty == cell_type && c.co@ == connectivity@,
            r matches Err(e) ==> e == MeshError::ArityMismatch,
    {
        MeshCell::new(cell_type, connectivity)
    }

    /// Adds one cell, assigning the next sequential identifier.  Fails with
    /// an arity mismatch, changing nothing, when the connectivity length
    /// disagrees with the cell type.
    pub fn add_a_cell(&mut self, cell_type: CellType, connectivity: &Vec<usize>) -> (r: Result<
        usize,
        MeshError,
    >)
        requires
            old(self).wf(),
            old(self).cells@.len() < usize::MAX,
        ensures
            final(self).wf(),
            r is Ok <==> connectivity@.len() == cell_type.spec_arity(),
            r matches Ok(id) ==> id == old(self).next_cell_id && final(self).spec_cells() == old(self).spec_cells().push(SpecMeshCell { ty: cell_type, co: connectivity@ }) && final(self).next_cell_id == old(self).next_cell_id + 1 && final(self).nodes == old(self).nodes
                && final(self).gno == old(self).gno && final(self).gma == old(self).gma && final(self).nodes_name_to_id == old(self).nodes_name_to_id && final(self).next_node_id == old(self).next_node_id,
            r matches Err(e) ==> e == MeshError::ArityMismatch && *final(self) == *old(self),
    {
        match MeshCell::new(cell_type, connectivity) {
            Ok(cell) => {
                let ghost pre = self.spec_cells();
                let ghost cv = cell@;
                self.cells.push(cell);
                proof {
                    assert(self.spec_cells() =~= pre.push(cv));
                }
                let cell_id = self.next_cell_id;
                self.next_cell_id += 1;
                Ok(cell_id)
            },
            Err(e) => Err(e),
        }
    }

    /// Adds a batch of cells of one type, assigning sequential identifiers
    /// in order.  The whole batch is validated first: on any arity mismatch
    /// nothing is added and no identifier is consumed.
    pub fn add_cells_of_type(&mut self, cell_type: CellType, connectivities: &[Vec<usize>]) -> (r:
        Result<Vec<usize>, MeshError>)
        requires
            old(self).wf(),
            old(self).cells@.len() + connectivities@.len() <= usize::MAX,
        ensures
            final(self).wf(),
            r is Ok <==> forall|i: int|
                0 <= i < connectivities@.len() ==> (#[trigger] connectivities@[i])@.len()
                    == cell_type.spec_arity(),
            r matches Ok(ids) ==> ids@.len() == connectivities@.len() && (forall|i: int|
                0 <= i < ids@.len() ==> ids@[i] == old(self).next_cell_id + i) && final(self).spec_cells() == old(self).spec_cells() + connectivities@.map_values(
                |c: Vec<usize>| SpecMeshCell { ty: cell_type, co: c@ },
            ) && final(self).next_cell_id == old(self).next_cell_id + connectivities@.len()
                && final(self).nodes == old(self).nodes && final(self).gno == old(self).gno
                && final(self).gma == old(self).gma && final(self).nodes_name_to_id == old(self).nodes_name_to_id && final(self).next_node_id == old(self).next_node_id,
            r matches Err(e) ==> e == MeshError::ArityMismatch && *final(self) == *old(self),
    {
        // Validate the whole batch first, so that the call is atomic.
        let mut i: usize = 0;
        while i < connectivities.len()
            invariant
                0 <= i <= connectivities@.len(),
                *self == *old(self),
                old(self).wf(),
                forall|j: int|
                    0 <= j < i ==> (#[trigger] connectivities@[j])@.len()
                        == cell_type.spec_arity(),
            decreases connectivities@.len() - i,
        {
            if connectivities[i].len() != cell_type.get_nb_of_connectivities() {
                return Err(MeshError::ArityMismatch);
            }
            i += 1;
        }
        let ghost base = old(self).next_cell_id;
        proof {
            assert(connectivities@.take(0).map_values(
                |c: Vec<usize>| SpecMeshCell { ty: cell_type, co: c@ },
            ) =~= Seq::<SpecMeshCell>::empty());
            assert(old(self).spec_cells() + Seq::<SpecMeshCell>::empty() =~= old(self).spec_cells());
        }
        let mut cells: Vec<usize> = Vec::new();
        let mut i: usize = 0;
        while i < connectivities.len()
            invariant
                0 <= i <= connectivities@.len(),
                self.wf(),
                forall|j: int|
                    0 <= j < connectivities@.len() ==> (#[trigger] connectivities@[j])@.len()
                        == cell_type.spec_arity(),
                old(self).cells@.len() + connectivities@.len() <= usize::MAX,
                self.next_cell_id == base + i,
                base == old(self).next_cell_id,
                old(self).wf(),
                cells@.len() == i,
                forall|j: int| 0 <= j < i ==> cells@[j] == base + j,
                self.spec_cells() == old(self).spec_cells() + connectivities@.take(
                    i as int,
                ).map_values(|c: Vec<usize>| SpecMeshCell { ty: cell_type, co: c@ }),
                self.nodes == old(self).nodes,
                self.gno == old(self).gno,
                self.gma == old(self).gma,
                self.nodes_name_to_id == old(self).nodes_name_to_id,
                self.next_node_id == old(self).next_node_id,
            decreases connectivities@.len() - i,
        {
            let ghost pre = self.spec_cells();
            match self.add_a_cell(cell_type, &connectivities[i]) {
                Ok(cell_id) => {
                    cells.push(cell_id);
                },
                Err(e) => {
                    proof {
                        assert(false);
                    }
                    return Err(e);
                },
            }
            proof {
                let f = |c: Vec<usize>| SpecMeshCell { ty: cell_type, co: c@ };
                assert(connectivities@.take(i + 1).map_values(f) =~= connectivities@.take(
                    i as int,
                ).map_values(f).push(f(connectivities@[i as int])));
                assert(old(self).spec_cells() + connectivities@.take(i + 1).map_values(f) =~= (old(self).spec_cells() + connectivities@.take(i as int).map_values(f)).push(
                    f(connectivities@[i as int]),
                ));
            }
            i += 1;
        }
        proof {
            assert(connectivities@.take(connectivities@.len() as int) =~= connectivities@);
        }
        Ok(cells)
    }

    /// Adds a batch of cells of one type; the identifiers come in the order
    /// of the batch.
    pub fn add_cells(&mut self, connectivities: &[Vec<usize>], ty: CellType) -> (r: Result<
        Vec<usize>,
        MeshError,
    >)
        requires
            old(self).wf(),
            old(self).cells@.len() + connectivities@.len() <= usize::MAX,
        ensures
            final(self).wf(),
            r is Ok <==> forall|i: int|
                0 <= i < connectivities@.len() ==> (#[trigger] connectivities@[i])@.len()
                    == ty.spec_arity(),
            r matches Ok(ids) ==> ids@.len() == connectivities@.len() && (forall|i: int|
                0 <= i < ids@.len() ==> ids@[i] == old(self).next_cell_id + i) && final(self).spec_cells() == old(self).spec_cells() + connectivities@.map_values(
                |c: Vec<usize>| SpecMeshCell { ty, co: c@ },
            ) && final(self).next_cell_id == old(self).next_cell_id + connectivities@.len()
                && final(self).nodes == old(self).nodes && final(self).gno == old(self).gno
                && final(self).gma == old(self).gma && final(self).nodes_name_to_id == old(self).nodes_name_to_id && final(self).next_node_id == old(self).next_node_id,
            r matches Err(e) ==> e == MeshError::ArityMismatch && *final(self) == *old(self),
    {
        self.add_cells_of_type(ty, connectivities)
    }

    /// Replaces the cell at an existing identifier after arity validation.
    /// Returns false, changing nothing, on a validation failure or when no
    /// cell has that identifier: this is a replace, not an insert.
    pub fn edit_cell(&mut self, index: usize, connectivity: &Vec<usize>, ty: CellType) -> (r: bool)
        requires
            old(self).wf(),
        ensures
            final(self).wf(),
            r == (index < old(self).cells@.len() && connectivity@.len() == ty.spec_arity()),
            r ==> final(self).spec_cells() == old(self).spec_cells().update(
                index as int,
                SpecMeshCell { ty, co: connectivity@ },
            ) && final(self).nodes == old(self).nodes && final(self).gno == old(self).gno
                && final(self).gma == old(self).gma && final(self).nodes_name_to_id == old(self).nodes_name_to_id && final(self).next_node_id == old(self).next_node_id && final(self).next_cell_id == old(self).next_cell_id,
            !r ==> *final(self) == *old(self),
    {
        match MeshCell::new(ty, connectivity) {
            Ok(cell) => {
                if index < self.cells.len() {
                    self.cells[index] = cell;
                    proof {
                        assert(self.spec_cells() =~= old(self).spec_cells().update(
                            index as int,
                            SpecMeshCell { ty, co: connectivity@ },
                        ));
                    }
                    true
                } else {
                    false
                }
            },
            Err(_) => false,
        }
    }

    /// Looks the connectivity of a cell up.
    pub fn get_cell_co(&self, cell_id: usize) -> (r: Result<Vec<usize>, MeshError>)
        ensures
            r is Ok <==> cell_id < self.cells@.len(),
            r matches Ok(co) ==> co@ == self.spec_cells()[cell_id as int].co,
            r matches Err(e) ==> e == MeshError::NotFound,
    {
        if cell_id < self.cells.len() {
            Ok(self.cells[cell_id].get_co())
        } else {
            Err(MeshError::NotFound)
        }
    }

    /// The display name of a cell identifier: `M` followed by the decimal
    /// form of the identifier plus one.
    pub fn get_cell_name(cell_id: usize) -> (r: Vec<u8>)
        requires
            cell_id < usize::MAX,
        ensures
            r@ == seq![77u8] + spec_decimal((cell_id + 1) as nat),
    {
        let mut out: Vec<u8> = vec![77u8];
        proof {
            assert(out@ =~= seq![77u8]);
        }
        push_decimal(cell_id + 1, &mut out);
        out
    }

    /// Creates a node group: de-duplicates the identifiers, verifies that
    /// every one names a stored node, and only then binds the sorted list
    /// under `name`.  When any identifier is missing, nothing changes.
    pub fn create_node_group(&mut self, name: Vec<u8>, node_ids: &Vec<usize>) -> (r: Result<
        (),
        MeshError,
    >)
        requires
            old(self).wf(),
        ensures
            final(self).wf(),
            r is Ok <==> forall|i: int|
                0 <= i < node_ids@.len() ==> (#[trigger] node_ids@[i]) < old(self).nodes@.len(),
            r matches Err(e) ==> e == MeshError::MissingGroupMember && *final(self) == *old(self),
            r is Ok ==> final(self).gno@ == old(self).gno@.insert(
                name@,
                spec_sorted_dedup(node_ids@),
            ) && final(self).gno.spec_len() == old(self).gno.spec_len() + (if old(self).gno@.contains_key(name@) {
                0int
            } else {
                1int
            }) && final(self).nodes == old(self).nodes && final(self).cells == old(self).cells
                && final(self).gma == old(self).gma && final(self).nodes_name_to_id == old(self).nodes_name_to_id && final(self).next_node_id == old(self).next_node_id && final(self).next_cell_id == old(self).next_cell_id,
    {
        let mut i: usize = 0;
        while i < node_ids.len()
            invariant
                0 <= i <= node_ids@.len(),
                forall|j: int| 0 <= j < i ==> (#[trigger] node_ids@[j]) < self.nodes@.len(),
                *self == *old(self),
                old(self).wf(),
            decreases node_ids@.len() - i,
        {
            if node_ids[i] >= self.nodes.len() {
                return Err(MeshError::MissingGroupMember);
            }
            i += 1;
        }
        let target_node_ids = sorted_dedup_vec(node_ids);
        self.gno.insert(name, target_node_ids);
        Ok(())
    }

    /// Creates a cell group: de-duplicates the identifiers, verifies that
    /// every one names a stored cell, and only then binds the sorted list
    /// under `name`.  When any identifier is missing, nothing changes.
    pub fn create_cell_group(&mut self, name: Vec<u8>, cell_ids: &Vec<usize>) -> (r: Result<
        (),
        MeshError,
    >)
        requires
            old(self).wf(),
        ensures
            final(self).wf(),
            r is Ok <==> forall|i: int|
                0 <= i < cell_ids@.len() ==> (#[trigger] cell_ids@[i]) < old(self).cells@.len(),
            r matches Err(e) ==> e == MeshError::MissingGroupMember && *final(self) == *old(self),
            r is Ok ==> final(self).gma@ == old(self).gma@.insert(
                name@,
                spec_sorted_dedup(cell_ids@),
            ) && final(self).gma.spec_len() == old(self).gma.spec_len() + (if old(self).gma@.contains_key(name@) {
                0int
            } else {
                1int
            }) && final(self).nodes == old(self).nodes && final(self).cells == old(self).cells
                && final(self).gno == old(self).gno && final(self).nodes_name_to_id == old(self).nodes_name_to_id && final(self).next_node_id == old(self).next_node_id && final(self).next_cell_id == old(self).next_cell_id,
    {
        let mut i: usize = 0;
        while i < cell_ids.len()
            invariant
                0 <= i <= cell_ids@.len(),
                forall|j: int| 0 <= j < i ==> (#[trigger] cell_ids@[j]) < self.cells@.len(),
                *self == *old(self),
                old(self).wf(),
            decreases cell_ids@.len() - i,
        {
            if cell_ids[i] >= self.cells.len() {
                return Err(MeshError::MissingGroupMember);
            }
            i += 1;
        }
        let target_cell_ids = sorted_dedup_vec(cell_ids);
        self.gma.insert(name, target_cell_ids);
        Ok(())
    }

    /// Parses mail-format text into the intermediate parse output.
    pub fn read_mail_format(content: &str) -> (r: Result<MailParseOutput, ParseError>)
        ensures
            match r {
                Ok(out) => spec_parse_mail(content.spec_bytes()) == Some(out@),
                Err(e) => spec_parse_mail(content.spec_bytes()) is None && e == spec_parse_error(
                    content.spec_bytes(),
                ),
            },
    {
        crate::mail_parser::mail_parser(content)
    }
}

// ---------------------------------------------------------------------------
// The mesh builder
// ---------------------------------------------------------------------------

/// The name index the parse output's node records build, identifiers
/// starting at zero.
pub open spec fn spec_node_index(nodes: Seq<SpecNodeProp>) -> Map<Seq<u8>, usize> {
    spec_index_nodes(Map::empty(), nodes, 0)
}

/// The cell-name index the parse output's cell records build: the record at
/// position `k` has identifier `k`, and a named record shadows any earlier
/// binding of the same name.
pub open spec fn spec_index_cells(cells: Seq<SpecCellProp>) -> Map<Seq<u8>, usize>
    decreases cells.len(),
{
    if cells.len() == 0 {
        Map::empty()
    } else {
        let m2 = spec_index_cells(cells.drop_last());
        match cells.last().name {
            Some(nm) => m2.insert(nm, (cells.len() - 1) as usize),
            None => m2,
        }
    }
}

/// Resolves names through an index, in order; the first name absent from the
/// index fails the whole resolution.
pub open spec fn spec_resolve_names(m: Map<Seq<u8>, usize>, names: Seq<Seq<u8>>) -> Result<
    Seq<usize>,
    MeshError,
>
    decreases names.len(),
{
    if names.len() == 0 {
        Ok(Seq::empty())
    } else {
        match spec_resolve_names(m, names.drop_last()) {
            Ok(rest) => if m.contains_key(names.last()) {
                Ok(rest.push(m[names.last()]))
            } else {
                Err(MeshError::UnknownReference)
            },
            Err(e) => Err(e),
        }
    }
}

/// Resolves one parsed cell record: every referenced node name through the
/// index, then the connectivity length against the arity of its type.
pub open spec fn spec_resolve_cell(m: Map<Seq<u8>, usize>, c: SpecCellProp) -> Result<
    SpecMeshCell,
    MeshError,
> {
    match spec_resolve_names(m, c.nodes) {
        Ok(co) => if co.len() == c.cell_type.spec_arity() {
            Ok(SpecMeshCell { ty: c.cell_type, co })
        } else {
            Err(MeshError::ArityMismatch)
        },
        Err(e) => Err(e),
    }
}

/// Resolves the parsed cell records in document order; the first failing
/// record fails the whole build.
pub open spec fn spec_resolve_cells(m: Map<Seq<u8>, usize>, cells: Seq<SpecCellProp>) -> Result<
    Seq<SpecMeshCell>,
    MeshError,
>
    decreases cells.len(),
{
    if cells.len() == 0 {
        Ok(Seq::empty())
    } else {
        match spec_resolve_cells(m, cells.drop_last()) {
            Ok(rest) => match spec_resolve_cell(m, cells.last()) {
                Ok(c) => Ok(rest.push(c)),
                Err(e) => Err(e),
            },
            Err(e) => Err(e),
        }
    }
}

/// Resolves one parsed group's member names, through the node index for a
/// node group and through the cell index for a cell group.
pub open spec fn spec_resolve_group(
    node_index: Map<Seq<u8>, usize>,
    cell_index: Map<Seq<u8>, usize>,
    g: SpecGroup,
) -> Result<Seq<usize>, MeshError> {
    match g.group_type {
        GroupType::Node => spec_resolve_names(node_index, g.elems),
        GroupType::Cell => spec_resolve_names(cell_index, g.elems),
    }
}

/// Resolves the parsed group records in document order, folding each into
/// the node-group or cell-group map; the first failing record fails the
/// whole build.
pub open spec fn spec_build_groups(
    gno: Map<Seq<u8>, Seq<usize>>,
    gma: Map<Seq<u8>, Seq<usize>>,
    node_index: Map<Seq<u8>, usize>,
    cell_index: Map<Seq<u8>, usize>,
    groups: Seq<SpecGroup>,
) -> Result<(Map<Seq<u8>, Seq<usize>>, Map<Seq<u8>, Seq<usize>>), MeshError>
    decreases groups.len(),
{
    if groups.len() == 0 {
        Ok((gno, gma))
    } else {
        match spec_build_groups(gno, gma, node_index, cell_index, groups.drop_last()) {
            Ok(maps) => match spec_resolve_group(node_index, cell_index, groups.last()) {
                Ok(ids) => {
                    let g = groups.last();
                    match g.group_type {
                        GroupType::Node => Ok(
                            (maps.0.insert(g.name, spec_sorted_dedup(ids)), maps.1),
                        ),
                        GroupType::Cell => Ok(
                            (maps.0, maps.1.insert(g.name, spec_sorted_dedup(ids))),
                        ),
                    }
                },
                Err(e) => Err(e),
            },
            Err(e) => Err(e),
        }
    }
}

/// A name resolution whose prefix succeeds fails on its first absent name.
proof fn lemma_resolve_names_err(m: Map<Seq<u8>, usize>, names: Seq<Seq<u8>>, i: int)
    requires
        0 <= i < names.len(),
        spec_resolve_names(m, names.take(i)) is Ok,
        !m.contains_key(names[i]),
        forall|j: int| 0 <= j < i ==> m.contains_key(#[trigger] names[j]),
    ensures
        spec_resolve_names(m, names) == Err::<Seq<usize>, MeshError>(MeshError::UnknownReference),
    decreases names.len(),
{
    if i == names.len() - 1 {
        assert(names.drop_last() =~= names.take(i));
        match spec_resolve_names(m, names.drop_last()) {
            Ok(_) => {
                assert(names.last() == names[i]);
            },
            Err(_) => (),
        }
    } else {
        assert(names.drop_last().take(i) =~= names.take(i));
        lemma_resolve_names_err(m, names.drop_last(), i);
        assert(names.drop_last()[i] == names[i]);
    }
}

/// A cell resolution whose prefix succeeds fails on its first failing
/// record.
proof fn lemma_resolve_cells_err(m: Map<Seq<u8>, usize>, cells: Seq<SpecCellProp>, i: int)
    requires
        0 <= i < cells.len(),
        spec_resolve_cells(m, cells.take(i)) is Ok,
        spec_resolve_cell(m, cells[i]) is Err,
    ensures
        spec_resolve_cells(m, cells) == Err::<Seq<SpecMeshCell>, MeshError>(
            spec_resolve_cell(m, cells[i])->Err_0,
        ),
    decreases cells.len(),
{
    if i == cells.len() - 1 {
        assert(cells.drop_last() =~= cells.take(i));
        assert(cells.last() == cells[i]);
    } else {
        assert(cells.drop_last().take(i) =~= cells.take(i));
        lemma_resolve_cells_err(m, cells.drop_last(), i);
        assert(cells.drop_last()[i] == cells[i]);
    }
}

/// A group build whose prefix succeeds fails on its first failing record.
proof fn lemma_build_groups_err(
    gno: Map<Seq<u8>, Seq<usize>>,
    gma: Map<Seq<u8>, Seq<usize>>,
    node_index: Map<Seq<u8>, usize>,
    cell_index: Map<Seq<u8>, usize>,
    groups: Seq<SpecGroup>,
    i: int,
)
    requires
        0 <= i < groups.len(),
        spec_build_groups(gno, gma, node_index, cell_index, groups.take(i)) is Ok,
        spec_resolve_group(node_index, cell_index, groups[i]) is Err,
    ensures
        spec_build_groups(gno, gma, node_index, cell_index, groups) == Err::<
            (Map<Seq<u8>, Seq<usize>>, Map<Seq<u8>, Seq<usize>>),
            MeshError,
        >(spec_resolve_group(node_index, cell_index, groups[i])->Err_0),
    decreases groups.len(),
{
    if i == groups.len() - 1 {
        assert(groups.drop_last() =~= groups.take(i));
        assert(groups.last() == groups[i]);
    } else {
        assert(groups.drop_last().take(i) =~= groups.take(i));
        lemma_build_groups_err(gno, gma, node_index, cell_index, groups.drop_last(), i);
        assert(groups.drop_last()[i] == groups[i]);
    }
}

/// A name resolution yields one identifier per name, and can only fail on
/// an absent name.
proof fn lemma_resolve_names_shape(m: Map<Seq<u8>, usize>, names: Seq<Seq<u8>>)
    ensures
        spec_resolve_names(m, names) matches Ok(ids) ==> ids.len() == names.len(),
        spec_resolve_names(m, names) matches Err(e) ==> e == MeshError::UnknownReference,
    decreases names.len(),
{
    if names.len() > 0 {
        lemma_resolve_names_shape(m, names.drop_last());
    }
}

/// When every cell record respects its arity, resolving the cells can only
/// fail on an absent name.
proof fn lemma_resolve_cells_err_kind(m: Map<Seq<u8>, usize>, cells: Seq<SpecCellProp>)
    requires
        cells_have_exact_arity(cells),
    ensures
        spec_resolve_cells(m, cells) matches Err(e) ==> e == MeshError::UnknownReference,
    decreases cells.len(),
{
    if cells.len() > 0 {
        assert(forall|i: int|
            0 <= i < cells.drop_last().len() ==> cells.drop_last()[i] == cells[i]);
        lemma_resolve_cells_err_kind(m, cells.drop_last());
        lemma_resolve_names_shape(m, cells.last().nodes);
        assert(cells[cells.len() - 1].nodes.len() == cells[cells.len() - 1].cell_type.spec_arity());
    }
}

/// Building the groups can only fail on an absent member name.
proof fn lemma_build_groups_err_kind(
    gno: Map<Seq<u8>, Seq<usize>>,
    gma: Map<Seq<u8>, Seq<usize>>,
    node_index: Map<Seq<u8>, usize>,
    cell_index: Map<Seq<u8>, usize>,
    groups: Seq<SpecGroup>,
)
    ensures
        spec_build_groups(gno, gma, node_index, cell_index, groups) matches Err(e) ==> e
            == MeshError::UnknownReference,
    decreases groups.len(),
{
    if groups.len() > 0 {
        lemma_build_groups_err_kind(gno, gma, node_index, cell_index, groups.drop_last());
        lemma_resolve_names_shape(node_index, groups.last().elems);
        lemma_resolve_names_shape(cell_index, groups.last().elems);
    }
}

/// Law: building a parsed document fails only on a dangling reference.  The
/// parser's fixed-width read already enforces every connectivity arity, so
/// the builder can never report an arity mismatch for a parse output that
/// came from the parser.
pub proof fn lemma_build_of_parsed_output(s: Seq<u8>, out: SpecParseOutput)
    requires
        spec_parse_mail(s) == Some(out),
    ensures
        spec_resolve_cells(spec_node_index(out.nodes), out.cells) matches Err(e) ==> e
            == MeshError::UnknownReference,
        spec_build_groups(
            Map::<Seq<u8>, Seq<usize>>::empty(),
            Map::<Seq<u8>, Seq<usize>>::empty(),
            spec_node_index(out.nodes),
            spec_index_cells(out.cells),
            out.groups,
        ) matches Err(e) ==> e == MeshError::UnknownReference,
{
    lemma_parsed_cells_have_exact_arity(s, out);
    lemma_resolve_cells_err_kind(spec_node_index(out.nodes), out.cells);
    lemma_build_groups_err_kind(
        Map::<Seq<u8>, Seq<usize>>::empty(),
        Map::<Seq<u8>, Seq<usize>>::empty(),
        spec_node_index(out.nodes),
        spec_index_cells(out.cells),
        out.groups,
    );
}

/// Resolves a list of names through an index, in order; the first absent
/// name fails the whole resolution.
fn resolve_names(index: &NameMap, names: &Vec<Vec<u8>>) -> (r: Result<Vec<usize>, MeshError>)
    ensures
        ({
            let sr = spec_resolve_names(index@, names@.map_values(|n: Vec<u8>| n@));
            match r {
                Ok(ids) => sr == Ok::<Seq<usize>, MeshError>(ids@),
                Err(e) => sr == Err::<Seq<usize>, MeshError>(e),
            }
        }),
{
    let ghost sn = names@.map_values(|n: Vec<u8>| n@);
    let mut ids: Vec<usize> = Vec::new();
    proof {
        assert(sn.take(0) =~= Seq::<Seq<u8>>::empty());
    }
    let mut j: usize = 0;
    while j < names.len()
        invariant
            0 <= j <= names@.len(),
            sn == names@.map_values(|n: Vec<u8>| n@),
            ids@.len() == j,
            spec_resolve_names(index@, sn.take(j as int)) == Ok::<Seq<usize>, MeshError>(ids@),
            forall|k: int| 0 <= k < j ==> index@.contains_key(#[trigger] sn[k]),
        decreases names@.len() - j,
    {
        match index.get(names[j].as_slice()) {
            Some(id) => {
                ids.push(id);
            },
            None => {
                proof {
                    lemma_resolve_names_err(index@, sn, j as int);
                }
                return Err(MeshError::UnknownReference);
            },
        }
        proof {
            assert(sn.take(j + 1).drop_last() =~= sn.take(j as int));
            assert(sn.take(j + 1).last() == sn[j as int]);
        }
        j += 1;
    }
    proof {
        assert(sn.take(sn.len() as int) =~= sn);
    }
    Ok(ids)
}

impl Mesh {
    /// Builds a fresh mesh from a parse output: the node records in document
    /// order, then the cell records with every referenced node name resolved
    /// through the name index, then the group records with members resolved
    /// through the node index or the parallel cell-name index.  The first
    /// dangling reference or arity mismatch fails the whole build: no
    /// partially-populated mesh is ever returned.
    pub fn create_from_parser_output(parser_output: MailParseOutput) -> (r: Result<
        Mesh,
        MeshError,
    >)
        ensures
            ({
                let out = parser_output@;
                let ni = spec_node_index(out.nodes);
                let ci = spec_index_cells(out.cells);
                let rc = spec_resolve_cells(ni, out.cells);
                let rg = spec_build_groups(
                    Map::<Seq<u8>, Seq<usize>>::empty(),
                    Map::<Seq<u8>, Seq<usize>>::empty(),
                    ni,
                    ci,
                    out.groups,
                );
                match r {
                    Ok(mesh) => rc is Ok && rg is Ok && mesh.wf() && mesh.spec_nodes()
                        == out.nodes.map_values(|p: SpecNodeProp| spec_node_of(p))
                        && mesh.nodes_name_to_id@ == ni && mesh.spec_cells() == rc->Ok_0
                        && mesh.gno@ == rg->Ok_0.0 && mesh.gma@ == rg->Ok_0.1
                        && mesh.next_node_id == out.nodes.len() && mesh.next_cell_id
                        == out.cells.len(),
                    Err(e) => (rc is Err || rg is Err) && e == (if rc is Err {
                        rc->Err_0
                    } else {
                        rg->Err_0
                    }),
                }
            }),
    {
        let ghost out = parser_output@;
        let ghost ni = spec_node_index(out.nodes);
        let ghost ci = spec_index_cells(out.cells);
        let MailParseOutput { nodes, cells, groups } = parser_output;
        let n_count = nodes.len();
        proof {
            assert(n_count == nodes@.len());
        }
        let mut mesh = Mesh::new();
        mesh.add_nodes(nodes);
        proof {
            assert(mesh.nodes_name_to_id@ == ni);
            assert(out.cells.take(0).map_values(|c: SpecCellProp| c) =~= Seq::<
                SpecCellProp,
            >::empty());
            assert(spec_resolve_cells(ni, out.cells.take(0)) == Ok::<Seq<SpecMeshCell>, MeshError>(
                Seq::empty(),
            ));
            assert(mesh.spec_cells() =~= Seq::<SpecMeshCell>::empty());
            assert(spec_index_cells(out.cells.take(0)) =~= Map::<Seq<u8>, usize>::empty());
        }
        let mut cell_index = NameMap::new();
        let mut i: usize = 0;
        while i < cells.len()
            invariant
                0 <= i <= cells@.len(),
                out == parser_output@,
                out.cells == cells@.map_values(|c: CellProp| c@),
                ni == spec_node_index(out.nodes),
                mesh.wf(),
                mesh.nodes_name_to_id@ == ni,
                mesh.spec_nodes() == out.nodes.map_values(|p: SpecNodeProp| spec_node_of(p)),
                mesh.next_node_id == out.nodes.len(),
                mesh.next_cell_id == i,
                mesh.gno@ == Map::<Seq<u8>, Seq<usize>>::empty(),
                mesh.gma@ == Map::<Seq<u8>, Seq<usize>>::empty(),
                spec_resolve_cells(ni, out.cells.take(i as int)) == Ok::<
                    Seq<SpecMeshCell>,
                    MeshError,
                >(mesh.spec_cells()),
                forall|k: int|
                    0 <= k < i ==> spec_resolve_cell(ni, #[trigger] out.cells[k]) is Ok,
                cell_index@ == spec_index_cells(out.cells.take(i as int)),
            decreases cells@.len() - i,
        {
            proof {
                assert(cells@[i as int]@ == out.cells[i as int]);
                assert(cells@[i as int]@.nodes == cells@[i as int].nodes@.map_values(
                    |n: Vec<u8>| n@,
                ));
            }
            let co = match resolve_names(&mesh.nodes_name_to_id, &cells[i].nodes) {
                Ok(co) => co,
                Err(e) => {
                    proof {
                        assert(spec_resolve_cell(ni, out.cells[i as int]) is Err);
                        assert(spec_resolve_cell(ni, out.cells[i as int])->Err_0 == e);
                        lemma_resolve_cells_err(ni, out.cells, i as int);
                    }
                    return Err(e);
                },
            };
            let cell_id = match mesh.add_a_cell(cells[i].cell_type, &co) {
                Ok(cell_id) => cell_id,
                Err(e) => {
                    proof {
                        assert(spec_resolve_cell(ni, out.cells[i as int]) is Err);
                        assert(spec_resolve_cell(ni, out.cells[i as int])->Err_0 == e);
                        lemma_resolve_cells_err(ni, out.cells, i as int);
                    }
                    return Err(e);
                },
            };
            match &cells[i].name {
                Some(nm) => {
                    let owned = clone_bytes(nm);
                    cell_index.insert(owned, cell_id);
                },
                None => {},
            }
            proof {
                assert(out.cells.take(i + 1).drop_last() =~= out.cells.take(i as int));
                assert(out.cells.take(i + 1).last() == out.cells[i as int]);
                assert(spec_resolve_cell(ni, out.cells[i as int]) == Ok::<SpecMeshCell, MeshError>(
                    SpecMeshCell { ty: out.cells[i as int].cell_type, co: co@ },
                ));
            }
            i += 1;
        }
        proof {
            assert(out.cells.take(out.cells.len() as int) =~= out.cells);
        }
        let ghost rc = spec_resolve_cells(ni, out.cells);
        proof {
            assert(out.groups.take(0) =~= Seq::<SpecGroup>::empty());
        }
        let mut gi: usize = 0;
        while gi < groups.len()
            invariant
                0 <= gi <= groups@.len(),
                out == parser_output@,
                out.groups == groups@.map_values(|g: Group| g@),
                out.cells == cells@.map_values(|c: CellProp| c@),
                ni == spec_node_index(out.nodes),
                ci == spec_index_cells(out.cells),
                rc == spec_resolve_cells(ni, out.cells),
                mesh.wf(),
                mesh.nodes_name_to_id@ == ni,
                cell_index@ == ci,
                mesh.spec_nodes() == out.nodes.map_values(|p: SpecNodeProp| spec_node_of(p)),
                mesh.next_node_id == out.nodes.len(),
                mesh.next_cell_id == out.cells.len(),
                rc == Ok::<Seq<SpecMeshCell>, MeshError>(mesh.spec_cells()),
                spec_build_groups(
                    Map::<Seq<u8>, Seq<usize>>::empty(),
                    Map::<Seq<u8>, Seq<usize>>::empty(),
                    ni,
                    ci,
                    out.groups.take(gi as int),
                ) == Ok::<(Map<Seq<u8>, Seq<usize>>, Map<Seq<u8>, Seq<usize>>), MeshError>(
                    (mesh.gno@, mesh.gma@),
                ),
            decreases groups@.len() - gi,
        {
            proof {
                assert(groups@[gi as int]@ == out.groups[gi as int]);
                assert(groups@[gi as int]@.elems == groups@[gi as int].elems@.map_values(
                    |n: Vec<u8>| n@,
                ));
            }
            let resolved = match &groups[gi].group_type {
                GroupType::Node => resolve_names(&mesh.nodes_name_to_id, &groups[gi].elems),
                GroupType::Cell => resolve_names(&cell_index, &groups[gi].elems),
            };
            let ids = match resolved {
                Ok(ids) => ids,
                Err(e) => {
                    proof {
                        assert(spec_resolve_group(ni, ci, out.groups[gi as int]) is Err);
                        assert(spec_resolve_group(ni, ci, out.groups[gi as int])->Err_0 == e);
                        lemma_build_groups_err(
                            Map::<Seq<u8>, Seq<usize>>::empty(),
                            Map::<Seq<u8>, Seq<usize>>::empty(),
                            ni,
                            ci,
                            out.groups,
                            gi as int,
                        );
                    }
                    return Err(e);
                },
            };
            let tgt = sorted_dedup_vec(&ids);
            let owned_name = clone_bytes(&groups[gi].name);
            match &groups[gi].group_type {
                GroupType::Node => {
                    mesh.gno.insert(owned_name, tgt);
                },
                GroupType::Cell => {
                    mesh.gma.insert(owned_name, tgt);
                },
            }
            proof {
                assert(out.groups.take(gi + 1).drop_last() =~= out.groups.take(gi as int));
                assert(out.groups.take(gi + 1).last() == out.groups[gi as int]);
                assert(spec_resolve_group(ni, ci, out.groups[gi as int]) == Ok::<
                    Seq<usize>,
                    MeshError,
                >(ids@));
            }
            gi += 1;
        }
        proof {
            assert(out.groups.take(out.groups.len() as int) =~= out.groups);
        }
        Ok(mesh)
    }
}

/// The decimal digits of `n`, most significant first.
pub open spec fn spec_decimal(n: nat) -> Seq<u8>
    decreases n,
{
    if n < 10 {
        seq![(48 + n) as u8]
    } else {
        spec_decimal(n / 10).push((48 + n % 10) as u8)
    }
}

/// Appends the decimal digits of `n`.
fn push_decimal(n: usize, out: &mut Vec<u8>)
    ensures
        final(out)@ == old(out)@ + spec_decimal(n as nat),
    decreases n,
{
    if n < 10 {
        out.push(48 + n as u8);
        proof {
            assert(out@ =~= old(out)@ + spec_decimal(n as nat));
        }
    } else {
        proof {
            assert(n / 10 < n) by (nonlinear_arith)
                requires
                    n >= 10,
            ;
        }
        push_decimal(n / 10, out);
        out.push(48 + (n % 10) as u8);
        proof {
            assert(out@ =~= old(out)@ + spec_decimal(n as nat));
        }
    }
}

/// Copies a byte vector.
fn clone_bytes(v: &Vec<u8>) -> (r: Vec<u8>)
    ensures
        r@ == v@,
{
    crate::byte_ops::bytes_range_to_vec(v.as_slice(), 0, v.len())
}

} // verus!
