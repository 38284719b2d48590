//! Name-keyed indexes of the mesh store: names to identifiers, and group
//! names to identifier lists.
//!
//! Both are association lists whose mathematical value is a [`Map`]; a later
//! binding of the same name shadows an earlier one, as inserting into a map
//! does.

use vstd::prelude::*;

use crate::byte_ops::bytes_eq;

verus! {

// ---------------------------------------------------------------------------
// Names to identifiers
// ---------------------------------------------------------------------------

/// One binding of a name to an identifier.
#[derive(Debug, Clone, PartialEq)]
pub struct NameEntry {
    pub name: Vec<u8>,
    pub id: usize,
}

/// The identifier the entry list binds `k` to; the last binding wins.
pub open spec fn spec_get_id(entries: Seq<NameEntry>, k: Seq<u8>) -> Option<usize>
    decreases entries.len(),
{
    if entries.len() == 0 {
        None
    } else if entries.last().name@ == k {
        Some(entries.last().id)
    } else {
        spec_get_id(entries.drop_last(), k)
    }
}

/// An index from names to identifiers.
#[derive(Debug, Clone, PartialEq)]
pub struct NameMap {
    entries: Vec<NameEntry>,
}

impl View for NameMap {
    type V = Map<Seq<u8>, usize>;

    closed spec fn view(&self) -> Map<Seq<u8>, usize> {
        Map::new(
            |k: Seq<u8>| spec_get_id(self.entries@, k) is Some,
            |k: Seq<u8>| spec_get_id(self.entries@, k).unwrap(),
        )
    }
}

impl NameMap {
    /// An empty index.
    pub fn new() -> (r: Self)
        ensures
            r@ == Map::<Seq<u8>, usize>::empty(),
    {
        let r = NameMap { entries: Vec::new() };
        proof {
            assert(r@ =~= Map::<Seq<u8>, usize>::empty());
        }
        r
    }

    /// Binds `name` to `id`, shadowing any earlier binding.
    pub fn insert(&mut self, name: Vec<u8>, id: usize)
        ensures
            final(self)@ == old(self)@.insert(name@, id),
    {
        let ghost n = name@;
        self.entries.push(NameEntry { name, id });
        proof {
            let e2 = self.entries@;
            assert(e2.drop_last() =~= old(self).entries@);
            assert forall|k: Seq<u8>| true implies spec_get_id(e2, k) == (if k == n {
                Some(id)
            } else {
                spec_get_id(old(self).entries@, k)
            }) by {
                assert(e2.last().name@ == n);
            }
            assert(self@ =~= old(self)@.insert(n, id));
        }
    }

    /// Looks a name up.
    pub fn get(&self, name: &[u8]) -> (r: Option<usize>)
        ensures
            r is Some <==> self@.contains_key(name@),
            r matches Some(v) ==> self@[name@] == v,
    {
        let ghost e = self.entries@;
        let mut i: usize = self.entries.len();
        proof {
            assert(e.take(e.len() as int) =~= e);
        }
        while i > 0
            invariant
                0 <= i <= e.len(),
                e == self.entries@,
                spec_get_id(e, name@) == spec_get_id(e.take(i as int), name@),
            decreases i,
        {
            i -= 1;
            proof {
                assert(e.take(i + 1).drop_last() =~= e.take(i as int));
                assert(e.take(i + 1).last() == e[i as int]);
            }
            if bytes_eq(self.entries[i].name.as_slice(), name) {
                return Some(self.entries[i].id);
            }
        }
        proof {
            assert(e.take(0) =~= Seq::<NameEntry>::empty());
        }
        None
    }
}

// ---------------------------------------------------------------------------
// Group names to identifier lists
// ---------------------------------------------------------------------------

/// One group: a name bound to a list of identifiers.
#[derive(Debug, Clone, PartialEq)]
pub struct GroupEntry {
    pub name: Vec<u8>,
    pub ids: Vec<usize>,
}

/// The identifier list the entry list binds `k` to; the last binding wins.
pub open spec fn spec_get_ids(entries: Seq<GroupEntry>, k: Seq<u8>) -> Option<Seq<usize>>
    decreases entries.len(),
{
    if entries.len() == 0 {
        None
    } else if entries.last().name@ == k {
        Some(entries.last().ids@)
    } else {
        spec_get_ids(entries.drop_last(), k)
    }
}

/// An index from group names to identifier lists.
#[derive(Debug, Clone, PartialEq)]
pub struct GroupMap {
    entries: Vec<GroupEntry>,
}

impl View for GroupMap {
    type V = Map<Seq<u8>, Seq<usize>>;

    closed spec fn view(&self) -> Map<Seq<u8>, Seq<usize>> {
        Map::new(
            |k: Seq<u8>| spec_get_ids(self.entries@, k) is Some,
            |k: Seq<u8>| spec_get_ids(self.entries@, k).unwrap(),
        )
    }
}

impl GroupMap {
    /// The number of groups held.
    pub closed spec fn spec_len(self) -> nat {
        self.entries@.len()
    }

    /// An empty index.
    pub fn new() -> (r: Self)
        ensures
            r@ == Map::<Seq<u8>, Seq<usize>>::empty(),
            r.spec_len() == 0,
    {
        let r = GroupMap { entries: Vec::new() };
        proof {
            assert(r@ =~= Map::<Seq<u8>, Seq<usize>>::empty());
        }
        r
    }

    /// The number of groups held.
    pub fn len(&self) -> (r: usize)
        ensures
            r == self.spec_len(),
    {
        self.entries.len()
    }

    /// Binds `name` to `ids`.  An existing group of that name is replaced;
    /// otherwise a new group is added.
    pub fn insert(&mut self, name: Vec<u8>, ids: Vec<usize>)
        ensures
            final(self)@ == old(self)@.insert(name@, ids@),
            final(self).spec_len() == old(self).spec_len() + (if old(self)@.contains_key(name@) {
                0int
            } else {
                1int
            }),
    {
        let ghost n = name@;
        let ghost v = ids@;
        let ghost e = self.entries@;
        // Search for the last (visible) binding of `name`.
        let mut i: usize = self.entries.len();
        proof {
            assert(e.take(e.len() as int) =~= e);
        }
        while i > 0
            invariant
                0 <= i <= e.len(),
                e == self.entries@,
                e == old(self).entries@,
                name@ == n,
                ids@ == v,
                spec_get_ids(e, n) == spec_get_ids(e.take(i as int), n),
                forall|j: int| i <= j < e.len() ==> (#[trigger] e[j]).name@ != n,
            decreases i,
        {
            proof {
                assert(e.take(i as int).drop_last() =~= e.take(i - 1));
                assert(e.take(i as int).last() == e[i - 1]);
            }
            if bytes_eq(self.entries[i - 1].name.as_slice(), name.as_slice()) {
                // Replace the binding in place.
                let entry = GroupEntry { name, ids };
                self.entries[i - 1] = entry;
                proof {
                    let e2 = self.entries@;
                    assert(e2 == e.update(i - 1, entry));
                    assert(e2[i - 1].name@ == n);
                    lemma_get_ids_update(e, e2, i - 1, n, v);
                    assert(e.take(i as int).last() == e[i - 1]);
                    assert(spec_get_ids(e, n) is Some);
                    assert(self@ =~= old(self)@.insert(n, v));
                    assert(old(self)@.contains_key(n));
                }
                return ;
            }
            i -= 1;
        }
        proof {
            assert(e.take(0) =~= Seq::<GroupEntry>::empty());
            assert(spec_get_ids(e, n) is None);
        }
        self.entries.push(GroupEntry { name, ids });
        proof {
            let e2 = self.entries@;
            assert(e2.drop_last() =~= e);
            assert forall|k: Seq<u8>| true implies spec_get_ids(e2, k) == (if k == n {
                Some(v)
            } else {
                spec_get_ids(e, k)
            }) by {
                assert(e2.last().name@ == n);
            }
            assert(self@ =~= old(self)@.insert(n, v));
            assert(!old(self)@.contains_key(n));
        }
    }

    /// Looks a group name up.
    pub fn get(&self, name: &[u8]) -> (r: Option<&Vec<usize>>)
        ensures
            r is Some <==> self@.contains_key(name@),
            r matches Some(v) ==> self@[name@] == v@,
    {
        let ghost e = self.entries@;
        let mut i: usize = self.entries.len();
        proof {
            assert(e.take(e.len() as int) =~= e);
        }
        while i > 0
            invariant
                0 <= i <= e.len(),
                e == self.entries@,
                spec_get_ids(e, name@) == spec_get_ids(e.take(i as int), name@),
            decreases i,
        {
            i -= 1;
            proof {
                assert(e.take(i + 1).drop_last() =~= e.take(i as int));
                assert(e.take(i + 1).last() == e[i as int]);
            }
            if bytes_eq(self.entries[i].name.as_slice(), name) {
                return Some(&self.entries[i].ids);
            }
        }
        proof {
            assert(e.take(0) =~= Seq::<GroupEntry>::empty());
        }
        None
    }
}

/// Replacing the last visible binding of `k` updates the map at `k` alone.
proof fn lemma_get_ids_update(e: Seq<GroupEntry>, e2: Seq<GroupEntry>, j: int, k: Seq<u8>, v: Seq<
    usize,
>)
    requires
        0 <= j < e.len(),
        e2.len() == e.len(),
        e2[j].name@ == k,
        e2[j].ids@ == v,
        e[j].name@ == k,
        forall|i: int| j < i < e.len() ==> (#[trigger] e[i]).name@ != k,
        forall|i: int| 0 <= i < e.len() && i != j ==> e2[i] == e[i],
    ensures
        forall|k2: Seq<u8>|
            spec_get_ids(e2, k2) == (if k2 == k {
                Some(v)
            } else {
                spec_get_ids(e, k2)
            }),
    decreases e.len(),
{
    assert forall|k2: Seq<u8>| true implies spec_get_ids(e2, k2) == (if k2 == k {
        Some(v)
    } else {
        spec_get_ids(e, k2)
    }) by {
        lemma_get_ids_update_one(e, e2, j, k, v, k2);
    }
}

/// The pointwise form of [`lemma_get_ids_update`].
proof fn lemma_get_ids_update_one(
    e: Seq<GroupEntry>,
    e2: Seq<GroupEntry>,
    j: int,
    k: Seq<u8>,
    v: Seq<usize>,
    k2: Seq<u8>,
)
    requires
        0 <= j < e.len(),
        e2.len() == e.len(),
        e2[j].name@ == k,
        e2[j].ids@ == v,
        e[j].name@ == k,
        forall|i: int| j < i < e.len() ==> (#[trigger] e[i]).name@ != k,
        forall|i: int| 0 <= i < e.len() && i != j ==> e2[i] == e[i],
    ensures
        spec_get_ids(e2, k2) == (if k2 == k {
            Some(v)
        } else {
            spec_get_ids(e, k2)
        }),
    decreases e.len(),
{
    if j == e.len() - 1 {
        if k2 == k {
            assert(spec_get_ids(e2, k2) == Some(v));
        } else {
            assert(e2.drop_last() =~= e.drop_last());
        }
    } else {
        assert(e2.last() == e.last());
        if e.last().name@ == k2 {
        } else {
            lemma_get_ids_update_one(e.drop_last(), e2.drop_last(), j, k, v, k2);
            assert(e2.drop_last()[j] == e2[j]);
            assert(e.drop_last()[j] == e[j]);
        }
    }
}

} // verus!
