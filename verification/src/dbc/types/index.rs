//! Lookup tables from normalized names (or identifiers) to keys.
//!
//! A name table is a list of entries; a later entry for a name replaces an
//! earlier one, so the table means the map built by inserting its entries in
//! order. The identifier table is a `HashMap`.
use vstd::prelude::*;
use std::collections::HashMap;
use crate::dbc::types::keys::{KeyLike, MessageKey};
use crate::text::eq_vec;

verus! {

/// The map a list of named entries stands for (later entries win).
pub open spec fn named_map<K>(s: Seq<(Seq<char>, K)>) -> Map<Seq<char>, K>
    decreases s.len(),
{
    if s.len() == 0 {
        Map::empty()
    } else {
        named_map(s.drop_last()).insert(s.last().0, s.last().1)
    }
}

/// The entries of a named table as sequences of characters.
pub open spec fn entries_view<K>(s: Seq<(Vec<char>, K)>) -> Seq<(Seq<char>, K)> {
    s.map_values(|e: (Vec<char>, K)| (e.0@, e.1))
}

/// A table from names to keys.
#[derive(Debug)]
pub struct NameIndex<K> {
    entries: Vec<(Vec<char>, K)>,
}

impl<K> View for NameIndex<K> {
    type V = Map<Seq<char>, K>;

    closed spec fn view(&self) -> Map<Seq<char>, K> {
        named_map(entries_view(self.entries@))
    }
}

proof fn lemma_named_map_finite<K>(s: Seq<(Seq<char>, K)>)
    ensures
        named_map(s).dom().finite(),
    decreases s.len(),
{
    if s.len() > 0 {
        lemma_named_map_finite(s.drop_last());
    }
}

/// The last entry named `n` decides; when none is, the name is absent.
proof fn lemma_named_map_last<K>(s: Seq<(Seq<char>, K)>, n: Seq<char>, i: int)
    requires
        -1 <= i < s.len(),
        i >= 0 ==> s[i].0 == n,
        forall|j: int| i < j < s.len() ==> s[j].0 != n,
    ensures
        i >= 0 ==> named_map(s).contains_key(n) && named_map(s)[n] == s[i].1,
        i < 0 ==> (forall|j: int| 0 <= j < s.len() ==> s[j].0 != n) ==> !named_map(s).contains_key(n),
    decreases s.len(),
{
    if s.len() > 0 && s.len() - 1 > i {
        lemma_named_map_last(s.drop_last(), n, i);
    }
}

impl<K: KeyLike> NameIndex<K> {
    /// An empty table.
    pub fn new() -> (r: NameIndex<K>)
        ensures
            r@ == Map::<Seq<char>, K>::empty(),
    {
        let r: NameIndex<K> = NameIndex { entries: Vec::new() };
        assert(entries_view(r.entries@) =~= Seq::<(Seq<char>, K)>::empty());
        r
    }

    /// The key stored for `name`.
    pub fn get(&self, name: &Vec<char>) -> (r: Option<K>)
        ensures
            self@.contains_key(name@) ==> r == Some(self@[name@]),
            !self@.contains_key(name@) ==> r is None,
    {
        let ghost s = entries_view(self.entries@);
        let mut i: usize = self.entries.len();
        while i > 0
            invariant
                i <= self.entries.len(),
                s == entries_view(self.entries@),
                forall|j: int| i <= j < s.len() ==> s[j].0 != name@,
            decreases i,
        {
            i = i - 1;
            if eq_vec(&self.entries[i].0, name) {
                proof {
                    lemma_named_map_last(s, name@, i as int);
                }
                return Some(self.entries[i].1);
            }
        }
        proof {
            lemma_named_map_last(s, name@, -1);
        }
        None
    }

    /// Stores `k` for `name`.
    pub fn insert(&mut self, name: Vec<char>, k: K)
        ensures
            final(self)@ == old(self)@.insert(name@, k),
    {
        let ghost before = entries_view(self.entries@);
        let ghost n = name@;
        self.entries.push((name, k));
        assert(entries_view(self.entries@) =~= before.push((n, k)));
        assert(entries_view(self.entries@).drop_last() =~= before);
    }

    /// Forgets `name`.
    pub fn remove(&mut self, name: &Vec<char>)
        ensures
            final(self)@ == old(self)@.remove(name@),
    {
        let ghost s = entries_view(self.entries@);
        let mut out: Vec<(Vec<char>, K)> = Vec::new();
        let mut i: usize = 0;
        while i < self.entries.len()
            invariant
                i <= self.entries.len(),
                s == entries_view(self.entries@),
                named_map(entries_view(out@)) == named_map(s.take(i as int)).remove(name@),
            decreases self.entries.len() - i,
        {
            let ghost before = entries_view(out@);
            assert(s.take(i + 1).drop_last() =~= s.take(i as int));
            assert(s.take(i + 1).last() == s[i as int]);
            if !eq_vec(&self.entries[i].0, name) {
                let e: (Vec<char>, K) = (crate::text::slice_of(&self.entries[i].0, 0, self.entries[i].0.len()), self.entries[i].1);
                assert(e.0@ =~= self.entries@[i as int].0@);
                out.push(e);
                assert(entries_view(out@) =~= before.push(s[i as int]));
                assert(entries_view(out@).drop_last() =~= before);
                assert(named_map(entries_view(out@)) =~= named_map(s.take(i + 1)).remove(name@));
            } else {
                assert(named_map(before) =~= named_map(s.take(i + 1)).remove(name@));
            }
            i = i + 1;
        }
        assert(s.take(self.entries.len() as int) =~= s);
        self.entries = out;
    }
}

/// A table from numeric identifiers to message keys.
#[derive(Debug)]
pub struct IdIndex {
    map: HashMap<u32, MessageKey>,
}

impl View for IdIndex {
    type V = Map<u32, MessageKey>;

    closed spec fn view(&self) -> Map<u32, MessageKey> {
        self.map@
    }
}

impl IdIndex {
    /// An empty table.
    pub fn new() -> (r: IdIndex)
        ensures
            r@ == Map::<u32, MessageKey>::empty(),
    {
        IdIndex { map: HashMap::new() }
    }

    /// The key stored for `id`.
    pub fn get(&self, id: u32) -> (r: Option<MessageKey>)
        ensures
            self@.contains_key(id) ==> r == Some(self@[id]),
            !self@.contains_key(id) ==> r is None,
    {
        broadcast use vstd::std_specs::hash::group_hash_axioms;
        match self.map.get(&id) {
            Some(k) => Some(*k),
            None => None,
        }
    }

    /// Stores `k` for `id`.
    pub fn insert(&mut self, id: u32, k: MessageKey)
        ensures
            final(self)@ == old(self)@.insert(id, k),
    {
        broadcast use vstd::std_specs::hash::group_hash_axioms;
        self.map.insert(id, k);
    }

    /// Forgets `id`.
    pub fn remove(&mut self, id: u32)
        ensures
            final(self)@ == old(self)@.remove(id),
    {
        broadcast use vstd::std_specs::hash::group_hash_axioms;
        self.map.remove(&id);
    }
}

} // verus!
