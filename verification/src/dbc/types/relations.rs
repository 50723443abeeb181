//! Attribute values held on relations: on a node and a signal
//! (`BU_SG_REL_`) or a node and a message (`BU_BO_REL_`).
use vstd::prelude::*;
use crate::dbc::types::attributes::{copy_values, table_of, table_put, table_put_exec, AttrValueView, AttributeValue};
use crate::dbc::types::keys::{KeyLike, NodeKey};
use crate::dbc::types::sorting::{lex_lt, lex_lt_exec};
use crate::text::{chars_of_string, eq_vec, string_of};

verus! {

/// A relation's attribute values, ordered by name.
pub type RelValues = Seq<(Seq<char>, AttrValueView)>;

/// The map a list of relation entries stands for (later entries win).
pub open spec fn rel_map<K>(s: Seq<((NodeKey, K), RelValues)>) -> Map<(NodeKey, K), RelValues>
    decreases s.len(),
{
    if s.len() == 0 {
        Map::empty()
    } else {
        rel_map(s.drop_last()).insert(s.last().0, s.last().1)
    }
}

/// The entries of a relation table as abstract values.
pub open spec fn rel_entries<K>(s: Seq<((NodeKey, K), Vec<(String, AttributeValue)>)>) -> Seq<((NodeKey, K), RelValues)> {
    s.map_values(|e: ((NodeKey, K), Vec<(String, AttributeValue)>)| (e.0, table_of(e.1@)))
}

/// `m` without the relations of node `nk` (when given) and of the other
/// entity `k` (when given).
pub open spec fn rel_without<K>(m: Map<(NodeKey, K), RelValues>, nk: Option<NodeKey>, k: Option<K>) -> Map<(NodeKey, K), RelValues> {
    Map::new(
        |p: (NodeKey, K)| m.contains_key(p) && nk != Some(p.0) && k != Some(p.1),
        |p: (NodeKey, K)| m[p],
    )
}

/// The values of relation `p` in `m`, none when it has none.
pub open spec fn rel_values<K>(m: Map<(NodeKey, K), RelValues>, p: (NodeKey, K)) -> RelValues {
    if m.contains_key(p) {
        m[p]
    } else {
        Seq::empty()
    }
}

/// Attribute values on pairs of a node and another entity (a signal or a
/// message).
#[derive(Debug)]
pub struct RelTable<K> {
    entries: Vec<((NodeKey, K), Vec<(String, AttributeValue)>)>,
}

impl<K> View for RelTable<K> {
    type V = Map<(NodeKey, K), RelValues>;

    closed spec fn view(&self) -> Map<(NodeKey, K), RelValues> {
        rel_map(rel_entries(self.entries@))
    }
}

impl<K: KeyLike> RelTable<K> {
    /// An empty table.
    pub fn new() -> (r: RelTable<K>)
        ensures
            r@ == Map::<(NodeKey, K), RelValues>::empty(),
    {
        let r = RelTable { entries: Vec::new() };
        assert(rel_entries(r.entries@) =~= Seq::<((NodeKey, K), RelValues)>::empty());
        r
    }

    /// A copy of the values of relation (`nk`, `k`), none when it has none.
    pub fn values_of(&self, nk: NodeKey, k: K) -> (r: Vec<(String, AttributeValue)>)
        ensures
            table_of(r@) == rel_values(self@, (nk, k)),
    {
        let ghost s = rel_entries(self.entries@);
        let mut found: Option<usize> = None;
        let mut i: usize = 0;
        while i < self.entries.len()
            invariant
                i <= self.entries.len(),
                s == rel_entries(self.entries@),
                match found {
                    Some(j) => j < i && rel_map(s.take(i as int)).contains_key((nk, k)) && rel_map(s.take(i as int))[(nk, k)]
                        == s[j as int].1,
                    None => !rel_map(s.take(i as int)).contains_key((nk, k)),
                },
            decreases self.entries.len() - i,
        {
            assert(s.take(i + 1).drop_last() =~= s.take(i as int));
            assert(s.take(i + 1).last() == s[i as int]);
            if self.entries[i].0.0.same(&nk) && self.entries[i].0.1.same(&k) {
                found = Some(i);
            }
            i = i + 1;
        }
        assert(s.take(self.entries.len() as int) =~= s);
        match found {
            Some(j) => copy_values(&self.entries[j].1),
            None => {
                let r: Vec<(String, AttributeValue)> = Vec::new();
                assert(table_of(r@) =~= Seq::<(Seq<char>, AttrValueView)>::empty());
                r
            },
        }
    }

    /// Forgets the relations of node `nk` (when given) and of the other
    /// entity `k` (when given).
    pub fn remove_where(&mut self, nk: Option<NodeKey>, k: Option<K>)
        ensures
            final(self)@ == rel_without(old(self)@, nk, k),
    {
        let ghost s = rel_entries(self.entries@);
        let mut out: Vec<((NodeKey, K), Vec<(String, AttributeValue)>)> = Vec::new();
        let mut i: usize = 0;
        assert(rel_entries(out@) =~= Seq::<((NodeKey, K), RelValues)>::empty());
        assert(rel_map(Seq::<((NodeKey, K), RelValues)>::empty()) =~= rel_without(rel_map(s.take(0)), nk, k));
        while i < self.entries.len()
            invariant
                i <= self.entries.len(),
                s == rel_entries(self.entries@),
                rel_map(rel_entries(out@)) == rel_without(rel_map(s.take(i as int)), nk, k),
            decreases self.entries.len() - i,
        {
            let ghost before = rel_entries(out@);
            assert(s.take(i + 1).drop_last() =~= s.take(i as int));
            assert(s.take(i + 1).last() == s[i as int]);
            let p: (NodeKey, K) = self.entries[i].0;
            let drop_node: bool = match nk {
                Some(n) => p.0.same(&n),
                None => false,
            };
            let drop_other: bool = match k {
                Some(o) => p.1.same(&o),
                None => false,
            };
            if !drop_node && !drop_other {
                let e = (p, copy_values(&self.entries[i].1));
                out.push(e);
                assert(rel_entries(out@) =~= before.push(s[i as int]));
                assert(rel_entries(out@).drop_last() =~= before);
                assert(rel_map(rel_entries(out@)) =~= rel_without(rel_map(s.take(i + 1)), nk, k));
            } else {
                assert(rel_map(before) =~= rel_without(rel_map(s.take(i + 1)), nk, k));
            }
            i = i + 1;
        }
        assert(s.take(self.entries.len() as int) =~= s);
        self.entries = out;
    }

    /// Sets attribute `name` of relation (`nk`, `k`) to `v`, the relation's
    /// other values kept.
    pub fn put(&mut self, nk: NodeKey, k: K, name: String, v: AttributeValue)
        ensures
            final(self)@ == old(self)@.insert((nk, k), table_put(rel_values(old(self)@, (nk, k)), name@, v@)),
    {
        let mut t: Vec<(String, AttributeValue)> = self.values_of(nk, k);
        table_put_exec(&mut t, name, v);
        let ghost m0 = self@;
        self.remove_where_pair(nk, k);
        let ghost before = rel_entries(self.entries@);
        let ghost tv = table_of(t@);
        self.entries.push(((nk, k), t));
        proof {
            assert(rel_entries(self.entries@) =~= before.push(((nk, k), tv)));
            assert(rel_entries(self.entries@).drop_last() =~= before);
            assert(self@ =~= m0.insert((nk, k), tv));
        }
    }

    /// Forgets relation (`nk`, `k`).
    fn remove_where_pair(&mut self, nk: NodeKey, k: K)
        ensures
            final(self)@ == old(self)@.remove((nk, k)),
    {
        let ghost s = rel_entries(self.entries@);
        let mut out: Vec<((NodeKey, K), Vec<(String, AttributeValue)>)> = Vec::new();
        let mut i: usize = 0;
        assert(rel_entries(out@) =~= Seq::<((NodeKey, K), RelValues)>::empty());
        assert(rel_map(Seq::<((NodeKey, K), RelValues)>::empty()) =~= rel_map(s.take(0)).remove((nk, k)));
        while i < self.entries.len()
            invariant
                i <= self.entries.len(),
                s == rel_entries(self.entries@),
                rel_map(rel_entries(out@)) == rel_map(s.take(i as int)).remove((nk, k)),
            decreases self.entries.len() - i,
        {
            let ghost before = rel_entries(out@);
            assert(s.take(i + 1).drop_last() =~= s.take(i as int));
            assert(s.take(i + 1).last() == s[i as int]);
            let p: (NodeKey, K) = self.entries[i].0;
            if !(p.0.same(&nk) && p.1.same(&k)) {
                let e = (p, copy_values(&self.entries[i].1));
                out.push(e);
                assert(rel_entries(out@) =~= before.push(s[i as int]));
                assert(rel_entries(out@).drop_last() =~= before);
                assert(rel_map(rel_entries(out@)) =~= rel_map(s.take(i + 1)).remove((nk, k)));
            } else {
                assert(rel_map(before) =~= rel_map(s.take(i + 1)).remove((nk, k)));
            }
            i = i + 1;
        }
        assert(s.take(self.entries.len() as int) =~= s);
        self.entries = out;
    }
}

/// A relation to write out: the node's name, the message's identifier, the
/// name of the signal (empty for a node-message relation), and the keys of
/// the node and of the other entity.
pub struct RowKey<K> {
    pub node: Seq<char>,
    pub id: u32,
    pub obj: Seq<char>,
    pub nk: NodeKey,
    pub k: K,
}

/// `a` comes strictly before `b`: by node name, then identifier, then
/// signal name (names compared as `String`s are).
pub open spec fn row_lt<K>(a: RowKey<K>, b: RowKey<K>) -> bool {
    lex_lt(a.node, b.node) || (a.node == b.node && (a.id < b.id || (a.id == b.id && lex_lt(a.obj, b.obj))))
}

/// Where row `r` goes in `s`: before the first row that comes strictly
/// after it, so after every row with an equal key.
pub open spec fn row_place<K>(s: Seq<RowKey<K>>, r: RowKey<K>) -> int
    decreases s.len(),
{
    if s.len() == 0 {
        0
    } else if row_lt(r, s[0]) {
        0
    } else {
        1 + row_place(s.drop_first(), r)
    }
}

/// The rows sorted by node name, identifier and signal name, rows with
/// equal keys kept in their order (a stable sort, as `sort_by` is).
pub open spec fn sort_rows<K>(s: Seq<RowKey<K>>) -> Seq<RowKey<K>>
    decreases s.len(),
{
    if s.len() == 0 {
        s
    } else {
        let t = sort_rows(s.drop_last());
        t.insert(row_place(t, s.last()), s.last())
    }
}

/// A relation row as held at run time.
pub struct RelRow<K> {
    pub node: String,
    pub id: u32,
    pub obj: String,
    pub nk: NodeKey,
    pub k: K,
}

impl<K> View for RelRow<K> {
    type V = RowKey<K>;

    open spec fn view(&self) -> RowKey<K> {
        RowKey { node: self.node@, id: self.id, obj: self.obj@, nk: self.nk, k: self.k }
    }
}

/// The rows as abstract values.
pub open spec fn rows_view<K>(v: Seq<RelRow<K>>) -> Seq<RowKey<K>> {
    v.map_values(|r: RelRow<K>| r@)
}

fn row_lt_exec<K>(a: &RelRow<K>, b: &RelRow<K>) -> (r: bool)
    ensures
        r == row_lt(a@, b@),
{
    let an: Vec<char> = chars_of_string(&a.node);
    let bn: Vec<char> = chars_of_string(&b.node);
    if lex_lt_exec(&an, &bn) {
        true
    } else if !eq_vec(&an, &bn) {
        false
    } else if a.id != b.id {
        a.id < b.id
    } else {
        lex_lt_exec(&chars_of_string(&a.obj), &chars_of_string(&b.obj))
    }
}

fn row_place_exec<K>(s: &Vec<RelRow<K>>, r: &RelRow<K>) -> (i: usize)
    ensures
        i == row_place(rows_view(s@), r@),
        i <= s.len(),
{
    let ghost sv = rows_view(s@);
    let mut i: usize = 0;
    assert(sv.skip(0) =~= sv);
    while i < s.len() && !row_lt_exec(r, &s[i])
        invariant
            i <= s.len(),
            sv == rows_view(s@),
            row_place(sv, r@) == i + row_place(sv.skip(i as int), r@),
        decreases s.len() - i,
    {
        assert(sv.skip(i as int)[0] == sv[i as int]);
        assert(sv.skip(i as int).drop_first() =~= sv.skip(i + 1));
        i = i + 1;
    }
    if i < s.len() {
        assert(sv.skip(i as int)[0] == sv[i as int]);
    }
    i
}

/// A copy of a row.
pub fn copy_row<K: Copy>(r: &RelRow<K>) -> (c: RelRow<K>)
    ensures
        c@ == r@,
{
    RelRow {
        node: string_of(&chars_of_string(&r.node)),
        id: r.id,
        obj: string_of(&chars_of_string(&r.obj)),
        nk: r.nk,
        k: r.k,
    }
}

/// The rows, stably sorted by node name, identifier and signal name.
pub fn sort_rows_exec<K: Copy>(v: &Vec<RelRow<K>>) -> (r: Vec<RelRow<K>>)
    ensures
        rows_view(r@) == sort_rows(rows_view(v@)),
{
    let ghost vv = rows_view(v@);
    let mut out: Vec<RelRow<K>> = Vec::new();
    let mut i: usize = 0;
    assert(vv.take(0) =~= Seq::<RowKey<K>>::empty());
    assert(rows_view(out@) =~= Seq::<RowKey<K>>::empty());
    while i < v.len()
        invariant
            i <= v.len(),
            vv == rows_view(v@),
            rows_view(out@) == sort_rows(vv.take(i as int)),
        decreases v.len() - i,
    {
        let e: RelRow<K> = copy_row(&v[i]);
        let pos: usize = row_place_exec(&out, &e);
        let ghost before = rows_view(out@);
        let ghost ee = e@;
        out.insert(pos, e);
        proof {
            assert(vv.take(i + 1).drop_last() =~= vv.take(i as int));
            assert(vv.take(i + 1).last() == vv[i as int]);
            assert(vv[i as int] == ee);
            assert(rows_view(out@) =~= before.insert(pos as int, ee));
        }
        i = i + 1;
    }
    assert(vv.take(v.len() as int) =~= vv);
    out
}

} // verus!

