//! Stable sorting of keys by a sort key: rank, then name, then slot order.
use vstd::prelude::*;
use crate::dbc::types::arena::{slot_key_less, slot_rank};
use crate::text::eq_vec;

verus! {

/// What entries are sorted by: a rank, then a name (compared character by
/// character, by code point), then the slot order of a key handle.
pub struct SortKey {
    pub rank: u8,
    pub name: Seq<char>,
    pub tie: u64,
}

/// A sort key as held at run time.
pub struct ExecSortKey {
    pub rank: u8,
    pub name: Vec<char>,
    pub tie: u64,
}

impl View for ExecSortKey {
    type V = SortKey;

    open spec fn view(&self) -> SortKey {
        SortKey { rank: self.rank, name: self.name@, tie: self.tie }
    }
}

/// `a` comes strictly before `b` in lexicographic order (what `<` on
/// `String` gives: UTF-8 byte order is code point order).
pub open spec fn lex_lt(a: Seq<char>, b: Seq<char>) -> bool
    decreases a.len(),
{
    if a.len() == 0 {
        b.len() > 0
    } else if b.len() == 0 {
        false
    } else if a[0] != b[0] {
        (a[0] as u32) < (b[0] as u32)
    } else {
        lex_lt(a.drop_first(), b.drop_first())
    }
}

/// `a` comes strictly before `b`: by rank, then name, then slot order.
pub open spec fn key_lt(a: SortKey, b: SortKey) -> bool {
    a.rank < b.rank || (a.rank == b.rank && (lex_lt(a.name, b.name) || (a.name == b.name && slot_rank(a.tie)
        < slot_rank(b.tie))))
}

/// The entries with their keys as views.
pub open spec fn entries_view<K>(v: Seq<(K, ExecSortKey)>) -> Seq<(K, SortKey)> {
    v.map_values(|e: (K, ExecSortKey)| (e.0, e.1@))
}

/// The items of the entries, in order.
pub open spec fn items_of<K>(s: Seq<(K, SortKey)>) -> Seq<K> {
    s.map_values(|e: (K, SortKey)| e.0)
}

/// Where an entry with key `k` goes in `s`: before the first entry whose key
/// comes strictly after `k`, so after every entry with an equal key.
pub open spec fn place<K>(s: Seq<(K, SortKey)>, k: SortKey) -> int
    decreases s.len(),
{
    if s.len() == 0 {
        0
    } else if key_lt(k, s[0].1) {
        0
    } else {
        1 + place(s.drop_first(), k)
    }
}

/// The entries sorted by key, entries with equal keys kept in their order
/// (a stable sort, as `sort_by_key` and `sort_by_cached_key` are).
pub open spec fn stable_sort<K>(s: Seq<(K, SortKey)>) -> Seq<(K, SortKey)>
    decreases s.len(),
{
    if s.len() == 0 {
        s
    } else {
        let t = stable_sort(s.drop_last());
        t.insert(place(t, s.last().1), s.last())
    }
}

pub proof fn lemma_place_bounds<K>(s: Seq<(K, SortKey)>, k: SortKey)
    ensures
        0 <= place(s, k) <= s.len(),
    decreases s.len(),
{
    if s.len() > 0 && !key_lt(k, s[0].1) {
        lemma_place_bounds(s.drop_first(), k);
    }
}

pub proof fn lemma_stable_sort_len<K>(s: Seq<(K, SortKey)>)
    ensures
        stable_sort(s).len() == s.len(),
    decreases s.len(),
{
    if s.len() > 0 {
        lemma_stable_sort_len(s.drop_last());
        lemma_place_bounds(stable_sort(s.drop_last()), s.last().1);
    }
}

/// A stable sort keeps the items: the same ones, as many, none repeated
/// that was not repeated before.
pub proof fn lemma_stable_sort_items<K>(s: Seq<(K, SortKey)>)
    ensures
        stable_sort(s).len() == s.len(),
        forall|x: K| items_of(stable_sort(s)).contains(x) <==> items_of(s).contains(x),
        items_of(s).no_duplicates() ==> items_of(stable_sort(s)).no_duplicates(),
    decreases s.len(),
{
    if s.len() > 0 {
        let s0 = s.drop_last();
        let t = stable_sort(s0);
        let e = s.last();
        lemma_stable_sort_items(s0);
        lemma_place_bounds(t, e.1);
        let p = place(t, e.1);
        t.insert_ensures(p, e);
        let r = t.insert(p, e);
        assert(r == stable_sort(s));
        assert(items_of(s) =~= items_of(s0).push(e.0));
        let ir = items_of(r);
        let it = items_of(t);
        assert(ir.len() == it.len() + 1);
        assert forall|i: int| 0 <= i < ir.len() implies #[trigger] ir[i] == (if i < p {
            it[i]
        } else if i == p {
            e.0
        } else {
            it[i - 1]
        }) by {
            if i > p {
                assert(r[(i - 1) + 1] == t[i - 1]);
            }
        }
        assert forall|x: K| ir.contains(x) <==> items_of(s).contains(x) by {
            if ir.contains(x) {
                let i = choose|i: int| 0 <= i < ir.len() && ir[i] == x;
                if i < p {
                    assert(it[i] == x);
                    assert(items_of(s0).contains(x));
                    let j = choose|j: int| 0 <= j < items_of(s0).len() && items_of(s0)[j] == x;
                    assert(items_of(s)[j] == x);
                } else if i == p {
                    assert(items_of(s)[s.len() - 1] == x);
                } else {
                    assert(it[i - 1] == x);
                    assert(items_of(s0).contains(x));
                    let j = choose|j: int| 0 <= j < items_of(s0).len() && items_of(s0)[j] == x;
                    assert(items_of(s)[j] == x);
                }
            }
            if items_of(s).contains(x) {
                let j = choose|j: int| 0 <= j < items_of(s).len() && items_of(s)[j] == x;
                if j == s.len() - 1 {
                    assert(ir[p] == x);
                } else {
                    assert(items_of(s0)[j] == x);
                    assert(items_of(s0).contains(x));
                    assert(it.contains(x));
                    let i = choose|i: int| 0 <= i < it.len() && it[i] == x;
                    if i < p {
                        assert(ir[i] == x);
                    } else {
                        assert(ir[i + 1] == x);
                    }
                }
            }
        }
        if items_of(s).no_duplicates() {
            assert(items_of(s0).no_duplicates()) by {
                assert forall|a: int, b: int| 0 <= a < b < items_of(s0).len() implies items_of(s0)[a]
                    != items_of(s0)[b] by {
                    assert(items_of(s)[a] == items_of(s0)[a] && items_of(s)[b] == items_of(s0)[b]);
                }
            }
            assert(!it.contains(e.0)) by {
                if it.contains(e.0) {
                    assert(items_of(s0).contains(e.0));
                    let j = choose|j: int| 0 <= j < items_of(s0).len() && items_of(s0)[j] == e.0;
                    assert(items_of(s)[j] == items_of(s)[s.len() - 1]);
                }
            }
            assert forall|a: int, b: int| 0 <= a < b < ir.len() implies ir[a] != ir[b] by {
                if a < p && b < p {
                } else if a < p && b == p {
                    assert(it.contains(it[a]));
                } else if a < p {
                } else if a == p {
                    assert(it.contains(it[b - 1]));
                } else {
                }
            }
        }
    }
}

proof fn lemma_lex_lt_irreflexive(a: Seq<char>)
    ensures
        !lex_lt(a, a),
    decreases a.len(),
{
    if a.len() > 0 {
        lemma_lex_lt_irreflexive(a.drop_first());
    }
}

proof fn lemma_lex_lt_transitive(a: Seq<char>, b: Seq<char>, c: Seq<char>)
    requires
        lex_lt(a, b),
        lex_lt(b, c),
    ensures
        lex_lt(a, c),
    decreases a.len(),
{
    if a.len() > 0 && b.len() > 0 && c.len() > 0 && a[0] == b[0] && b[0] == c[0] {
        lemma_lex_lt_transitive(a.drop_first(), b.drop_first(), c.drop_first());
    }
}

proof fn lemma_key_lt_order(a: SortKey, b: SortKey, c: SortKey)
    ensures
        !key_lt(a, a),
        key_lt(a, b) && key_lt(b, c) ==> key_lt(a, c),
{
    lemma_lex_lt_irreflexive(a.name);
    if key_lt(a, b) && key_lt(b, c) {
        if a.rank == b.rank && b.rank == c.rank {
            if lex_lt(a.name, b.name) && lex_lt(b.name, c.name) {
                lemma_lex_lt_transitive(a.name, b.name, c.name);
            }
        }
    }
}

proof fn lemma_place_props<K>(t: Seq<(K, SortKey)>, k: SortKey)
    ensures
        forall|i: int| 0 <= i < place(t, k) ==> !key_lt(k, #[trigger] t[i].1),
        place(t, k) < t.len() ==> key_lt(k, t[place(t, k)].1),
    decreases t.len(),
{
    lemma_place_bounds(t, k);
    if t.len() > 0 && !key_lt(k, t[0].1) {
        let d = t.drop_first();
        lemma_place_props(d, k);
        lemma_place_bounds(d, k);
        assert forall|i: int| 0 <= i < place(t, k) implies !key_lt(k, #[trigger] t[i].1) by {
            if i > 0 {
                assert(t[i] == d[i - 1]);
            }
        }
        if place(t, k) < t.len() {
            assert(t[place(t, k)] == d[place(d, k)]);
        }
    }
}

/// The entries are in key order: none comes after one whose key comes
/// after its own.
pub open spec fn in_key_order<K>(s: Seq<(K, SortKey)>) -> bool {
    forall|i: int, j: int| 0 <= i < j < s.len() ==> !key_lt(#[trigger] s[j].1, #[trigger] s[i].1)
}

/// A stable sort puts the entries in key order, and gives only entries it
/// was given.
pub proof fn lemma_stable_sort_sorted<K>(s: Seq<(K, SortKey)>)
    ensures
        in_key_order(stable_sort(s)),
        forall|i: int| 0 <= i < stable_sort(s).len() ==> s.contains(#[trigger] stable_sort(s)[i]),
    decreases s.len(),
{
    lemma_stable_sort_len(s);
    if s.len() > 0 {
        let s0 = s.drop_last();
        let t = stable_sort(s0);
        let e = s.last();
        lemma_stable_sort_sorted(s0);
        lemma_stable_sort_len(s0);
        lemma_place_bounds(t, e.1);
        lemma_place_props(t, e.1);
        let p = place(t, e.1);
        let r = t.insert(p, e);
        assert(r == stable_sort(s));
        assert forall|i: int| 0 <= i < r.len() implies #[trigger] r[i] == (if i < p {
            t[i]
        } else if i == p {
            e
        } else {
            t[i - 1]
        }) by {
            if i > p {
                assert(r[i] == t[i - 1]);
            }
        }
        assert forall|i: int, j: int| 0 <= i < j < r.len() implies !key_lt(#[trigger] r[j].1, #[trigger] r[i].1) by {
            let ri = r[i];
            let rj = r[j];
            if i == p {
                if key_lt(rj.1, e.1) {
                    lemma_key_lt_order(t[j - 1].1, e.1, t[p].1);
                    if j - 1 > p {
                        assert(!key_lt(t[j - 1].1, t[p].1));
                    }
                }
            } else if j == p {
                assert(!key_lt(e.1, t[i].1));
            } else if i < p && j < p {
                assert(!key_lt(t[j].1, t[i].1));
            } else if i < p && j > p {
                assert(!key_lt(t[j - 1].1, t[i].1));
            } else {
                assert(!key_lt(t[j - 1].1, t[i - 1].1));
            }
        }
        assert forall|i: int| 0 <= i < r.len() implies s.contains(#[trigger] r[i]) by {
            if i == p {
                assert(s[s.len() - 1] == e);
            } else {
                let x = if i < p {
                    t[i]
                } else {
                    t[i - 1]
                };
                assert(s0.contains(x));
                let j = choose|j: int| 0 <= j < s0.len() && s0[j] == x;
                assert(s[j] == x);
            }
        }
    }
}

pub fn lex_lt_exec(a: &Vec<char>, b: &Vec<char>) -> (r: bool)
    ensures
        r == lex_lt(a@, b@),
{
    let mut i: usize = 0;
    assert(a@.skip(0) =~= a@ && b@.skip(0) =~= b@);
    while i < a.len() && i < b.len() && a[i] == b[i]
        invariant
            i <= a.len(),
            i <= b.len(),
            lex_lt(a@, b@) == lex_lt(a@.skip(i as int), b@.skip(i as int)),
        decreases a.len() - i,
    {
        assert(a@.skip(i as int).drop_first() =~= a@.skip(i + 1));
        assert(b@.skip(i as int).drop_first() =~= b@.skip(i + 1));
        i = i + 1;
    }
    if i == a.len() {
        i < b.len()
    } else if i == b.len() {
        false
    } else {
        assert(a@.skip(i as int)[0] == a@[i as int] && b@.skip(i as int)[0] == b@[i as int]);
        (a[i] as u32) < (b[i] as u32)
    }
}

fn key_lt_exec(a: &ExecSortKey, b: &ExecSortKey) -> (r: bool)
    ensures
        r == key_lt(a@, b@),
{
    if a.rank != b.rank {
        a.rank < b.rank
    } else if lex_lt_exec(&a.name, &b.name) {
        true
    } else if eq_vec(&a.name, &b.name) {
        slot_key_less(a.tie, b.tie)
    } else {
        false
    }
}

fn copy_key(k: &ExecSortKey) -> (r: ExecSortKey)
    ensures
        r@ == k@,
{
    let mut name: Vec<char> = Vec::new();
    let mut i: usize = 0;
    while i < k.name.len()
        invariant
            i <= k.name.len(),
            name@ == k.name@.take(i as int),
        decreases k.name.len() - i,
    {
        name.push(k.name[i]);
        assert(k.name@.take(i + 1) =~= k.name@.take(i as int).push(k.name@[i as int]));
        i = i + 1;
    }
    assert(k.name@.take(k.name.len() as int) =~= k.name@);
    ExecSortKey { rank: k.rank, name: name, tie: k.tie }
}

fn place_exec<K: Copy>(s: &Vec<(K, ExecSortKey)>, k: &ExecSortKey) -> (r: usize)
    ensures
        r == place(entries_view(s@), k@),
        r <= s.len(),
{
    let ghost sv = entries_view(s@);
    let mut i: usize = 0;
    assert(sv.skip(0) =~= sv);
    while i < s.len() && !key_lt_exec(k, &s[i].1)
        invariant
            i <= s.len(),
            sv == entries_view(s@),
            place(sv, k@) == i + place(sv.skip(i as int), k@),
        decreases s.len() - i,
    {
        assert(sv.skip(i as int)[0] == sv[i as int]);
        assert(sv.skip(i as int).drop_first() =~= sv.skip(i + 1));
        i = i + 1;
    }
    if i < s.len() {
        assert(sv.skip(i as int)[0] == sv[i as int]);
    }
    i
}

/// The items of the entries, stably sorted by their keys.
pub fn sort_entries<K: Copy>(v: &Vec<(K, ExecSortKey)>) -> (r: Vec<K>)
    ensures
        r@ == items_of(stable_sort(entries_view(v@))),
{
    let ghost ev = entries_view(v@);
    let mut out: Vec<(K, ExecSortKey)> = Vec::new();
    let mut i: usize = 0;
    assert(ev.take(0) =~= Seq::<(K, SortKey)>::empty());
    assert(entries_view(out@) =~= Seq::<(K, SortKey)>::empty());
    while i < v.len()
        invariant
            i <= v.len(),
            ev == entries_view(v@),
            entries_view(out@) == stable_sort(ev.take(i as int)),
            out.len() == i,
        decreases v.len() - i,
    {
        let e: (K, ExecSortKey) = (v[i].0, copy_key(&v[i].1));
        let pos: usize = place_exec(&out, &e.1);
        let ghost before = entries_view(out@);
        let ghost ee = (e.0, e.1@);
        out.insert(pos, e);
        proof {
            assert(ev.take(i + 1).drop_last() =~= ev.take(i as int));
            assert(ev.take(i + 1).last() == ev[i as int]);
            assert(ev[i as int] == ee);
            assert(entries_view(out@) =~= before.insert(pos as int, ee));
        }
        i = i + 1;
    }
    assert(ev.take(v.len() as int) =~= ev);
    let mut r: Vec<K> = Vec::new();
    let mut j: usize = 0;
    while j < out.len()
        invariant
            j <= out.len(),
            r@ == items_of(entries_view(out@)).take(j as int),
        decreases out.len() - j,
    {
        r.push(out[j].0);
        assert(items_of(entries_view(out@)).take(j + 1) =~= items_of(entries_view(out@)).take(j as int).push(
            out@[j as int].0,
        ));
        j = j + 1;
    }
    assert(items_of(entries_view(out@)).take(out.len() as int) =~= items_of(entries_view(out@)));
    r
}

} // verus!
