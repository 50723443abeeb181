//! The `BU_` record: the list of node names.
use vstd::prelude::*;
use crate::dbc::support::nodes::bu_names;
use crate::dbc::types::arena::ARENA_CAPACITY;
use crate::dbc::types::database::nodes::{node_added, seeded_node};
use crate::dbc::types::database::{DatabaseDBC, DatabaseView};
use crate::dbc::types::keys::NodeKey;
use crate::text::{chars_of, eq_vec, lemma_tokens_len, split_ws, string_of, tokens, trim_exec, views, CharClass};
use crate::text::unicode_lowercase;

verus! {

/// The node names a `BU_` line lists, or `None` when its first word is
/// neither `BU_:` nor `BU_`.
pub open spec fn listed_node_names(line: Seq<char>) -> Option<Seq<Seq<char>>> {
    let t = tokens(line, false);
    if t.len() == 0 || (t[0] != "BU_:"@ && t[0] != "BU_"@) {
        None
    } else {
        Some(bu_names(t.drop_first()))
    }
}

/// The database after each of `names` that no node has yet (compared in
/// lower case) became a node; the `i`-th name would get key `ks[i]`.
pub open spec fn nodes_listed(db: DatabaseView, names: Seq<Seq<char>>, ks: Seq<NodeKey>) -> DatabaseView
    decreases names.len(),
{
    if names.len() == 0 || ks.len() == 0 {
        db
    } else {
        let prev = nodes_listed(db, names.drop_last(), ks.drop_last());
        if prev.node_by_name.contains_key(unicode_lowercase(names.last())) {
            prev
        } else {
            node_added(prev, ks.last(), seeded_node(prev, names.last()))
        }
    }
}

/// Every key that [`nodes_listed`] uses is new at the time it is used.
pub open spec fn keys_fresh(db: DatabaseView, names: Seq<Seq<char>>, ks: Seq<NodeKey>) -> bool
    decreases names.len(),
{
    if names.len() == 0 || ks.len() == 0 {
        true
    } else {
        let prev = nodes_listed(db, names.drop_last(), ks.drop_last());
        &&& keys_fresh(db, names.drop_last(), ks.drop_last())
        &&& (prev.node_by_name.contains_key(unicode_lowercase(names.last())) || !prev.nodes.contains_key(ks.last()))
    }
}

/// What a `BU_` line does to database `db`, giving `after`: nothing when the
/// line is not a node list; else each listed name that no node has yet
/// becomes a node under a new key, in order.
pub open spec fn node_list_outcome(db: DatabaseView, line: Seq<char>, after: DatabaseView) -> bool {
    match listed_node_names(line) {
        None => after == db,
        Some(names) => exists|ks: Seq<NodeKey>|
            ks.len() == names.len() && #[trigger] keys_fresh(db, names, ks) && after == nodes_listed(db, names, ks),
    }
}

/// Decodes the `BU_` line listing node names (`BU_: ECU1 ECU2 ECU3`): each
/// listed name that no node has yet becomes a node, in order.
pub fn decode(db: &mut DatabaseDBC, line: &str)
    requires
        old(db).wf(),
        old(db).entity_count() + line@.len() < ARENA_CAPACITY,
    ensures
        final(db).wf(),
        final(db).entity_count() <= old(db).entity_count() + line@.len(),
        node_list_outcome(old(db)@, line@, final(db)@),
{
    let l: Vec<char> = chars_of(line);
    let t: Vec<Vec<char>> = split_ws(&l, false);
    if t.len() > 0 {
        assert(views(t@)[0] == t@[0]@);
    }
    if t.len() == 0 || (!eq_vec(&t[0], &chars_of("BU_:")) && !eq_vec(&t[0], &chars_of("BU_"))) {
        assert(listed_node_names(line@) is None);
        return;
    }
    proof {
        lemma_tokens_len(l@, false);
    }
    let ghost ts = tokens(l@, false).drop_first();
    let ghost d0 = db@;
    let ghost mut used: Seq<NodeKey> = Seq::empty();
    let mut k: usize = 1;
    while k < t.len()
        invariant
            1 <= k <= t.len(),
            t.len() <= l@.len(),
            l@ == line@,
            views(t@) == tokens(l@, false),
            ts == tokens(l@, false).drop_first(),
            db.wf(),
            db.entity_count() <= old(db).entity_count() + (k - 1),
            old(db).entity_count() + line@.len() < ARENA_CAPACITY,
            used.len() == bu_names(ts.take(k - 1)).len(),
            keys_fresh(d0, bu_names(ts.take(k - 1)), used),
            db@ == nodes_listed(d0, bu_names(ts.take(k - 1)), used),
        decreases t.len() - k,
    {
        let name: Vec<char> = trim_exec(&t[k], CharClass::Ws(true));
        let ghost prev = bu_names(ts.take(k - 1));
        assert(ts.take(k as int).drop_last() =~= ts.take(k - 1));
        assert(ts.take(k as int).last() == t@[k as int]@);
        if name.len() > 0 {
            let s: String = string_of(&name);
            let nk: NodeKey = db.add_node_if_absent(s.as_str());
            proof {
                assert(bu_names(ts.take(k as int)) == prev.push(name@));
                assert(prev.push(name@).drop_last() =~= prev);
                assert(used.push(nk).drop_last() =~= used);
                used = used.push(nk);
            }
        } else {
            assert(bu_names(ts.take(k as int)) == prev);
        }
        k = k + 1;
    }
    assert(ts.take(t.len() - 1) =~= ts);
    assert(keys_fresh(d0, bu_names(ts), used));
    assert(used.len() == bu_names(ts).len());
    assert(db@ == nodes_listed(d0, bu_names(ts), used));
    assert(listed_node_names(line@) == Some(bu_names(ts)));
}

} // verus!
