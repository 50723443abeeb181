//! Nodes: the `BU_` list, node comments and node attributes.
use vstd::prelude::*;
use crate::dbc::support::basic_info::{between_outer_quotes, between_outer_quotes_exec};
use crate::dbc::support::node_attrs::{
    apply_node_attr, find_node_attr, node_attr_named, with_node_attr, NodeAttr,
};
use crate::dbc::support::{nodes_view, Database, DatabaseView, Node, NodeView, Present};
use crate::text::{
    chars_of, eq_vec, slice_of, split_ws, string_of, tokens, trim, trim_by, trim_exec, CharClass,
};

verus! {

/// A node with the given name and every attribute at its default.
pub open spec fn blank_node(name: Seq<char>) -> NodeView {
    NodeView {
        name: name,
        comment: Seq::empty(),
        node_layer_modules: Seq::empty(),
        gen_nod_auto_gen_dsp: Present::No,
        gen_nod_auto_gen_snd: Present::No,
        gen_nod_sleep_time: 0,
        int_layer_used: Present::No,
        nm_node: Present::No,
        nm_station_address: 0,
        ecu_variant_default: Present::No,
        ecu_variant_group: Seq::empty(),
        nmh_node: Present::No,
        sample_point_min: 0,
        sample_point_max: 0,
        sample_point_canfd_min: 0,
        sample_point_canfd_max: 0,
        ssp_offset_canfd_min: 0,
        ssp_offset_canfd_max: 0,
        sync_jump_width_min: 0,
        sync_jump_width_max: 0,
        sync_jump_width_canfd_min: 0,
        sync_jump_width_canfd_max: 0,
        time_quanta_min: 0,
        time_quanta_max: 0,
        time_quanta_canfd_min: 0,
        time_quanta_canfd_max: 0,
        vag_tp20_target_address: 0,
        messages_sent: Seq::empty(),
    }
}

impl Node {
    /// A node with the given name and every attribute at its default.
    pub fn named(name: String) -> (r: Node)
        ensures
            r@ == blank_node(name@),
    {
        Node {
            name: name,
            comment: String::new(),
            node_layer_modules: String::new(),
            gen_nod_auto_gen_dsp: Present::No,
            gen_nod_auto_gen_snd: Present::No,
            gen_nod_sleep_time: 0,
            int_layer_used: Present::No,
            nm_node: Present::No,
            nm_station_address: 0,
            ecu_variant_default: Present::No,
            ecu_variant_group: String::new(),
            nmh_node: Present::No,
            sample_point_min: 0,
            sample_point_max: 0,
            sample_point_canfd_min: 0,
            sample_point_canfd_max: 0,
            ssp_offset_canfd_min: 0,
            ssp_offset_canfd_max: 0,
            sync_jump_width_min: 0,
            sync_jump_width_max: 0,
            sync_jump_width_canfd_min: 0,
            sync_jump_width_canfd_max: 0,
            time_quanta_min: 0,
            time_quanta_max: 0,
            time_quanta_canfd_min: 0,
            time_quanta_canfd_max: 0,
            vag_tp20_target_address: 0,
            messages_sent: Vec::new(),
        }
    }
}

/// Position of the first node named exactly `name`.
pub open spec fn first_node_named(s: Seq<NodeView>, name: Seq<char>) -> Option<int>
    decreases s.len(),
{
    if s.len() == 0 {
        None
    } else {
        match first_node_named(s.drop_last(), name) {
            Some(i) => Some(i),
            None => if s.last().name == name {
                Some(s.len() - 1)
            } else {
                None
            },
        }
    }
}

pub proof fn lemma_first_node_named(s: Seq<NodeView>, name: Seq<char>, i: int)
    requires
        0 <= i <= s.len(),
        forall|j: int| 0 <= j < i ==> s[j].name != name,
    ensures
        first_node_named(s.take(i), name) is None,
        i < s.len() && s[i].name == name ==> first_node_named(s.take(i + 1), name) == Some(i),
        i < s.len() && s[i].name != name ==> first_node_named(s.take(i + 1), name) is None,
        first_node_named(s, name) matches Some(k) ==> 0 <= k < s.len() && s[k].name == name,
    decreases i,
{
    if i > 0 {
        lemma_first_node_named(s, name, i - 1);
        assert(s.take(i).drop_last() =~= s.take(i - 1));
    }
    if i < s.len() {
        assert(s.take(i + 1).drop_last() =~= s.take(i));
    }
    lemma_first_node_named_result(s, name);
}

pub proof fn lemma_first_node_named_result(s: Seq<NodeView>, name: Seq<char>)
    ensures
        first_node_named(s, name) matches Some(k) ==> 0 <= k < s.len() && s[k].name == name,
    decreases s.len(),
{
    if s.len() > 0 {
        lemma_first_node_named_result(s.drop_last(), name);
    }
}

/// Position of the first node named exactly `name`.
pub fn find_node(v: &Vec<Node>, name: &Vec<char>) -> (r: Option<usize>)
    ensures
        r matches Some(k) ==> first_node_named(nodes_view(v@), name@) == Some(k as int),
        r is None ==> first_node_named(nodes_view(v@), name@) is None,
{
    let ghost s = nodes_view(v@);
    let mut i: usize = 0;
    while i < v.len()
        invariant
            i <= v.len(),
            s == nodes_view(v@),
            forall|j: int| 0 <= j < i ==> s[j].name != name@,
        decreases v.len() - i,
    {
        proof {
            lemma_first_node_named(s, name@, i as int);
        }
        let n: Vec<char> = crate::text::chars_of_string(&v[i].name);
        if eq_vec(&n, name) {
            assert(s.take(i + 1) =~= s.take(i + 1));
            proof {
                lemma_first_node_named_prefix(s, name@, i as int);
            }
            return Some(i);
        }
        i = i + 1;
    }
    proof {
        lemma_first_node_named(s, name@, i as int);
        assert(s.take(i as int) =~= s);
    }
    None
}

proof fn lemma_first_node_named_prefix(s: Seq<NodeView>, name: Seq<char>, i: int)
    requires
        0 <= i < s.len(),
        s[i].name == name,
        forall|j: int| 0 <= j < i ==> s[j].name != name,
    ensures
        first_node_named(s, name) == Some(i),
    decreases s.len(),
{
    if s.len() - 1 > i {
        lemma_first_node_named_prefix(s.drop_last(), name, i);
    } else {
        lemma_first_node_named(s, name, i);
        assert(s.take(i) =~= s.drop_last());
    }
}

/// The nodes after adding a node named `name` unless one already exists.
pub open spec fn with_node(ns: Seq<NodeView>, name: Seq<char>) -> Seq<NodeView> {
    if first_node_named(ns, name) is Some {
        ns
    } else {
        ns.push(blank_node(name))
    }
}

/// The nodes after adding each name in turn (see [`with_node`]).
pub open spec fn with_nodes(ns: Seq<NodeView>, names: Seq<Seq<char>>) -> Seq<NodeView>
    decreases names.len(),
{
    if names.len() == 0 {
        ns
    } else {
        with_node(with_nodes(ns, names.drop_last()), names.last())
    }
}

impl Database {
    /// Adds a node named `name` unless one already exists; returns its position.
    pub fn add_node_if_absent(&mut self, name: &Vec<char>) -> (r: usize)
        ensures
            final(self)@ == (DatabaseView { nodes: with_node(old(self)@.nodes, name@), ..old(self)@ }),
            r < final(self).nodes.len(),
            final(self)@.nodes[r as int].name == name@,
    {
        match find_node(&self.nodes, name) {
            Some(k) => {
                proof {
                    lemma_first_node_named_result(nodes_view(self.nodes@), name@);
                }
                k
            },
            None => {
                let n: Node = Node::named(string_of(name));
                let ghost before = self.nodes@;
                self.nodes.push(n);
                assert(nodes_view(self.nodes@) =~= nodes_view(before).push(blank_node(name@)));
                self.nodes.len() - 1
            },
        }
    }
}

/// The names a `BU_` line lists: the tokens after `BU_:` (or `BU_`), each
/// trimmed, the empty ones dropped.
pub open spec fn bu_names(ts: Seq<Seq<char>>) -> Seq<Seq<char>>
    decreases ts.len(),
{
    if ts.len() == 0 {
        seq![]
    } else if trim(ts.last()).len() == 0 {
        bu_names(ts.drop_last())
    } else {
        bu_names(ts.drop_last()).push(trim(ts.last()))
    }
}

/// The database after a `BU_` line: when the first token is `BU_:` or `BU_`,
/// every listed name not yet present becomes a node, in order.
pub open spec fn node_list_result(db: DatabaseView, line: Seq<char>) -> DatabaseView {
    let t = tokens(line, false);
    if t.len() == 0 || (t[0] != "BU_:"@ && t[0] != "BU_"@) {
        db
    } else {
        DatabaseView { nodes: with_nodes(db.nodes, bu_names(t.drop_first())), ..db }
    }
}

proof fn lemma_with_node_keeps(ns: Seq<NodeView>, name: Seq<char>, other: Seq<char>)
    ensures
        first_node_named(with_node(ns, name), name) is Some,
        first_node_named(ns, other) is Some ==> first_node_named(with_node(ns, name), other) is Some,
{
    if first_node_named(ns, name) is None {
        let r = ns.push(blank_node(name));
        assert(r.drop_last() =~= ns);
        assert(r.last().name == name);
    }
    if first_node_named(ns, name) is None && first_node_named(ns, other) is Some {
        assert(ns.push(blank_node(name)).drop_last() =~= ns);
    }
}

proof fn lemma_with_nodes_present(ns: Seq<NodeView>, names: Seq<Seq<char>>, other: Seq<char>)
    ensures
        forall|j: int| 0 <= j < names.len() ==> first_node_named(with_nodes(ns, names), #[trigger] names[j]) is Some,
        first_node_named(ns, other) is Some ==> first_node_named(with_nodes(ns, names), other) is Some,
    decreases names.len(),
{
    if names.len() > 0 {
        let p = names.drop_last();
        lemma_with_nodes_present(ns, p, other);
        let w = with_nodes(ns, p);
        lemma_with_node_keeps(w, names.last(), other);
        assert forall|j: int| 0 <= j < names.len() implies first_node_named(with_nodes(ns, names), #[trigger] names[j]) is Some by {
            if j < names.len() - 1 {
                assert(names[j] == p[j]);
                lemma_with_nodes_present(ns, p, names[j]);
                lemma_with_node_keeps(w, names.last(), names[j]);
            }
        }
    }
}

proof fn lemma_with_nodes_idle(ns: Seq<NodeView>, names: Seq<Seq<char>>)
    requires
        forall|j: int| 0 <= j < names.len() ==> first_node_named(ns, #[trigger] names[j]) is Some,
    ensures
        with_nodes(ns, names) == ns,
    decreases names.len(),
{
    if names.len() > 0 {
        let p = names.drop_last();
        assert forall|j: int| 0 <= j < p.len() implies first_node_named(ns, #[trigger] p[j]) is Some by {
            assert(p[j] == names[j]);
        }
        lemma_with_nodes_idle(ns, p);
        assert(first_node_named(ns, names[names.len() - 1]) is Some);
    }
}

/// A `BU_` line read a second time changes nothing, and after it every node
/// it lists exists: each node is created at most once.
pub proof fn law_repeated_node_list_changes_nothing(db: DatabaseView, line: Seq<char>)
    ensures
        node_list_result(node_list_result(db, line), line) == node_list_result(db, line),
        ({
            let t = tokens(line, false);
            t.len() > 0 && (t[0] == "BU_:"@ || t[0] == "BU_"@) ==> forall|j: int|
                0 <= j < bu_names(t.drop_first()).len() ==> first_node_named(
                    node_list_result(db, line).nodes,
                    #[trigger] bu_names(t.drop_first())[j],
                ) is Some
        }),
{
    let t = tokens(line, false);
    if t.len() > 0 && (t[0] == "BU_:"@ || t[0] == "BU_"@) {
        let names = bu_names(t.drop_first());
        let once = with_nodes(db.nodes, names);
        lemma_with_nodes_present(db.nodes, names, Seq::empty());
        lemma_with_nodes_idle(once, names);
        assert(node_list_result(node_list_result(db, line), line) =~= node_list_result(db, line));
    }
}

/// Decodes the `BU_` line listing the node names (`BU_: ECU1 ECU2 ECU3`).
pub fn decode(db: &mut Database, line: &str)
    ensures
        final(db)@ == node_list_result(old(db)@, line@),
{
    let l: Vec<char> = chars_of(line);
    let t: Vec<Vec<char>> = split_ws(&l, false);
    if t.len() == 0 || (!eq_vec(&t[0], &chars_of("BU_:")) && !eq_vec(&t[0], &chars_of("BU_"))) {
        return;
    }
    let ghost ts = tokens(l@, false).drop_first();
    let ghost base = db@.nodes;
    let mut k: usize = 1;
    while k < t.len()
        invariant
            1 <= k <= t.len(),
            crate::text::views(t@) == tokens(l@, false),
            ts == tokens(l@, false).drop_first(),
            db@ == (DatabaseView { nodes: with_nodes(base, bu_names(ts.take(k - 1))), ..old(db)@ }),
        decreases t.len() - k,
    {
        let name: Vec<char> = trim_exec(&t[k], CharClass::Ws(true));
        let ghost prev = bu_names(ts.take(k - 1));
        assert(ts.take(k as int).drop_last() =~= ts.take(k - 1));
        assert(ts.take(k as int).last() == t@[k as int]@);
        if name.len() > 0 {
            db.add_node_if_absent(&name);
            assert(bu_names(ts.take(k as int)) == prev.push(name@));
            assert(prev.push(name@).drop_last() =~= prev);
        } else {
            assert(bu_names(ts.take(k as int)) == prev);
        }
        k = k + 1;
    }
    assert(ts.take(t.len() - 1) =~= ts);
}

/// The database after `CM_ BU_ <node> "comment"`: the first node with that
/// name takes the text between the first and the last quote of the line.
pub open spec fn node_comment_result(db: DatabaseView, line: Seq<char>) -> DatabaseView {
    let t = tokens(line, false);
    if t.len() < 3 || t[0] != "CM_"@ || t[1] != "BU_"@ {
        db
    } else {
        match between_outer_quotes(line) {
            None => db,
            Some(c) => match first_node_named(db.nodes, t[2]) {
                None => db,
                Some(k) => DatabaseView {
                    nodes: db.nodes.update(k, NodeView { comment: c, ..db.nodes[k] }),
                    ..db
                },
            },
        }
    }
}

/// Decodes a node comment: `CM_ BU_ NodeName "Comment..."`.
pub fn comments(db: &mut Database, text: &str)
    ensures
        final(db)@ == node_comment_result(old(db)@, text@),
{
    let l: Vec<char> = chars_of(text);
    let t: Vec<Vec<char>> = split_ws(&l, false);
    if t.len() < 3 || !eq_vec(&t[0], &chars_of("CM_")) || !eq_vec(&t[1], &chars_of("BU_")) {
        return;
    }
    match between_outer_quotes_exec(&l) {
        None => {},
        Some(c) => match find_node(&db.nodes, &t[2]) {
            None => {},
            Some(k) => {
                proof {
                    lemma_first_node_named_result(nodes_view(db.nodes@), t@[2]@);
                }
                let ghost before = db.nodes@;
                db.nodes[k].comment = string_of(&c);
                assert(nodes_view(db.nodes@) =~= nodes_view(before).update(
                    k as int,
                    NodeView { comment: c@, ..nodes_view(before)[k as int] },
                ));
            },
        },
    }
}

/// The database after a node attribute line
/// `BA_ "<attribute>" BU_ <node> <value>;`: for a known attribute and an
/// existing node, the first node with that name gets the attribute (see
/// [`with_node_attr`]); anything else leaves the database unchanged.
pub open spec fn node_attr_result(db: DatabaseView, line: Seq<char>) -> DatabaseView {
    let t = tokens(line, false);
    if t.len() < 2 {
        db
    } else {
        match node_attr_named(trim_by(t[1], CharClass::Is('"')), 0) {
            None => db,
            Some(a) => if t.len() < 5 {
                db
            } else {
                match first_node_named(db.nodes, t[3]) {
                    None => db,
                    Some(k) => DatabaseView {
                        nodes: db.nodes.update(k, with_node_attr(db.nodes[k], a, t[4])),
                        ..db
                    },
                }
            },
        }
    }
}


/// Decodes a node attribute line `BA_ "<attribute>" BU_ <node> <value>;`
/// (see [`node_attr_result`]).
pub fn add_info(db: &mut Database, line: &str)
    ensures
        final(db)@ == node_attr_result(old(db)@, line@),
{
    let l: Vec<char> = chars_of(line);
    let t: Vec<Vec<char>> = split_ws(&l, false);
    if t.len() < 2 {
        return;
    }
    let attribute: Vec<char> = trim_exec(&t[1], CharClass::Is('"'));
    let a: NodeAttr = match find_node_attr(&attribute) {
        None => return,
        Some(a) => a,
    };
    if t.len() < 5 {
        return;
    }
    match find_node(&db.nodes, &t[3]) {
        None => {},
        Some(k) => {
            proof {
                lemma_first_node_named_result(nodes_view(db.nodes@), t@[3]@);
            }
            let ghost before = db.nodes@;
            apply_node_attr(&mut db.nodes[k], a, &t[4]);
            assert(nodes_view(db.nodes@) =~= nodes_view(before).update(
                k as int,
                with_node_attr(nodes_view(before)[k as int], a, t@[4]@),
            ));
        },
    }
}

} // verus!
