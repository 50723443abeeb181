//! The `BO_TX_BU_` record: the nodes that may transmit a message.
use vstd::prelude::*;
use crate::dbc::support::nodes::bu_names;
use crate::dbc::types::database::signals::push_all_new;
use crate::dbc::types::database::{DatabaseDBC, DatabaseView};
use crate::dbc::types::entities::{MessageView, NodeView};
use crate::dbc::types::keys::{push_new, MessageKey, NodeKey};
use crate::text::{
    chars_of, dec_string, find_char, find_exec, find_seq, find_seq_exec, fmt_dec, lemma_find_char, lemma_find_seq,
    parse_u32, parse_unsigned, slice_of, split_either, split_either_exec, split_ws, starts_with, starts_with_exec,
    string_of, tokens, trim, trim_end_by, trim_end_exec, trim_exec, unicode_lowercase, views, CharClass,
};

verus! {

/// The first of the words `ts` that reads as a `u32`.
pub open spec fn first_u32(ts: Seq<Seq<char>>) -> Option<nat>
    decreases ts.len(),
{
    if ts.len() == 0 {
        None
    } else {
        match parse_unsigned(ts[0], u32::MAX as nat) {
            Some(v) => Some(v),
            None => first_u32(ts.drop_first()),
        }
    }
}

/// The identifier and the node names of a `BO_TX_BU_ <id> : A,B;` line: the
/// identifier is the first word that reads as a non-zero `u32`; the names
/// follow the first `:` after the identifier's digits, separated by commas
/// or spaces. `None` when the line is not such a record.
pub open spec fn tx_line(line: Seq<char>) -> Option<(u32, Seq<Seq<char>>)> {
    let l = trim(line);
    if !starts_with(l, "BO_TX_BU_"@) {
        None
    } else {
        match first_u32(tokens(l, false)) {
            None => None,
            Some(v) => if v == 0 {
                None
            } else {
                let d = dec_string(v);
                match find_seq(l, d) {
                    None => None,
                    Some(p) => {
                        let after = l.skip(p + d.len());
                        match find_char(after, ':') {
                            None => None,
                            Some(c) => {
                                let part = trim_end_by(trim(after.skip(c + 1)), CharClass::Is(';'));
                                Some((v as u32, bu_names(split_either(part, ',', ' '))))
                            },
                        }
                    },
                }
            },
        }
    }
}

/// The keys of the nodes named in `names` (compared in lower case); names
/// of no node are skipped.
pub open spec fn known_node_keys(db: DatabaseView, names: Seq<Seq<char>>) -> Seq<NodeKey>
    decreases names.len(),
{
    if names.len() == 0 {
        seq![]
    } else {
        let prev = known_node_keys(db, names.drop_last());
        let n = unicode_lowercase(names.last());
        if db.node_by_name.contains_key(n) {
            prev.push(db.node_by_name[n])
        } else {
            prev
        }
    }
}

/// The nodes after each present node of `ks` lists message `mk` among those
/// it sends.
pub open spec fn nodes_sending(ns: Map<NodeKey, NodeView>, ks: Seq<NodeKey>, mk: MessageKey) -> Map<NodeKey, NodeView>
    decreases ks.len(),
{
    if ks.len() == 0 {
        ns
    } else {
        let p = nodes_sending(ns, ks.drop_last(), mk);
        let k = ks.last();
        if p.contains_key(k) {
            p.insert(k, NodeView { messages_sent: push_new(p[k].messages_sent, mk), ..p[k] })
        } else {
            p
        }
    }
}

/// The database after a `BO_TX_BU_` line: when at least one listed name is a
/// node and a message has the identifier, the message gains those nodes as
/// senders (each once) and each of them lists the message among those it
/// sends.
pub open spec fn tx_senders_result(db: DatabaseView, line: Seq<char>) -> DatabaseView {
    match tx_line(line) {
        None => db,
        Some((id, names)) => {
            let ks = known_node_keys(db, names);
            if ks.len() == 0 || !db.msg_by_id.contains_key(id) || !db.messages.contains_key(db.msg_by_id[id]) {
                db
            } else {
                let mk = db.msg_by_id[id];
                DatabaseView {
                    messages: db.messages.insert(
                        mk,
                        MessageView { sender_nodes: push_all_new(db.messages[mk].sender_nodes, ks), ..db.messages[mk] },
                    ),
                    nodes: nodes_sending(db.nodes, ks, mk),
                    ..db
                }
            }
        },
    }
}

fn first_u32_exec(ts: &Vec<Vec<char>>) -> (r: Option<u32>)
    ensures
        r matches Some(v) ==> first_u32(views(ts@)) == Some(v as nat),
        r is None ==> first_u32(views(ts@)) is None,
{
    let mut i: usize = 0;
    assert(views(ts@).skip(0) =~= views(ts@));
    while i < ts.len()
        invariant
            i <= ts.len(),
            first_u32(views(ts@)) == first_u32(views(ts@).skip(i as int)),
        decreases ts.len() - i,
    {
        assert(views(ts@).skip(i as int)[0] == ts@[i as int]@);
        match parse_u32(&ts[i]) {
            Some(v) => return Some(v),
            None => {},
        }
        assert(views(ts@).skip(i as int).drop_first() =~= views(ts@).skip(i + 1));
        i = i + 1;
    }
    None
}

fn tx_line_exec(line: &str) -> (r: Option<(u32, Vec<Vec<char>>)>)
    ensures
        r is None ==> tx_line(line@) is None,
        r matches Some((id, ns)) ==> tx_line(line@) == Some((id, bu_names(views(ns@)))),
{
    let l0: Vec<char> = chars_of(line);
    let l: Vec<char> = trim_exec(&l0, CharClass::Ws(true));
    if !starts_with_exec(&l, &chars_of("BO_TX_BU_")) {
        return None;
    }
    let ts: Vec<Vec<char>> = split_ws(&l, false);
    let id: u32 = match first_u32_exec(&ts) {
        None => return None,
        Some(v) => v,
    };
    if id == 0 {
        return None;
    }
    let d: Vec<char> = fmt_dec(id as u64);
    proof {
        lemma_find_seq(l@, d@);
    }
    let p: usize = match find_seq_exec(&l, &d) {
        None => return None,
        Some(p) => p,
    };
    assert(find_seq(l@, d@) == Some(p as int));
    assert(p + d@.len() <= l@.len());
    assert(d.len() == d@.len() && l.len() == l@.len());
    let e: usize = p + d.len();
    let after: Vec<char> = slice_of(&l, e, l.len());
    assert(after@ =~= l@.skip(p + d.len()));
    proof {
        lemma_find_char(after@, ':');
    }
    let c: usize = match find_exec(&after, ':') {
        None => return None,
        Some(c) => c,
    };
    let tail: Vec<char> = slice_of(&after, c + 1, after.len());
    assert(tail@ =~= after@.skip(c + 1));
    let tt: Vec<char> = trim_exec(&tail, CharClass::Ws(true));
    let part: Vec<char> = trim_end_exec(&tt, CharClass::Is(';'));
    let pieces: Vec<Vec<char>> = split_either_exec(&part, ',', ' ');
    Some((id, pieces))
}

/// Decodes `BO_TX_BU_ <id> : NodeA,NodeB;`, which lists the nodes that may
/// transmit the message with that identifier (see [`tx_senders_result`]).
pub fn decode(db: &mut DatabaseDBC, line: &str)
    requires
        old(db).wf(),
    ensures
        final(db).wf(),
        final(db).entity_count() == old(db).entity_count(),
        final(db)@ == tx_senders_result(old(db)@, line@),
{
    let (id, pieces) = match tx_line_exec(line) {
        None => return,
        Some(x) => x,
    };
    let ghost names = bu_names(views(pieces@));
    let mut keys: Vec<NodeKey> = Vec::new();
    let mut k: usize = 0;
    while k < pieces.len()
        invariant
            k <= pieces.len(),
            keys@ == known_node_keys(db@, bu_names(views(pieces@).take(k as int))),
        decreases pieces.len() - k,
    {
        let name: Vec<char> = trim_exec(&pieces[k], CharClass::Ws(true));
        let ghost prev = bu_names(views(pieces@).take(k as int));
        assert(views(pieces@).take(k + 1).drop_last() =~= views(pieces@).take(k as int));
        assert(views(pieces@).take(k + 1).last() == pieces@[k as int]@);
        if name.len() > 0 {
            assert(bu_names(views(pieces@).take(k + 1)) == prev.push(name@));
            assert(prev.push(name@).drop_last() =~= prev);
            let s: String = string_of(&name);
            match db.get_node_key_by_name(s.as_str()) {
                Some(nk) => keys.push(nk),
                None => {},
            }
        } else {
            assert(bu_names(views(pieces@).take(k + 1)) == prev);
        }
        k = k + 1;
    }
    assert(views(pieces@).take(pieces.len() as int) =~= views(pieces@));
    if keys.len() == 0 {
        return;
    }
    let mk: MessageKey = match db.get_msg_key_by_id(&id) {
        None => return,
        Some(mk) => mk,
    };
    if db.get_message_by_key(mk).is_none() {
        return;
    }
    let ghost d0 = db@;
    assert(keys@.take(0) =~= Seq::<NodeKey>::empty());
    assert(d0.messages.insert(mk, MessageView { sender_nodes: d0.messages[mk].sender_nodes, ..d0.messages[mk] })
        =~= d0.messages);
    let mut i: usize = 0;
    while i < keys.len()
        invariant
            i <= keys.len(),
            db.wf(),
            db.entity_count() == old(db).entity_count(),
            d0.messages.contains_key(mk),
            db@ == (DatabaseView {
                messages: d0.messages.insert(
                    mk,
                    MessageView { sender_nodes: push_all_new(d0.messages[mk].sender_nodes, keys@.take(i as int)), ..d0.messages[mk] },
                ),
                ..d0
            }),
        decreases keys.len() - i,
    {
        assert(keys@.take(i + 1).drop_last() =~= keys@.take(i as int));
        let ghost before = db@;
        db.push_message_sender(mk, keys[i]);
        assert(db@.messages =~= d0.messages.insert(
            mk,
            MessageView { sender_nodes: push_all_new(d0.messages[mk].sender_nodes, keys@.take(i + 1)), ..d0.messages[mk] },
        ));
        i = i + 1;
    }
    assert(keys@.take(keys.len() as int) =~= keys@);
    let ghost d1 = db@;
    assert(keys@.take(0) =~= Seq::<NodeKey>::empty());
    let mut j: usize = 0;
    while j < keys.len()
        invariant
            j <= keys.len(),
            db.wf(),
            db.entity_count() == old(db).entity_count(),
            db@ == (DatabaseView { nodes: nodes_sending(d1.nodes, keys@.take(j as int), mk), ..d1 }),
        decreases keys.len() - j,
    {
        assert(keys@.take(j + 1).drop_last() =~= keys@.take(j as int));
        db.add_tx_msg_for_node(keys[j], mk);
        j = j + 1;
    }
    assert(keys@.take(keys.len() as int) =~= keys@);
}

} // verus!
