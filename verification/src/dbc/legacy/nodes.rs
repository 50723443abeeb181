//! `BU_` node lists and `CM_ BU_` node comments.
use vstd::prelude::*;
use crate::dbc::legacy::{
    find_node, first_node_named, nodes_view, signals_view, Database, DatabaseView, MessageView, Node,
    NodeView, SignalView,
};
use crate::text::{
    chars_of, find_char, find_exec, normalize_lines, normalize_lines_exec, rfind_char, rfind_exec,
    slice_of, split_ws, string_of, tokens, views,
};

verus! {

/// `s` without its first element (empty when `s` is).
pub open spec fn after_first<T>(s: Seq<T>) -> Seq<T> {
    if s.len() == 0 {
        s
    } else {
        s.drop_first()
    }
}

/// Nodes named by `names`, with empty comments.
pub open spec fn named_nodes(names: Seq<Seq<char>>) -> Seq<NodeView> {
    names.map_values(|t: Seq<char>| NodeView { name: t, comment: seq![] })
}

/// Adds one node per whitespace token of `line` after the first one.
/// Example: `BU_: ECU1 ECU2 ECU3`.
pub fn fct(db: &mut Database, line: &str)
    ensures
        final(db)@ == (DatabaseView {
            nodes: old(db)@.nodes + named_nodes(after_first(tokens(line@, true))),
            ..old(db)@
        }),
{
    let l: Vec<char> = chars_of(line);
    let parts: Vec<Vec<char>> = split_ws(&l, true);
    let ghost names = after_first(tokens(line@, true));
    let ghost base = old(db)@.nodes;
    if parts.len() == 0 {
        assert(named_nodes(names) =~= Seq::<NodeView>::empty());
        assert(base + named_nodes(names) =~= base);
        return;
    }
    let mut k: usize = 1;
    while k < parts.len()
        invariant
            1 <= k <= parts.len(),
            views(parts@) == tokens(line@, true),
            names == after_first(tokens(line@, true)),
            db@ == (DatabaseView { nodes: base + named_nodes(names.take(k - 1)), ..old(db)@ }),
        decreases parts.len() - k,
    {
        let name: String = string_of(&parts[k]);
        let comment: String = string_of(&Vec::new());
        let ghost before = nodes_view(db.nodes@);
        db.nodes.push(Node { name, comment });
        assert(nodes_view(db.nodes@) =~= before.push(NodeView { name: parts@[k as int]@, comment: seq![] }));
        assert(names.take(k as int) =~= names.take(k - 1).push(parts@[k as int]@));
        assert(named_nodes(names.take(k as int)) =~= named_nodes(names.take(k - 1)).push(
            NodeView { name: parts@[k as int]@, comment: seq![] },
        ));
        assert(base + named_nodes(names.take(k as int)) =~= (base + named_nodes(names.take(k - 1))).push(
            NodeView { name: parts@[k as int]@, comment: seq![] },
        ));
        k = k + 1;
    }
    assert(names.take(parts.len() - 1) =~= names);
}

/// `ns` with the comment of its first node named `name` replaced by `c`.
pub open spec fn with_node_comment(ns: Seq<NodeView>, name: Seq<char>, c: Seq<char>) -> Seq<NodeView> {
    match first_node_named(ns, name) {
        Some(i) => ns.update(i, NodeView { comment: c, ..ns[i] }),
        None => ns,
    }
}

/// A message whose first sender named `name`, and the first receiver named
/// `name` of each of its signals, get comment `c`.
pub open spec fn message_with_node_comment(m: MessageView, name: Seq<char>, c: Seq<char>) -> MessageView {
    MessageView {
        sender_nodes: with_node_comment(m.sender_nodes, name, c),
        signals: m.signals.map_values(
            |g: SignalView| SignalView { receiver_nodes: with_node_comment(g.receiver_nodes, name, c), ..g },
        ),
        ..m
    }
}

/// [`message_with_node_comment`] applied to every message.
pub open spec fn messages_with_node_comment(ms: Seq<MessageView>, name: Seq<char>, c: Seq<char>) -> Seq<MessageView> {
    ms.map_values(|m: MessageView| message_with_node_comment(m, name, c))
}

/// The quoted text of a comment line: between its first and its last `"`,
/// when the last one comes after the first one.
pub open spec fn quoted_body(line: Seq<char>) -> Option<Seq<char>> {
    match (find_char(line, '"'), rfind_char(line, '"')) {
        (Some(f), Some(l)) => if l > f {
            Some(line.subrange(f + 1, l))
        } else {
            None
        },
        _ => None,
    }
}

/// Run-time [`quoted_body`].
pub fn quoted_body_exec(v: &Vec<char>) -> (r: Option<Vec<char>>)
    ensures
        r matches Some(t) ==> quoted_body(v@) == Some(t@),
        r is None ==> quoted_body(v@) is None,
{
    let f: usize = match find_exec(v, '"') {
        Some(p) => p,
        None => return None,
    };
    let l: usize = match rfind_exec(v, '"') {
        Some(p) => p,
        None => return None,
    };
    if l > f {
        Some(slice_of(v, f + 1, l))
    } else {
        None
    }
}

/// The database after a `CM_ BU_ <name> "..."` line.
pub open spec fn node_comment_result(db: DatabaseView, line: Seq<char>) -> DatabaseView {
    let t = tokens(line, true);
    if t.len() < 3 {
        db
    } else {
        match quoted_body(line) {
            None => db,
            Some(body) => {
                let name = t[2];
                let c = normalize_lines(body);
                DatabaseView {
                    nodes: with_node_comment(db.nodes, name, c),
                    messages: messages_with_node_comment(db.messages, name, c),
                    ..db
                }
            },
        }
    }
}

fn set_first_comment(v: &mut Vec<Node>, name: &Vec<char>, c: &Vec<char>)
    ensures
        nodes_view(final(v)@) == with_node_comment(nodes_view(old(v)@), name@, c@),
{
    match find_node(v, name) {
        Some(i) => {
            v[i].comment = string_of(c);
            assert(nodes_view(v@) =~= nodes_view(old(v)@).update(
                i as int,
                NodeView { comment: c@, ..nodes_view(old(v)@)[i as int] },
            ));
        },
        None => {},
    }
}

/// Decodes `CM_ BU_ NodeName "Comment..."`: the comment (with leading
/// whitespace removed from each of its lines) goes to the first node of that
/// name, to the first sender of that name of every message and to the first
/// receiver of that name of every signal.
pub fn comments(db: &mut Database, line: &str)
    ensures
        final(db)@ == node_comment_result(old(db)@, line@),
{
    let l: Vec<char> = chars_of(line);
    let parts: Vec<Vec<char>> = split_ws(&l, true);
    if parts.len() < 3 {
        return;
    }
    let body: Vec<char> = match quoted_body_exec(&l) {
        Some(b) => b,
        None => return,
    };
    let name: Vec<char> = slice_of(&parts[2], 0, parts[2].len());
    assert(name@ =~= tokens(line@, true)[2]);
    let c: Vec<char> = normalize_lines_exec(&body);
    set_first_comment(&mut db.nodes, &name, &c);
    let ghost old_msgs = old(db)@.messages;
    let ghost new_msgs = messages_with_node_comment(old_msgs, name@, c@);
    let mut k: usize = 0;
    while k < db.messages.len()
        invariant
            k <= db.messages.len(),
            db.messages.len() == old_msgs.len(),
            old_msgs == old(db)@.messages,
            new_msgs == messages_with_node_comment(old_msgs, name@, c@),
            nodes_view(db.nodes@) == with_node_comment(old(db)@.nodes, name@, c@),
            db.name == old(db).name,
            db.version == old(db).version,
            db.bustype == old(db).bustype,
            db.baudrate == old(db).baudrate,
            db.baudrate_canfd == old(db).baudrate_canfd,
            db.comment == old(db).comment,
            forall|j: int| 0 <= j < k ==> #[trigger] db.messages@[j]@ == new_msgs[j],
            forall|j: int| k <= j < db.messages.len() ==> #[trigger] db.messages@[j]@ == old_msgs[j],
        decreases db.messages.len() - k,
    {
        let ghost pre = db.messages@[k as int]@;
        assert(pre == old_msgs[k as int]);
        comment_message(&mut db.messages[k], &name, &c);
        assert(db.messages@[k as int]@ == message_with_node_comment(pre, name@, c@));

        k = k + 1;
    }
    assert(db@.messages =~= new_msgs);
}

fn comment_signal(g: &mut crate::dbc::legacy::Signal, name: &Vec<char>, c: &Vec<char>)
    ensures
        final(g)@ == (SignalView { receiver_nodes: with_node_comment(old(g)@.receiver_nodes, name@, c@), ..old(g)@ }),
{
    set_first_comment(&mut g.receiver_nodes, name, c);
}

fn comment_message(m: &mut crate::dbc::legacy::Message, name: &Vec<char>, c: &Vec<char>)
    ensures
        final(m)@ == message_with_node_comment(old(m)@, name@, c@),
{
    set_first_comment(&mut m.sender_nodes, name, c);
    let ghost m0 = old(m)@;
    let mut g: usize = 0;
    while g < m.signals.len()
        invariant
            g <= m.signals.len(),
            m.signals.len() == m0.signals.len(),
            m@.sender_nodes == with_node_comment(m0.sender_nodes, name@, c@),
            m.id == old(m).id,
            m.id_hex == old(m).id_hex,
            m.name == old(m).name,
            m.byte_length == old(m).byte_length,
            m.msgtype == old(m).msgtype,
            m.comment == old(m).comment,
            m0 == old(m)@,
            forall|h: int| 0 <= h < g ==> #[trigger] m.signals@[h]@ == (SignalView {
                receiver_nodes: with_node_comment(m0.signals[h].receiver_nodes, name@, c@),
                ..m0.signals[h]
            }),
            forall|h: int| g <= h < m0.signals.len() ==> #[trigger] m.signals@[h]@ == m0.signals[h],
        decreases m.signals.len() - g,
    {
        comment_signal(&mut m.signals[g], name, c);
        g = g + 1;
    }
    assert(m@.signals =~= m0.signals.map_values(
        |s: SignalView| SignalView { receiver_nodes: with_node_comment(s.receiver_nodes, name@, c@), ..s },
    ));
}

} // verus!
