//! `BO_` messages, `BO_TX_BU_` transmitters and `CM_ BO_` comments.
use vstd::prelude::*;
use crate::dbc::legacy::{
    find_message, first_message_with_id, find_node, first_node_named, messages_view, nodes_view,
    Database, DatabaseView, Message, MessageView, Node, NodeView,
};
use crate::dbc::legacy::nodes::{quoted_body, quoted_body_exec};
use crate::text::{
    chars_of, extend_chars, find_char, find_exec, fmt_hex, hex_string, parse_u64, parse_unsigned,
    parse_usize, slice_of, split_char, split_char_exec, split_ws, string_of, tokens, trim,
    trim_by, trim_end_by, trim_end_exec, trim_exec, trim_start_pat, trim_start_pat_exec, views,
    CharClass,
};

verus! {

/// 29-bit extended identifier mask.
pub const CAN_EFF_MASK: u64 = 0x1FFF_FFFF;

/// 11-bit standard identifier mask.
pub const CAN_SFF_MASK: u64 = 0x7FF;

/// SocketCAN-style "extended" flag.
pub const CAN_EFF_FLAG: u64 = 0x8000_0000;

/// The hexadecimal text of a raw identifier: `0x` and the upper-case hex
/// digits of its low 29 bits (of its low 11 bits for a standard identifier,
/// i.e. when the extended flag is clear and the 29-bit value is at most 0x7FF).
pub open spec fn legacy_id_hex(raw: u64) -> Seq<char> {
    let id29 = raw & CAN_EFF_MASK;
    let is_ext = (raw & CAN_EFF_FLAG) != 0 || id29 > CAN_SFF_MASK;
    let v = if is_ext {
        id29
    } else {
        id29 & CAN_SFF_MASK
    };
    seq!['0', 'x'] + hex_string(v as nat)
}

/// Hexadecimal text of an identifier, considering extended identifiers.
pub fn id_to_hex(raw: u64) -> (r: String)
    ensures
        r@ == legacy_id_hex(raw),
{
    let id29: u64 = raw & CAN_EFF_MASK;
    let is_ext: bool = (raw & CAN_EFF_FLAG) != 0 || id29 > CAN_SFF_MASK;
    let id_hex: u64 = if is_ext {
        id29
    } else {
        id29 & CAN_SFF_MASK
    };
    let mut v: Vec<char> = Vec::new();
    v.push('0');
    v.push('x');
    let h: Vec<char> = fmt_hex(id_hex);
    extend_chars(&mut v, &h);
    assert(v@ =~= seq!['0', 'x'] + hex_string(id_hex as nat));
    string_of(&v)
}

/// A number parsed with `str::parse`, or 0 when the text is not one.
pub open spec fn u64_or_zero(t: Seq<char>) -> u64 {
    match parse_unsigned(t, u64::MAX as nat) {
        Some(v) => v as u64,
        None => 0,
    }
}

/// `usize` counterpart of [`u64_or_zero`].
pub open spec fn usize_or_zero(t: Seq<char>) -> usize {
    match parse_unsigned(t, usize::MAX as nat) {
        Some(v) => v as usize,
        None => 0,
    }
}

/// The protocol name for a payload length: `CAN` up to 8 bytes, `CAN FD` above.
pub open spec fn msgtype_of(byte_length: nat) -> Seq<char> {
    if byte_length <= 8 {
        "CAN"@
    } else {
        "CAN FD"@
    }
}

/// The message described by the tokens of a `BO_` line.
pub open spec fn bo_message(p: Seq<Seq<char>>) -> MessageView {
    let id = u64_or_zero(p[1]);
    let bl = usize_or_zero(p[3]);
    MessageView {
        id: id,
        id_hex: legacy_id_hex(id),
        name: trim_end_by(p[2], CharClass::Is(':')),
        byte_length: bl,
        msgtype: msgtype_of(bl as nat),
        sender_nodes: seq![NodeView { name: p[4], comment: seq![] }],
        signals: seq![],
        comment: seq![],
    }
}

fn u64_or_zero_exec(v: &Vec<char>) -> (r: u64)
    ensures
        r == u64_or_zero(v@),
{
    match parse_u64(v) {
        Some(x) => x,
        None => 0,
    }
}

fn usize_or_zero_exec(v: &Vec<char>) -> (r: usize)
    ensures
        r == usize_or_zero(v@),
{
    match parse_usize(v) {
        Some(x) => x,
        None => 0,
    }
}

fn str_lit(s: &str) -> (r: String)
    ensures
        r@ == s@,
{
    let v: Vec<char> = chars_of(s);
    string_of(&v)
}

/// Decodes `BO_ <ID> <NAME>: <BYTE_LENGTH> <SENDER>` and appends the message;
/// lines with fewer than five tokens are ignored.
pub fn fct(db: &mut Database, line: &str)
    ensures
        tokens(line@, true).len() < 5 ==> final(db)@ == old(db)@,
        tokens(line@, true).len() >= 5 ==> final(db)@ == (DatabaseView {
            messages: old(db)@.messages.push(bo_message(tokens(line@, true))),
            ..old(db)@
        }),
{
    let l: Vec<char> = chars_of(line);
    let parts: Vec<Vec<char>> = split_ws(&l, true);
    if parts.len() < 5 {
        return;
    }
    let id: u64 = u64_or_zero_exec(&parts[1]);
    let id_hex: String = id_to_hex(id);
    let name_v: Vec<char> = trim_end_exec(&parts[2], CharClass::Is(':'));
    let byte_length: usize = usize_or_zero_exec(&parts[3]);
    let msgtype: String = if byte_length <= 8 {
        str_lit("CAN")
    } else {
        str_lit("CAN FD")
    };
    let mut sender_nodes: Vec<Node> = Vec::new();
    sender_nodes.push(Node { name: string_of(&parts[4]), comment: string_of(&Vec::new()) });
    let msg: Message = Message {
        id,
        id_hex,
        name: string_of(&name_v),
        byte_length,
        msgtype,
        sender_nodes,
        signals: Vec::new(),
        comment: string_of(&Vec::new()),
    };
    assert(msg@.sender_nodes =~= seq![NodeView { name: parts@[4]@, comment: seq![] }]);
    assert(msg@.signals =~= Seq::<crate::dbc::legacy::SignalView>::empty());
    assert(msg@ == bo_message(tokens(line@, true)));
    let ghost before = messages_view(db.messages@);
    db.messages.push(msg);
    assert(messages_view(db.messages@) =~= before.push(msg@));
}

/// `senders` with a node named `n` appended, unless `n` is empty or some
/// sender already has that name.
pub open spec fn add_sender(senders: Seq<NodeView>, n: Seq<char>) -> Seq<NodeView> {
    if n.len() == 0 || first_node_named(senders, n) is Some {
        senders
    } else {
        senders.push(NodeView { name: n, comment: seq![] })
    }
}

/// [`add_sender`] for each name in turn.
pub open spec fn add_senders(senders: Seq<NodeView>, names: Seq<Seq<char>>) -> Seq<NodeView>
    decreases names.len(),
{
    if names.len() == 0 {
        senders
    } else {
        add_sender(add_senders(senders, names.drop_last()), names.last())
    }
}

/// The identifier text and the node list of a `BO_TX_BU_` line.
pub open spec fn tx_parts(line: Seq<char>) -> (Seq<char>, Seq<char>) {
    let content = trim(trim_start_pat(line, "BO_TX_BU_"@));
    match find_char(content, ':') {
        Some(i) => (trim(content.take(i)), trim_end_by(trim(content.skip(i + 1)), CharClass::Is(';'))),
        None => (trim(content), seq![]),
    }
}

/// The node names of a transmitter list: its comma-separated pieces, trimmed.
pub open spec fn tx_names(nodes: Seq<char>) -> Seq<Seq<char>> {
    split_char(nodes, ',').map_values(|p: Seq<char>| trim(p))
}

/// The database after a `BO_TX_BU_` line.
pub open spec fn tx_nodes_result(db: DatabaseView, line: Seq<char>) -> DatabaseView {
    let (id_text, nodes) = tx_parts(line);
    match parse_unsigned(id_text, u64::MAX as nat) {
        None => db,
        Some(id) => match first_message_with_id(db.messages, id as u64) {
            None => db,
            Some(i) => DatabaseView {
                messages: db.messages.update(
                    i,
                    MessageView { sender_nodes: add_senders(db.messages[i].sender_nodes, tx_names(nodes)), ..db.messages[i] },
                ),
                ..db
            },
        },
    }
}

fn add_sender_exec(senders: &mut Vec<Node>, n: &Vec<char>)
    ensures
        nodes_view(final(senders)@) == add_sender(nodes_view(old(senders)@), n@),
{
    if n.len() == 0 {
        return;
    }
    match find_node(senders, n) {
        Some(_) => {},
        None => {
            let ghost before = nodes_view(senders@);
            senders.push(Node { name: string_of(n), comment: string_of(&Vec::new()) });
            assert(nodes_view(senders@) =~= before.push(NodeView { name: n@, comment: seq![] }));
        },
    }
}

/// Decodes `BO_TX_BU_ <ID> : <Node>,<Node>,...;`: every listed node that is
/// not yet a sender of the first message with that identifier is appended to
/// its senders, in order.
pub fn tx_nodes(db: &mut Database, line: &str)
    ensures
        final(db)@ == tx_nodes_result(old(db)@, line@),
{
    let l: Vec<char> = chars_of(line);
    let pat: Vec<char> = chars_of("BO_TX_BU_");
    let stripped: Vec<char> = trim_start_pat_exec(&l, &pat);
    let content: Vec<char> = trim_exec(&stripped, CharClass::Ws(true));
    let (id_v, nodes_v): (Vec<char>, Vec<char>) = match find_exec(&content, ':') {
        Some(i) => {
            let a: Vec<char> = slice_of(&content, 0, i);
            let b: Vec<char> = slice_of(&content, i + 1, content.len());
            assert(a@ =~= content@.take(i as int));
            assert(b@ =~= content@.skip(i + 1));
            let bt: Vec<char> = trim_exec(&b, CharClass::Ws(true));
            (trim_exec(&a, CharClass::Ws(true)), trim_end_exec(&bt, CharClass::Is(';')))
        },
        None => (trim_exec(&content, CharClass::Ws(true)), Vec::new()),
    };
    assert(nodes_v@ == tx_parts(line@).1);
    let id: u64 = match parse_u64(&id_v) {
        Some(v) => v,
        None => return,
    };
    let mi: usize = match find_message(&db.messages, id) {
        Some(i) => i,
        None => return,
    };
    let pieces: Vec<Vec<char>> = split_char_exec(&nodes_v, ',');
    let ghost names = tx_names(nodes_v@);
    let ghost start = nodes_view(db.messages@[mi as int].sender_nodes@);
    let ghost m0 = db.messages@[mi as int]@;
    let mut k: usize = 0;
    while k < pieces.len()
        invariant
            k <= pieces.len(),
            mi < db.messages.len(),
            db.messages.len() == old(db).messages.len(),
            names == tx_names(nodes_v@),
            views(pieces@) == split_char(nodes_v@, ','),
            names.len() == pieces.len(),
            m0 == old(db).messages@[mi as int]@,
            start == m0.sender_nodes,
            nodes_view(db.messages@[mi as int].sender_nodes@) == add_senders(start, names.take(k as int)),
            db.messages@[mi as int]@ == (MessageView {
                sender_nodes: add_senders(start, names.take(k as int)),
                ..m0
            }),
            forall|j: int| 0 <= j < db.messages.len() && j != mi ==> #[trigger] db.messages@[j] == old(db).messages@[j],
            db.nodes == old(db).nodes,
            db.name == old(db).name,
            db.version == old(db).version,
            db.bustype == old(db).bustype,
            db.baudrate == old(db).baudrate,
            db.baudrate_canfd == old(db).baudrate_canfd,
            db.comment == old(db).comment,
        decreases pieces.len() - k,
    {
        let n: Vec<char> = trim_exec(&pieces[k], CharClass::Ws(true));
        assert(n@ == names[k as int]);
        add_sender_exec(&mut db.messages[mi].sender_nodes, &n);
        assert(names.take(k + 1).drop_last() =~= names.take(k as int));
        assert(names.take(k + 1).last() == names[k as int]);
        k = k + 1;
    }
    assert(names.take(pieces.len() as int) =~= names);
    assert(messages_view(db.messages@) =~= old(db)@.messages.update(
        mi as int,
        MessageView { sender_nodes: add_senders(old(db)@.messages[mi as int].sender_nodes, tx_names(tx_parts(line@).1)), ..old(db)@.messages[mi as int] },
    ));
}

/// The database after a `CM_ BO_ <ID> "..."` line.
pub open spec fn message_comment_result(db: DatabaseView, line: Seq<char>) -> DatabaseView {
    let t = tokens(line, true);
    if t.len() < 3 {
        db
    } else {
        match parse_unsigned(t[2], u64::MAX as nat) {
            None => db,
            Some(id) => match first_message_with_id(db.messages, id as u64) {
                None => db,
                Some(i) => match quoted_body(trim(trim_end_by(line, CharClass::Is(';')))) {
                    None => db,
                    Some(c) => DatabaseView {
                        messages: db.messages.update(i, MessageView { comment: c, ..db.messages[i] }),
                        ..db
                    },
                },
            },
        }
    }
}

/// Decodes `CM_ BO_ <ID> "Comment...";` into the comment of the first message
/// with that identifier.
pub fn comments(db: &mut Database, line: &str)
    ensures
        final(db)@ == message_comment_result(old(db)@, line@),
{
    let l: Vec<char> = chars_of(line);
    let parts: Vec<Vec<char>> = split_ws(&l, true);
    if parts.len() < 3 {
        return;
    }
    let id: u64 = match parse_u64(&parts[2]) {
        Some(v) => v,
        None => return,
    };
    let mi: usize = match find_message(&db.messages, id) {
        Some(i) => i,
        None => return,
    };
    let t1: Vec<char> = trim_end_exec(&l, CharClass::Is(';'));
    let t2: Vec<char> = trim_exec(&t1, CharClass::Ws(true));
    let c: Vec<char> = match quoted_body_exec(&t2) {
        Some(c) => c,
        None => return,
    };
    db.messages[mi].comment = string_of(&c);
    assert(messages_view(db.messages@) =~= old(db)@.messages.update(
        mi as int,
        MessageView { comment: c@, ..old(db)@.messages[mi as int] },
    ));
}

} // verus!
