//! Writing a database back as DBC text.
//!
//! The text is produced as a list of pieces: literal text, and the numeric
//! literals of the scaling attributes, which the model keeps as text and
//! which are written in their shortest decimal form by whoever renders the
//! pieces (see [`Piece`]).
use vstd::prelude::*;
use crate::dbc::types::attributes::{copy_value, table_find, table_get, table_of, table_put, table_put_exec, AttrDefView, AttrSpecView, AttrType, AttrValueView, AttributeDef, AttributeSpec, AttributeValue};
use crate::dbc::types::database::{DatabaseDBC, DatabaseView};
use crate::dbc::types::entities::{MessageDBC, MessageView, MuxInfo, MuxRole, MuxSelector, NodeDBC, NodeView, SignalDBC, SignalView};
use crate::dbc::types::errors::DbcSaveError;
use crate::dbc::types::keys::{MessageKey, NodeKey, SignalKey};
use crate::dbc::types::relations::{rel_values, rows_view, sort_rows, sort_rows_exec, RelRow, RowKey};
use crate::dbc::types::signal::{Endianness, Signess};
use crate::strings::{quote_scan, unescaped_quotes};
use crate::dbc::records::sg_::mux_of;
use crate::text::{is_digit, is_ws, law_dec_string_reads_back, parse_unsigned, trail_count, trim_end_by, CharClass};
use crate::text::{ascii_lower_exec, ascii_lower_seq, chars_of, chars_of_string, dec_string, ends_with, ends_with_exec, eq_vec, fmt_dec, fmt_signed, join_exec, join_with, signed_dec_string, string_of, views};

verus! {

/// A piece of DBC text.
#[derive(Debug)]
pub enum Piece {
    /// Text written as it is.
    Text(String),
    /// A floating-point literal, written in its shortest decimal form.
    Number(String),
}

/// Abstract piece.
pub enum PieceView {
    Text(Seq<char>),
    Number(Seq<char>),
}

impl View for Piece {
    type V = PieceView;

    open spec fn view(&self) -> PieceView {
        match self {
            Piece::Text(s) => PieceView::Text(s@),
            Piece::Number(s) => PieceView::Number(s@),
        }
    }
}

/// The views of a list of pieces.
pub open spec fn pieces_view(v: Seq<Piece>) -> Seq<PieceView> {
    v.map_values(|p: Piece| p@)
}

/// A text piece.
pub open spec fn tx(s: Seq<char>) -> PieceView {
    PieceView::Text(s)
}

// ---------------------------------------------------------------------------
// Escapes and folds
// ---------------------------------------------------------------------------

/// How a character is written inside a quoted DBC string.
pub open spec fn escape_char(c: char) -> Seq<char> {
    if c == '"' {
        seq!['\\', '"']
    } else if c == '\\' {
        seq!['\\', '\\']
    } else if c == '\n' {
        seq!['\\', 'n']
    } else if c == '\r' {
        seq!['\\', 'r']
    } else if c == '\t' {
        seq!['\\', 't']
    } else {
        seq![c]
    }
}

/// A text as written inside a quoted DBC string.
pub open spec fn escape_dbc(s: Seq<char>) -> Seq<char>
    decreases s.len(),
{
    if s.len() == 0 {
        seq![]
    } else {
        escape_dbc(s.drop_last()) + escape_char(s.last())
    }
}

/// The pieces `f` gives for each key of `ks` that `m` holds, in order.
pub open spec fn over<K, V>(m: Map<K, V>, ks: Seq<K>, f: spec_fn(V) -> Seq<PieceView>) -> Seq<PieceView>
    decreases ks.len(),
{
    if ks.len() == 0 {
        seq![]
    } else {
        over(m, ks.drop_last(), f) + if m.contains_key(ks.last()) {
            f(m[ks.last()])
        } else {
            seq![]
        }
    }
}

proof fn lemma_over_step<K, V>(m: Map<K, V>, ks: Seq<K>, i: int, f: spec_fn(V) -> Seq<PieceView>)
    requires
        0 <= i < ks.len(),
    ensures
        over(m, ks.take(i + 1), f) == over(m, ks.take(i), f) + if m.contains_key(ks[i]) {
            f(m[ks[i]])
        } else {
            seq![]
        },
{
    assert(ks.take(i + 1).drop_last() =~= ks.take(i));
}

/// The names of the nodes of `ks` that the database holds, in order.
pub open spec fn node_names(d: DatabaseView, ks: Seq<NodeKey>) -> Seq<Seq<char>>
    decreases ks.len(),
{
    if ks.len() == 0 {
        seq![]
    } else if d.nodes.contains_key(ks.last()) {
        node_names(d, ks.drop_last()).push(d.nodes[ks.last()].name)
    } else {
        node_names(d, ks.drop_last())
    }
}

/// The names of the nodes of `ks` that the database holds, each once, in
/// the order of their first appearance.
pub open spec fn distinct_node_names(d: DatabaseView, ks: Seq<NodeKey>) -> Seq<Seq<char>>
    decreases ks.len(),
{
    if ks.len() == 0 {
        seq![]
    } else {
        let prev = distinct_node_names(d, ks.drop_last());
        if d.nodes.contains_key(ks.last()) && !prev.contains(d.nodes[ks.last()].name) {
            prev.push(d.nodes[ks.last()].name)
        } else {
            prev
        }
    }
}

/// The name of the first node of `ks` the database holds, `Vector__XXX`
/// when there is none.
pub open spec fn transmitter(d: DatabaseView, ks: Seq<NodeKey>) -> Seq<char>
    decreases ks.len(),
{
    if ks.len() == 0 {
        "Vector__XXX"@
    } else if d.nodes.contains_key(ks[0]) {
        d.nodes[ks[0]].name
    } else {
        transmitter(d, ks.drop_first())
    }
}

// ---------------------------------------------------------------------------
// Sections
// ---------------------------------------------------------------------------

/// The namespace section: the keywords the file may use.
pub open spec fn ns_text() -> Seq<char> {
    "NS_ :\n\tNS_DESC_\n\tCM_\n\tBA_DEF_\n\tBA_\n\tVAL_\n\tCAT_DEF_\n\tCAT_\n\tFILTER\n\tBA_DEF_DEF_\n\tEV_DATA_\n\tENVVAR_DATA_\n\tSGTYPE_\n\tSGTYPE_VAL_\n\tBA_DEF_SGTYPE_\n\tBA_SGTYPE_\n\tSIG_TYPE_REF_\n\tVAL_TABLE_\n\tSIG_GROUP_\n\tSIG_VALTYPE_\n\tSIGTYPE_VALTYPE_\n\tBO_TX_BU_\n\tBA_DEF_REL_\n\tBA_REL_\n\tBA_DEF_DEF_REL_\n\tBU_SG_REL_\n\tBU_EV_REL_\n\tBU_BO_REL_\n\n"@
}

/// The header: version, namespace, bit timing and node list.
pub open spec fn header_part(d: DatabaseView) -> Seq<PieceView> {
    seq![tx("VERSION \""@), tx(escape_dbc(d.version)), tx("\"\n\n"@), tx(ns_text()), tx("BS_:\n\n"@), tx("BU_:"@)]
        + over(d.nodes, d.nodes_order, bu_fn()) + seq![tx("\n\n"@)]
}

/// The multiplexing tag after a signal's name.
pub open spec fn mux_tag(mux: Option<MuxInfo>) -> Seq<char> {
    match mux {
        Some(info) => match info.role {
            MuxRole::Multiplexor => " M"@,
            MuxRole::Multiplexed => match info.selector {
                MuxSelector::Value(v) => " m"@ + dec_string(v as nat),
                MuxSelector::Range { min, max } => " m"@ + dec_string(min as nat) + "-"@ + dec_string(max as nat),
            },
            MuxRole::NotMultiplexed => seq![],
        },
        None => seq![],
    }
}

/// The receivers of a signal as written: the names of those the database
/// holds, separated by commas, `Vector__XXX` when there is none.
pub open spec fn receivers_field(d: DatabaseView, ks: Seq<NodeKey>) -> Seq<char> {
    let names = node_names(d, ks);
    if names.len() == 0 {
        "Vector__XXX"@
    } else {
        join_with(names, ","@)
    }
}

/// A signal's `SG_` line.
pub open spec fn sg_line(d: DatabaseView, s: SignalView) -> Seq<PieceView> {
    seq![
        tx("\tSG_ "@),
        tx(s.name),
        tx(mux_tag(s.mux)),
        tx(" : "@),
        tx(dec_string(s.bit_start as nat)),
        tx("|"@),
        tx(dec_string(s.bit_length as nat)),
        tx("@"@),
        tx(if s.endian == Endianness::Intel { "1"@ } else { "0"@ }),
        tx(if s.sign == Signess::Signed { "-"@ } else { "+"@ }),
        tx(" ("@),
        PieceView::Number(s.factor),
        tx(","@),
        PieceView::Number(s.offset),
        tx(") ["@),
        PieceView::Number(s.min),
        tx("|"@),
        PieceView::Number(s.max),
        tx("] \""@),
        tx(escape_dbc(s.unit_of_measurement)),
        tx("\"  "@),
        tx(receivers_field(d, s.receiver_nodes)),
        tx("\n"@),
    ]
}

/// A message's `BO_` line, the `SG_` lines of its signals and a blank line.
pub open spec fn bo_block(d: DatabaseView, m: MessageView) -> Seq<PieceView> {
    seq![
        tx("BO_ "@),
        tx(dec_string(m.id as nat)),
        tx(" "@),
        tx(m.name),
        tx(": "@),
        tx(dec_string(m.byte_length as nat)),
        tx(" "@),
        tx(transmitter(d, m.sender_nodes)),
        tx("\n"@),
    ] + over(d.signals, m.signals, sg_fn(d)) + seq![tx("\n"@)]
}

/// The messages with their signals.
pub open spec fn messages_part(d: DatabaseView) -> Seq<PieceView> {
    over(d.messages, d.messages_order, bo_fn(d)) + seq![tx("\n"@)]
}

/// A node's name in the node list.
pub open spec fn bu_fn() -> spec_fn(NodeView) -> Seq<PieceView> {
    |n: NodeView| seq![tx(" "@), tx(n.name)]
}

/// [`sg_line`] of each signal.
pub open spec fn sg_fn(d: DatabaseView) -> spec_fn(SignalView) -> Seq<PieceView> {
    |s: SignalView| sg_line(d, s)
}

/// [`bo_block`] of each message.
pub open spec fn bo_fn(d: DatabaseView) -> spec_fn(MessageView) -> Seq<PieceView> {
    |m: MessageView| bo_block(d, m)
}

/// A message's `BO_TX_BU_` line: its transmitters the database holds, each
/// once; nothing when there is none.
pub open spec fn tx_line(d: DatabaseView, m: MessageView) -> Seq<PieceView> {
    let names = distinct_node_names(d, m.sender_nodes);
    if names.len() == 0 {
        seq![]
    } else {
        seq![tx("BO_TX_BU_ "@), tx(dec_string(m.id as nat)), tx(" :"@), tx(join_with(names, ","@)), tx(";\n"@)]
    }
}

/// [`tx_line`] of each message.
pub open spec fn tx_fn(d: DatabaseView) -> spec_fn(MessageView) -> Seq<PieceView> {
    |m: MessageView| tx_line(d, m)
}

/// The transmitters of the messages.
pub open spec fn bo_tx_bu_part(d: DatabaseView) -> Seq<PieceView> {
    over(d.messages, d.messages_order, tx_fn(d)) + seq![tx("\n"@)]
}

/// The pieces `f` gives for each entry of a table, in order.
pub open spec fn each<W>(t: Seq<(Seq<char>, W)>, f: spec_fn(Seq<char>, W) -> Seq<PieceView>) -> Seq<PieceView>
    decreases t.len(),
{
    if t.len() == 0 {
        seq![]
    } else {
        each(t.drop_last(), f) + f(t.last().0, t.last().1)
    }
}

proof fn lemma_each_step<W>(t: Seq<(Seq<char>, W)>, i: int, f: spec_fn(Seq<char>, W) -> Seq<PieceView>)
    requires
        0 <= i < t.len(),
    ensures
        each(t.take(i + 1), f) == each(t.take(i), f) + f(t[i].0, t[i].1),
{
    assert(t.take(i + 1).drop_last() =~= t.take(i));
}

/// A text between double quotes, escaped.
pub open spec fn quoted(s: Seq<char>) -> Seq<char> {
    "\""@ + escape_dbc(s) + "\""@
}

/// Each text between double quotes, escaped.
pub open spec fn quoted_all(vs: Seq<Seq<char>>) -> Seq<Seq<char>>
    decreases vs.len(),
{
    if vs.len() == 0 {
        seq![]
    } else {
        quoted_all(vs.drop_last()).push(quoted(vs.last()))
    }
}

/// An attribute definition's type and range.
pub open spec fn def_signature(def: AttrDefView) -> Seq<PieceView> {
    match def.kind {
        AttrType::String => seq![tx("STRING"@)],
        AttrType::Int => seq![
            tx("INT "@),
            tx(signed_dec_string(match def.int_min { Some(v) => v as int, None => 0 })),
            tx(" "@),
            tx(signed_dec_string(match def.int_max { Some(v) => v as int, None => 0 })),
        ],
        AttrType::Hex => seq![
            tx("HEX "@),
            tx(dec_string(match def.hex_min { Some(v) => v as nat, None => 0 })),
            tx(" "@),
            tx(dec_string(match def.hex_max { Some(v) => v as nat, None => 0 })),
        ],
        AttrType::Float => seq![
            tx("FLOAT "@),
            PieceView::Number(match def.float_min { Some(v) => v, None => "0"@ }),
            tx(" "@),
            PieceView::Number(match def.float_max { Some(v) => v, None => "0"@ }),
        ],
        AttrType::Enum => seq![tx("ENUM "@), tx(join_with(quoted_all(def.enum_values), ", "@))],
    }
}

/// A `BA_DEF_` line of a database attribute that has a definition.
pub open spec fn def_fn() -> spec_fn(Seq<char>, AttrSpecView) -> Seq<PieceView> {
    |name: Seq<char>, spec: AttrSpecView|
        match spec.def {
            Some(def) => seq![tx("BA_DEF_ \""@), tx(name), tx("\" "@)] + def_signature(def) + seq![tx(";\n"@)],
            None => seq![],
        }
}

/// A `<kw><object> "<name>" <signature>;` line (`kw` is `BA_DEF_ ` with
/// `obj` one of `BU_`, `BO_`, `SG_`, or `BA_DEF_REL_ ` with `obj` one of
/// `BU_SG_REL_`, `BU_BO_REL_`) of an attribute that has a definition.
pub open spec fn obj_def_fn(kw: Seq<char>, obj: Seq<char>) -> spec_fn(Seq<char>, AttrSpecView) -> Seq<PieceView> {
    |name: Seq<char>, spec: AttrSpecView|
        match spec.def {
            Some(def) => seq![tx(kw), tx(obj), tx(" \""@), tx(name), tx("\" "@)] + def_signature(def) + seq![tx(";\n"@)],
            None => seq![],
        }
}

/// The attribute definitions of the database, the nodes, the messages and
/// the signals, then the node–signal and node–message relation attribute
/// definitions.
pub open spec fn attr_defs_part(d: DatabaseView) -> Seq<PieceView> {
    each(d.db_attr_spec, def_fn()) + each(d.node_attr_spec, obj_def_fn("BA_DEF_ "@, "BU_"@))
        + each(d.msg_attr_spec, obj_def_fn("BA_DEF_ "@, "BO_"@)) + each(d.sig_attr_spec, obj_def_fn("BA_DEF_ "@, "SG_"@))
        + seq![tx("\n"@)] + each(d.rel_attr_spec_bu_sg, obj_def_fn("BA_DEF_REL_ "@, "BU_SG_REL_"@))
        + each(d.rel_attr_spec_bu_bo, obj_def_fn("BA_DEF_REL_ "@, "BU_BO_REL_"@)) + seq![tx("\n"@)]
}

/// The first position of `x` in `vs`.
pub open spec fn first_index(vs: Seq<Seq<char>>, x: Seq<char>) -> Option<nat>
    decreases vs.len(),
{
    if vs.len() == 0 {
        None
    } else if vs[0] == x {
        Some(0)
    } else {
        match first_index(vs.drop_first(), x) {
            Some(i) => Some(i + 1),
            None => None,
        }
    }
}

/// The position of an enumeration attribute's value among the values its
/// definition lists, when the definition is an enumeration that lists it.
pub open spec fn enum_index(spec: Option<AttrSpecView>, sel: Seq<char>) -> Option<nat> {
    match spec {
        Some(sp) => match sp.def {
            Some(def) => if def.kind == AttrType::Enum {
                first_index(def.enum_values, sel)
            } else {
                None
            },
            None => None,
        },
        None => None,
    }
}

/// How an attribute value is written, given its attribute's specification:
/// an enumeration value as its position when the definition lists it.
pub open spec fn value_pieces(v: AttrValueView, spec: Option<AttrSpecView>) -> Seq<PieceView> {
    match v {
        AttrValueView::Str(s) => seq![tx(quoted(s))],
        AttrValueView::Int(i) => seq![tx(signed_dec_string(i as int))],
        AttrValueView::Hex(h) => seq![tx(dec_string(h as nat))],
        AttrValueView::Float(f) => seq![PieceView::Number(f)],
        AttrValueView::Enum(sel) => match enum_index(spec, sel) {
            Some(i) => seq![tx(dec_string(i))],
            None => seq![tx(quoted(sel))],
        },
    }
}

/// The attribute defaults.
pub open spec fn defaults_part(d: DatabaseView) -> Seq<PieceView> {
    each(merged_defaults(d), merged_default_fn(d)) + each(rel_defaults(d), rel_default_fn(d)) + seq![tx("\n"@)]
}

/// The defaults of the node–signal and node–message relation attributes in
/// one table ordered by name (the node–signal one first where both have a
/// name).
pub open spec fn rel_defaults(d: DatabaseView) -> Seq<(Seq<char>, AttrValueView)> {
    put_defaults(put_defaults(Seq::empty(), d.rel_attr_spec_bu_sg), d.rel_attr_spec_bu_bo)
}

/// The specification of relation attribute `name`: the node–signal one, else
/// the node–message one.
pub open spec fn rel_spec(d: DatabaseView, name: Seq<char>) -> Option<AttrSpecView> {
    match table_get(d.rel_attr_spec_bu_sg, name) {
        Some(s) => Some(s),
        None => table_get(d.rel_attr_spec_bu_bo, name),
    }
}

/// A `BA_DEF_DEF_REL_` line of the relation defaults.
pub open spec fn rel_default_fn(d: DatabaseView) -> spec_fn(Seq<char>, AttrValueView) -> Seq<PieceView> {
    |name: Seq<char>, v: AttrValueView|
        seq![tx("BA_DEF_DEF_REL_ \""@), tx(name), tx("\" "@)] + value_pieces(v, rel_spec(d, name)) + seq![tx(";\n"@)]
}

/// Table `t` with the defaults of `src` put in, in order, each only where
/// `t` has no entry of that name yet.
pub open spec fn put_defaults(t: Seq<(Seq<char>, AttrValueView)>, src: Seq<(Seq<char>, AttrSpecView)>) -> Seq<(Seq<char>, AttrValueView)>
    decreases src.len(),
{
    if src.len() == 0 {
        t
    } else {
        let r = put_defaults(t, src.drop_last());
        match src.last().1.default {
            Some(v) => if table_get(r, src.last().0) is Some {
                r
            } else {
                table_put(r, src.last().0, v)
            },
            None => r,
        }
    }
}

/// The defaults of the database, node, message and signal attributes in one
/// table ordered by name; where two tables define a default of the same
/// name, the first of them in that order gives it.
pub open spec fn merged_defaults(d: DatabaseView) -> Seq<(Seq<char>, AttrValueView)> {
    put_defaults(put_defaults(put_defaults(put_defaults(Seq::empty(), d.db_attr_spec), d.node_attr_spec), d.msg_attr_spec), d.sig_attr_spec)
}

/// The specification of attribute `name`: the first of the database, node,
/// message and signal tables that has one.
pub open spec fn any_spec(d: DatabaseView, name: Seq<char>) -> Option<AttrSpecView> {
    match table_get(d.db_attr_spec, name) {
        Some(s) => Some(s),
        None => match table_get(d.node_attr_spec, name) {
            Some(s) => Some(s),
            None => match table_get(d.msg_attr_spec, name) {
                Some(s) => Some(s),
                None => table_get(d.sig_attr_spec, name),
            },
        },
    }
}

/// A `BA_DEF_DEF_` line of the merged defaults.
pub open spec fn merged_default_fn(d: DatabaseView) -> spec_fn(Seq<char>, AttrValueView) -> Seq<PieceView> {
    |name: Seq<char>, v: AttrValueView|
        seq![tx("BA_DEF_DEF_ \""@), tx(name), tx("\" "@)] + value_pieces(v, any_spec(d, name)) + seq![tx(";\n"@)]
}

/// A `BA_` line of a database attribute value.
pub open spec fn assign_fn(d: DatabaseView) -> spec_fn(Seq<char>, AttrValueView) -> Seq<PieceView> {
    |name: Seq<char>, v: AttrValueView|
        seq![tx("BA_ \""@), tx(name), tx("\" "@)] + value_pieces(v, table_get(d.db_attr_spec, name)) + seq![tx(";\n"@)]
}

/// A `BA_ "<name>" BU_ <node> <value>;` line of node `node`.
pub open spec fn node_assign_fn(d: DatabaseView, node: Seq<char>) -> spec_fn(Seq<char>, AttrValueView) -> Seq<PieceView> {
    |name: Seq<char>, v: AttrValueView|
        seq![tx("BA_ \""@), tx(name), tx("\" BU_ "@), tx(node), tx(" "@)] + value_pieces(v, table_get(d.node_attr_spec, name))
            + seq![tx(";\n"@)]
}

/// The attribute value lines of a node.
pub open spec fn node_attrs_fn(d: DatabaseView) -> spec_fn(NodeView) -> Seq<PieceView> {
    |n: NodeView| each(n.attributes, node_assign_fn(d, n.name))
}

/// A `BA_ "<name>" BO_ <id> <value>;` line of the message with identifier
/// `id`.
pub open spec fn msg_assign_fn(d: DatabaseView, id: nat) -> spec_fn(Seq<char>, AttrValueView) -> Seq<PieceView> {
    |name: Seq<char>, v: AttrValueView|
        seq![tx("BA_ \""@), tx(name), tx("\" BO_ "@), tx(dec_string(id)), tx(" "@)] + value_pieces(v, table_get(d.msg_attr_spec, name))
            + seq![tx(";\n"@)]
}

/// The attribute value lines of a message.
pub open spec fn msg_attrs_fn(d: DatabaseView) -> spec_fn(MessageView) -> Seq<PieceView> {
    |m: MessageView| each(m.attributes, msg_assign_fn(d, m.id as nat))
}

/// A `BA_ "<name>" SG_ <id> <signal> <value>;` line of signal `sig` of the
/// message with identifier `id`.
pub open spec fn sig_assign_fn(d: DatabaseView, id: nat, sig: Seq<char>) -> spec_fn(Seq<char>, AttrValueView) -> Seq<PieceView> {
    |name: Seq<char>, v: AttrValueView|
        seq![tx("BA_ \""@), tx(name), tx("\" SG_ "@), tx(dec_string(id)), tx(" "@), tx(sig), tx(" "@)]
            + value_pieces(v, table_get(d.sig_attr_spec, name)) + seq![tx(";\n"@)]
}

/// The attribute value lines of a signal of the message with identifier
/// `id`.
pub open spec fn sig_attrs_fn(d: DatabaseView, id: nat) -> spec_fn(SignalView) -> Seq<PieceView> {
    |g: SignalView| each(g.attributes, sig_assign_fn(d, id, g.name))
}

/// The attribute value lines of the signals of a message, in its order.
pub open spec fn msg_sig_attrs_fn(d: DatabaseView) -> spec_fn(MessageView) -> Seq<PieceView> {
    |m: MessageView| over(d.signals, m.signals, sig_attrs_fn(d, m.id as nat))
}

/// What `f` gives for each of `ks`, in order, joined.
pub open spec fn gather<K, T>(ks: Seq<K>, f: spec_fn(K) -> Seq<T>) -> Seq<T>
    decreases ks.len(),
{
    if ks.len() == 0 {
        seq![]
    } else {
        gather(ks.drop_last(), f) + f(ks.last())
    }
}

proof fn lemma_gather_step<K, T>(ks: Seq<K>, i: int, f: spec_fn(K) -> Seq<T>)
    requires
        0 <= i < ks.len(),
    ensures
        gather(ks.take(i + 1), f) == gather(ks.take(i), f) + f(ks[i]),
{
    assert(ks.take(i + 1).drop_last() =~= ks.take(i));
}


/// A `BA_REL_ "<name>" BU_SG_REL_ <node> SG_ <id> <signal> <value>;` line of
/// the relation of node `node` and signal `sig` of the message with
/// identifier `id`.
pub open spec fn rel_sg_line_fn(d: DatabaseView, node: Seq<char>, id: nat, sig: Seq<char>) -> spec_fn(Seq<char>, AttrValueView) -> Seq<PieceView> {
    |name: Seq<char>, v: AttrValueView|
        seq![tx("BA_REL_ \""@), tx(name), tx("\" BU_SG_REL_ "@), tx(node), tx(" SG_ "@), tx(dec_string(id)), tx(" "@), tx(sig), tx(" "@)]
            + value_pieces(v, table_get(d.rel_attr_spec_bu_sg, name)) + seq![tx(";\n"@)]
}

/// A `BA_REL_ "<name>" BU_BO_REL_ <node> BO_ <id> <value>;` line of the
/// relation of node `node` and the message with identifier `id`.
pub open spec fn rel_bo_line_fn(d: DatabaseView, node: Seq<char>, id: nat) -> spec_fn(Seq<char>, AttrValueView) -> Seq<PieceView> {
    |name: Seq<char>, v: AttrValueView|
        seq![tx("BA_REL_ \""@), tx(name), tx("\" BU_BO_REL_ "@), tx(node), tx(" BO_ "@), tx(dec_string(id)), tx(" "@)]
            + value_pieces(v, table_get(d.rel_attr_spec_bu_bo, name)) + seq![tx(";\n"@)]
}

/// The row of the relation of node `nk` and signal `sk` of message `mk`,
/// when it holds values.
pub open spec fn sg_row_fn(d: DatabaseView, nk: NodeKey, mk: MessageKey) -> spec_fn(SignalKey) -> Seq<RowKey<SignalKey>> {
    |sk: SignalKey|
        if d.signals.contains_key(sk) && rel_values(d.bu_sg_rel_attributes, (nk, sk)).len() > 0 {
            seq![RowKey { node: d.nodes[nk].name, id: d.messages[mk].id, obj: d.signals[sk].name, nk: nk, k: sk }]
        } else {
            seq![]
        }
}

/// The rows of the relations of node `nk` and the signals of each message.
pub open spec fn sg_msg_rows_fn(d: DatabaseView, nk: NodeKey) -> spec_fn(MessageKey) -> Seq<RowKey<SignalKey>> {
    |mk: MessageKey|
        if d.messages.contains_key(mk) {
            gather(d.messages[mk].signals, sg_row_fn(d, nk, mk))
        } else {
            seq![]
        }
}

/// The node-and-signal relation rows of each node, messages in order.
pub open spec fn sg_node_rows_fn(d: DatabaseView) -> spec_fn(NodeKey) -> Seq<RowKey<SignalKey>> {
    |nk: NodeKey|
        if d.nodes.contains_key(nk) {
            gather(d.messages_order, sg_msg_rows_fn(d, nk))
        } else {
            seq![]
        }
}

/// The node-and-signal relations that hold values: nodes in order, then
/// messages in order, then each message's signals in order.
pub open spec fn sg_rows(d: DatabaseView) -> Seq<RowKey<SignalKey>> {
    gather(d.nodes_order, sg_node_rows_fn(d))
}

/// The row of the relation of node `nk` and message `mk`, when it holds
/// values.
pub open spec fn bo_row_fn(d: DatabaseView, nk: NodeKey) -> spec_fn(MessageKey) -> Seq<RowKey<MessageKey>> {
    |mk: MessageKey|
        if d.messages.contains_key(mk) && rel_values(d.bu_bo_rel_attributes, (nk, mk)).len() > 0 {
            seq![RowKey { node: d.nodes[nk].name, id: d.messages[mk].id, obj: Seq::empty(), nk: nk, k: mk }]
        } else {
            seq![]
        }
}

/// The node-and-message relation rows of each node, messages in order.
pub open spec fn bo_node_rows_fn(d: DatabaseView) -> spec_fn(NodeKey) -> Seq<RowKey<MessageKey>> {
    |nk: NodeKey|
        if d.nodes.contains_key(nk) {
            gather(d.messages_order, bo_row_fn(d, nk))
        } else {
            seq![]
        }
}

/// The node-and-message relations that hold values: nodes in order, then
/// messages in order.
pub open spec fn bo_rows(d: DatabaseView) -> Seq<RowKey<MessageKey>> {
    gather(d.nodes_order, bo_node_rows_fn(d))
}

/// The value lines of a node-and-signal relation, by attribute name.
pub open spec fn sg_row_lines_fn(d: DatabaseView) -> spec_fn(RowKey<SignalKey>) -> Seq<PieceView> {
    |r: RowKey<SignalKey>| each(rel_values(d.bu_sg_rel_attributes, (r.nk, r.k)), rel_sg_line_fn(d, r.node, r.id as nat, r.obj))
}

/// The value lines of a node-and-message relation, by attribute name.
pub open spec fn bo_row_lines_fn(d: DatabaseView) -> spec_fn(RowKey<MessageKey>) -> Seq<PieceView> {
    |r: RowKey<MessageKey>| each(rel_values(d.bu_bo_rel_attributes, (r.nk, r.k)), rel_bo_line_fn(d, r.node, r.id as nat))
}

/// The relation attribute values: first those of nodes and signals, then
/// those of nodes and messages, each sorted by node name, then message
/// identifier, then signal name (see [`sort_rows`]), each relation's values
/// by attribute name.
pub open spec fn rel_assignments_part(d: DatabaseView) -> Seq<PieceView> {
    gather(sort_rows(sg_rows(d)), sg_row_lines_fn(d)) + gather(sort_rows(bo_rows(d)), bo_row_lines_fn(d))
}


/// The database attribute values, the node attribute values (nodes in
/// order), the message attribute values (messages in order), the signal
/// attribute values (messages in order, then their signals in order), then
/// the relation attribute values.
pub open spec fn assignments_part(d: DatabaseView) -> Seq<PieceView> {
    each(d.attributes, assign_fn(d)) + over(d.nodes, d.nodes_order, node_attrs_fn(d))
        + over(d.messages, d.messages_order, msg_attrs_fn(d)) + over(d.messages, d.messages_order, msg_sig_attrs_fn(d))
        + seq![tx("\n"@)] + rel_assignments_part(d) + seq![tx("\n"@)]
}

/// A node's `CM_ BU_` line, when it has a comment.
pub open spec fn cm_bu_fn() -> spec_fn(NodeView) -> Seq<PieceView> {
    |n: NodeView|
        if n.comment.len() > 0 {
            seq![tx("CM_ BU_ "@), tx(n.name), tx(" \""@), tx(escape_dbc(n.comment)), tx("\";\n"@)]
        } else {
            seq![]
        }
}

/// A message's `CM_ BO_` line, when it has a comment.
pub open spec fn cm_bo_fn() -> spec_fn(MessageView) -> Seq<PieceView> {
    |m: MessageView|
        if m.comment.len() > 0 {
            seq![tx("CM_ BO_ "@), tx(dec_string(m.id as nat)), tx(" \""@), tx(escape_dbc(m.comment)), tx("\";\n"@)]
        } else {
            seq![]
        }
}

/// A signal's `CM_ SG_` line in message `id`, when it has a comment.
pub open spec fn cm_sg_fn(id: u32) -> spec_fn(SignalView) -> Seq<PieceView> {
    |s: SignalView|
        if s.comment.len() > 0 {
            seq![
                tx("CM_ SG_ "@),
                tx(dec_string(id as nat)),
                tx(" "@),
                tx(s.name),
                tx(" \""@),
                tx(escape_dbc(s.comment)),
                tx("\";\n"@),
            ]
        } else {
            seq![]
        }
}

/// A signal's `SIG_VALTYPE_` line in message `id`, for IEEE signals.
pub open spec fn valtype_fn(id: u32) -> spec_fn(SignalView) -> Seq<PieceView> {
    |s: SignalView|
        match s.sign {
            Signess::IeeeFloat => seq![tx("SIG_VALTYPE_ "@), tx(dec_string(id as nat)), tx(" "@), tx(s.name), tx(" : "@), tx("1"@), tx(";\n"@)],
            Signess::IeeeDouble => seq![tx("SIG_VALTYPE_ "@), tx(dec_string(id as nat)), tx(" "@), tx(s.name), tx(" : "@), tx("2"@), tx(";\n"@)],
            _ => seq![],
        }
}

/// The value descriptions of a `VAL_` line.
pub open spec fn val_entries(t: Seq<(i64, Seq<char>)>) -> Seq<PieceView>
    decreases t.len(),
{
    if t.len() == 0 {
        seq![]
    } else {
        val_entries(t.drop_last()) + seq![
            tx(" "@),
            tx(signed_dec_string(t.last().0 as int)),
            tx(" \""@),
            tx(escape_dbc(t.last().1)),
            tx("\""@),
        ]
    }
}

/// A signal's `VAL_` line in message `id`, when it has value descriptions.
pub open spec fn val_fn(id: u32) -> spec_fn(SignalView) -> Seq<PieceView> {
    |s: SignalView|
        if s.value_table.len() > 0 {
            seq![tx("VAL_ "@), tx(dec_string(id as nat)), tx(" "@), tx(s.name)] + val_entries(s.value_table) + seq![tx(" ;\n"@)]
        } else {
            seq![]
        }
}

/// The signals' `CM_ SG_` lines of a message.
pub open spec fn cm_sg_msg_fn(d: DatabaseView) -> spec_fn(MessageView) -> Seq<PieceView> {
    |m: MessageView| over(d.signals, m.signals, cm_sg_fn(m.id))
}

/// The signals' `SIG_VALTYPE_` lines of a message.
pub open spec fn valtype_msg_fn(d: DatabaseView) -> spec_fn(MessageView) -> Seq<PieceView> {
    |m: MessageView| over(d.signals, m.signals, valtype_fn(m.id))
}

/// The signals' `VAL_` lines of a message.
pub open spec fn val_msg_fn(d: DatabaseView) -> spec_fn(MessageView) -> Seq<PieceView> {
    |m: MessageView| over(d.signals, m.signals, val_fn(m.id))
}

/// The comments: the network's, the nodes', the messages' and the signals'.
pub open spec fn comments_part(d: DatabaseView) -> Seq<PieceView> {
    (if d.comment.len() > 0 {
        seq![tx("CM_ \""@), tx(escape_dbc(d.comment)), tx("\";\n"@)]
    } else {
        seq![]
    }) + over(d.nodes, d.nodes_order, cm_bu_fn()) + over(d.messages, d.messages_order, cm_bo_fn())
        + over(d.messages, d.messages_order, cm_sg_msg_fn(d)) + seq![tx("\n"@)]
}

/// The DBC text of a database, section after section: header and nodes,
/// messages with their signals, transmitters, attribute definitions,
/// defaults and values, comments, signal value types and value
/// descriptions.
pub open spec fn dbc_pieces(d: DatabaseView) -> Seq<PieceView> {
    header_part(d) + messages_part(d) + bo_tx_bu_part(d) + attr_defs_part(d) + defaults_part(d) + assignments_part(d)
        + comments_part(d) + over(d.messages, d.messages_order, valtype_msg_fn(d)) + over(d.messages, d.messages_order, val_msg_fn(d))
}

// ---------------------------------------------------------------------------
// Writing pieces
// ---------------------------------------------------------------------------

/// Appends pieces.
fn append_pieces(out: &mut Vec<Piece>, more: Vec<Piece>)
    ensures
        pieces_view(final(out)@) == pieces_view(old(out)@) + pieces_view(more@),
{
    let ghost a = out@;
    let mut more = more;
    let ghost b = more@;
    out.append(&mut more);
    assert(pieces_view(out@) =~= pieces_view(a) + pieces_view(b));
}

fn text_of(s: &str) -> (p: Piece)
    ensures
        p@ == tx(s@),
{
    Piece::Text(string_of(&chars_of(s)))
}

fn text_chars(v: &Vec<char>) -> (p: Piece)
    ensures
        p@ == tx(v@),
{
    Piece::Text(string_of(v))
}

fn text_copy(s: &String) -> (p: Piece)
    ensures
        p@ == tx(s@),
{
    Piece::Text(string_of(&chars_of_string(s)))
}

fn number_copy(s: &String) -> (p: Piece)
    ensures
        p@ == PieceView::Number(s@),
{
    Piece::Number(string_of(&chars_of_string(s)))
}

fn dec_text(n: u64) -> (p: Piece)
    ensures
        p@ == tx(dec_string(n as nat)),
{
    text_chars(&fmt_dec(n))
}

/// Escapes a text for a quoted DBC string: `"`, `\`, line feed, carriage
/// return and tab are written with a backslash.
pub fn escape_dbc_string(input: &str) -> (r: String)
    ensures
        r@ == escape_dbc(input@),
{
    let v: Vec<char> = chars_of(input);
    let mut out: Vec<char> = Vec::new();
    let mut i: usize = 0;
    while i < v.len()
        invariant
            i <= v.len(),
            v@ == input@,
            out@ == escape_dbc(v@.take(i as int)),
        decreases v.len() - i,
    {
        assert(v@.take(i + 1).drop_last() =~= v@.take(i as int));
        let c: char = v[i];
        if c == '"' {
            out.push('\\');
            out.push('"');
        } else if c == '\\' {
            out.push('\\');
            out.push('\\');
        } else if c == '\n' {
            out.push('\\');
            out.push('n');
        } else if c == '\r' {
            out.push('\\');
            out.push('r');
        } else if c == '\t' {
            out.push('\\');
            out.push('t');
        } else {
            out.push(c);
        }
        assert(out@ =~= escape_dbc(v@.take(i as int)) + escape_char(c));
        i = i + 1;
    }
    assert(v@.take(v.len() as int) =~= v@);
    string_of(&out)
}

fn escaped(s: &String) -> (p: Piece)
    ensures
        p@ == tx(escape_dbc(s@)),
{
    Piece::Text(escape_dbc_string(s.as_str()))
}

fn node_names_exec(db: &DatabaseDBC, ks: &Vec<NodeKey>) -> (r: Vec<Vec<char>>)
    ensures
        views(r@) == node_names(db@, ks@),
{
    let mut r: Vec<Vec<char>> = Vec::new();
    let mut i: usize = 0;
    while i < ks.len()
        invariant
            i <= ks.len(),
            views(r@) == node_names(db@, ks@.take(i as int)),
        decreases ks.len() - i,
    {
        assert(ks@.take(i + 1).drop_last() =~= ks@.take(i as int));
        match db.get_node_by_key(ks[i]) {
            Some(n) => {
                let ghost before = views(r@);
                r.push(chars_of_string(&n.name));
                assert(views(r@) =~= before.push(n@.name));
            },
            None => {},
        }
        i = i + 1;
    }
    assert(ks@.take(ks.len() as int) =~= ks@);
    r
}

fn transmitter_exec(db: &DatabaseDBC, ks: &Vec<NodeKey>) -> (r: Piece)
    ensures
        r@ == tx(transmitter(db@, ks@)),
{
    let mut i: usize = 0;
    assert(ks@.skip(0) =~= ks@);
    while i < ks.len()
        invariant
            i <= ks.len(),
            transmitter(db@, ks@) == transmitter(db@, ks@.skip(i as int)),
        decreases ks.len() - i,
    {
        assert(ks@.skip(i as int)[0] == ks@[i as int]);
        assert(ks@.skip(i as int).drop_first() =~= ks@.skip(i + 1));
        match db.get_node_by_key(ks[i]) {
            Some(n) => {
                return text_copy(&n.name);
            },
            None => {},
        }
        i = i + 1;
    }
    assert(ks@.skip(ks.len() as int) =~= Seq::<NodeKey>::empty());
    text_of("Vector__XXX")
}

fn mux_tag_exec(mux: Option<MuxInfo>) -> (r: Piece)
    ensures
        r@ == tx(mux_tag(mux)),
{
    match mux {
        Some(info) => match info.role {
            MuxRole::Multiplexor => text_of(" M"),
            MuxRole::Multiplexed => match info.selector {
                MuxSelector::Value(v) => {
                    let mut t: Vec<char> = chars_of(" m");
                    let mut d: Vec<char> = fmt_dec(v as u64);
                    t.append(&mut d);
                    text_chars(&t)
                },
                MuxSelector::Range { min, max } => {
                    let mut t: Vec<char> = chars_of(" m");
                    let mut a: Vec<char> = fmt_dec(min as u64);
                    let mut dash: Vec<char> = chars_of("-");
                    let mut b: Vec<char> = fmt_dec(max as u64);
                    t.append(&mut a);
                    t.append(&mut dash);
                    t.append(&mut b);
                    text_chars(&t)
                },
            },
            MuxRole::NotMultiplexed => Piece::Text(String::new()),
        },
        None => Piece::Text(String::new()),
    }
}

fn sg_line_exec(db: &DatabaseDBC, s: &SignalDBC) -> (r: Vec<Piece>)
    ensures
        pieces_view(r@) == sg_line(db@, s@),
{
    let receivers: Vec<Vec<char>> = node_names_exec(db, &s.receiver_nodes);
    let field: Piece = if receivers.len() == 0 {
        text_of("Vector__XXX")
    } else {
        text_chars(&join_exec(&receivers, &chars_of(",")))
    };
    let endian: Piece = match s.endian {
        Endianness::Intel => text_of("1"),
        Endianness::Motorola => text_of("0"),
    };
    let sign: Piece = match s.sign {
        Signess::Signed => text_of("-"),
        _ => text_of("+"),
    };
    let r: Vec<Piece> = vec![
        text_of("\tSG_ "),
        text_copy(&s.name),
        mux_tag_exec(s.mux),
        text_of(" : "),
        dec_text(s.bit_start as u64),
        text_of("|"),
        dec_text(s.bit_length as u64),
        text_of("@"),
        endian,
        sign,
        text_of(" ("),
        number_copy(&s.factor),
        text_of(","),
        number_copy(&s.offset),
        text_of(") ["),
        number_copy(&s.min),
        text_of("|"),
        number_copy(&s.max),
        text_of("] \""),
        escaped(&s.unit_of_measurement),
        text_of("\"  "),
        field,
        text_of("\n"),
    ];
    assert(pieces_view(r@) =~= sg_line(db@, s@));
    r
}


// ---------------------------------------------------------------------------
// Writing the sections
// ---------------------------------------------------------------------------

#[derive(Clone, Copy)]
enum SigSection {
    Sg,
    Comment,
    ValType,
    Val,
}

spec fn sig_section_fn(d: DatabaseView, id: u32, sec: SigSection) -> spec_fn(SignalView) -> Seq<PieceView> {
    match sec {
        SigSection::Sg => sg_fn(d),
        SigSection::Comment => cm_sg_fn(id),
        SigSection::ValType => valtype_fn(id),
        SigSection::Val => val_fn(id),
    }
}

fn is_empty_text(s: &String) -> (r: bool)
    ensures
        r == (s@.len() == 0),
{
    chars_of_string(s).len() == 0
}

fn val_line(id: u32, s: &SignalDBC) -> (r: Vec<Piece>)
    ensures
        pieces_view(r@) == val_fn(id)(s@),
{
    if s.value_table.len() == 0 {
        return Vec::new();
    }
    let ghost t = s@.value_table;
    let mut r: Vec<Piece> = vec![text_of("VAL_ "), dec_text(id as u64), text_of(" "), text_copy(&s.name)];
    let ghost head = pieces_view(r@);
    let mut i: usize = 0;
    assert(t.take(0) =~= Seq::<(i64, Seq<char>)>::empty());
    while i < s.value_table.len()
        invariant
            i <= s.value_table.len(),
            t == s@.value_table,
            pieces_view(r@) == head + val_entries(t.take(i as int)),
        decreases s.value_table.len() - i,
    {
        assert(t.take(i + 1).drop_last() =~= t.take(i as int));
        assert(t[i as int] == (s.value_table@[i as int].0, s.value_table@[i as int].1@));
        let entry: Vec<Piece> = vec![
            text_of(" "),
            text_chars(&fmt_signed(s.value_table[i].0)),
            text_of(" \""),
            escaped(&s.value_table[i].1),
            text_of("\""),
        ];
        append_pieces(&mut r, entry);
        assert(pieces_view(r@) =~= head + val_entries(t.take(i + 1)));
        i = i + 1;
    }
    assert(t.take(t.len() as int) =~= t);
    append_pieces(&mut r, vec![text_of(" ;\n")]);
    r
}

fn signal_section(db: &DatabaseDBC, id: u32, s: &SignalDBC, sec: SigSection) -> (r: Vec<Piece>)
    ensures
        pieces_view(r@) == sig_section_fn(db@, id, sec)(s@),
{
    match sec {
        SigSection::Sg => sg_line_exec(db, s),
        SigSection::Comment => {
            if is_empty_text(&s.comment) {
                Vec::new()
            } else {
                let r: Vec<Piece> = vec![
                    text_of("CM_ SG_ "),
                    dec_text(id as u64),
                    text_of(" "),
                    text_copy(&s.name),
                    text_of(" \""),
                    escaped(&s.comment),
                    text_of("\";\n"),
                ];
                assert(pieces_view(r@) =~= cm_sg_fn(id)(s@));
                r
            }
        },
        SigSection::ValType => {
            let code: &str = match s.sign {
                Signess::IeeeFloat => "1",
                Signess::IeeeDouble => "2",
                _ => {
                    assert(valtype_fn(id)(s@) =~= Seq::<PieceView>::empty());
                    return Vec::new();
                },
            };
            let r: Vec<Piece> = vec![
                text_of("SIG_VALTYPE_ "),
                dec_text(id as u64),
                text_of(" "),
                text_copy(&s.name),
                text_of(" : "),
                text_of(code),
                text_of(";\n"),
            ];
            assert(pieces_view(r@) =~= valtype_fn(id)(s@));
            r
        },
        SigSection::Val => val_line(id, s),
    }
}

fn signals_exec(db: &DatabaseDBC, id: u32, ks: &Vec<SignalKey>, sec: SigSection, out: &mut Vec<Piece>)
    ensures
        pieces_view(final(out)@) == pieces_view(old(out)@) + over(db@.signals, ks@, sig_section_fn(db@, id, sec)),
{
    let ghost f = sig_section_fn(db@, id, sec);
    let ghost start = pieces_view(out@);
    let mut i: usize = 0;
    assert(ks@.take(0) =~= Seq::<SignalKey>::empty());
    assert(start + over(db@.signals, ks@.take(0), f) =~= start);
    while i < ks.len()
        invariant
            i <= ks.len(),
            f == sig_section_fn(db@, id, sec),
            pieces_view(out@) == start + over(db@.signals, ks@.take(i as int), f),
        decreases ks.len() - i,
    {
        proof {
            lemma_over_step(db@.signals, ks@, i as int, f);
        }
        match db.get_sig_by_key(ks[i]) {
            Some(s) => {
                let more: Vec<Piece> = signal_section(db, id, s, sec);
                append_pieces(out, more);
            },
            None => {},
        }
        assert(pieces_view(out@) =~= start + over(db@.signals, ks@.take(i + 1), f));
        i = i + 1;
    }
    assert(ks@.take(ks.len() as int) =~= ks@);
}


#[derive(Clone, Copy)]
enum MsgSection {
    Block,
    TxBu,
    Comment,
    SigComments,
    ValTypes,
    Vals,
}

spec fn msg_section_fn(d: DatabaseView, sec: MsgSection) -> spec_fn(MessageView) -> Seq<PieceView> {
    match sec {
        MsgSection::Block => bo_fn(d),
        MsgSection::TxBu => tx_fn(d),
        MsgSection::Comment => cm_bo_fn(),
        MsgSection::SigComments => cm_sg_msg_fn(d),
        MsgSection::ValTypes => valtype_msg_fn(d),
        MsgSection::Vals => val_msg_fn(d),
    }
}

fn contains_name(names: &Vec<Vec<char>>, x: &Vec<char>) -> (r: bool)
    ensures
        r == views(names@).contains(x@),
{
    let mut i: usize = 0;
    while i < names.len()
        invariant
            i <= names.len(),
            forall|j: int| 0 <= j < i ==> views(names@)[j] != x@,
        decreases names.len() - i,
    {
        if eq_vec(&names[i], x) {
            assert(views(names@)[i as int] == x@);
            return true;
        }
        i = i + 1;
    }
    false
}

fn distinct_names_exec(db: &DatabaseDBC, ks: &Vec<NodeKey>) -> (r: Vec<Vec<char>>)
    ensures
        views(r@) == distinct_node_names(db@, ks@),
{
    let mut r: Vec<Vec<char>> = Vec::new();
    let mut i: usize = 0;
    while i < ks.len()
        invariant
            i <= ks.len(),
            views(r@) == distinct_node_names(db@, ks@.take(i as int)),
        decreases ks.len() - i,
    {
        assert(ks@.take(i + 1).drop_last() =~= ks@.take(i as int));
        match db.get_node_by_key(ks[i]) {
            Some(n) => {
                let name: Vec<char> = chars_of_string(&n.name);
                if !contains_name(&r, &name) {
                    let ghost before = views(r@);
                    r.push(name);
                    assert(views(r@) =~= before.push(n@.name));
                }
            },
            None => {},
        }
        i = i + 1;
    }
    assert(ks@.take(ks.len() as int) =~= ks@);
    r
}

fn message_section(db: &DatabaseDBC, m: &MessageDBC, sec: MsgSection, out: &mut Vec<Piece>)
    ensures
        pieces_view(final(out)@) == pieces_view(old(out)@) + msg_section_fn(db@, sec)(m@),
{
    let ghost start = pieces_view(out@);
    match sec {
        MsgSection::Block => {
            let head: Vec<Piece> = vec![
                text_of("BO_ "),
                dec_text(m.id as u64),
                text_of(" "),
                text_copy(&m.name),
                text_of(": "),
                dec_text(m.byte_length as u64),
                text_of(" "),
                transmitter_exec(db, &m.sender_nodes),
                text_of("\n"),
            ];
            let ghost hv = pieces_view(head@);
            append_pieces(out, head);
            signals_exec(db, m.id, &m.signals, SigSection::Sg, out);
            append_pieces(out, vec![text_of("\n")]);
            assert(pieces_view(out@) =~= start + bo_block(db@, m@));
        },
        MsgSection::TxBu => {
            let names: Vec<Vec<char>> = distinct_names_exec(db, &m.sender_nodes);
            if names.len() == 0 {
                assert(pieces_view(out@) =~= start + tx_line(db@, m@));
            } else {
                let line: Vec<Piece> = vec![
                    text_of("BO_TX_BU_ "),
                    dec_text(m.id as u64),
                    text_of(" :"),
                    text_chars(&join_exec(&names, &chars_of(","))),
                    text_of(";\n"),
                ];
                append_pieces(out, line);
                assert(pieces_view(out@) =~= start + tx_line(db@, m@));
            }
        },
        MsgSection::Comment => {
            if !is_empty_text(&m.comment) {
                let line: Vec<Piece> = vec![
                    text_of("CM_ BO_ "),
                    dec_text(m.id as u64),
                    text_of(" \""),
                    escaped(&m.comment),
                    text_of("\";\n"),
                ];
                append_pieces(out, line);
            }
            assert(pieces_view(out@) =~= start + cm_bo_fn()(m@));
        },
        MsgSection::SigComments => {
            signals_exec(db, m.id, &m.signals, SigSection::Comment, out);
        },
        MsgSection::ValTypes => {
            signals_exec(db, m.id, &m.signals, SigSection::ValType, out);
        },
        MsgSection::Vals => {
            signals_exec(db, m.id, &m.signals, SigSection::Val, out);
        },
    }
}

fn messages_exec(db: &DatabaseDBC, sec: MsgSection, out: &mut Vec<Piece>)
    ensures
        pieces_view(final(out)@) == pieces_view(old(out)@) + over(db@.messages, db@.messages_order, msg_section_fn(db@, sec)),
{
    let ghost f = msg_section_fn(db@, sec);
    let ghost ks = db@.messages_order;
    let ghost start = pieces_view(out@);
    let mut i: usize = 0;
    assert(ks.take(0) =~= Seq::<MessageKey>::empty());
    assert(start + over(db@.messages, ks.take(0), f) =~= start);
    while i < db.messages_order.len()
        invariant
            i <= db.messages_order.len(),
            ks == db.messages_order@,
            f == msg_section_fn(db@, sec),
            pieces_view(out@) == start + over(db@.messages, ks.take(i as int), f),
        decreases db.messages_order.len() - i,
    {
        proof {
            lemma_over_step(db@.messages, ks, i as int, f);
        }
        match db.get_message_by_key(db.messages_order[i]) {
            Some(m) => {
                let ghost before = pieces_view(out@);
                message_section(db, m, sec, out);
                assert(pieces_view(out@) =~= start + over(db@.messages, ks.take(i + 1), f));
            },
            None => {
                assert(pieces_view(out@) =~= start + over(db@.messages, ks.take(i + 1), f));
            },
        }
        i = i + 1;
    }
    assert(ks.take(ks.len() as int) =~= ks);
}

#[derive(Clone, Copy)]
enum NodeSection {
    Bu,
    Comment,
}

spec fn node_section_fn(sec: NodeSection) -> spec_fn(NodeView) -> Seq<PieceView> {
    match sec {
        NodeSection::Bu => bu_fn(),
        NodeSection::Comment => cm_bu_fn(),
    }
}

fn nodes_exec(db: &DatabaseDBC, sec: NodeSection, out: &mut Vec<Piece>)
    ensures
        pieces_view(final(out)@) == pieces_view(old(out)@) + over(db@.nodes, db@.nodes_order, node_section_fn(sec)),
{
    let ghost f = node_section_fn(sec);
    let ghost ks = db@.nodes_order;
    let ghost start = pieces_view(out@);
    let mut i: usize = 0;
    assert(ks.take(0) =~= Seq::<NodeKey>::empty());
    assert(start + over(db@.nodes, ks.take(0), f) =~= start);
    while i < db.nodes_order.len()
        invariant
            i <= db.nodes_order.len(),
            ks == db.nodes_order@,
            f == node_section_fn(sec),
            pieces_view(out@) == start + over(db@.nodes, ks.take(i as int), f),
        decreases db.nodes_order.len() - i,
    {
        proof {
            lemma_over_step(db@.nodes, ks, i as int, f);
        }
        match db.get_node_by_key(db.nodes_order[i]) {
            Some(n) => {
                let more: Vec<Piece> = match sec {
                    NodeSection::Bu => vec![text_of(" "), text_copy(&n.name)],
                    NodeSection::Comment => if is_empty_text(&n.comment) {
                        Vec::new()
                    } else {
                        vec![text_of("CM_ BU_ "), text_copy(&n.name), text_of(" \""), escaped(&n.comment), text_of("\";\n")]
                    },
                };
                assert(pieces_view(more@) =~= f(n@));
                append_pieces(out, more);
            },
            None => {},
        }
        assert(pieces_view(out@) =~= start + over(db@.nodes, ks.take(i + 1), f));
        i = i + 1;
    }
    assert(ks.take(ks.len() as int) =~= ks);
}


fn quoted_exec(s: &String) -> (r: Vec<char>)
    ensures
        r@ == quoted(s@),
{
    let mut r: Vec<char> = chars_of("\"");
    let mut e: Vec<char> = chars_of_string(&escape_dbc_string(s.as_str()));
    let mut q: Vec<char> = chars_of("\"");
    r.append(&mut e);
    r.append(&mut q);
    r
}

fn def_signature_exec(def: &AttributeDef) -> (r: Vec<Piece>)
    ensures
        pieces_view(r@) == def_signature(def@),
{
    let r: Vec<Piece> = match def.kind {
        AttrType::String => vec![text_of("STRING")],
        AttrType::Int => vec![
            text_of("INT "),
            text_chars(&fmt_signed(match def.int_min { Some(v) => v, None => 0 })),
            text_of(" "),
            text_chars(&fmt_signed(match def.int_max { Some(v) => v, None => 0 })),
        ],
        AttrType::Hex => vec![
            text_of("HEX "),
            dec_text(match def.hex_min { Some(v) => v, None => 0 }),
            text_of(" "),
            dec_text(match def.hex_max { Some(v) => v, None => 0 }),
        ],
        AttrType::Float => vec![
            text_of("FLOAT "),
            match &def.float_min {
                Some(v) => number_copy(v),
                None => Piece::Number(string_of(&chars_of("0"))),
            },
            text_of(" "),
            match &def.float_max {
                Some(v) => number_copy(v),
                None => Piece::Number(string_of(&chars_of("0"))),
            },
        ],
        AttrType::Enum => {
            let ghost vs = def@.enum_values;
            let mut qs: Vec<Vec<char>> = Vec::new();
            let mut i: usize = 0;
            while i < def.enum_values.len()
                invariant
                    i <= def.enum_values.len(),
                    vs == def@.enum_values,
                    vs.len() == def.enum_values.len(),
                    views(qs@) == quoted_all(vs.take(i as int)),
                decreases def.enum_values.len() - i,
            {
                assert(vs[i as int] == def.enum_values@[i as int]@);
                let ghost before = views(qs@);
                assert(vs.take(i + 1).drop_last() =~= vs.take(i as int));
                qs.push(quoted_exec(&def.enum_values[i]));
                assert(views(qs@) =~= quoted_all(vs.take(i + 1)));
                i = i + 1;
            }
            assert(vs.take(vs.len() as int) =~= vs);
            vec![text_of("ENUM "), text_chars(&join_exec(&qs, &chars_of(", ")))]
        },
    };
    assert(pieces_view(r@) =~= def_signature(def@));
    r
}

fn enum_position(vs: &Vec<String>, x: &String) -> (r: Option<usize>)
    ensures
        match r {
            Some(i) => first_index(crate::dbc::types::attributes::texts(vs@), x@) == Some(i as nat),
            None => first_index(crate::dbc::types::attributes::texts(vs@), x@) is None,
        },
{
    let ghost tv = crate::dbc::types::attributes::texts(vs@);
    let xc: Vec<char> = chars_of_string(x);
    let mut i: usize = 0;
    assert(tv.skip(0) =~= tv);
    while i < vs.len()
        invariant
            i <= vs.len(),
            tv == crate::dbc::types::attributes::texts(vs@),
            xc@ == x@,
            first_index(tv, x@) == match first_index(tv.skip(i as int), x@) {
                Some(j) => Some(j + i as nat),
                None => None::<nat>,
            },
        decreases vs.len() - i,
    {
        assert(tv.skip(i as int)[0] == vs@[i as int]@);
        if eq_vec(&chars_of_string(&vs[i]), &xc) {
            return Some(i);
        }
        assert(tv.skip(i as int).drop_first() =~= tv.skip(i + 1));
        i = i + 1;
    }
    assert(tv.skip(vs.len() as int) =~= Seq::<Seq<char>>::empty());
    None
}

fn value_exec(db: &DatabaseDBC, v: &AttributeValue, name: &String) -> (r: Vec<Piece>)
    ensures
        pieces_view(r@) == value_pieces(v@, table_get(db@.db_attr_spec, name@)),
{
    value_in(&db.db_attr_spec, v, name)
}

/// The pieces of value `v` of attribute `name`, whose specification table is
/// `specs`.
fn value_in(specs: &Vec<(String, AttributeSpec)>, v: &AttributeValue, name: &String) -> (r: Vec<Piece>)
    ensures
        pieces_view(r@) == value_pieces(v@, table_get(table_of(specs@), name@)),
{
    let r: Vec<Piece> = match v {
        AttributeValue::Str(s) => vec![text_chars(&quoted_exec(s))],
        AttributeValue::Int(i) => vec![text_chars(&fmt_signed(*i))],
        AttributeValue::Hex(h) => vec![dec_text(*h)],
        AttributeValue::Float(f) => vec![number_copy(f)],
        AttributeValue::Enum(sel) => {
            let mut pos: Option<usize> = None;
            match table_find(specs, name.as_str()) {
                Some(k) => match &specs[k].1.def {
                    Some(def) => match def.kind {
                        AttrType::Enum => {
                            pos = enum_position(&def.enum_values, sel);
                        },
                        _ => {},
                    },
                    None => {},
                },
                None => {},
            }
            assert(pos matches Some(i) ==> enum_index(table_get(table_of(specs@), name@), sel@) == Some(i as nat));
            assert(pos is None ==> enum_index(table_get(table_of(specs@), name@), sel@) is None);
            match pos {
                Some(i) => vec![dec_text(i as u64)],
                None => vec![text_chars(&quoted_exec(sel))],
            }
        },
    };
    assert(pieces_view(r@) =~= value_pieces(v@, table_get(table_of(specs@), name@)));
    r
}

fn defs_exec(db: &DatabaseDBC, out: &mut Vec<Piece>)
    ensures
        pieces_view(final(out)@) == pieces_view(old(out)@) + each(db@.db_attr_spec, def_fn()),
{
    let ghost t = db@.db_attr_spec;
    let ghost start = pieces_view(out@);
    let mut i: usize = 0;
    assert(t.take(0) =~= Seq::<(Seq<char>, AttrSpecView)>::empty());
    assert(start + each(t.take(0), def_fn()) =~= start);
    while i < db.db_attr_spec.len()
        invariant
            i <= db.db_attr_spec.len(),
            t == db@.db_attr_spec,
            t.len() == db.db_attr_spec.len(),
            pieces_view(out@) == start + each(t.take(i as int), def_fn()),
        decreases db.db_attr_spec.len() - i,
    {
        proof {
            lemma_each_step(t, i as int, def_fn());
        }
        assert(t[i as int] == (db.db_attr_spec@[i as int].0@, db.db_attr_spec@[i as int].1@));
        match &db.db_attr_spec[i].1.def {
            Some(def) => {
                let mut line: Vec<Piece> = vec![text_of("BA_DEF_ \""), text_copy(&db.db_attr_spec[i].0), text_of("\" ")];
                append_pieces(&mut line, def_signature_exec(def));
                append_pieces(&mut line, vec![text_of(";\n")]);
                append_pieces(out, line);
            },
            None => {},
        }
        assert(pieces_view(out@) =~= start + each(t.take(i + 1), def_fn()));
        i = i + 1;
    }
    assert(t.take(t.len() as int) =~= t);
}

fn put_defaults_exec(t: &mut Vec<(String, AttributeValue)>, src: &Vec<(String, AttributeSpec)>)
    ensures
        table_of(final(t)@) == put_defaults(table_of(old(t)@), table_of(src@)),
{
    let ghost t0 = table_of(t@);
    let ghost sv = table_of(src@);
    let mut i: usize = 0;
    assert(sv.take(0) =~= Seq::<(Seq<char>, AttrSpecView)>::empty());
    while i < src.len()
        invariant
            i <= src.len(),
            sv == table_of(src@),
            table_of(t@) == put_defaults(t0, sv.take(i as int)),
        decreases src.len() - i,
    {
        assert(sv.take(i + 1).drop_last() =~= sv.take(i as int));
        assert(sv.take(i + 1).last() == (src@[i as int].0@, src@[i as int].1@));
        match &src[i].1.default {
            Some(v) => {
                if table_find(t, src[i].0.as_str()).is_none() {
                    table_put_exec(t, text_string(&src[i].0), copy_value(v));
                }
            },
            None => {},
        }
        i = i + 1;
    }
    assert(sv.take(src.len() as int) =~= sv);
}

fn text_string(s: &String) -> (r: String)
    ensures
        r@ == s@,
{
    string_of(&chars_of_string(s))
}

/// The pieces of value `v` of attribute `name` (see [`any_spec`]).
fn any_value_exec(db: &DatabaseDBC, v: &AttributeValue, name: &String) -> (r: Vec<Piece>)
    ensures
        pieces_view(r@) == value_pieces(v@, any_spec(db@, name@)),
{
    if table_find(&db.db_attr_spec, name.as_str()).is_some() {
        value_in(&db.db_attr_spec, v, name)
    } else if table_find(&db.node_attr_spec, name.as_str()).is_some() {
        value_in(&db.node_attr_spec, v, name)
    } else if table_find(&db.msg_attr_spec, name.as_str()).is_some() {
        value_in(&db.msg_attr_spec, v, name)
    } else {
        value_in(&db.sig_attr_spec, v, name)
    }
}

fn rel_value_exec(db: &DatabaseDBC, v: &AttributeValue, name: &String) -> (r: Vec<Piece>)
    ensures
        pieces_view(r@) == value_pieces(v@, rel_spec(db@, name@)),
{
    if table_find(&db.rel_attr_spec_bu_sg, name.as_str()).is_some() {
        value_in(&db.rel_attr_spec_bu_sg, v, name)
    } else {
        value_in(&db.rel_attr_spec_bu_bo, v, name)
    }
}

fn rel_defaults_exec(db: &DatabaseDBC, out: &mut Vec<Piece>)
    ensures
        pieces_view(final(out)@) == pieces_view(old(out)@) + each(rel_defaults(db@), rel_default_fn(db@)),
{
    let mut m: Vec<(String, AttributeValue)> = Vec::new();
    assert(table_of(m@) =~= Seq::<(Seq<char>, AttrValueView)>::empty());
    put_defaults_exec(&mut m, &db.rel_attr_spec_bu_sg);
    put_defaults_exec(&mut m, &db.rel_attr_spec_bu_bo);
    let ghost t = table_of(m@);
    assert(t == rel_defaults(db@));
    let ghost f = rel_default_fn(db@);
    let ghost start = pieces_view(out@);
    let mut i: usize = 0;
    assert(t.take(0) =~= Seq::<(Seq<char>, AttrValueView)>::empty());
    assert(start + each(t.take(0), f) =~= start);
    while i < m.len()
        invariant
            i <= m.len(),
            t == table_of(m@),
            f == rel_default_fn(db@),
            t.len() == m.len(),
            pieces_view(out@) == start + each(t.take(i as int), f),
        decreases m.len() - i,
    {
        proof {
            lemma_each_step(t, i as int, f);
        }
        assert(t[i as int] == (m@[i as int].0@, m@[i as int].1@));
        let name: &String = &m[i].0;
        let mut line: Vec<Piece> = vec![text_of("BA_DEF_DEF_REL_ \""), text_copy(name), text_of("\" ")];
        append_pieces(&mut line, rel_value_exec(db, &m[i].1, name));
        append_pieces(&mut line, vec![text_of(";\n")]);
        append_pieces(out, line);
        assert(pieces_view(out@) =~= start + each(t.take(i + 1), f));
        i = i + 1;
    }
    assert(t.take(t.len() as int) =~= t);
}

fn defaults_exec(db: &DatabaseDBC, out: &mut Vec<Piece>)
    ensures
        pieces_view(final(out)@) == pieces_view(old(out)@) + each(merged_defaults(db@), merged_default_fn(db@)),
{
    let mut m: Vec<(String, AttributeValue)> = Vec::new();
    assert(table_of(m@) =~= Seq::<(Seq<char>, AttrValueView)>::empty());
    put_defaults_exec(&mut m, &db.db_attr_spec);
    put_defaults_exec(&mut m, &db.node_attr_spec);
    put_defaults_exec(&mut m, &db.msg_attr_spec);
    put_defaults_exec(&mut m, &db.sig_attr_spec);
    let ghost t = table_of(m@);
    assert(t == merged_defaults(db@));
    let ghost f = merged_default_fn(db@);
    let ghost start = pieces_view(out@);
    let mut i: usize = 0;
    assert(t.take(0) =~= Seq::<(Seq<char>, AttrValueView)>::empty());
    assert(start + each(t.take(0), f) =~= start);
    while i < m.len()
        invariant
            i <= m.len(),
            t == table_of(m@),
            f == merged_default_fn(db@),
            t.len() == m.len(),
            pieces_view(out@) == start + each(t.take(i as int), f),
        decreases m.len() - i,
    {
        proof {
            lemma_each_step(t, i as int, f);
        }
        assert(t[i as int] == (m@[i as int].0@, m@[i as int].1@));
        let name: &String = &m[i].0;
        let mut line: Vec<Piece> = vec![text_of("BA_DEF_DEF_ \""), text_copy(name), text_of("\" ")];
        append_pieces(&mut line, any_value_exec(db, &m[i].1, name));
        append_pieces(&mut line, vec![text_of(";\n")]);
        append_pieces(out, line);
        assert(pieces_view(out@) =~= start + each(t.take(i + 1), f));
        i = i + 1;
    }
    assert(t.take(t.len() as int) =~= t);
}

fn obj_defs_exec(specs: &Vec<(String, AttributeSpec)>, kw: &str, obj: &str, out: &mut Vec<Piece>)
    ensures
        pieces_view(final(out)@) == pieces_view(old(out)@) + each(table_of(specs@), obj_def_fn(kw@, obj@)),
{
    let ghost t = table_of(specs@);
    let ghost f = obj_def_fn(kw@, obj@);
    let ghost start = pieces_view(out@);
    let mut i: usize = 0;
    assert(t.take(0) =~= Seq::<(Seq<char>, AttrSpecView)>::empty());
    assert(start + each(t.take(0), f) =~= start);
    while i < specs.len()
        invariant
            i <= specs.len(),
            t == table_of(specs@),
            f == obj_def_fn(kw@, obj@),
            t.len() == specs.len(),
            pieces_view(out@) == start + each(t.take(i as int), f),
        decreases specs.len() - i,
    {
        proof {
            lemma_each_step(t, i as int, f);
        }
        assert(t[i as int] == (specs@[i as int].0@, specs@[i as int].1@));
        match &specs[i].1.def {
            Some(def) => {
                let mut line: Vec<Piece> = vec![text_of(kw), text_of(obj), text_of(" \""), text_copy(&specs[i].0), text_of("\" ")];
                append_pieces(&mut line, def_signature_exec(def));
                append_pieces(&mut line, vec![text_of(";\n")]);
                append_pieces(out, line);
            },
            None => {},
        }
        assert(pieces_view(out@) =~= start + each(t.take(i + 1), f));
        i = i + 1;
    }
    assert(t.take(t.len() as int) =~= t);
}

fn node_assigns_exec(db: &DatabaseDBC, n: &NodeDBC, out: &mut Vec<Piece>)
    ensures
        pieces_view(final(out)@) == pieces_view(old(out)@) + node_attrs_fn(db@)(n@),
{
    let ghost t = n@.attributes;
    let ghost f = node_assign_fn(db@, n@.name);
    let ghost start = pieces_view(out@);
    let mut i: usize = 0;
    assert(t.take(0) =~= Seq::<(Seq<char>, AttrValueView)>::empty());
    assert(start + each(t.take(0), f) =~= start);
    while i < n.attributes.len()
        invariant
            i <= n.attributes.len(),
            t == n@.attributes,
            f == node_assign_fn(db@, n@.name),
            t.len() == n.attributes.len(),
            pieces_view(out@) == start + each(t.take(i as int), f),
        decreases n.attributes.len() - i,
    {
        proof {
            lemma_each_step(t, i as int, f);
        }
        assert(t[i as int] == (n.attributes@[i as int].0@, n.attributes@[i as int].1@));
        let name: &String = &n.attributes[i].0;
        let mut line: Vec<Piece> = vec![text_of("BA_ \""), text_copy(name), text_of("\" BU_ "), text_copy(&n.name), text_of(" ")];
        append_pieces(&mut line, value_in(&db.node_attr_spec, &n.attributes[i].1, name));
        append_pieces(&mut line, vec![text_of(";\n")]);
        append_pieces(out, line);
        assert(pieces_view(out@) =~= start + each(t.take(i + 1), f));
        i = i + 1;
    }
    assert(t.take(t.len() as int) =~= t);
}

fn nodes_assigns_exec(db: &DatabaseDBC, out: &mut Vec<Piece>)
    ensures
        pieces_view(final(out)@) == pieces_view(old(out)@) + over(db@.nodes, db@.nodes_order, node_attrs_fn(db@)),
{
    let ghost f = node_attrs_fn(db@);
    let ghost ks = db@.nodes_order;
    let ghost start = pieces_view(out@);
    let mut i: usize = 0;
    assert(ks.take(0) =~= Seq::<NodeKey>::empty());
    assert(start + over(db@.nodes, ks.take(0), f) =~= start);
    while i < db.nodes_order.len()
        invariant
            i <= db.nodes_order.len(),
            ks == db.nodes_order@,
            f == node_attrs_fn(db@),
            pieces_view(out@) == start + over(db@.nodes, ks.take(i as int), f),
        decreases db.nodes_order.len() - i,
    {
        proof {
            lemma_over_step(db@.nodes, ks, i as int, f);
        }
        match db.get_node_by_key(db.nodes_order[i]) {
            Some(n) => {
                node_assigns_exec(db, n, out);
            },
            None => {},
        }
        assert(pieces_view(out@) =~= start + over(db@.nodes, ks.take(i + 1), f));
        i = i + 1;
    }
    assert(ks.take(ks.len() as int) =~= ks);
}

fn msg_assigns_exec(db: &DatabaseDBC, m: &MessageDBC, out: &mut Vec<Piece>)
    ensures
        pieces_view(final(out)@) == pieces_view(old(out)@) + msg_attrs_fn(db@)(m@),
{
    let ghost t = m@.attributes;
    let ghost f = msg_assign_fn(db@, m@.id as nat);
    let ghost start = pieces_view(out@);
    let mut i: usize = 0;
    assert(t.take(0) =~= Seq::<(Seq<char>, AttrValueView)>::empty());
    assert(start + each(t.take(0), f) =~= start);
    while i < m.attributes.len()
        invariant
            i <= m.attributes.len(),
            t == m@.attributes,
            f == msg_assign_fn(db@, m@.id as nat),
            t.len() == m.attributes.len(),
            pieces_view(out@) == start + each(t.take(i as int), f),
        decreases m.attributes.len() - i,
    {
        proof {
            lemma_each_step(t, i as int, f);
        }
        assert(t[i as int] == (m.attributes@[i as int].0@, m.attributes@[i as int].1@));
        let name: &String = &m.attributes[i].0;
        let mut line: Vec<Piece> = vec![text_of("BA_ \""), text_copy(name), text_of("\" BO_ "), dec_text(m.id as u64), text_of(" ")];
        append_pieces(&mut line, value_in(&db.msg_attr_spec, &m.attributes[i].1, name));
        append_pieces(&mut line, vec![text_of(";\n")]);
        append_pieces(out, line);
        assert(pieces_view(out@) =~= start + each(t.take(i + 1), f));
        i = i + 1;
    }
    assert(t.take(t.len() as int) =~= t);
}

fn sig_assigns_exec(db: &DatabaseDBC, id: u32, g: &SignalDBC, out: &mut Vec<Piece>)
    ensures
        pieces_view(final(out)@) == pieces_view(old(out)@) + sig_attrs_fn(db@, id as nat)(g@),
{
    let ghost t = g@.attributes;
    let ghost f = sig_assign_fn(db@, id as nat, g@.name);
    let ghost start = pieces_view(out@);
    let mut i: usize = 0;
    assert(t.take(0) =~= Seq::<(Seq<char>, AttrValueView)>::empty());
    assert(start + each(t.take(0), f) =~= start);
    while i < g.attributes.len()
        invariant
            i <= g.attributes.len(),
            t == g@.attributes,
            f == sig_assign_fn(db@, id as nat, g@.name),
            t.len() == g.attributes.len(),
            pieces_view(out@) == start + each(t.take(i as int), f),
        decreases g.attributes.len() - i,
    {
        proof {
            lemma_each_step(t, i as int, f);
        }
        assert(t[i as int] == (g.attributes@[i as int].0@, g.attributes@[i as int].1@));
        let name: &String = &g.attributes[i].0;
        let mut line: Vec<Piece> = vec![
            text_of("BA_ \""),
            text_copy(name),
            text_of("\" SG_ "),
            dec_text(id as u64),
            text_of(" "),
            text_copy(&g.name),
            text_of(" "),
        ];
        append_pieces(&mut line, value_in(&db.sig_attr_spec, &g.attributes[i].1, name));
        append_pieces(&mut line, vec![text_of(";\n")]);
        append_pieces(out, line);
        assert(pieces_view(out@) =~= start + each(t.take(i + 1), f));
        i = i + 1;
    }
    assert(t.take(t.len() as int) =~= t);
}

fn msg_sig_assigns_exec(db: &DatabaseDBC, m: &MessageDBC, out: &mut Vec<Piece>)
    ensures
        pieces_view(final(out)@) == pieces_view(old(out)@) + msg_sig_attrs_fn(db@)(m@),
{
    let ghost f = sig_attrs_fn(db@, m@.id as nat);
    let ghost ks = m@.signals;
    let ghost start = pieces_view(out@);
    let mut i: usize = 0;
    assert(ks.take(0) =~= Seq::<SignalKey>::empty());
    assert(start + over(db@.signals, ks.take(0), f) =~= start);
    while i < m.signals.len()
        invariant
            i <= m.signals.len(),
            ks == m.signals@,
            f == sig_attrs_fn(db@, m@.id as nat),
            pieces_view(out@) == start + over(db@.signals, ks.take(i as int), f),
        decreases m.signals.len() - i,
    {
        proof {
            lemma_over_step(db@.signals, ks, i as int, f);
        }
        match db.get_sig_by_key(m.signals[i]) {
            Some(g) => {
                sig_assigns_exec(db, m.id, g, out);
            },
            None => {},
        }
        assert(pieces_view(out@) =~= start + over(db@.signals, ks.take(i + 1), f));
        i = i + 1;
    }
    assert(ks.take(ks.len() as int) =~= ks);
}

fn messages_assigns_exec(db: &DatabaseDBC, with_signals: bool, out: &mut Vec<Piece>)
    ensures
        pieces_view(final(out)@) == pieces_view(old(out)@) + over(
            db@.messages,
            db@.messages_order,
            if with_signals { msg_sig_attrs_fn(db@) } else { msg_attrs_fn(db@) },
        ),
{
    let ghost f = if with_signals { msg_sig_attrs_fn(db@) } else { msg_attrs_fn(db@) };
    let ghost ks = db@.messages_order;
    let ghost start = pieces_view(out@);
    let mut i: usize = 0;
    assert(ks.take(0) =~= Seq::<MessageKey>::empty());
    assert(start + over(db@.messages, ks.take(0), f) =~= start);
    while i < db.messages_order.len()
        invariant
            i <= db.messages_order.len(),
            ks == db.messages_order@,
            f == (if with_signals { msg_sig_attrs_fn(db@) } else { msg_attrs_fn(db@) }),
            pieces_view(out@) == start + over(db@.messages, ks.take(i as int), f),
        decreases db.messages_order.len() - i,
    {
        proof {
            lemma_over_step(db@.messages, ks, i as int, f);
        }
        match db.get_message_by_key(db.messages_order[i]) {
            Some(m) => {
                if with_signals {
                    msg_sig_assigns_exec(db, m, out);
                } else {
                    msg_assigns_exec(db, m, out);
                }
            },
            None => {},
        }
        assert(pieces_view(out@) =~= start + over(db@.messages, ks.take(i + 1), f));
        i = i + 1;
    }
    assert(ks.take(ks.len() as int) =~= ks);
}

/// Writes the lines of one node-and-signal relation's values.
fn rel_sg_lines_exec(
    db: &DatabaseDBC,
    vals: &Vec<(String, AttributeValue)>,
    node: &String,
    id: u32,
    sig: &String,
    out: &mut Vec<Piece>,
)
    ensures
        pieces_view(final(out)@) == pieces_view(old(out)@) + each(table_of(vals@), rel_sg_line_fn(db@, node@, id as nat, sig@)),
{
    let ghost t = table_of(vals@);
    let ghost f = rel_sg_line_fn(db@, node@, id as nat, sig@);
    let ghost start = pieces_view(out@);
    let mut i: usize = 0;
    assert(t.take(0) =~= Seq::<(Seq<char>, AttrValueView)>::empty());
    assert(start + each(t.take(0), f) =~= start);
    while i < vals.len()
        invariant
            i <= vals.len(),
            t == table_of(vals@),
            f == rel_sg_line_fn(db@, node@, id as nat, sig@),
            t.len() == vals.len(),
            pieces_view(out@) == start + each(t.take(i as int), f),
        decreases vals.len() - i,
    {
        proof {
            lemma_each_step(t, i as int, f);
        }
        assert(t[i as int] == (vals@[i as int].0@, vals@[i as int].1@));
        let name: &String = &vals[i].0;
        let mut line: Vec<Piece> = vec![
            text_of("BA_REL_ \""),
            text_copy(name),
            text_of("\" BU_SG_REL_ "),
            text_copy(node),
            text_of(" SG_ "),
            dec_text(id as u64),
            text_of(" "),
            text_copy(sig),
            text_of(" "),
        ];
        append_pieces(&mut line, value_in(&db.rel_attr_spec_bu_sg, &vals[i].1, name));
        append_pieces(&mut line, vec![text_of(";\n")]);
        append_pieces(out, line);
        assert(pieces_view(out@) =~= start + each(t.take(i + 1), f));
        i = i + 1;
    }
    assert(t.take(t.len() as int) =~= t);
}

/// Gathers the rows of the relations of node `nk` and the signals of `m`
/// that hold values, signals in the message's order.
fn sg_rows_sigs_exec(
    db: &DatabaseDBC,
    nk: NodeKey,
    node: &String,
    mk: MessageKey,
    m: &MessageDBC,
    out: &mut Vec<RelRow<SignalKey>>,
)
    requires
        db@.nodes.contains_key(nk),
        node@ == db@.nodes[nk].name,
        db@.messages.contains_key(mk),
        m@ == db@.messages[mk],
    ensures
        rows_view(final(out)@) == rows_view(old(out)@) + gather(m@.signals, sg_row_fn(db@, nk, mk)),
{
    let ghost f = sg_row_fn(db@, nk, mk);
    let ghost ks = m@.signals;
    let ghost start = rows_view(out@);
    let mut i: usize = 0;
    assert(ks.take(0) =~= Seq::<SignalKey>::empty());
    assert(start + gather(ks.take(0), f) =~= start);
    while i < m.signals.len()
        invariant
            i <= m.signals.len(),
            ks == m.signals@,
            f == sg_row_fn(db@, nk, mk),
            node@ == db@.nodes[nk].name,
            m@ == db@.messages[mk],
            rows_view(out@) == start + gather(ks.take(i as int), f),
        decreases m.signals.len() - i,
    {
        proof {
            lemma_gather_step(ks, i as int, f);
        }
        let sk: SignalKey = m.signals[i];
        match db.get_sig_by_key(sk) {
            Some(g) => {
                let vals: Vec<(String, AttributeValue)> = db.bu_sg_rel_attributes.values_of(nk, sk);
                assert(table_of(vals@).len() == vals@.len());
                if vals.len() > 0 {
                    let row: RelRow<SignalKey> = RelRow {
                        node: string_of(&chars_of_string(node)),
                        id: m.id,
                        obj: string_of(&chars_of_string(&g.name)),
                        nk: nk,
                        k: sk,
                    };
                    let ghost before = out@;
                    out.push(row);
                    assert(rows_view(out@) =~= rows_view(before).push(out@.last()@));
                }
            },
            None => {},
        }
        assert(rows_view(out@) =~= start + gather(ks.take(i + 1), f));
        i = i + 1;
    }
    assert(ks.take(ks.len() as int) =~= ks);
}

/// Gathers the rows of the relations of node `nk` and the signals of each
/// message that hold values.
fn sg_rows_msgs_exec(db: &DatabaseDBC, nk: NodeKey, node: &String, out: &mut Vec<RelRow<SignalKey>>)
    requires
        db@.nodes.contains_key(nk),
        node@ == db@.nodes[nk].name,
    ensures
        rows_view(final(out)@) == rows_view(old(out)@) + gather(db@.messages_order, sg_msg_rows_fn(db@, nk)),
{
    let ghost f = sg_msg_rows_fn(db@, nk);
    let ghost ks = db@.messages_order;
    let ghost start = rows_view(out@);
    let mut i: usize = 0;
    assert(ks.take(0) =~= Seq::<MessageKey>::empty());
    assert(start + gather(ks.take(0), f) =~= start);
    while i < db.messages_order.len()
        invariant
            i <= db.messages_order.len(),
            ks == db.messages_order@,
            f == sg_msg_rows_fn(db@, nk),
            db@.nodes.contains_key(nk),
            node@ == db@.nodes[nk].name,
            rows_view(out@) == start + gather(ks.take(i as int), f),
        decreases db.messages_order.len() - i,
    {
        proof {
            lemma_gather_step(ks, i as int, f);
        }
        let mk: MessageKey = db.messages_order[i];
        match db.get_message_by_key(mk) {
            Some(m) => {
                sg_rows_sigs_exec(db, nk, node, mk, m, out);
            },
            None => {},
        }
        assert(rows_view(out@) =~= start + gather(ks.take(i + 1), f));
        i = i + 1;
    }
    assert(ks.take(ks.len() as int) =~= ks);
}

/// The rows of the node-and-signal relations that hold values: nodes in
/// order, then messages in order, then each message's signals in order.
fn sg_rows_exec(db: &DatabaseDBC) -> (r: Vec<RelRow<SignalKey>>)
    ensures
        rows_view(r@) == sg_rows(db@),
{
    let ghost f = sg_node_rows_fn(db@);
    let ghost ks = db@.nodes_order;
    let mut out: Vec<RelRow<SignalKey>> = Vec::new();
    let mut i: usize = 0;
    assert(ks.take(0) =~= Seq::<NodeKey>::empty());
    assert(rows_view(out@) =~= gather(ks.take(0), f));
    while i < db.nodes_order.len()
        invariant
            i <= db.nodes_order.len(),
            ks == db.nodes_order@,
            f == sg_node_rows_fn(db@),
            rows_view(out@) == gather(ks.take(i as int), f),
        decreases db.nodes_order.len() - i,
    {
        proof {
            lemma_gather_step(ks, i as int, f);
        }
        let nk: NodeKey = db.nodes_order[i];
        match db.get_node_by_key(nk) {
            Some(n) => {
                sg_rows_msgs_exec(db, nk, &n.name, &mut out);
            },
            None => {},
        }
        assert(rows_view(out@) =~= gather(ks.take(i + 1), f));
        i = i + 1;
    }
    assert(ks.take(ks.len() as int) =~= ks);
    out
}

/// Writes the values of the node-and-signal relations, rows sorted.
fn rel_sg_rows_write(db: &DatabaseDBC, out: &mut Vec<Piece>)
    ensures
        pieces_view(final(out)@) == pieces_view(old(out)@) + gather(sort_rows(sg_rows(db@)), sg_row_lines_fn(db@)),
{
    let rows: Vec<RelRow<SignalKey>> = sort_rows_exec(&sg_rows_exec(db));
    let ghost rs = rows_view(rows@);
    let ghost f = sg_row_lines_fn(db@);
    let ghost start = pieces_view(out@);
    let mut i: usize = 0;
    assert(rs.take(0) =~= Seq::<RowKey<SignalKey>>::empty());
    assert(start + gather(rs.take(0), f) =~= start);
    while i < rows.len()
        invariant
            i <= rows.len(),
            rs == rows_view(rows@),
            f == sg_row_lines_fn(db@),
            pieces_view(out@) == start + gather(rs.take(i as int), f),
        decreases rows.len() - i,
    {
        proof {
            lemma_gather_step(rs, i as int, f);
        }
        assert(rs[i as int] == rows@[i as int]@);
        let vals: Vec<(String, AttributeValue)> = db.bu_sg_rel_attributes.values_of(rows[i].nk, rows[i].k);
        rel_sg_lines_exec(db, &vals, &rows[i].node, rows[i].id, &rows[i].obj, out);
        assert(pieces_view(out@) =~= start + gather(rs.take(i + 1), f));
        i = i + 1;
    }
    assert(rs.take(rs.len() as int) =~= rs);
}


/// Writes the lines of one node-and-message relation's values.
fn rel_bo_lines_exec(db: &DatabaseDBC, vals: &Vec<(String, AttributeValue)>, node: &String, id: u32, out: &mut Vec<Piece>)
    ensures
        pieces_view(final(out)@) == pieces_view(old(out)@) + each(table_of(vals@), rel_bo_line_fn(db@, node@, id as nat)),
{
    let ghost t = table_of(vals@);
    let ghost f = rel_bo_line_fn(db@, node@, id as nat);
    let ghost start = pieces_view(out@);
    let mut i: usize = 0;
    assert(t.take(0) =~= Seq::<(Seq<char>, AttrValueView)>::empty());
    assert(start + each(t.take(0), f) =~= start);
    while i < vals.len()
        invariant
            i <= vals.len(),
            t == table_of(vals@),
            f == rel_bo_line_fn(db@, node@, id as nat),
            t.len() == vals.len(),
            pieces_view(out@) == start + each(t.take(i as int), f),
        decreases vals.len() - i,
    {
        proof {
            lemma_each_step(t, i as int, f);
        }
        assert(t[i as int] == (vals@[i as int].0@, vals@[i as int].1@));
        let name: &String = &vals[i].0;
        let mut line: Vec<Piece> = vec![
            text_of("BA_REL_ \""),
            text_copy(name),
            text_of("\" BU_BO_REL_ "),
            text_copy(node),
            text_of(" BO_ "),
            dec_text(id as u64),
            text_of(" "),
        ];
        append_pieces(&mut line, value_in(&db.rel_attr_spec_bu_bo, &vals[i].1, name));
        append_pieces(&mut line, vec![text_of(";\n")]);
        append_pieces(out, line);
        assert(pieces_view(out@) =~= start + each(t.take(i + 1), f));
        i = i + 1;
    }
    assert(t.take(t.len() as int) =~= t);
}

/// Gathers the rows of the node-and-message relations of node `nk` that
/// hold values, messages in order.
fn bo_rows_msgs_exec(db: &DatabaseDBC, nk: NodeKey, node: &String, out: &mut Vec<RelRow<MessageKey>>)
    requires
        db@.nodes.contains_key(nk),
        node@ == db@.nodes[nk].name,
    ensures
        rows_view(final(out)@) == rows_view(old(out)@) + gather(db@.messages_order, bo_row_fn(db@, nk)),
{
    let ghost f = bo_row_fn(db@, nk);
    let ghost ks = db@.messages_order;
    let ghost start = rows_view(out@);
    let mut i: usize = 0;
    assert(ks.take(0) =~= Seq::<MessageKey>::empty());
    assert(start + gather(ks.take(0), f) =~= start);
    while i < db.messages_order.len()
        invariant
            i <= db.messages_order.len(),
            ks == db.messages_order@,
            f == bo_row_fn(db@, nk),
            db@.nodes.contains_key(nk),
            node@ == db@.nodes[nk].name,
            rows_view(out@) == start + gather(ks.take(i as int), f),
        decreases db.messages_order.len() - i,
    {
        proof {
            lemma_gather_step(ks, i as int, f);
        }
        let mk: MessageKey = db.messages_order[i];
        match db.get_message_by_key(mk) {
            Some(m) => {
                let vals: Vec<(String, AttributeValue)> = db.bu_bo_rel_attributes.values_of(nk, mk);
                assert(table_of(vals@).len() == vals@.len());
                if vals.len() > 0 {
                    let row: RelRow<MessageKey> = RelRow {
                        node: string_of(&chars_of_string(node)),
                        id: m.id,
                        obj: String::new(),
                        nk: nk,
                        k: mk,
                    };
                    let ghost before = out@;
                    out.push(row);
                    assert(rows_view(out@) =~= rows_view(before).push(out@.last()@));
                }
            },
            None => {},
        }
        assert(rows_view(out@) =~= start + gather(ks.take(i + 1), f));
        i = i + 1;
    }
    assert(ks.take(ks.len() as int) =~= ks);
}

/// The rows of the node-and-message relations that hold values, nodes in
/// order, then messages in order.
fn bo_rows_exec(db: &DatabaseDBC) -> (r: Vec<RelRow<MessageKey>>)
    ensures
        rows_view(r@) == bo_rows(db@),
{
    let ghost f = bo_node_rows_fn(db@);
    let ghost ks = db@.nodes_order;
    let mut out: Vec<RelRow<MessageKey>> = Vec::new();
    let mut i: usize = 0;
    assert(ks.take(0) =~= Seq::<NodeKey>::empty());
    assert(rows_view(out@) =~= gather(ks.take(0), f));
    while i < db.nodes_order.len()
        invariant
            i <= db.nodes_order.len(),
            ks == db.nodes_order@,
            f == bo_node_rows_fn(db@),
            rows_view(out@) == gather(ks.take(i as int), f),
        decreases db.nodes_order.len() - i,
    {
        proof {
            lemma_gather_step(ks, i as int, f);
        }
        let nk: NodeKey = db.nodes_order[i];
        match db.get_node_by_key(nk) {
            Some(n) => {
                bo_rows_msgs_exec(db, nk, &n.name, &mut out);
            },
            None => {},
        }
        assert(rows_view(out@) =~= gather(ks.take(i + 1), f));
        i = i + 1;
    }
    assert(ks.take(ks.len() as int) =~= ks);
    out
}

/// Writes the values of the node-and-message relations, rows sorted.
fn rel_bo_rows_write(db: &DatabaseDBC, out: &mut Vec<Piece>)
    ensures
        pieces_view(final(out)@) == pieces_view(old(out)@) + gather(sort_rows(bo_rows(db@)), bo_row_lines_fn(db@)),
{
    let rows: Vec<RelRow<MessageKey>> = sort_rows_exec(&bo_rows_exec(db));
    let ghost rs = rows_view(rows@);
    let ghost f = bo_row_lines_fn(db@);
    let ghost start = pieces_view(out@);
    let mut i: usize = 0;
    assert(rs.take(0) =~= Seq::<RowKey<MessageKey>>::empty());
    assert(start + gather(rs.take(0), f) =~= start);
    while i < rows.len()
        invariant
            i <= rows.len(),
            rs == rows_view(rows@),
            f == bo_row_lines_fn(db@),
            pieces_view(out@) == start + gather(rs.take(i as int), f),
        decreases rows.len() - i,
    {
        proof {
            lemma_gather_step(rs, i as int, f);
        }
        assert(rs[i as int] == rows@[i as int]@);
        let vals: Vec<(String, AttributeValue)> = db.bu_bo_rel_attributes.values_of(rows[i].nk, rows[i].k);
        rel_bo_lines_exec(db, &vals, &rows[i].node, rows[i].id, out);
        assert(pieces_view(out@) =~= start + gather(rs.take(i + 1), f));
        i = i + 1;
    }
    assert(rs.take(rs.len() as int) =~= rs);
}

fn assigns_exec(db: &DatabaseDBC, out: &mut Vec<Piece>)
    ensures
        pieces_view(final(out)@) == pieces_view(old(out)@) + each(db@.attributes, assign_fn(db@)),
{
    let ghost t = db@.attributes;
    let ghost f = assign_fn(db@);
    let ghost start = pieces_view(out@);
    let mut i: usize = 0;
    assert(t.take(0) =~= Seq::<(Seq<char>, AttrValueView)>::empty());
    assert(start + each(t.take(0), f) =~= start);
    while i < db.attributes.len()
        invariant
            i <= db.attributes.len(),
            t == db@.attributes,
            f == assign_fn(db@),
            t.len() == db.attributes.len(),
            pieces_view(out@) == start + each(t.take(i as int), f),
        decreases db.attributes.len() - i,
    {
        proof {
            lemma_each_step(t, i as int, f);
        }
        assert(t[i as int] == (db.attributes@[i as int].0@, db.attributes@[i as int].1@));
        let name: &String = &db.attributes[i].0;
        let mut line: Vec<Piece> = vec![text_of("BA_ \""), text_copy(name), text_of("\" ")];
        append_pieces(&mut line, value_exec(db, &db.attributes[i].1, name));
        append_pieces(&mut line, vec![text_of(";\n")]);
        append_pieces(out, line);
        assert(pieces_view(out@) =~= start + each(t.take(i + 1), f));
        i = i + 1;
    }
    assert(t.take(t.len() as int) =~= t);
}

fn header_exec(db: &DatabaseDBC) -> (r: Vec<Piece>)
    ensures
        pieces_view(r@) == header_part(db@),
{
    let mut out: Vec<Piece> = vec![
        text_of("VERSION \""),
        escaped(&db.version),
        text_of("\"\n\n"),
        text_of("NS_ :\n\tNS_DESC_\n\tCM_\n\tBA_DEF_\n\tBA_\n\tVAL_\n\tCAT_DEF_\n\tCAT_\n\tFILTER\n\tBA_DEF_DEF_\n\tEV_DATA_\n\tENVVAR_DATA_\n\tSGTYPE_\n\tSGTYPE_VAL_\n\tBA_DEF_SGTYPE_\n\tBA_SGTYPE_\n\tSIG_TYPE_REF_\n\tVAL_TABLE_\n\tSIG_GROUP_\n\tSIG_VALTYPE_\n\tSIGTYPE_VALTYPE_\n\tBO_TX_BU_\n\tBA_DEF_REL_\n\tBA_REL_\n\tBA_DEF_DEF_REL_\n\tBU_SG_REL_\n\tBU_EV_REL_\n\tBU_BO_REL_\n\n"),
        text_of("BS_:\n\n"),
        text_of("BU_:"),
    ];
    nodes_exec(db, NodeSection::Bu, &mut out);
    append_pieces(&mut out, vec![text_of("\n\n")]);
    assert(pieces_view(out@) =~= header_part(db@));
    out
}

fn messages_part_exec(db: &DatabaseDBC, out: &mut Vec<Piece>)
    ensures
        pieces_view(final(out)@) == pieces_view(old(out)@) + messages_part(db@) + bo_tx_bu_part(db@),
{
    let ghost start = pieces_view(out@);
    messages_exec(db, MsgSection::Block, out);
    append_pieces(out, vec![text_of("\n")]);
    assert(pieces_view(out@) =~= start + messages_part(db@));
    messages_exec(db, MsgSection::TxBu, out);
    append_pieces(out, vec![text_of("\n")]);
    assert(pieces_view(out@) =~= start + messages_part(db@) + bo_tx_bu_part(db@));
}

fn attributes_part_exec(db: &DatabaseDBC, out: &mut Vec<Piece>)
    ensures
        pieces_view(final(out)@) == pieces_view(old(out)@) + attr_defs_part(db@) + defaults_part(db@) + assignments_part(db@),
{
    let ghost start = pieces_view(out@);
    defs_exec(db, out);
    obj_defs_exec(&db.node_attr_spec, "BA_DEF_ ", "BU_", out);
    obj_defs_exec(&db.msg_attr_spec, "BA_DEF_ ", "BO_", out);
    obj_defs_exec(&db.sig_attr_spec, "BA_DEF_ ", "SG_", out);
    append_pieces(out, vec![text_of("\n")]);
    obj_defs_exec(&db.rel_attr_spec_bu_sg, "BA_DEF_REL_ ", "BU_SG_REL_", out);
    obj_defs_exec(&db.rel_attr_spec_bu_bo, "BA_DEF_REL_ ", "BU_BO_REL_", out);
    proof {
        reveal_strlit("BA_DEF_ ");
        reveal_strlit("BA_DEF_REL_ ");
        reveal_strlit("BU_");
        reveal_strlit("BO_");
        reveal_strlit("SG_");
        reveal_strlit("BU_SG_REL_");
        reveal_strlit("BU_BO_REL_");
    }
    append_pieces(out, vec![text_of("\n")]);
    assert(pieces_view(out@) =~= start + attr_defs_part(db@));
    defaults_exec(db, out);
    rel_defaults_exec(db, out);
    append_pieces(out, vec![text_of("\n")]);
    assert(pieces_view(out@) =~= start + attr_defs_part(db@) + defaults_part(db@));
    assignments_exec(db, out);
    assert(pieces_view(out@) =~= start + attr_defs_part(db@) + defaults_part(db@) + assignments_part(db@));
}

/// Writes the attribute values of the database, its nodes, messages and
/// signals, then the relation attribute values.
fn assignments_exec(db: &DatabaseDBC, out: &mut Vec<Piece>)
    ensures
        pieces_view(final(out)@) == pieces_view(old(out)@) + assignments_part(db@),
{
    let ghost start = pieces_view(out@);
    assigns_exec(db, out);
    nodes_assigns_exec(db, out);
    messages_assigns_exec(db, false, out);
    messages_assigns_exec(db, true, out);
    append_pieces(out, vec![text_of("\n")]);
    rel_sg_rows_write(db, out);
    rel_bo_rows_write(db, out);
    append_pieces(out, vec![text_of("\n")]);
    assert(pieces_view(out@) =~= start + assignments_part(db@));
}

fn comments_part_exec(db: &DatabaseDBC, out: &mut Vec<Piece>)
    ensures
        pieces_view(final(out)@) == pieces_view(old(out)@) + comments_part(db@),
{
    let ghost start = pieces_view(out@);
    let ghost d = db@;
    if !is_empty_text(&db.comment) {
        append_pieces(out, vec![text_of("CM_ \""), escaped(&db.comment), text_of("\";\n")]);
    }
    let ghost p0 = pieces_view(out@);
    assert(p0 =~= start + (if d.comment.len() > 0 {
        seq![tx("CM_ \""@), tx(escape_dbc(d.comment)), tx("\";\n"@)]
    } else {
        seq![]
    }));
    nodes_exec(db, NodeSection::Comment, out);
    messages_exec(db, MsgSection::Comment, out);
    messages_exec(db, MsgSection::SigComments, out);
    append_pieces(out, vec![text_of("\n")]);
    assert(pieces_view(out@) =~= start + comments_part(d));
}

/// The DBC text of a database as pieces (see [`dbc_pieces`]).
pub fn serialize_database(db: &DatabaseDBC) -> (r: Vec<Piece>)
    ensures
        pieces_view(r@) == dbc_pieces(db@),
{
    let ghost d = db@;
    let mut out: Vec<Piece> = header_exec(db);
    messages_part_exec(db, &mut out);
    attributes_part_exec(db, &mut out);
    comments_part_exec(db, &mut out);
    messages_exec(db, MsgSection::ValTypes, &mut out);
    messages_exec(db, MsgSection::Vals, &mut out);
    assert(pieces_view(out@) =~= dbc_pieces(d));
    out
}

/// Checks the path a database is saved to: it must end in `.dbc`, ignoring
/// ASCII case, or [`DbcSaveError::InvalidExtension`] names it.
pub fn check_save_path(path: &str) -> (r: Result<(), DbcSaveError>)
    ensures
        r is Ok <==> ends_with(ascii_lower_seq(path@), ".dbc"@),
        r matches Err(DbcSaveError::InvalidExtension { path: p }) ==> p@ == path@,
{
    if ends_with_exec(&ascii_lower_exec(&chars_of(path)), &chars_of(".dbc")) {
        Ok(())
    } else {
        Err(DbcSaveError::InvalidExtension { path: string_of(&chars_of(path)) })
    }
}


// ---------------------------------------------------------------------------
// Laws
// ---------------------------------------------------------------------------

proof fn lemma_scan_push(x: Seq<char>, c: char)
    ensures
        quote_scan(x.push(c)) == (if c == '\\' {
            (quote_scan(x).0, quote_scan(x).1 + 1)
        } else if c == '"' && quote_scan(x).1 % 2 == 0 {
            (quote_scan(x).0 + 1, 0nat)
        } else {
            (quote_scan(x).0, 0nat)
        }),
{
    assert(x.push(c).drop_last() =~= x);
}

proof fn lemma_scan_escaped(p: Seq<char>, s: Seq<char>)
    requires
        quote_scan(p).1 % 2 == 0,
    ensures
        quote_scan(p + escape_dbc(s)).0 == quote_scan(p).0,
        quote_scan(p + escape_dbc(s)).1 % 2 == 0,
    decreases s.len(),
{
    if s.len() == 0 {
        assert(p + escape_dbc(s) =~= p);
    } else {
        lemma_scan_escaped(p, s.drop_last());
        let x = p + escape_dbc(s.drop_last());
        let c = s.last();
        assert(p + escape_dbc(s) =~= x + escape_char(c));
        if c == '"' || c == '\\' || c == '\n' || c == '\r' || c == '\t' {
            let e = escape_char(c);
            assert(x + e =~= x.push(e[0]).push(e[1]));
            lemma_scan_push(x, e[0]);
            lemma_scan_push(x.push(e[0]), e[1]);
        } else {
            assert(x + escape_char(c) =~= x.push(c));
            lemma_scan_push(x, c);
        }
    }
}

/// What the writer quotes, the reader reads as one quoted text: an escaped
/// text holds no unescaped double quote, so a text written between double
/// quotes holds exactly the two that delimit it.
pub proof fn law_quoted_text_closes(s: Seq<char>)
    ensures
        unescaped_quotes(escape_dbc(s)) == 0,
        unescaped_quotes(quoted(s)) == 2,
{
    let e: Seq<char> = Seq::empty();
    assert(quote_scan(e) == (0nat, 0nat));
    lemma_scan_escaped(e, s);
    assert(e + escape_dbc(s) =~= escape_dbc(s));
    let q: Seq<char> = seq!['"'];
    assert(q =~= e.push('"'));
    lemma_scan_push(e, '"');
    lemma_scan_escaped(q, s);
    reveal_strlit("\"");
    assert(quoted(s) =~= (q + escape_dbc(s)).push('"'));
    lemma_scan_push(q + escape_dbc(s), '"');
}

/// The role a multiplexing tag reads back as: what the `SG_` reader gives
/// for the word after the name.
pub open spec fn mux_read_back(mux: Option<MuxInfo>) -> (MuxRole, Option<MuxSelector>) {
    match mux {
        Some(mi) => match mi.role {
            MuxRole::Multiplexor => (MuxRole::Multiplexor, None),
            MuxRole::Multiplexed => (MuxRole::Multiplexed, Some(mi.selector)),
            MuxRole::NotMultiplexed => (MuxRole::NotMultiplexed, None),
        },
        None => (MuxRole::NotMultiplexed, None),
    }
}

/// The multiplexing tag written after a signal's name reads back as the
/// signal's role: no tag for a signal that is not multiplexed; otherwise a
/// space and then one word, without whitespace or `:`, that the `SG_`
/// reader ([`mux_of`]) maps back to the role and the switch value (`M` for
/// the multiplexor, `m<value>` for a multiplexed signal). A range selector
/// is written `m<min>-<max>`, both numbers reading back.
pub proof fn law_mux_tag_reads_back(mux: Option<MuxInfo>)
    ensures
        (mux_tag(mux).len() == 0) <==> (mux_read_back(mux).0 == MuxRole::NotMultiplexed),
        mux_tag(mux).len() > 0 ==> {
            let tag = mux_tag(mux);
            &&& tag[0] == ' '
            &&& forall|i: int| 1 <= i < tag.len() ==> !is_ws(#[trigger] tag[i], true) && tag[i] != ':'
            &&& (mux matches Some(mi) && mi.selector is Range && mi.role == MuxRole::Multiplexed) || mux_of(
                tag.drop_first(),
            ) == mux_read_back(mux)
        },
        mux is Some && mux->Some_0.role == MuxRole::Multiplexed && mux->Some_0.selector is Range ==> {
            let mi = mux->Some_0;
            let tag = mux_tag(mux);
            exists|k: int|
                #![trigger tag[k]]
                2 < k < tag.len() - 1 && tag[1] == 'm' && tag[k] == '-' && parse_unsigned(tag.subrange(2, k), u32::MAX as nat)
                    == Some(mi.selector->min as nat) && parse_unsigned(tag.skip(k + 1), u32::MAX as nat) == Some(
                    mi.selector->max as nat,
                )
        },
{
    reveal_strlit(" M");
    reveal_strlit(" m");
    reveal_strlit("-");
    reveal_strlit("M");
    match mux {
        Some(mi) => match mi.role {
            MuxRole::Multiplexor => {
                let tag = mux_tag(mux);
                assert(tag =~= seq![' ', 'M']);
                let w = tag.drop_first();
                assert(w =~= seq!['M']);
                assert(w.drop_last() =~= Seq::<char>::empty());
                assert(trail_count(Seq::<char>::empty(), CharClass::Is(':')) == 0);
                assert(trail_count(w, CharClass::Is(':')) == 0);
                assert(trim_end_by(w, CharClass::Is(':')) =~= w);
                assert(w =~= "M"@);
            },
            MuxRole::Multiplexed => match mi.selector {
                MuxSelector::Value(v) => {
                    let d = dec_string(v as nat);
                    law_dec_string_reads_back(v as nat);
                    let tag = mux_tag(mux);
                    assert(tag =~= seq![' ', 'm'] + d);
                    let w = tag.drop_first();
                    assert(w =~= seq!['m'] + d);
                    assert(w.last() == d.last());
                    assert(is_digit(d[d.len() - 1]));
                    assert(trail_count(w, CharClass::Is(':')) == 0);
                    assert(w.take(w.len() - 0) =~= w);
                    assert(trim_end_by(w, CharClass::Is(':')) == w);
                    assert(w.drop_first() =~= d);
                    assert(w != "M"@) by {
                        if w == "M"@ {
                            assert(w[0] == 'm');
                            assert("M"@[0] == 'M');
                        }
                    }
                    assert forall|i: int| 1 <= i < tag.len() implies !is_ws(#[trigger] tag[i], true) && tag[i] != ':' by {
                        if i >= 2 {
                            assert(tag[i] == d[i - 2]);
                            assert(is_digit(d[i - 2]));
                        }
                    }
                },
                MuxSelector::Range { min, max } => {
                    let a = dec_string(min as nat);
                    let b = dec_string(max as nat);
                    law_dec_string_reads_back(min as nat);
                    law_dec_string_reads_back(max as nat);
                    let tag = mux_tag(mux);
                    assert(tag =~= seq![' ', 'm'] + a + seq!['-'] + b);
                    let k: int = 2 + a.len() as int;
                    assert(tag[k] == '-');
                    assert(tag.subrange(2, k) =~= a);
                    assert(tag.skip(k + 1) =~= b);
                    assert forall|i: int| 1 <= i < tag.len() implies !is_ws(#[trigger] tag[i], true) && tag[i] != ':' by {
                        if 2 <= i < k {
                            assert(tag[i] == a[i - 2]);
                            assert(is_digit(a[i - 2]));
                        } else if i > k {
                            assert(tag[i] == b[i - k - 1]);
                            assert(is_digit(b[i - k - 1]));
                        }
                    }
                },
            },
            MuxRole::NotMultiplexed => {},
        },
        None => {},
    }
}

} // verus!
