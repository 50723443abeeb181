//! Nodes, messages and signals of the keyed database, and how they refer to
//! each other.
use vstd::prelude::*;
use crate::dbc::types::attributes::{copy_values, table_of, AttrValueView, AttributeValue};
use crate::dbc::types::keys::{copy_keys, MessageKey, NodeKey, SignalKey};
use crate::dbc::types::signal::{Endianness, Signess};
use crate::text::{chars_of_string, string_of};

verus! {

/// Role of a signal in multiplexing.
#[derive(Clone, Copy, Debug, PartialEq, Eq, Structural)]
pub enum MuxRole {
    /// Not multiplexed.
    NotMultiplexed,
    /// The multiplexor (switch) signal, `M` in DBC.
    Multiplexor,
    /// A signal present only for some switch values, `m<value>` in DBC.
    Multiplexed,
}

/// Switch value(s) selecting a multiplexed signal.
#[derive(Clone, Copy, Debug, PartialEq, Eq, Structural)]
pub enum MuxSelector {
    /// One switch value.
    Value(u32),
    /// An inclusive range of switch values.
    Range { min: u32, max: u32 },
}

impl Default for MuxSelector {
    fn default() -> (r: MuxSelector)
        ensures
            r == MuxSelector::Value(0),
    {
        MuxSelector::Value(0)
    }
}

/// Multiplexing information of a signal bound to a message.
#[derive(Clone, Copy, Debug, PartialEq, Eq, Structural)]
pub struct MuxInfo {
    pub role: MuxRole,
    pub group: u32,
    /// The multiplexor this signal depends on, once known.
    pub switch: Option<SignalKey>,
    pub selector: MuxSelector,
}

/// One multiplexing case of a message: `signal` is present when
/// multiplexor `switch` takes `selector`.
#[derive(Clone, Copy, Debug, PartialEq, Eq, Structural)]
pub struct MuxCase {
    pub switch: SignalKey,
    pub selector: MuxSelector,
    pub signal: SignalKey,
}

/// Standard (11-bit) or extended (29-bit) identifier.
#[derive(Clone, Copy, Debug, PartialEq, Eq, Structural)]
pub enum IdFormat {
    Standard,
    Extended,
}

/// Node/ECU defined in the database.
#[derive(Debug)]
pub struct NodeDBC {
    /// Node/ECU name.
    pub name: String,
    /// Associated comment.
    pub comment: String,
    /// Messages transmitted by this node.
    pub messages_sent: Vec<MessageKey>,
    /// Signals this node transmits (aggregated from the messages it sends).
    pub tx_signals: Vec<SignalKey>,
    /// Signals this node receives.
    pub rx_signals: Vec<SignalKey>,
    /// Node attribute values (`BA_ "..." BU_`), ordered by name; a new node
    /// starts with the defaults of the node attribute specifications.
    pub attributes: Vec<(String, AttributeValue)>,
}

/// A message (frame) of the database.
#[derive(Debug)]
pub struct MessageDBC {
    pub id_format: IdFormat,
    pub id: u32,
    /// Normalized hexadecimal identifier (`0x...`, upper case).
    pub id_hex: String,
    pub name: String,
    /// Payload length in bytes.
    pub byte_length: u16,
    /// `CAN` or `CAN FD`.
    pub msgtype: String,
    pub sender_nodes: Vec<NodeKey>,
    /// Union of the receivers of the message's signals.
    pub receiver_nodes: Vec<NodeKey>,
    pub signals: Vec<SignalKey>,
    pub comment: String,
    /// Multiplexor signals of the message.
    pub mux_multiplexors: Vec<SignalKey>,
    /// Multiplexing cases, in the order they were registered.
    pub mux_cases: Vec<MuxCase>,
    /// The multiplexors that have a table of cases (possibly empty), in the
    /// order the tables were opened.
    pub mux_switches: Vec<SignalKey>,
    /// Message attribute values (`BA_ "..." BO_`), ordered by name.
    pub attributes: Vec<(String, AttributeValue)>,
}

/// A signal of the database. The scaling attributes, which the DBC writes as
/// floating-point literals, are kept as their literal text.
#[derive(Debug)]
pub struct SignalDBC {
    pub name: String,
    pub bit_start: u16,
    pub bit_length: u16,
    pub endian: Endianness,
    pub sign: Signess,
    pub factor: String,
    pub offset: String,
    pub min: String,
    pub max: String,
    pub unit_of_measurement: String,
    pub receiver_nodes: Vec<NodeKey>,
    pub comment: String,
    /// Value descriptions (`VAL_`), in the order written.
    pub value_table: Vec<(i64, String)>,
    /// The message the signal belongs to (the null key when unbound).
    pub message: MessageKey,
    pub mux: Option<MuxInfo>,
    /// Signal attribute values (`BA_ "..." SG_`), ordered by name.
    pub attributes: Vec<(String, AttributeValue)>,
}

/// Abstract node.
pub struct NodeView {
    pub name: Seq<char>,
    pub comment: Seq<char>,
    pub messages_sent: Seq<MessageKey>,
    pub tx_signals: Seq<SignalKey>,
    pub rx_signals: Seq<SignalKey>,
    pub attributes: Seq<(Seq<char>, AttrValueView)>,
}

/// Abstract message.
pub struct MessageView {
    pub id_format: IdFormat,
    pub id: u32,
    pub id_hex: Seq<char>,
    pub name: Seq<char>,
    pub byte_length: u16,
    pub msgtype: Seq<char>,
    pub sender_nodes: Seq<NodeKey>,
    pub receiver_nodes: Seq<NodeKey>,
    pub signals: Seq<SignalKey>,
    pub comment: Seq<char>,
    pub mux_multiplexors: Seq<SignalKey>,
    pub mux_cases: Seq<MuxCase>,
    pub mux_switches: Seq<SignalKey>,
    pub attributes: Seq<(Seq<char>, AttrValueView)>,
}

/// Abstract signal.
pub struct SignalView {
    pub name: Seq<char>,
    pub bit_start: u16,
    pub bit_length: u16,
    pub endian: Endianness,
    pub sign: Signess,
    pub factor: Seq<char>,
    pub offset: Seq<char>,
    pub min: Seq<char>,
    pub max: Seq<char>,
    pub unit_of_measurement: Seq<char>,
    pub receiver_nodes: Seq<NodeKey>,
    pub comment: Seq<char>,
    pub value_table: Seq<(i64, Seq<char>)>,
    pub message: MessageKey,
    pub mux: Option<MuxInfo>,
    pub attributes: Seq<(Seq<char>, AttrValueView)>,
}

impl View for NodeDBC {
    type V = NodeView;

    open spec fn view(&self) -> NodeView {
        NodeView {
            name: self.name@,
            comment: self.comment@,
            messages_sent: self.messages_sent@,
            tx_signals: self.tx_signals@,
            rx_signals: self.rx_signals@,
            attributes: table_of(self.attributes@),
        }
    }
}

impl View for MessageDBC {
    type V = MessageView;

    open spec fn view(&self) -> MessageView {
        MessageView {
            id_format: self.id_format,
            id: self.id,
            id_hex: self.id_hex@,
            name: self.name@,
            byte_length: self.byte_length,
            msgtype: self.msgtype@,
            sender_nodes: self.sender_nodes@,
            receiver_nodes: self.receiver_nodes@,
            signals: self.signals@,
            comment: self.comment@,
            mux_multiplexors: self.mux_multiplexors@,
            mux_cases: self.mux_cases@,
            mux_switches: self.mux_switches@,
            attributes: table_of(self.attributes@),
        }
    }
}

/// Abstract value table.
pub open spec fn table_view(t: Seq<(i64, String)>) -> Seq<(i64, Seq<char>)> {
    t.map_values(|e: (i64, String)| (e.0, e.1@))
}

impl View for SignalDBC {
    type V = SignalView;

    open spec fn view(&self) -> SignalView {
        SignalView {
            name: self.name@,
            bit_start: self.bit_start,
            bit_length: self.bit_length,
            endian: self.endian,
            sign: self.sign,
            factor: self.factor@,
            offset: self.offset@,
            min: self.min@,
            max: self.max@,
            unit_of_measurement: self.unit_of_measurement@,
            receiver_nodes: self.receiver_nodes@,
            comment: self.comment@,
            value_table: table_view(self.value_table@),
            message: self.message,
            mux: self.mux,
            attributes: table_of(self.attributes@),
        }
    }
}

/// A copy of a string.
pub fn copy_string(s: &String) -> (r: String)
    ensures
        r@ == s@,
{
    string_of(&chars_of_string(s))
}

fn copy_table(t: &Vec<(i64, String)>) -> (r: Vec<(i64, String)>)
    ensures
        table_view(r@) == table_view(t@),
{
    let mut out: Vec<(i64, String)> = Vec::new();
    let mut i: usize = 0;
    while i < t.len()
        invariant
            i <= t.len(),
            table_view(out@) == table_view(t@.take(i as int)),
        decreases t.len() - i,
    {
        let e: (i64, String) = (t[i].0, copy_string(&t[i].1));
        let ghost before = out@;
        out.push(e);
        assert(table_view(out@) =~= table_view(before).push((e.0, e.1@)));
        assert(t@.take(i + 1) =~= t@.take(i as int).push(t@[i as int]));
        assert(table_view(t@.take(i + 1)) =~= table_view(t@.take(i as int)).push(
            (t@[i as int].0, t@[i as int].1@),
        ));
        i = i + 1;
    }
    assert(t@.take(t.len() as int) =~= t@);
    out
}

/// A copy of a list of multiplexing cases.
pub fn copy_cases(v: &Vec<MuxCase>) -> (r: Vec<MuxCase>)
    ensures
        r@ == v@,
{
    let mut out: Vec<MuxCase> = Vec::new();
    let mut i: usize = 0;
    while i < v.len()
        invariant
            i <= v.len(),
            out@ == v@.take(i as int),
        decreases v.len() - i,
    {
        out.push(v[i]);
        assert(v@.take(i + 1) =~= v@.take(i as int).push(v@[i as int]));
        i = i + 1;
    }
    assert(v@.take(v.len() as int) =~= v@);
    out
}

impl NodeDBC {
    /// A node with the given name and no relations.
    pub fn named(name: String) -> (r: NodeDBC)
        ensures
            r@ == (NodeView {
                name: name@,
                comment: Seq::empty(),
                messages_sent: Seq::empty(),
                tx_signals: Seq::empty(),
                rx_signals: Seq::empty(),
                attributes: Seq::empty(),
            }),
    {
        let r = NodeDBC {
            attributes: Vec::new(),
            name: name,
            comment: String::new(),
            messages_sent: Vec::new(),
            tx_signals: Vec::new(),
            rx_signals: Vec::new(),
        };
        assert(table_of(r.attributes@) =~= Seq::<(Seq<char>, AttrValueView)>::empty());
        r
    }

    /// A field-by-field copy.
    pub fn duplicate(&self) -> (r: NodeDBC)
        ensures
            r@ == self@,
    {
        NodeDBC {
            name: copy_string(&self.name),
            comment: copy_string(&self.comment),
            messages_sent: copy_keys(&self.messages_sent),
            tx_signals: copy_keys(&self.tx_signals),
            rx_signals: copy_keys(&self.rx_signals),
            attributes: copy_values(&self.attributes),
        }
    }

    /// Resets all fields to their default values.
    pub fn clear(&mut self)
        ensures
            final(self)@ == (NodeView {
                name: Seq::empty(),
                comment: Seq::empty(),
                messages_sent: Seq::empty(),
                tx_signals: Seq::empty(),
                rx_signals: Seq::empty(),
                attributes: Seq::empty(),
            }),
    {
        *self = NodeDBC::named(String::new());
    }
}

impl MessageDBC {
    /// A field-by-field copy.
    pub fn duplicate(&self) -> (r: MessageDBC)
        ensures
            r@ == self@,
    {
        MessageDBC {
            id_format: self.id_format,
            id: self.id,
            id_hex: copy_string(&self.id_hex),
            name: copy_string(&self.name),
            byte_length: self.byte_length,
            msgtype: copy_string(&self.msgtype),
            sender_nodes: copy_keys(&self.sender_nodes),
            receiver_nodes: copy_keys(&self.receiver_nodes),
            signals: copy_keys(&self.signals),
            comment: copy_string(&self.comment),
            mux_multiplexors: copy_keys(&self.mux_multiplexors),
            mux_cases: copy_cases(&self.mux_cases),
            mux_switches: copy_keys(&self.mux_switches),
            attributes: copy_values(&self.attributes),
        }
    }
}

impl SignalDBC {
    /// A field-by-field copy.
    pub fn duplicate(&self) -> (r: SignalDBC)
        ensures
            r@ == self@,
    {
        SignalDBC {
            name: copy_string(&self.name),
            bit_start: self.bit_start,
            bit_length: self.bit_length,
            endian: self.endian,
            sign: self.sign,
            factor: copy_string(&self.factor),
            offset: copy_string(&self.offset),
            min: copy_string(&self.min),
            max: copy_string(&self.max),
            unit_of_measurement: copy_string(&self.unit_of_measurement),
            receiver_nodes: copy_keys(&self.receiver_nodes),
            comment: copy_string(&self.comment),
            value_table: copy_table(&self.value_table),
            message: self.message,
            mux: self.mux,
            attributes: copy_values(&self.attributes),
        }
    }
}

/// What one slot of the arena holds.
#[derive(Debug)]
pub enum Entity {
    Node(NodeDBC),
    Message(MessageDBC),
    Signal(SignalDBC),
}

} // verus!
