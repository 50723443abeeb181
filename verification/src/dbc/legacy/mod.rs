//! The list-based DBC model: a database holds its nodes and messages in
//! vectors, each message owns its signals, and nodes are referenced by value.
use std::collections::HashMap;
use vstd::prelude::*;

pub mod basic_info;
pub mod messages;
pub mod nodes;
pub mod signals;
pub mod version;

verus! {

/// A node (ECU).
#[derive(Clone, Debug, Default, PartialEq)]
pub struct Node {
    /// Node name.
    pub name: String,
    /// Node comment (`CM_ BU_`).
    pub comment: String,
}

/// A signal inside a message. Numeric attributes that the DBC writes as
/// floating-point literals are kept as the literal text.
#[derive(Clone, Debug, Default, PartialEq)]
pub struct Signal {
    pub name: String,
    pub bit_start: usize,
    pub bit_length: usize,
    /// 1 = Intel, 0 = Motorola (the digit after `@`).
    pub endian: usize,
    /// 1 = signed, 0 = unsigned.
    pub sign: usize,
    /// Scale factor (literal text).
    pub factor: String,
    /// Offset (literal text).
    pub offset: String,
    /// Minimum (literal text).
    pub min: String,
    /// Maximum (literal text).
    pub max: String,
    pub unit_of_measurement: String,
    pub receiver_nodes: Vec<Node>,
    pub comment: String,
    /// Value descriptions (`VAL_`).
    pub value_table: HashMap<i32, String>,
}

/// A message (frame).
#[derive(Clone, Debug, Default, PartialEq)]
pub struct Message {
    pub id: u64,
    pub id_hex: String,
    pub name: String,
    pub byte_length: usize,
    /// `"CAN"` or `"CAN FD"`.
    pub msgtype: String,
    pub sender_nodes: Vec<Node>,
    pub signals: Vec<Signal>,
    pub comment: String,
}

/// The database.
#[derive(Clone, Debug, Default, PartialEq)]
pub struct Database {
    pub name: String,
    pub version: String,
    pub bustype: String,
    pub baudrate: u32,
    pub baudrate_canfd: u32,
    pub comment: String,
    pub nodes: Vec<Node>,
    pub messages: Vec<Message>,
}

/// Abstract node.
pub struct NodeView {
    pub name: Seq<char>,
    pub comment: Seq<char>,
}

/// Abstract signal.
pub struct SignalView {
    pub name: Seq<char>,
    pub bit_start: usize,
    pub bit_length: usize,
    pub endian: usize,
    pub sign: usize,
    pub factor: Seq<char>,
    pub offset: Seq<char>,
    pub min: Seq<char>,
    pub max: Seq<char>,
    pub unit_of_measurement: Seq<char>,
    pub receiver_nodes: Seq<NodeView>,
    pub comment: Seq<char>,
    pub value_table: Map<i32, Seq<char>>,
}

/// Abstract message.
pub struct MessageView {
    pub id: u64,
    pub id_hex: Seq<char>,
    pub name: Seq<char>,
    pub byte_length: usize,
    pub msgtype: Seq<char>,
    pub sender_nodes: Seq<NodeView>,
    pub signals: Seq<SignalView>,
    pub comment: Seq<char>,
}

/// Abstract database.
pub struct DatabaseView {
    pub name: Seq<char>,
    pub version: Seq<char>,
    pub bustype: Seq<char>,
    pub baudrate: u32,
    pub baudrate_canfd: u32,
    pub comment: Seq<char>,
    pub nodes: Seq<NodeView>,
    pub messages: Seq<MessageView>,
}

impl View for Node {
    type V = NodeView;

    open spec fn view(&self) -> NodeView {
        NodeView { name: self.name@, comment: self.comment@ }
    }
}

/// Abstract nodes of a vector of nodes.
pub open spec fn nodes_view(s: Seq<Node>) -> Seq<NodeView> {
    s.map_values(|n: Node| n@)
}

/// Abstract value table.
pub open spec fn table_view(m: Map<i32, String>) -> Map<i32, Seq<char>> {
    m.map_values(|s: String| s@)
}

impl View for Signal {
    type V = SignalView;

    open spec fn view(&self) -> SignalView {
        SignalView {
            name: self.name@,
            bit_start: self.bit_start,
            bit_length: self.bit_length,
            endian: self.endian,
            sign: self.sign,
            factor: self.factor@,
            offset: self.offset@,
            min: self.min@,
            max: self.max@,
            unit_of_measurement: self.unit_of_measurement@,
            receiver_nodes: nodes_view(self.receiver_nodes@),
            comment: self.comment@,
            value_table: table_view(self.value_table@),
        }
    }
}

/// Abstract signals of a vector of signals.
pub open spec fn signals_view(s: Seq<Signal>) -> Seq<SignalView> {
    s.map_values(|g: Signal| g@)
}

impl View for Message {
    type V = MessageView;

    open spec fn view(&self) -> MessageView {
        MessageView {
            id: self.id,
            id_hex: self.id_hex@,
            name: self.name@,
            byte_length: self.byte_length,
            msgtype: self.msgtype@,
            sender_nodes: nodes_view(self.sender_nodes@),
            signals: signals_view(self.signals@),
            comment: self.comment@,
        }
    }
}

/// Abstract messages of a vector of messages.
pub open spec fn messages_view(s: Seq<Message>) -> Seq<MessageView> {
    s.map_values(|m: Message| m@)
}

impl View for Database {
    type V = DatabaseView;

    open spec fn view(&self) -> DatabaseView {
        DatabaseView {
            name: self.name@,
            version: self.version@,
            bustype: self.bustype@,
            baudrate: self.baudrate,
            baudrate_canfd: self.baudrate_canfd,
            comment: self.comment@,
            nodes: nodes_view(self.nodes@),
            messages: messages_view(self.messages@),
        }
    }
}

/// Index of the first node of `s` named `name`.
pub open spec fn first_node_named(s: Seq<NodeView>, name: Seq<char>) -> Option<int>
    decreases s.len(),
{
    if s.len() == 0 {
        None
    } else if s[0].name == name {
        Some(0)
    } else {
        match first_node_named(s.drop_first(), name) {
            Some(i) => Some(i + 1),
            None => None,
        }
    }
}

/// Index of the first message of `s` with identifier `id`.
pub open spec fn first_message_with_id(s: Seq<MessageView>, id: u64) -> Option<int>
    decreases s.len(),
{
    if s.len() == 0 {
        None
    } else if s[0].id == id {
        Some(0)
    } else {
        match first_message_with_id(s.drop_first(), id) {
            Some(i) => Some(i + 1),
            None => None,
        }
    }
}

/// Index of the first message of `s` whose identifier text is `hex`,
/// ignoring ASCII case.
pub open spec fn first_message_with_hex(s: Seq<MessageView>, hex: Seq<char>) -> Option<int>
    decreases s.len(),
{
    if s.len() == 0 {
        None
    } else if crate::text::ascii_lower_seq(s[0].id_hex) == crate::text::ascii_lower_seq(hex) {
        Some(0)
    } else {
        match first_message_with_hex(s.drop_first(), hex) {
            Some(i) => Some(i + 1),
            None => None,
        }
    }
}

proof fn lemma_first_message_with_hex(s: Seq<MessageView>, hex: Seq<char>, i: int)
    requires
        0 <= i <= s.len(),
        forall|j: int| 0 <= j < i ==> crate::text::ascii_lower_seq(#[trigger] s[j].id_hex) != crate::text::ascii_lower_seq(hex),
    ensures
        i < s.len() && crate::text::ascii_lower_seq(s[i].id_hex) == crate::text::ascii_lower_seq(hex) ==> first_message_with_hex(s, hex) == Some(i),
        i == s.len() ==> first_message_with_hex(s, hex) is None,
    decreases i,
{
    if i > 0 {
        assert forall|j: int| 0 <= j < i - 1 implies crate::text::ascii_lower_seq(#[trigger] s.drop_first()[j].id_hex) != crate::text::ascii_lower_seq(hex) by {
            assert(s.drop_first()[j] == s[j + 1]);
        }
        lemma_first_message_with_hex(s.drop_first(), hex, i - 1);
        assert(crate::text::ascii_lower_seq(s[0].id_hex) != crate::text::ascii_lower_seq(hex));
    }
}

/// Index of the first signal of `s` named `name`.
pub open spec fn first_signal_named(s: Seq<SignalView>, name: Seq<char>) -> Option<int>
    decreases s.len(),
{
    if s.len() == 0 {
        None
    } else if s[0].name == name {
        Some(0)
    } else {
        match first_signal_named(s.drop_first(), name) {
            Some(i) => Some(i + 1),
            None => None,
        }
    }
}

pub proof fn lemma_first_node_named(s: Seq<NodeView>, name: Seq<char>, i: int)
    requires
        0 <= i <= s.len(),
        forall|j: int| 0 <= j < i ==> s[j].name != name,
    ensures
        i < s.len() && s[i].name == name ==> first_node_named(s, name) == Some(i),
        i == s.len() ==> first_node_named(s, name) is None,
    decreases i,
{
    if i > 0 {
        assert forall|j: int| 0 <= j < i - 1 implies s.drop_first()[j].name != name by {
            assert(s.drop_first()[j] == s[j + 1]);
        }
        lemma_first_node_named(s.drop_first(), name, i - 1);
        if i < s.len() {
            assert(s.drop_first()[i - 1] == s[i]);
        }
    }
}

pub proof fn lemma_first_message_with_id(s: Seq<MessageView>, id: u64, i: int)
    requires
        0 <= i <= s.len(),
        forall|j: int| 0 <= j < i ==> s[j].id != id,
    ensures
        i < s.len() && s[i].id == id ==> first_message_with_id(s, id) == Some(i),
        i == s.len() ==> first_message_with_id(s, id) is None,
    decreases i,
{
    if i > 0 {
        assert forall|j: int| 0 <= j < i - 1 implies s.drop_first()[j].id != id by {
            assert(s.drop_first()[j] == s[j + 1]);
        }
        lemma_first_message_with_id(s.drop_first(), id, i - 1);
        if i < s.len() {
            assert(s.drop_first()[i - 1] == s[i]);
        }
    }
}

pub proof fn lemma_first_signal_named(s: Seq<SignalView>, name: Seq<char>, i: int)
    requires
        0 <= i <= s.len(),
        forall|j: int| 0 <= j < i ==> s[j].name != name,
    ensures
        i < s.len() && s[i].name == name ==> first_signal_named(s, name) == Some(i),
        i == s.len() ==> first_signal_named(s, name) is None,
    decreases i,
{
    if i > 0 {
        assert forall|j: int| 0 <= j < i - 1 implies s.drop_first()[j].name != name by {
            assert(s.drop_first()[j] == s[j + 1]);
        }
        lemma_first_signal_named(s.drop_first(), name, i - 1);
        if i < s.len() {
            assert(s.drop_first()[i - 1] == s[i]);
        }
    }
}

/// Position of the first node of `v` named `name`.
pub fn find_node(v: &Vec<Node>, name: &Vec<char>) -> (r: Option<usize>)
    ensures
        r matches Some(i) ==> i < v.len() && first_node_named(nodes_view(v@), name@) == Some(i as int),
        r is None ==> first_node_named(nodes_view(v@), name@) is None,
{
    let mut i: usize = 0;
    while i < v.len()
        invariant
            i <= v.len(),
            forall|j: int| 0 <= j < i ==> nodes_view(v@)[j].name != name@,
        decreases v.len() - i,
    {
        let n: Vec<char> = crate::text::chars_of_string(&v[i].name);
        if crate::text::eq_vec(&n, name) {
            proof {
                lemma_first_node_named(nodes_view(v@), name@, i as int);
            }
            return Some(i);
        }
        i = i + 1;
    }
    proof {
        lemma_first_node_named(nodes_view(v@), name@, i as int);
    }
    None
}

/// Position of the first message of `v` with identifier `id`.
pub fn find_message(v: &Vec<Message>, id: u64) -> (r: Option<usize>)
    ensures
        r matches Some(i) ==> i < v.len() && first_message_with_id(messages_view(v@), id) == Some(i as int),
        r is None ==> first_message_with_id(messages_view(v@), id) is None,
{
    let mut i: usize = 0;
    while i < v.len()
        invariant
            i <= v.len(),
            forall|j: int| 0 <= j < i ==> messages_view(v@)[j].id != id,
        decreases v.len() - i,
    {
        if v[i].id == id {
            proof {
                lemma_first_message_with_id(messages_view(v@), id, i as int);
            }
            return Some(i);
        }
        i = i + 1;
    }
    proof {
        lemma_first_message_with_id(messages_view(v@), id, i as int);
    }
    None
}

/// Position of the first signal of `v` named `name`.
pub fn find_signal(v: &Vec<Signal>, name: &Vec<char>) -> (r: Option<usize>)
    ensures
        r matches Some(i) ==> i < v.len() && first_signal_named(signals_view(v@), name@) == Some(i as int),
        r is None ==> first_signal_named(signals_view(v@), name@) is None,
{
    let mut i: usize = 0;
    while i < v.len()
        invariant
            i <= v.len(),
            forall|j: int| 0 <= j < i ==> signals_view(v@)[j].name != name@,
        decreases v.len() - i,
    {
        let n: Vec<char> = crate::text::chars_of_string(&v[i].name);
        if crate::text::eq_vec(&n, name) {
            proof {
                lemma_first_signal_named(signals_view(v@), name@, i as int);
            }
            return Some(i);
        }
        i = i + 1;
    }
    proof {
        lemma_first_signal_named(signals_view(v@), name@, i as int);
    }
    None
}

impl Database {
    /// The first node named `name`.
    pub fn get_nodes_by_name_mut(&mut self, name: &str) -> (r: Option<&mut Node>)
        ensures
            match first_node_named(nodes_view(old(self).nodes@), name@) {
                Some(i) => r matches Some(n) && *n == old(self).nodes@[i] && final(self).nodes@
                    == old(self).nodes@.update(i, *final(n)) && final(self).messages
                    == old(self).messages && final(self)@.name == old(self)@.name,
                None => r is None && *final(self) == *old(self),
            },
    {
        let key: Vec<char> = crate::text::chars_of(name);
        match find_node(&self.nodes, &key) {
            Some(i) => Some(&mut self.nodes[i]),
            None => None,
        }
    }

    /// The first message with identifier `id`, mutably.
    pub fn get_message_by_id_mut(&mut self, id: u64) -> (r: Option<&mut Message>)
        ensures
            match first_message_with_id(messages_view(old(self).messages@), id) {
                Some(i) => r matches Some(m) && *m == old(self).messages@[i] && final(self).messages@
                    == old(self).messages@.update(i, *final(m)) && final(self).nodes
                    == old(self).nodes && final(self)@.name == old(self)@.name,
                None => r is None && *final(self) == *old(self),
            },
    {
        match find_message(&self.messages, id) {
            Some(i) => Some(&mut self.messages[i]),
            None => None,
        }
    }

    /// The first message whose identifier text is `id_hex`, ignoring ASCII
    /// case.
    pub fn get_message_by_id_hex(&self, id_hex: &str) -> (r: Option<&Message>)
        ensures
            match first_message_with_hex(messages_view(self.messages@), id_hex@) {
                Some(i) => 0 <= i < self.messages@.len() && r == Some(&self.messages@[i]),
                None => r is None,
            },
    {
        let ghost s = messages_view(self.messages@);
        let key: Vec<char> = crate::text::ascii_lower_exec(&crate::text::chars_of(id_hex));
        let mut i: usize = 0;
        while i < self.messages.len()
            invariant
                i <= self.messages.len(),
                s == messages_view(self.messages@),
                key@ == crate::text::ascii_lower_seq(id_hex@),
                forall|j: int| 0 <= j < i ==> crate::text::ascii_lower_seq(#[trigger] s[j].id_hex) != crate::text::ascii_lower_seq(id_hex@),
            decreases self.messages.len() - i,
        {
            let h: Vec<char> = crate::text::ascii_lower_exec(&crate::text::chars_of_string(&self.messages[i].id_hex));
            assert(s[i as int].id_hex == self.messages@[i as int].id_hex@);
            if crate::text::eq_vec(&h, &key) {
                proof {
                    lemma_first_message_with_hex(s, id_hex@, i as int);
                }
                return Some(&self.messages[i]);
            }
            i = i + 1;
        }
        proof {
            lemma_first_message_with_hex(s, id_hex@, i as int);
        }
        None
    }

    /// The first message with identifier `id`.
    pub fn get_message_by_id(&self, id: u64) -> (r: Option<&Message>)
        ensures
            match first_message_with_id(messages_view(self.messages@), id) {
                Some(i) => r == Some(&self.messages@[i]),
                None => r is None,
            },
    {
        match find_message(&self.messages, id) {
            Some(i) => Some(&self.messages[i]),
            None => None,
        }
    }
}

impl Message {
    /// The first sender node named `name`, mutably.
    pub fn get_sender_nodes_by_name_mut(&mut self, name: &str) -> (r: Option<&mut Node>)
        ensures
            match first_node_named(nodes_view(old(self).sender_nodes@), name@) {
                Some(i) => r matches Some(n) && *n == old(self).sender_nodes@[i]
                    && final(self).sender_nodes@ == old(self).sender_nodes@.update(i, *final(n))
                    && final(self).signals == old(self).signals,
                None => r is None && *final(self) == *old(self),
            },
    {
        let key: Vec<char> = crate::text::chars_of(name);
        match find_node(&self.sender_nodes, &key) {
            Some(i) => Some(&mut self.sender_nodes[i]),
            None => None,
        }
    }

    /// The first signal named `name`.
    pub fn get_signal_by_name(&self, name: &str) -> (r: Option<&Signal>)
        ensures
            match first_signal_named(signals_view(self.signals@), name@) {
                Some(i) => r == Some(&self.signals@[i]),
                None => r is None,
            },
    {
        let key: Vec<char> = crate::text::chars_of(name);
        match find_signal(&self.signals, &key) {
            Some(i) => Some(&self.signals[i]),
            None => None,
        }
    }

    /// The first signal named `name`, mutably.
    pub fn get_signal_by_name_mut(&mut self, name: &str) -> (r: Option<&mut Signal>)
        ensures
            match first_signal_named(signals_view(old(self).signals@), name@) {
                Some(i) => r matches Some(g) && *g == old(self).signals@[i] && final(self).signals@
                    == old(self).signals@.update(i, *final(g)) && final(self).sender_nodes
                    == old(self).sender_nodes,
                None => r is None && *final(self) == *old(self),
            },
    {
        let key: Vec<char> = crate::text::chars_of(name);
        match find_signal(&self.signals, &key) {
            Some(i) => Some(&mut self.signals[i]),
            None => None,
        }
    }
}

impl Signal {
    /// The first receiver node named `name`, mutably.
    pub fn get_receiver_nodes_by_name_mut(&mut self, name: &str) -> (r: Option<&mut Node>)
        ensures
            match first_node_named(nodes_view(old(self).receiver_nodes@), name@) {
                Some(i) => r matches Some(n) && *n == old(self).receiver_nodes@[i]
                    && final(self).receiver_nodes@ == old(self).receiver_nodes@.update(i, *final(n)),
                None => r is None && *final(self) == *old(self),
            },
    {
        let key: Vec<char> = crate::text::chars_of(name);
        match find_node(&self.receiver_nodes, &key) {
            Some(i) => Some(&mut self.receiver_nodes[i]),
            None => None,
        }
    }
}

} // verus!
