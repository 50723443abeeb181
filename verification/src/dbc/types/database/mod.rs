//! The keyed DBC database: nodes, messages and signals live in one slot-map
//! arena under stable keys; order lists give the presentation order and
//! lookup tables find entities by normalized name or identifier.
//!
//! Names are looked up case-insensitively (by their lower-case form);
//! hexadecimal identifiers use the `0x...` upper-case form of [`id_to_hex`].
use vstd::prelude::*;
use crate::dbc::types::relations::{RelTable, RelValues};
use crate::dbc::types::arena::{arena_len, arena_new, arena_slots, Arena, ARENA_CAPACITY};
use crate::dbc::types::attributes::{table_of, AttrSpecView, AttrValueView, AttributeSpec, AttributeValue};
use crate::dbc::types::entities::{Entity, MessageView, NodeView, SignalView};
use crate::dbc::types::index::{IdIndex, NameIndex};
use crate::dbc::types::keys::{handle_is_null, handle_ok, MessageKey, NodeKey, SignalKey};
use crate::text::{
    chars_of, chars_of_string, dec_string, extend_chars, fmt_dec, fmt_hex, hex_string, pad_left,
    pad_left_exec, string_of, unicode_lowercase,
};

pub mod access;
pub mod laws;
pub mod messages;
pub mod nodes;
pub mod signals;
pub mod sorting;

verus! {

/// Bus type for a DBC-backed database.
#[derive(Clone, Copy, Debug, PartialEq, Eq, Structural)]
pub enum BusType {
    Can,
    CanFd,
}

impl BusType {
    /// The label of a bus type.
    pub open spec fn label(self) -> Seq<char> {
        match self {
            BusType::Can => "CAN"@,
            BusType::CanFd => "CAN FD"@,
        }
    }

    /// Returns a display-friendly label (allocates a new `String`).
    pub fn to_str(&self) -> (r: String)
        ensures
            r@ == self.label(),
    {
        match self {
            BusType::Can => string_of(&chars_of("CAN")),
            BusType::CanFd => string_of(&chars_of("CAN FD")),
        }
    }
}

impl Default for BusType {
    fn default() -> (r: BusType)
        ensures
            r == BusType::Can,
    {
        BusType::Can
    }
}

/// 29-bit extended identifier mask.
pub const CAN_EFF_MASK: u32 = 0x1FFF_FFFF;

/// 11-bit standard identifier mask.
pub const CAN_SFF_MASK: u32 = 0x0000_07FF;

/// The normalized hexadecimal text of a CAN identifier: `0x` and at least
/// three upper-case digits for a standard identifier (at most 0x7FF), `0x`
/// and eight digits of the low 29 bits otherwise.
pub open spec fn id_hex_text(id: u32) -> Seq<char> {
    if id <= CAN_SFF_MASK {
        seq!['0', 'x'] + pad_left(hex_string(id as nat), 3, '0')
    } else {
        seq!['0', 'x'] + pad_left(hex_string((id & CAN_EFF_MASK) as nat), 8, '0')
    }
}

/// Hexadecimal text of a CAN identifier (`0x{:03X}` or `0x{:08X}`).
pub fn id_to_hex(id: u32) -> (r: String)
    ensures
        r@ == id_hex_text(id),
{
    let v: u32 = if id <= CAN_SFF_MASK {
        id
    } else {
        id & CAN_EFF_MASK
    };
    let w: usize = if id <= CAN_SFF_MASK {
        3
    } else {
        8
    };
    let h: Vec<char> = fmt_hex(v as u64);
    let p: Vec<char> = pad_left_exec(&h, w, '0');
    let mut out: Vec<char> = Vec::new();
    out.push('0');
    out.push('x');
    extend_chars(&mut out, &p);
    assert(out@ =~= seq!['0', 'x'] + p@);
    string_of(&out)
}


/// In-memory representation of a CAN database (DBC).
///
/// Holds the general information, the arena of nodes, messages and signals
/// (stable keys), order lists that fix the iteration order, and lookup
/// tables from lower-case names and identifiers to keys.
#[derive(Debug)]
pub struct DatabaseDBC {
    /// Database name (`BA_ "DBName"`), empty if absent.
    pub name: String,
    /// Bus type (`BA_ "BusType"`).
    pub bustype: BusType,
    /// Version text from the `VERSION` line.
    pub version: String,
    /// Network comment (`CM_ "..."`).
    pub comment: String,
    /// Every node, message and signal.
    pub arena: Arena,
    pub nodes_order: Vec<NodeKey>,
    pub messages_order: Vec<MessageKey>,
    pub signals_order: Vec<SignalKey>,
    /// Lower-case node name to key.
    pub node_key_by_name: NameIndex<NodeKey>,
    /// Identifier to message key.
    pub msg_key_by_id: IdIndex,
    /// `0x...` identifier text to message key.
    pub msg_key_by_hex: NameIndex<MessageKey>,
    /// Lower-case message name to key.
    pub msg_key_by_name: NameIndex<MessageKey>,
    /// Lower-case signal name to key (a later signal of the same name wins).
    pub sig_key_by_name: NameIndex<SignalKey>,
    /// The message the next `SG_` lines belong to.
    pub current_msg: Option<MessageKey>,
    /// Database attribute values (`BA_`), ordered by name.
    pub attributes: Vec<(String, AttributeValue)>,
    /// Database attribute specifications (`BA_DEF_`, `BA_DEF_DEF_`), ordered
    /// by name.
    pub db_attr_spec: Vec<(String, AttributeSpec)>,
    /// Node attribute specifications (`BA_DEF_ BU_`), ordered by name.
    pub node_attr_spec: Vec<(String, AttributeSpec)>,
    /// Message attribute specifications (`BA_DEF_ BO_`), ordered by name.
    pub msg_attr_spec: Vec<(String, AttributeSpec)>,
    /// Signal attribute specifications (`BA_DEF_ SG_`), ordered by name.
    pub sig_attr_spec: Vec<(String, AttributeSpec)>,
    /// Node–signal relation attribute specifications (`BA_DEF_REL_
    /// BU_SG_REL_`, `BA_DEF_DEF_REL_`), ordered by name.
    pub rel_attr_spec_bu_sg: Vec<(String, AttributeSpec)>,
    /// Node–message relation attribute specifications (`BA_DEF_REL_
    /// BU_BO_REL_`, `BA_DEF_DEF_REL_`), ordered by name.
    pub rel_attr_spec_bu_bo: Vec<(String, AttributeSpec)>,
    /// Attribute values on node–signal relations (`BA_REL_ ... BU_SG_REL_`).
    pub bu_sg_rel_attributes: RelTable<SignalKey>,
    /// Attribute values on node–message relations (`BA_REL_ ... BU_BO_REL_`).
    pub bu_bo_rel_attributes: RelTable<MessageKey>,
}

/// The nodes an arena holds, by key.
pub open spec fn node_map(s: Map<u64, Entity>) -> Map<NodeKey, NodeView> {
    Map::new(
        |k: NodeKey| k.ok() && s.contains_key(k.h()) && s[k.h()] is Node,
        |k: NodeKey| s[k.h()]->Node_0@,
    )
}

/// The messages an arena holds, by key.
pub open spec fn message_map(s: Map<u64, Entity>) -> Map<MessageKey, MessageView> {
    Map::new(
        |k: MessageKey| k.ok() && s.contains_key(k.h()) && s[k.h()] is Message,
        |k: MessageKey| s[k.h()]->Message_0@,
    )
}

/// The signals an arena holds, by key.
pub open spec fn signal_map(s: Map<u64, Entity>) -> Map<SignalKey, SignalView> {
    Map::new(
        |k: SignalKey| k.ok() && s.contains_key(k.h()) && s[k.h()] is Signal,
        |k: SignalKey| s[k.h()]->Signal_0@,
    )
}

/// Storing a node under key `k` (free, or holding a node) updates the node
/// map only.
pub proof fn lemma_put_node(s: Map<u64, Entity>, k: NodeKey, e: Entity)
    requires
        k.ok(),
        e is Node,
        s.contains_key(k.h()) ==> s[k.h()] is Node,
    ensures
        node_map(s.insert(k.h(), e)) == node_map(s).insert(k, e->Node_0@),
        message_map(s.insert(k.h(), e)) == message_map(s),
        signal_map(s.insert(k.h(), e)) == signal_map(s),
{
    broadcast use NodeKey::lemma_h_injective;

    assert(node_map(s.insert(k.h(), e)) =~= node_map(s).insert(k, e->Node_0@));
    assert(message_map(s.insert(k.h(), e)) =~= message_map(s));
    assert(signal_map(s.insert(k.h(), e)) =~= signal_map(s));
}

/// Storing a message under key `k` (free, or holding a message) updates the
/// message map only.
pub proof fn lemma_put_message(s: Map<u64, Entity>, k: MessageKey, e: Entity)
    requires
        k.ok(),
        e is Message,
        s.contains_key(k.h()) ==> s[k.h()] is Message,
    ensures
        node_map(s.insert(k.h(), e)) == node_map(s),
        message_map(s.insert(k.h(), e)) == message_map(s).insert(k, e->Message_0@),
        signal_map(s.insert(k.h(), e)) == signal_map(s),
{
    broadcast use MessageKey::lemma_h_injective;

    assert(node_map(s.insert(k.h(), e)) =~= node_map(s));
    assert(message_map(s.insert(k.h(), e)) =~= message_map(s).insert(k, e->Message_0@));
    assert(signal_map(s.insert(k.h(), e)) =~= signal_map(s));
}

/// Storing a signal under key `k` (free, or holding a signal) updates the
/// signal map only.
pub proof fn lemma_put_signal(s: Map<u64, Entity>, k: SignalKey, e: Entity)
    requires
        k.ok(),
        e is Signal,
        s.contains_key(k.h()) ==> s[k.h()] is Signal,
    ensures
        node_map(s.insert(k.h(), e)) == node_map(s),
        message_map(s.insert(k.h(), e)) == message_map(s),
        signal_map(s.insert(k.h(), e)) == signal_map(s).insert(k, e->Signal_0@),
{
    broadcast use SignalKey::lemma_h_injective;

    assert(node_map(s.insert(k.h(), e)) =~= node_map(s));
    assert(message_map(s.insert(k.h(), e)) =~= message_map(s));
    assert(signal_map(s.insert(k.h(), e)) =~= signal_map(s).insert(k, e->Signal_0@));
}

/// Removing the node under key `k` updates the node map only.
pub proof fn lemma_drop_node(s: Map<u64, Entity>, k: NodeKey)
    requires
        k.ok(),
        s.contains_key(k.h()) && s[k.h()] is Node,
    ensures
        node_map(s.remove(k.h())) == node_map(s).remove(k),
        message_map(s.remove(k.h())) == message_map(s),
        signal_map(s.remove(k.h())) == signal_map(s),
{
    broadcast use NodeKey::lemma_h_injective;

    assert(node_map(s.remove(k.h())) =~= node_map(s).remove(k));
    assert(message_map(s.remove(k.h())) =~= message_map(s));
    assert(signal_map(s.remove(k.h())) =~= signal_map(s));
}

/// Removing the message under key `k` updates the message map only.
pub proof fn lemma_drop_message(s: Map<u64, Entity>, k: MessageKey)
    requires
        k.ok(),
        s.contains_key(k.h()) && s[k.h()] is Message,
    ensures
        node_map(s.remove(k.h())) == node_map(s),
        message_map(s.remove(k.h())) == message_map(s).remove(k),
        signal_map(s.remove(k.h())) == signal_map(s),
{
    broadcast use MessageKey::lemma_h_injective;

    assert(node_map(s.remove(k.h())) =~= node_map(s));
    assert(message_map(s.remove(k.h())) =~= message_map(s).remove(k));
    assert(signal_map(s.remove(k.h())) =~= signal_map(s));
}

/// Removing the signal under key `k` updates the signal map only.
pub proof fn lemma_drop_signal(s: Map<u64, Entity>, k: SignalKey)
    requires
        k.ok(),
        s.contains_key(k.h()) && s[k.h()] is Signal,
    ensures
        node_map(s.remove(k.h())) == node_map(s),
        message_map(s.remove(k.h())) == message_map(s),
        signal_map(s.remove(k.h())) == signal_map(s).remove(k),
{
    broadcast use SignalKey::lemma_h_injective;

    assert(node_map(s.remove(k.h())) =~= node_map(s));
    assert(message_map(s.remove(k.h())) =~= message_map(s));
    assert(signal_map(s.remove(k.h())) =~= signal_map(s).remove(k));
}

/// Abstract database.
pub struct DatabaseView {
    pub name: Seq<char>,
    pub bustype: BusType,
    pub version: Seq<char>,
    pub comment: Seq<char>,
    pub nodes: Map<NodeKey, NodeView>,
    pub messages: Map<MessageKey, MessageView>,
    pub signals: Map<SignalKey, SignalView>,
    pub nodes_order: Seq<NodeKey>,
    pub messages_order: Seq<MessageKey>,
    pub signals_order: Seq<SignalKey>,
    pub node_by_name: Map<Seq<char>, NodeKey>,
    pub msg_by_id: Map<u32, MessageKey>,
    pub msg_by_hex: Map<Seq<char>, MessageKey>,
    pub msg_by_name: Map<Seq<char>, MessageKey>,
    pub sig_by_name: Map<Seq<char>, SignalKey>,
    pub current_msg: Option<MessageKey>,
    pub attributes: Seq<(Seq<char>, AttrValueView)>,
    pub db_attr_spec: Seq<(Seq<char>, AttrSpecView)>,
    pub node_attr_spec: Seq<(Seq<char>, AttrSpecView)>,
    pub msg_attr_spec: Seq<(Seq<char>, AttrSpecView)>,
    pub sig_attr_spec: Seq<(Seq<char>, AttrSpecView)>,
    pub rel_attr_spec_bu_sg: Seq<(Seq<char>, AttrSpecView)>,
    pub rel_attr_spec_bu_bo: Seq<(Seq<char>, AttrSpecView)>,
    pub bu_sg_rel_attributes: Map<(NodeKey, SignalKey), RelValues>,
    pub bu_bo_rel_attributes: Map<(NodeKey, MessageKey), RelValues>,
}

impl View for DatabaseDBC {
    type V = DatabaseView;

    open spec fn view(&self) -> DatabaseView {
        DatabaseView {
            name: self.name@,
            bustype: self.bustype,
            version: self.version@,
            comment: self.comment@,
            nodes: node_map(arena_slots(self.arena)),
            messages: message_map(arena_slots(self.arena)),
            signals: signal_map(arena_slots(self.arena)),
            nodes_order: self.nodes_order@,
            messages_order: self.messages_order@,
            signals_order: self.signals_order@,
            node_by_name: self.node_key_by_name@,
            msg_by_id: self.msg_key_by_id@,
            msg_by_hex: self.msg_key_by_hex@,
            msg_by_name: self.msg_key_by_name@,
            sig_by_name: self.sig_key_by_name@,
            current_msg: self.current_msg,
            attributes: table_of(self.attributes@),
            db_attr_spec: table_of(self.db_attr_spec@),
            node_attr_spec: table_of(self.node_attr_spec@),
            msg_attr_spec: table_of(self.msg_attr_spec@),
            sig_attr_spec: table_of(self.sig_attr_spec@),
            rel_attr_spec_bu_sg: table_of(self.rel_attr_spec_bu_sg@),
            rel_attr_spec_bu_bo: table_of(self.rel_attr_spec_bu_bo@),
            bu_sg_rel_attributes: self.bu_sg_rel_attributes@,
            bu_bo_rel_attributes: self.bu_bo_rel_attributes@,
        }
    }
}

/// An empty database view with the given general information.
pub open spec fn empty_view(name: Seq<char>, bustype: BusType, version: Seq<char>) -> DatabaseView {
    DatabaseView {
        name: name,
        bustype: bustype,
        version: version,
        comment: Seq::empty(),
        nodes: Map::empty(),
        messages: Map::empty(),
        signals: Map::empty(),
        nodes_order: Seq::empty(),
        messages_order: Seq::empty(),
        signals_order: Seq::empty(),
        node_by_name: Map::empty(),
        msg_by_id: Map::empty(),
        msg_by_hex: Map::empty(),
        msg_by_name: Map::empty(),
        sig_by_name: Map::empty(),
        current_msg: None,
        attributes: Seq::empty(),
        db_attr_spec: Seq::empty(),
        node_attr_spec: Seq::empty(),
        msg_attr_spec: Seq::empty(),
        sig_attr_spec: Seq::empty(),
        rel_attr_spec_bu_sg: Seq::empty(),
        rel_attr_spec_bu_bo: Seq::empty(),
        bu_sg_rel_attributes: Map::empty(),
        bu_bo_rel_attributes: Map::empty(),
    }
}

/// The two databases hold entities under the same keys.
pub open spec fn same_keys(a: DatabaseView, b: DatabaseView) -> bool {
    &&& a.nodes.dom() == b.nodes.dom()
    &&& a.messages.dom() == b.messages.dom()
    &&& a.signals.dom() == b.signals.dom()
}

/// Which kind of entity a copy name is chosen for.
#[derive(Clone, Copy, Debug, PartialEq, Eq, Structural)]
pub enum NameKind {
    Node,
    Message,
    Signal,
}

/// Is name `n` taken by an existing entity of kind `kind` (looked up by its
/// lower-case form)?
pub open spec fn name_taken(db: DatabaseView, kind: NameKind, n: Seq<char>) -> bool {
    let l = unicode_lowercase(n);
    match kind {
        NameKind::Node => db.node_by_name.contains_key(l) && db.nodes.contains_key(db.node_by_name[l]),
        NameKind::Message => db.msg_by_name.contains_key(l) && db.messages.contains_key(db.msg_by_name[l]),
        NameKind::Signal => db.sig_by_name.contains_key(l) && db.signals.contains_key(db.sig_by_name[l]),
    }
}

/// `<base>_copy<c>`.
pub open spec fn copy_candidate(base: Seq<char>, c: nat) -> Seq<char> {
    base + "_copy"@ + dec_string(c)
}

/// The name search of a copy: while `name` is taken (and the counter below
/// `u32::MAX`), try `<base>_copy<counter>` and count up.
pub open spec fn name_search(db: DatabaseView, kind: NameKind, base: Seq<char>, name: Seq<char>, counter: nat) -> Seq<char>
    decreases u32::MAX - counter,
{
    if name_taken(db, kind, name) && counter < u32::MAX {
        name_search(db, kind, base, copy_candidate(base, counter), counter + 1)
    } else {
        name
    }
}

/// The name of a copy of an entity named `base`: `<base>_copy` when free,
/// else the first free `<base>_copy<n>` for n = 0, 1, ...
pub open spec fn copy_name(db: DatabaseView, kind: NameKind, base: Seq<char>) -> Seq<char> {
    name_search(db, kind, base, base + "_copy"@, 0)
}

impl DatabaseDBC {
    /// Well-formedness: the arena is finite, every slot handle in it is well
    /// formed and not the null key's, and each order list holds every entity of its kind exactly once.
    pub open spec fn wf(&self) -> bool {
        &&& arena_slots(self.arena).dom().finite()
        &&& forall|h: u64| #[trigger] arena_slots(self.arena).contains_key(h) ==> handle_ok(h) && !handle_is_null(h)
        &&& self.nodes_order@.no_duplicates()
        &&& self.messages_order@.no_duplicates()
        &&& self.signals_order@.no_duplicates()
        &&& forall|k: NodeKey|
            #![trigger self@.nodes.contains_key(k)]
            #![trigger self.nodes_order@.contains(k)]
            self@.nodes.contains_key(k) <==> self.nodes_order@.contains(k)
        &&& forall|k: MessageKey|
            #![trigger self@.messages.contains_key(k)]
            #![trigger self.messages_order@.contains(k)]
            self@.messages.contains_key(k) <==> self.messages_order@.contains(k)
        &&& forall|k: SignalKey|
            #![trigger self@.signals.contains_key(k)]
            #![trigger self.signals_order@.contains(k)]
            self@.signals.contains_key(k) <==> self.signals_order@.contains(k)
    }

    /// The number of nodes, messages and signals held.
    pub open spec fn entity_count(&self) -> nat {
        arena_slots(self.arena).len()
    }

    /// Room for one more entity.
    pub open spec fn has_room(&self) -> bool {
        self.entity_count() < ARENA_CAPACITY
    }

    /// An empty database with the given general information.
    pub fn with_info(name: String, bustype: BusType, version: String) -> (r: DatabaseDBC)
        ensures
            r.wf(),
            r.entity_count() == 0,
            r@ == empty_view(name@, bustype, version@),
    {
        let r: DatabaseDBC = DatabaseDBC {
            name: name,
            bustype: bustype,
            version: version,
            comment: String::new(),
            arena: arena_new(),
            nodes_order: Vec::new(),
            messages_order: Vec::new(),
            signals_order: Vec::new(),
            node_key_by_name: NameIndex::new(),
            msg_key_by_id: IdIndex::new(),
            msg_key_by_hex: NameIndex::new(),
            msg_key_by_name: NameIndex::new(),
            sig_key_by_name: NameIndex::new(),
            current_msg: None,
            attributes: Vec::new(),
            db_attr_spec: Vec::new(),
            node_attr_spec: Vec::new(),
            msg_attr_spec: Vec::new(),
            sig_attr_spec: Vec::new(),
            rel_attr_spec_bu_sg: Vec::new(),
            rel_attr_spec_bu_bo: Vec::new(),
            bu_sg_rel_attributes: RelTable::new(),
            bu_bo_rel_attributes: RelTable::new(),
        };
        assert(arena_slots(r.arena) =~= Map::empty());
        assert(node_map(arena_slots(r.arena)) =~= Map::empty());
        assert(message_map(arena_slots(r.arena)) =~= Map::empty());
        assert(signal_map(arena_slots(r.arena)) =~= Map::empty());
        assert(table_of(r.attributes@) =~= Seq::<(Seq<char>, AttrValueView)>::empty());
        assert(table_of(r.node_attr_spec@) =~= Seq::<(Seq<char>, AttrSpecView)>::empty());
        assert(table_of(r.msg_attr_spec@) =~= Seq::<(Seq<char>, AttrSpecView)>::empty());
        assert(table_of(r.sig_attr_spec@) =~= Seq::<(Seq<char>, AttrSpecView)>::empty());
        assert(table_of(r.rel_attr_spec_bu_sg@) =~= Seq::<(Seq<char>, AttrSpecView)>::empty());
        assert(table_of(r.rel_attr_spec_bu_bo@) =~= Seq::<(Seq<char>, AttrSpecView)>::empty());
        assert(table_of(r.db_attr_spec@) =~= Seq::<(Seq<char>, AttrSpecView)>::empty());
        r
    }

    /// An empty database.
    pub fn new() -> (r: DatabaseDBC)
        ensures
            r.wf(),
            r.entity_count() == 0,
            r@ == empty_view(Seq::empty(), BusType::Can, Seq::empty()),
    {
        DatabaseDBC::with_info(String::new(), BusType::Can, String::new())
    }

    /// Resets the entire database to an empty state.
    pub fn clear(&mut self)
        ensures
            final(self).wf(),
            final(self).entity_count() == 0,
            final(self)@ == empty_view(Seq::empty(), BusType::Can, Seq::empty()),
    {
        *self = DatabaseDBC::new();
    }

    /// The number of nodes, messages and signals held.
    pub fn count(&self) -> (r: usize)
        ensures
            r == self.entity_count(),
    {
        arena_len(&self.arena)
    }

    /// Is name `n` taken by an existing entity of kind `kind`?
    pub fn name_taken_exec(&self, kind: NameKind, n: &str) -> (r: bool)
        ensures
            r == name_taken(self@, kind, n@),
    {
        match kind {
            NameKind::Node => self.get_node_by_name(n).is_some(),
            NameKind::Message => self.get_message_by_name(n).is_some(),
            NameKind::Signal => self.get_signal_by_name(n).is_some(),
        }
    }

    /// The name of a copy of an entity of kind `kind` named `base` (see
    /// [`copy_name`]).
    pub fn copy_name_exec(&self, kind: NameKind, base: &String) -> (r: String)
        ensures
            r@ == copy_name(self@, kind, base@),
    {
        let b: Vec<char> = chars_of_string(base);
        let mut name_v: Vec<char> = chars_of_string(base);
        extend_chars(&mut name_v, &chars_of("_copy"));
        let mut name: String = string_of(&name_v);
        let mut counter: u32 = 0;
        while self.name_taken_exec(kind, name.as_str()) && counter < u32::MAX
            invariant
                b@ == base@,
                name_search(self@, kind, base@, name@, counter as nat) == copy_name(self@, kind, base@),
            decreases u32::MAX - counter,
        {
            let mut v: Vec<char> = chars_of_string(base);
            extend_chars(&mut v, &chars_of("_copy"));
            extend_chars(&mut v, &fmt_dec(counter as u64));
            name = string_of(&v);
            counter = counter + 1;
        }
        name
    }
}

} // verus!
