//! Messages of the keyed database.
use vstd::prelude::*;
use crate::dbc::types::relations::rel_without;
use crate::dbc::types::attributes::{table_of, AttrValueView};
use crate::dbc::types::arena::{arena_at_mut, arena_get, arena_insert, arena_remove, arena_slots, ARENA_CAPACITY};
use crate::dbc::types::database::nodes::{lower_chars, owned};
use crate::dbc::types::database::{
    id_hex_text, id_to_hex, lemma_drop_message, lemma_put_message, lemma_put_node, lemma_put_signal,
    message_map, node_map, signal_map, DatabaseDBC, DatabaseView,
};
use crate::dbc::message_layout::fit_error;
use crate::dbc::types::database::nodes::sender_linked;
use crate::dbc::types::database::signals::{signal_bound, signal_copied};
use crate::dbc::types::database::{copy_name, NameKind};
use crate::dbc::types::entities::{
    Entity, IdFormat, MessageDBC, MessageView, MuxRole, MuxSelector, NodeView, SignalView,
};
use crate::dbc::types::errors::DatabaseError;
use crate::dbc::types::keys::{
    copy_keys, handle_ok_exec, lemma_push_contains, push_new, push_new_exec, lemma_without, lemma_without_no_dups,
    remove_key, without, without_all, without_all_exec, KeyLike, MessageKey, NodeKey, SignalKey,
};
use crate::text::{
    ascii_upper_exec, ascii_upper_seq, chars_of, chars_of_string, slice_of, starts_with, starts_with_exec, string_of, trim,
    trim_exec, unicode_lowercase, CharClass,
};

verus! {

/// `Extended` above 2048, `Standard` otherwise.
pub open spec fn id_format_of(id: u32) -> IdFormat {
    if id > 2048 {
        IdFormat::Extended
    } else {
        IdFormat::Standard
    }
}

/// `CAN` up to 8 payload bytes, `CAN FD` above.
pub open spec fn msgtype_of(byte_length: u16) -> Seq<char> {
    if byte_length <= 8 {
        "CAN"@
    } else {
        "CAN FD"@
    }
}

/// A new message with no relations.
pub open spec fn blank_message(name: Seq<char>, id: u32, byte_length: u16) -> MessageView {
    MessageView {
        id_format: id_format_of(id),
        id: id,
        id_hex: id_hex_text(id),
        name: name,
        byte_length: byte_length,
        msgtype: msgtype_of(byte_length),
        sender_nodes: Seq::empty(),
        receiver_nodes: Seq::empty(),
        signals: Seq::empty(),
        comment: Seq::empty(),
        mux_multiplexors: Seq::empty(),
        mux_cases: Seq::empty(),
        mux_switches: Seq::empty(),
        attributes: Seq::empty(),
    }
}

/// The database after adding message `m` under the fresh key `k`: indexed by
/// identifier, hexadecimal identifier and lower-case name, and made the
/// current message.
pub open spec fn message_added(db: DatabaseView, k: MessageKey, m: MessageView) -> DatabaseView {
    DatabaseView {
        messages: db.messages.insert(k, m),
        messages_order: db.messages_order.push(k),
        msg_by_id: db.msg_by_id.insert(m.id, k),
        msg_by_hex: db.msg_by_hex.insert(m.id_hex, k),
        msg_by_name: db.msg_by_name.insert(unicode_lowercase(m.name), k),
        current_msg: Some(k),
        ..db
    }
}

/// A node that no longer sends message `mk` nor transmits any of `sigs`.
pub open spec fn node_without_message(n: NodeView, mk: MessageKey, sigs: Seq<SignalKey>) -> NodeView {
    NodeView { messages_sent: without(n.messages_sent, mk), tx_signals: without_all(n.tx_signals, sigs), ..n }
}

/// Every node with message `mk` and its signals `sigs` removed.
pub open spec fn nodes_without_message(ns: Map<NodeKey, NodeView>, mk: MessageKey, sigs: Seq<SignalKey>) -> Map<NodeKey, NodeView> {
    ns.map_values(|n: NodeView| node_without_message(n, mk, sigs))
}

/// A signal unbound from message `mk` when it belonged to it.
pub open spec fn signal_unbound_from(s: SignalView, mk: MessageKey) -> SignalView {
    if s.message == mk {
        SignalView { message: MessageKey::nil(), ..s }
    } else {
        s
    }
}

/// Every signal unbound from message `mk`.
pub open spec fn signals_unbound_from(ss: Map<SignalKey, SignalView>, mk: MessageKey) -> Map<SignalKey, SignalView> {
    ss.map_values(|s: SignalView| signal_unbound_from(s, mk))
}

/// The database after deleting message `mk` (present): the message, its
/// place in the order list and its name, identifier and hexadecimal
/// identifier entries are gone, no node sends it or transmits its signals,
/// its signals are unbound, and the attribute values of its relations with
/// nodes are gone.
pub open spec fn message_deleted(db: DatabaseView, mk: MessageKey) -> DatabaseView {
    DatabaseView {
        messages: db.messages.remove(mk),
        messages_order: without(db.messages_order, mk),
        msg_by_name: db.msg_by_name.remove(unicode_lowercase(db.messages[mk].name)),
        msg_by_id: db.msg_by_id.remove(db.messages[mk].id),
        msg_by_hex: db.msg_by_hex.remove(db.messages[mk].id_hex),
        nodes: nodes_without_message(db.nodes, mk, db.messages[mk].signals),
        signals: signals_unbound_from(db.signals, mk),
        bu_bo_rel_attributes: rel_without(db.bu_bo_rel_attributes, None, Some(mk)),
        ..db
    }
}

/// A hexadecimal identifier as the tables hold it: surrounding whitespace
/// trimmed, a leading `0x` or `0X` and a trailing `x` or `X` dropped, the
/// digits in ASCII upper case, behind `0x`. So `12dd54e3`, `0x12dd54e3` and
/// `12DD54E3x` all give `0x12DD54E3`.
pub open spec fn normalized_id_hex(s: Seq<char>) -> Seq<char> {
    let t = trim(s);
    let a = if starts_with(t, "0x"@) || starts_with(t, "0X"@) {
        t.skip(2)
    } else {
        t
    };
    let b = if a.len() > 0 && (a.last() == 'x' || a.last() == 'X') {
        a.drop_last()
    } else {
        a
    };
    "0x"@ + ascii_upper_seq(b)
}

/// Run-time [`normalized_id_hex`].
fn normalize_id_hex(s: &str) -> (r: Vec<char>)
    ensures
        r@ == normalized_id_hex(s@),
{
    proof {
        reveal_strlit("0x");
        reveal_strlit("0X");
    }
    let t: Vec<char> = trim_exec(&chars_of(s), CharClass::Ws(true));
    let a: Vec<char> = if starts_with_exec(&t, &chars_of("0x")) || starts_with_exec(&t, &chars_of("0X")) {
        slice_of(&t, 2, t.len())
    } else {
        t
    };
    let b: Vec<char> = if a.len() > 0 && (a[a.len() - 1] == 'x' || a[a.len() - 1] == 'X') {
        slice_of(&a, 0, a.len() - 1)
    } else {
        a
    };
    let u: Vec<char> = ascii_upper_exec(&b);
    let mut r: Vec<char> = chars_of("0x");
    let ghost r0 = r@;
    let mut i: usize = 0;
    while i < u.len()
        invariant
            i <= u.len(),
            r0 == "0x"@,
            r@ == r0 + u@.take(i as int),
        decreases u.len() - i,
    {
        r.push(u[i]);
        assert(u@.take(i + 1) =~= u@.take(i as int).push(u@[i as int]));
        i = i + 1;
    }
    assert(u@.take(u.len() as int) =~= u@);
    proof {
        assert(b@ == (if a@.len() > 0 && (a@.last() == 'x' || a@.last() == 'X') { a@.drop_last() } else { a@ }));
    }
    r
}

/// The message a table entry designates, if it still exists.
pub open spec fn message_at(db: DatabaseView, k: Option<MessageKey>) -> Option<MessageKey> {
    match k {
        Some(mk) => if db.messages.contains_key(mk) {
            Some(mk)
        } else {
            None
        },
        None => None,
    }
}

/// The entry of a map, if any.
pub open spec fn entry<A, B>(m: Map<A, B>, a: A) -> Option<B> {
    if m.contains_key(a) {
        Some(m[a])
    } else {
        None
    }
}

/// The identifier of a copy: from `id` on, the first identifier no existing
/// message has (stopping at `u32::MAX`).
pub open spec fn id_search(db: DatabaseView, id: u32) -> u32
    decreases u32::MAX - id,
{
    if message_at(db, entry(db.msg_by_id, id)) is Some && id < u32::MAX {
        id_search(db, (id + 1) as u32)
    } else {
        id
    }
}

/// The multiplexing role a signal is copied with.
pub open spec fn role_of(s: SignalView) -> MuxRole {
    match s.mux {
        Some(mi) => mi.role,
        None => MuxRole::NotMultiplexed,
    }
}

/// The selector a signal is copied with.
pub open spec fn selector_of(s: SignalView) -> Option<MuxSelector> {
    match s.mux {
        Some(mi) => Some(mi.selector),
        None => None,
    }
}

/// The signals of `list` that exist, in order.
pub open spec fn existing_signals(db: DatabaseView, list: Seq<SignalKey>) -> Seq<SignalKey>
    decreases list.len(),
{
    if list.len() == 0 {
        Seq::empty()
    } else if db.signals.contains_key(list.last()) {
        existing_signals(db, list.drop_last()).push(list.last())
    } else {
        existing_signals(db, list.drop_last())
    }
}

/// What binding a fresh, unbound signal `sk` to message `mk` (both present)
/// does: nothing when the layout is refused.
pub open spec fn bind_attempt(db: DatabaseView, sk: SignalKey, mk: MessageKey, role: MuxRole, sel: Option<MuxSelector>) -> DatabaseView {
    if fit_error(db.messages[mk].byte_length, db.signals[sk].bit_start, db.signals[sk].bit_length, db.signals[sk].endian) is Some {
        db
    } else {
        signal_bound(db, sk, mk, role, sel)
    }
}

/// The signals of `olds` copied to the keys `news` and bound to message `mk`
/// with the multiplexing `orig` records for them, in order.
pub open spec fn signals_copied_into(db: DatabaseView, olds: Seq<SignalKey>, news: Seq<SignalKey>, mk: MessageKey, orig: DatabaseView) -> DatabaseView
    decreases olds.len(),
{
    if olds.len() == 0 || news.len() != olds.len() {
        db
    } else {
        let acc = signals_copied_into(db, olds.drop_last(), news.drop_last(), mk, orig);
        let o = olds.last();
        let n = news.last();
        bind_attempt(
            signal_copied(acc, o, n, copy_name(acc, NameKind::Signal, acc.signals[o].name)),
            n,
            mk,
            role_of(orig.signals[o]),
            selector_of(orig.signals[o]),
        )
    }
}

/// What linking sender `nk` to message `mk` (present) does: nothing when the
/// node is missing.
pub open spec fn sender_attempt(db: DatabaseView, mk: MessageKey, nk: NodeKey) -> DatabaseView {
    if db.nodes.contains_key(nk) {
        sender_linked(db, mk, nk)
    } else {
        db
    }
}

/// Each node of `ns` linked as sender of message `mk`, in order.
pub open spec fn senders_attempted(db: DatabaseView, mk: MessageKey, ns: Seq<NodeKey>) -> DatabaseView
    decreases ns.len(),
{
    if ns.len() == 0 {
        db
    } else {
        sender_attempt(senders_attempted(db, mk, ns.drop_last()), mk, ns.last())
    }
}

/// The database after copying message `src` to the fresh key `k` named
/// `name` with identifier `id`, its existing signals copied to the keys
/// `news`: the copy has the source's length and comment, holds copies of
/// the source's signals (each bound unless its layout is refused) and the
/// source's senders.
pub open spec fn message_copied(db: DatabaseView, src: MessageKey, k: MessageKey, name: Seq<char>, id: u32, news: Seq<SignalKey>) -> DatabaseView {
    let m = db.messages[src];
    let d1 = message_added(db, k, blank_message(name, id, m.byte_length));
    let d2 = DatabaseView { messages: d1.messages.insert(k, MessageView { comment: m.comment, ..d1.messages[k] }), ..d1 };
    let d3 = signals_copied_into(d2, existing_signals(db, m.signals), news, k, db);
    senders_attempted(d3, k, m.sender_nodes)
}

proof fn lemma_existing_signals(db: DatabaseView, list: Seq<SignalKey>)
    ensures
        existing_signals(db, list).len() <= list.len(),
        forall|t: int| 0 <= t < existing_signals(db, list).len() ==> db.signals.contains_key(#[trigger] existing_signals(db, list)[t]),
    decreases list.len(),
{
    if list.len() > 0 {
        lemma_existing_signals(db, list.drop_last());
    }
}

proof fn lemma_node_without_message_twice(n: NodeView, mk: MessageKey, sigs: Seq<SignalKey>)
    ensures
        node_without_message(node_without_message(n, mk, sigs), mk, sigs) == node_without_message(n, mk, sigs),
{
    lemma_without(n.messages_sent, mk);
    lemma_without(without(n.messages_sent, mk), mk);
    lemma_without_all_twice(n.tx_signals, sigs);
}

proof fn lemma_without_all_twice(s: Seq<SignalKey>, xs: Seq<SignalKey>)
    ensures
        without_all(without_all(s, xs), xs) == without_all(s, xs),
    decreases s.len(),
{
    if s.len() > 0 {
        lemma_without_all_twice(s.drop_last(), xs);
        let w = without_all(s.drop_last(), xs);
        if !xs.contains(s.last()) {
            assert(w.push(s.last()).drop_last() =~= w);
        }
    }
}

impl DatabaseDBC {
    /// The message addressed by `key`.
    pub fn get_message_by_key(&self, key: MessageKey) -> (r: Option<&MessageDBC>)
        ensures
            self@.messages.contains_key(key) ==> (r matches Some(m) && m@ == self@.messages[key]),
            !self@.messages.contains_key(key) ==> r is None,
    {
        if !handle_ok_exec(key.handle()) {
            return None;
        }
        match arena_get(&self.arena, key.handle()) {
            Some(Entity::Message(m)) => Some(m),
            _ => None,
        }
    }

    /// The key the name table holds for `name` (ignoring case).
    pub fn get_msg_key_by_name(&self, name: &str) -> (r: Option<MessageKey>)
        ensures
            r == entry(self@.msg_by_name, unicode_lowercase(name@)),
    {
        let lname: Vec<char> = lower_chars(name);
        self.msg_key_by_name.get(&lname)
    }

    /// The key the identifier table holds for `id`.
    pub fn get_msg_key_by_id(&self, id: &u32) -> (r: Option<MessageKey>)
        ensures
            r == entry(self@.msg_by_id, *id),
    {
        self.msg_key_by_id.get(*id)
    }

    /// The key the hexadecimal table holds for `id_hex`, normalised first
    /// (see [`normalized_id_hex`]).
    pub fn get_msg_key_by_id_hex(&self, id_hex: &str) -> (r: Option<MessageKey>)
        ensures
            r == entry(self@.msg_by_hex, normalized_id_hex(id_hex@)),
    {
        self.msg_key_by_hex.get(&normalize_id_hex(id_hex))
    }

    /// The message with identifier `id`.
    pub fn get_message_by_id(&self, id: u32) -> (r: Option<&MessageDBC>)
        ensures
            message_at(self@, entry(self@.msg_by_id, id)) matches Some(k) ==> (r matches Some(m) && m@ == self@.messages[k]),
            message_at(self@, entry(self@.msg_by_id, id)) is None ==> r is None,
    {
        match self.get_msg_key_by_id(&id) {
            None => None,
            Some(k) => self.get_message_by_key(k),
        }
    }

    /// The message with hexadecimal identifier `id_hex`, in any of the forms
    /// `12dd54e3`, `0x12dd54e3`, `12DD54E3x` (see [`normalized_id_hex`]).
    pub fn get_message_by_id_hex(&self, id_hex: &str) -> (r: Option<&MessageDBC>)
        ensures
            message_at(self@, entry(self@.msg_by_hex, normalized_id_hex(id_hex@))) matches Some(k) ==> (r matches Some(m) && m@ == self@.messages[k]),
            message_at(self@, entry(self@.msg_by_hex, normalized_id_hex(id_hex@))) is None ==> r is None,
    {
        match self.get_msg_key_by_id_hex(id_hex) {
            None => None,
            Some(k) => self.get_message_by_key(k),
        }
    }

    /// The message named `name` (ignoring case).
    pub fn get_message_by_name(&self, name: &str) -> (r: Option<&MessageDBC>)
        ensures
            message_at(self@, entry(self@.msg_by_name, unicode_lowercase(name@))) matches Some(k) ==> (r matches Some(m) && m@ == self@.messages[k]),
            message_at(self@, entry(self@.msg_by_name, unicode_lowercase(name@))) is None ==> r is None,
    {
        match self.get_msg_key_by_name(name) {
            None => None,
            Some(k) => self.get_message_by_key(k),
        }
    }

    /// Adds a message and makes it the current message (the one the next
    /// `SG_` lines belong to). Refused when the name (ignoring case) or the
    /// identifier is taken; the message holding it then becomes current.
    pub fn add_message(&mut self, name: &str, id: u32, byte_length: u16) -> (r: Result<MessageKey, DatabaseError>)
        requires
            old(self).wf(),
            old(self).has_room(),
        ensures
            final(self).wf(),
            old(self)@.msg_by_name.contains_key(unicode_lowercase(name@)) ==> {
                &&& r matches Err(DatabaseError::MessageAlreadyExists { name: n }) && n@ == name@
                &&& final(self)@ == (DatabaseView {
                    current_msg: Some(old(self)@.msg_by_name[unicode_lowercase(name@)]),
                    ..old(self)@
                })
                &&& final(self).entity_count() == old(self).entity_count()
            },
            !old(self)@.msg_by_name.contains_key(unicode_lowercase(name@)) && old(self)@.msg_by_id.contains_key(id) ==> {
                &&& r matches Err(DatabaseError::MessageIdAlreadyAssigned { id_hex: h }) && h@ == id_hex_text(id)
                &&& final(self)@ == (DatabaseView { current_msg: Some(old(self)@.msg_by_id[id]), ..old(self)@ })
                &&& final(self).entity_count() == old(self).entity_count()
            },
            !old(self)@.msg_by_name.contains_key(unicode_lowercase(name@)) && !old(self)@.msg_by_id.contains_key(id) ==> {
                &&& r matches Ok(k)
                &&& !old(self)@.messages.contains_key(k)
                &&& final(self)@ == message_added(old(self)@, k, blank_message(name@, id, byte_length))
                &&& final(self).entity_count() == old(self).entity_count() + 1
            },
    {
        if let Some(k) = self.get_msg_key_by_name(name) {
            self.current_msg = Some(k);
            return Err(DatabaseError::MessageAlreadyExists { name: owned(name) });
        }
        if let Some(k) = self.get_msg_key_by_id(&id) {
            self.current_msg = Some(k);
            return Err(DatabaseError::MessageIdAlreadyAssigned { id_hex: id_to_hex(id) });
        }
        let id_hex: String = id_to_hex(id);
        let msgtype: String = if byte_length <= 8 {
            owned("CAN")
        } else {
            owned("CAN FD")
        };
        let m: MessageDBC = MessageDBC {
            id_format: if id > 2048 {
                IdFormat::Extended
            } else {
                IdFormat::Standard
            },
            id: id,
            id_hex: id_to_hex(id),
            name: owned(name),
            byte_length: byte_length,
            msgtype: msgtype,
            sender_nodes: Vec::new(),
            receiver_nodes: Vec::new(),
            signals: Vec::new(),
            comment: String::new(),
            mux_multiplexors: Vec::new(),
            mux_cases: Vec::new(),
            mux_switches: Vec::new(),
            attributes: Vec::new(),
        };
        assert(table_of(m.attributes@) =~= Seq::<(Seq<char>, AttrValueView)>::empty());
        let ghost before = *self;
        let ghost e = Entity::Message(m);
        let h: u64 = arena_insert(&mut self.arena, Entity::Message(m));
        let k: MessageKey = MessageKey::from_handle(h);
        proof {
            lemma_put_message(arena_slots(before.arena), k, e);
            assert(!before@.messages.contains_key(k));
            assert(!before.messages_order@.contains(k));
        }
        self.messages_order.push(k);
        self.msg_key_by_id.insert(id, k);
        self.msg_key_by_hex.insert(chars_of_string(&id_hex), k);
        self.msg_key_by_name.insert(lower_chars(name), k);
        self.current_msg = Some(k);
        proof {
            assert forall|j: MessageKey| #[trigger] self@.messages.contains_key(j) <==> self.messages_order@.contains(j) by {
                lemma_push_contains(before.messages_order@, k, j);
            }
            assert(self@ =~= message_added(before@, k, blank_message(name@, id, byte_length)));
        }
        Ok(k)
    }

    /// Removes message `mk` and its signals `sigs` from every node.
    fn strip_message_from_nodes(&mut self, mk: MessageKey, sigs: &Vec<SignalKey>)
        requires
            old(self).wf(),
        ensures
            final(self).wf(),
            final(self).entity_count() == old(self).entity_count(),
            final(self)@ == (DatabaseView { nodes: nodes_without_message(old(self)@.nodes, mk, sigs@), ..old(self)@ }),
    {
        let ghost d0 = self@;
        let order: Vec<NodeKey> = copy_keys(&self.nodes_order);
        let mut i: usize = 0;
        while i < order.len()
            invariant
                self.wf(),
                i <= order.len(),
                order@ == self.nodes_order@,
                self.entity_count() == old(self).entity_count(),
                self@ == (DatabaseView { nodes: self@.nodes, ..d0 }),
                self@.nodes.dom() == d0.nodes.dom(),
                forall|nk: NodeKey| #[trigger] self@.nodes.contains_key(nk) ==> self@.nodes[nk] == (
                    if order@.take(i as int).contains(nk) {
                        node_without_message(d0.nodes[nk], mk, sigs@)
                    } else {
                        d0.nodes[nk]
                    }),
            decreases order.len() - i,
        {
            let nk: NodeKey = order[i];
            assert(self.nodes_order@.contains(nk));
            assert(self@.nodes.contains_key(nk));
            let ghost s0 = arena_slots(self.arena);
            let ghost n0 = self@.nodes[nk];
            let e: &mut Entity = arena_at_mut(&mut self.arena, nk.handle());
            match e {
                Entity::Node(n) => {
                    remove_key(&mut n.messages_sent, &mk);
                    let t: Vec<SignalKey> = without_all_exec(&n.tx_signals, sigs);
                    n.tx_signals = t;
                },
                _ => {},
            }
            proof {
                let s1 = arena_slots(self.arena);
                lemma_put_node(s0, nk, s1[nk.h()]);
                assert(self@.nodes[nk] == node_without_message(n0, mk, sigs@));
                assert forall|j: NodeKey| #[trigger] self@.nodes.contains_key(j) implies self@.nodes[j] == (
                    if order@.take(i + 1).contains(j) {
                        node_without_message(d0.nodes[j], mk, sigs@)
                    } else {
                        d0.nodes[j]
                    }) by {
                    assert(order@.take(i + 1) =~= order@.take(i as int).push(nk));
                    lemma_push_contains(order@.take(i as int), nk, j);
                    if j == nk && order@.take(i as int).contains(nk) {
                        lemma_node_without_message_twice(d0.nodes[nk], mk, sigs@);
                    }
                }
            }
            i = i + 1;
        }
        proof {
            assert(order@.take(order.len() as int) =~= order@);
            assert(self@.nodes =~= nodes_without_message(d0.nodes, mk, sigs@));
        }
    }

    /// Unbinds every signal of message `mk`.
    fn unbind_signals_of(&mut self, mk: MessageKey)
        requires
            old(self).wf(),
        ensures
            final(self).wf(),
            final(self).entity_count() == old(self).entity_count(),
            final(self)@ == (DatabaseView { signals: signals_unbound_from(old(self)@.signals, mk), ..old(self)@ }),
    {
        let ghost d0 = self@;
        let order: Vec<SignalKey> = copy_keys(&self.signals_order);
        let mut i: usize = 0;
        while i < order.len()
            invariant
                self.wf(),
                i <= order.len(),
                order@ == self.signals_order@,
                self.entity_count() == old(self).entity_count(),
                self@ == (DatabaseView { signals: self@.signals, ..d0 }),
                self@.signals.dom() == d0.signals.dom(),
                forall|sk: SignalKey| #[trigger] self@.signals.contains_key(sk) ==> self@.signals[sk] == (
                    if order@.take(i as int).contains(sk) {
                        signal_unbound_from(d0.signals[sk], mk)
                    } else {
                        d0.signals[sk]
                    }),
            decreases order.len() - i,
        {
            let sk: SignalKey = order[i];
            assert(self.signals_order@.contains(sk));
            assert(self@.signals.contains_key(sk));
            let ghost s0 = arena_slots(self.arena);
            let ghost g0 = self@.signals[sk];
            let e: &mut Entity = arena_at_mut(&mut self.arena, sk.handle());
            match e {
                Entity::Signal(g) => {
                    if g.message.same(&mk) {
                        g.message = MessageKey::null();
                    }
                },
                _ => {},
            }
            proof {
                let s1 = arena_slots(self.arena);
                lemma_put_signal(s0, sk, s1[sk.h()]);
                assert(self@.signals[sk] == signal_unbound_from(g0, mk));
                MessageKey::lemma_nil();
                assert forall|j: SignalKey| #[trigger] self@.signals.contains_key(j) implies self@.signals[j] == (
                    if order@.take(i + 1).contains(j) {
                        signal_unbound_from(d0.signals[j], mk)
                    } else {
                        d0.signals[j]
                    }) by {
                    assert(order@.take(i + 1) =~= order@.take(i as int).push(sk));
                    lemma_push_contains(order@.take(i as int), sk, j);
                }
            }
            i = i + 1;
        }
        proof {
            assert(order@.take(order.len() as int) =~= order@);
            assert(self@.signals =~= signals_unbound_from(d0.signals, mk));
        }
    }

    /// Deletes message `msg_key`, removing every reference to it across the
    /// database (see [`message_deleted`]).
    pub fn delete_message(&mut self, msg_key: MessageKey) -> (r: Result<(), DatabaseError>)
        requires
            old(self).wf(),
        ensures
            final(self).wf(),
            !old(self)@.messages.contains_key(msg_key) ==> r == Err::<(), DatabaseError>(
                DatabaseError::MessageMissing { message_key: msg_key },
            ) && final(self)@ == old(self)@ && final(self).entity_count() == old(self).entity_count(),
            old(self)@.messages.contains_key(msg_key) ==> r is Ok
                && final(self)@ == message_deleted(old(self)@, msg_key)
                && final(self).entity_count() + 1 == old(self).entity_count(),
    {
        if !handle_ok_exec(msg_key.handle()) {
            return Err(DatabaseError::MessageMissing { message_key: msg_key });
        }
        match arena_get(&self.arena, msg_key.handle()) {
            Some(Entity::Message(_)) => {},
            _ => return Err(DatabaseError::MessageMissing { message_key: msg_key }),
        }
        let ghost d0 = self@;
        let ghost s0 = arena_slots(self.arena);
        let removed: Option<Entity> = arena_remove(&mut self.arena, msg_key.handle());
        let (lname, sigs, mid, hex): (Vec<char>, Vec<SignalKey>, u32, Vec<char>) = match removed {
            Some(Entity::Message(m)) => (lower_chars(m.name.as_str()), m.signals, m.id, chars_of_string(&m.id_hex)),
            _ => (Vec::new(), Vec::new(), 0, Vec::new()),
        };
        proof {
            lemma_drop_message(s0, msg_key);
            lemma_without(self.messages_order@, msg_key);
            lemma_without_no_dups(self.messages_order@, msg_key);
        }
        remove_key(&mut self.messages_order, &msg_key);
        self.msg_key_by_name.remove(&lname);
        self.msg_key_by_id.remove(mid);
        self.msg_key_by_hex.remove(&hex);
        proof {
            assert forall|j: MessageKey| #[trigger] self@.messages.contains_key(j) <==> self.messages_order@.contains(j) by {
                if j != msg_key {
                    assert(d0.messages.contains_key(j) <==> d0.messages_order.contains(j));
                }
            }
        }
        self.strip_message_from_nodes(msg_key, &sigs);
        self.unbind_signals_of(msg_key);
        self.bu_bo_rel_attributes.remove_where(None, Some(msg_key));
        proof {
            assert(self@ =~= message_deleted(d0, msg_key));
        }
        Ok(())
    }

    /// Creates a copy of message `source_msg_key` named after it with a
    /// `_copy` suffix (see [`copy_name`]) and with the next free identifier
    /// after the source's (see [`id_search`]), copies the source's existing
    /// signals into it and links the source's senders (see
    /// [`message_copied`]). Creating the copy is refused as
    /// [`add_message`](DatabaseDBC::add_message) refuses it.
    pub fn copy_message(&mut self, source_msg_key: MessageKey) -> (r: Result<MessageKey, DatabaseError>)
        requires
            old(self).wf(),
            old(self)@.messages.contains_key(source_msg_key) ==> old(self).entity_count() + 1
                + old(self)@.messages[source_msg_key].signals.len() < ARENA_CAPACITY,
            old(self)@.messages.contains_key(source_msg_key) ==> old(self)@.messages[source_msg_key].id < u32::MAX,
        ensures
            final(self).wf(),
            !old(self)@.messages.contains_key(source_msg_key) ==> r == Err::<MessageKey, DatabaseError>(
                DatabaseError::MessageMissing { message_key: source_msg_key },
            ) && final(self)@ == old(self)@,
            old(self)@.messages.contains_key(source_msg_key) ==> {
                let m = old(self)@.messages[source_msg_key];
                let name = copy_name(old(self)@, NameKind::Message, m.name);
                let id = id_search(old(self)@, (m.id + 1) as u32);
                &&& old(self)@.msg_by_name.contains_key(unicode_lowercase(name)) ==> (r matches Err(
                    DatabaseError::MessageAlreadyExists { name: n },
                ) && n@ == name) && final(self)@ == (DatabaseView {
                    current_msg: Some(old(self)@.msg_by_name[unicode_lowercase(name)]),
                    ..old(self)@
                })
                &&& !old(self)@.msg_by_name.contains_key(unicode_lowercase(name)) && old(self)@.msg_by_id.contains_key(id)
                    ==> (r matches Err(DatabaseError::MessageIdAlreadyAssigned { id_hex: h }) && h@ == id_hex_text(id))
                    && final(self)@ == (DatabaseView { current_msg: Some(old(self)@.msg_by_id[id]), ..old(self)@ })
                &&& !old(self)@.msg_by_name.contains_key(unicode_lowercase(name)) && !old(self)@.msg_by_id.contains_key(id)
                    ==> (r matches Ok(k) && !old(self)@.messages.contains_key(k) && exists|news: Seq<SignalKey>|
                    final(self)@ == #[trigger] message_copied(old(self)@, source_msg_key, k, name, id, news))
            },
    {
        let src: MessageDBC = match self.get_message_by_key(source_msg_key) {
            None => return Err(DatabaseError::MessageMissing { message_key: source_msg_key }),
            Some(m) => m.duplicate(),
        };
        let ghost d0 = self@;
        let new_name: String = self.copy_name_exec(NameKind::Message, &src.name);
        let mut new_id: u32 = src.id + 1;
        while self.get_message_by_id(new_id).is_some() && new_id < u32::MAX
            invariant
                self@ == d0,
                src.id < u32::MAX,
                id_search(d0, new_id) == id_search(d0, (src.id + 1) as u32),
            decreases u32::MAX - new_id,
        {
            new_id = new_id + 1;
        }
        let k: MessageKey = match self.add_message(new_name.as_str(), new_id, src.byte_length) {
            Ok(k) => k,
            Err(e) => return Err(e),
        };
        proof {
            assert(self@.messages.contains_key(k));
            assert(k.ok());
        }
        let ghost s1 = arena_slots(self.arena);
        let e: &mut Entity = arena_at_mut(&mut self.arena, k.handle());
        match e {
            Entity::Message(m) => {
                m.comment = src.comment;
            },
            _ => {},
        }
        proof {
            lemma_put_message(s1, k, arena_slots(self.arena)[k.h()]);
        }
        let ghost d2 = self@;
        let mut olds: Vec<SignalKey> = Vec::new();
        let mut roles: Vec<MuxRole> = Vec::new();
        let mut sels: Vec<Option<MuxSelector>> = Vec::new();
        let mut i: usize = 0;
        while i < src.signals.len()
            invariant
                i <= src.signals.len(),
                d0.messages.contains_key(source_msg_key),
                src@ == d0.messages[source_msg_key],
                self@.signals == d0.signals,
                olds@ == existing_signals(d0, src.signals@.take(i as int)),
                roles.len() == olds.len(),
                sels.len() == olds.len(),
                forall|t: int| 0 <= t < olds.len() ==> d0.signals.contains_key(#[trigger] olds@[t])
                    && roles@[t] == role_of(d0.signals[olds@[t]]) && sels@[t] == selector_of(d0.signals[olds@[t]]),
            decreases src.signals.len() - i,
        {
            assert(src.signals@.take(i + 1).drop_last() =~= src.signals@.take(i as int));
            match self.get_sig_by_key(src.signals[i]) {
                Some(g) => {
                    olds.push(src.signals[i]);
                    match g.mux {
                        Some(mi) => {
                            roles.push(mi.role);
                            sels.push(Some(mi.selector));
                        },
                        None => {
                            roles.push(MuxRole::NotMultiplexed);
                            sels.push(None);
                        },
                    }
                },
                None => {},
            }
            i = i + 1;
        }
        assert(src.signals@.take(src.signals.len() as int) =~= src.signals@);
        proof {
            lemma_existing_signals(d0, src.signals@);
        }
        let ghost mut news: Seq<SignalKey> = Seq::empty();
        let mut j: usize = 0;
        while j < olds.len()
            invariant
                self.wf(),
                j <= olds.len(),
                d0.messages.contains_key(source_msg_key),
                olds@ == existing_signals(d0, d0.messages[source_msg_key].signals),
                olds.len() <= d0.messages[source_msg_key].signals.len(),
                roles.len() == olds.len(),
                sels.len() == olds.len(),
                forall|t: int| 0 <= t < olds.len() ==> d0.signals.contains_key(#[trigger] olds@[t])
                    && roles@[t] == role_of(d0.signals[olds@[t]]) && sels@[t] == selector_of(d0.signals[olds@[t]]),
                news.len() == j,
                self.entity_count() == old(self).entity_count() + 1 + j,
                old(self).entity_count() + 1 + d0.messages[source_msg_key].signals.len() < crate::dbc::types::arena::ARENA_CAPACITY,
                self@.messages.contains_key(k),
                d0.signals.dom().subset_of(self@.signals.dom()),
                self@ == signals_copied_into(d2, olds@.take(j as int), news, k, d0),
            decreases olds.len() - j,
        {
            let o: SignalKey = olds[j];
            let role: MuxRole = roles[j];
            let sel: Option<MuxSelector> = sels[j];
            assert(self@.signals.contains_key(o));
            let ghost acc = self@;
            let n: SignalKey = match self.copy_signal(o) {
                Ok(n) => n,
                Err(_) => o,
            };
            let ghost c1 = self@;
            proof {
                MessageKey::lemma_nil();
                assert(c1 == signal_copied(acc, o, n, copy_name(acc, NameKind::Signal, acc.signals[o].name)));
                assert(c1.signals.contains_key(n));
                assert(c1.messages.contains_key(k));
            }
            let _ = self.add_msg_sig_relation(n, k, role, sel);
            proof {
                assert(self@ == bind_attempt(c1, n, k, role, sel));
                let prev_news = news;
                news = news.push(n);
                assert(news.drop_last() =~= prev_news);
                assert(olds@.take(j + 1).drop_last() =~= olds@.take(j as int));
                assert(olds@.take(j + 1).last() == o);
                assert(news.last() == n);
            }
            j = j + 1;
        }
        assert(olds@.take(olds.len() as int) =~= olds@);
        let ghost d3 = self@;
        let mut b: usize = 0;
        while b < src.sender_nodes.len()
            invariant
                self.wf(),
                b <= src.sender_nodes.len(),
                self@.messages.contains_key(k),
                self@ == senders_attempted(d3, k, src.sender_nodes@.take(b as int)),
            decreases src.sender_nodes.len() - b,
        {
            let _ = self.add_sender_relation(k, src.sender_nodes[b]);
            assert(src.sender_nodes@.take(b + 1).drop_last() =~= src.sender_nodes@.take(b as int));
            b = b + 1;
        }
        assert(src.sender_nodes@.take(src.sender_nodes.len() as int) =~= src.sender_nodes@);
        proof {
            assert(self@ == message_copied(d0, source_msg_key, k, new_name@, new_id, news));
        }
        Ok(k)
    }

    /// Sets the comment of message `mk`, when present.
    pub fn set_message_comment(&mut self, mk: MessageKey, c: String)
        requires
            old(self).wf(),
        ensures
            final(self).wf(),
            final(self).entity_count() == old(self).entity_count(),
            old(self)@.messages.contains_key(mk) ==> final(self)@ == (DatabaseView {
                messages: old(self)@.messages.insert(mk, MessageView { comment: c@, ..old(self)@.messages[mk] }),
                ..old(self)@
            }),
            !old(self)@.messages.contains_key(mk) ==> final(self)@ == old(self)@,
    {
        if self.get_message_by_key(mk).is_none() {
            return;
        }
        let ghost s0 = arena_slots(self.arena);
        let e: &mut Entity = arena_at_mut(&mut self.arena, mk.handle());
        match e {
            Entity::Message(m) => {
                m.comment = c;
            },
            _ => {},
        }
        proof {
            lemma_put_message(s0, mk, arena_slots(self.arena)[mk.h()]);
        }
    }

    /// Message `mk`, when present, lists node `nk` among its senders.
    pub fn push_message_sender(&mut self, mk: MessageKey, nk: NodeKey)
        requires
            old(self).wf(),
        ensures
            final(self).wf(),
            final(self).entity_count() == old(self).entity_count(),
            old(self)@.messages.contains_key(mk) ==> final(self)@ == (DatabaseView {
                messages: old(self)@.messages.insert(
                    mk,
                    MessageView { sender_nodes: push_new(old(self)@.messages[mk].sender_nodes, nk), ..old(self)@.messages[mk] },
                ),
                ..old(self)@
            }),
            !old(self)@.messages.contains_key(mk) ==> final(self)@ == old(self)@,
    {
        if self.get_message_by_key(mk).is_none() {
            return;
        }
        let ghost s0 = arena_slots(self.arena);
        let e: &mut Entity = arena_at_mut(&mut self.arena, mk.handle());
        match e {
            Entity::Message(m) => {
                push_new_exec(&mut m.sender_nodes, nk);
            },
            _ => {},
        }
        proof {
            lemma_put_message(s0, mk, arena_slots(self.arena)[mk.h()]);
        }
    }
}

} // verus!
