//! Nodes of the keyed database and the sender relation.
use vstd::prelude::*;
use crate::dbc::types::attributes::{defaults_exec, defaults_of};
use crate::dbc::types::relations::rel_without;
use crate::dbc::types::arena::{arena_at_mut, arena_get, arena_insert, arena_remove, arena_slots};
use crate::dbc::types::database::{
    copy_name, same_keys, NameKind, lemma_drop_node, lemma_put_message, lemma_put_node, message_map, node_map, signal_map,
    DatabaseDBC, DatabaseView,
};
use crate::dbc::types::entities::{Entity, MessageDBC, MessageView, NodeDBC, NodeView, SignalView};
use crate::dbc::types::errors::DatabaseError;
use crate::dbc::types::keys::{
    append_keys, copy_keys, handle_ok_exec, lemma_without, lemma_without_no_dups, missing_from, missing_from_exec, push_new,
    push_new_exec, remove_key, without, without_all, without_all_exec, MessageKey, NodeKey,
    SignalKey,
};
use crate::text::{chars_of, chars_of_string, string_of, to_lowercase, unicode_lowercase};

verus! {

/// A node with the given name and no relations.
pub open spec fn blank_node(name: Seq<char>) -> NodeView {
    NodeView {
        name: name,
        comment: Seq::empty(),
        messages_sent: Seq::empty(),
        tx_signals: Seq::empty(),
        rx_signals: Seq::empty(),
        attributes: Seq::empty(),
    }
}

/// A new node named `name` of database `db`: no relations, and the default
/// values of the node attribute specifications as its attributes.
pub open spec fn seeded_node(db: DatabaseView, name: Seq<char>) -> NodeView {
    NodeView { attributes: defaults_of(db.node_attr_spec), ..blank_node(name) }
}

/// The database after adding node `n` under the fresh key `k`, indexed by
/// the lower-case form of its name.
pub open spec fn node_added(db: DatabaseView, k: NodeKey, n: NodeView) -> DatabaseView {
    DatabaseView {
        nodes: db.nodes.insert(k, n),
        nodes_order: db.nodes_order.push(k),
        node_by_name: db.node_by_name.insert(unicode_lowercase(n.name), k),
        ..db
    }
}

/// The database after linking sender node `nk` and message `mk` (both
/// present): the node joins the message's senders, the message joins the
/// node's sent messages (each unless already there), and the node's
/// transmitted signals gain the message's signals it did not transmit yet.
pub open spec fn sender_linked(db: DatabaseView, mk: MessageKey, nk: NodeKey) -> DatabaseView {
    let m = db.messages[mk];
    let n = db.nodes[nk];
    DatabaseView {
        messages: db.messages.insert(mk, MessageView { sender_nodes: push_new(m.sender_nodes, nk), ..m }),
        nodes: db.nodes.insert(
            nk,
            NodeView {
                messages_sent: push_new(n.messages_sent, mk),
                tx_signals: n.tx_signals + missing_from(m.signals, n.tx_signals),
                ..n
            },
        ),
        ..db
    }
}

/// The database after dropping node `nk` from the senders of message `mk`.
pub open spec fn sender_dropped_from_message(db: DatabaseView, mk: MessageKey, nk: NodeKey) -> DatabaseView {
    let m = db.messages[mk];
    DatabaseView {
        messages: db.messages.insert(mk, MessageView { sender_nodes: without(m.sender_nodes, nk), ..m }),
        ..db
    }
}

/// The database after unlinking sender node `nk` and message `mk` (both
/// present): neither lists the other any more, and the node no longer
/// transmits any signal of the message.
pub open spec fn sender_unlinked(db: DatabaseView, mk: MessageKey, nk: NodeKey) -> DatabaseView {
    let d = sender_dropped_from_message(db, mk, nk);
    let n = db.nodes[nk];
    DatabaseView {
        nodes: d.nodes.insert(
            nk,
            NodeView {
                messages_sent: without(n.messages_sent, mk),
                tx_signals: without_all(n.tx_signals, db.messages[mk].signals),
                ..n
            },
        ),
        ..d
    }
}

/// A message with node `nk` removed from its senders and receivers.
pub open spec fn message_without_node(m: MessageView, nk: NodeKey) -> MessageView {
    MessageView {
        sender_nodes: without(m.sender_nodes, nk),
        receiver_nodes: without(m.receiver_nodes, nk),
        ..m
    }
}

/// A signal with node `nk` removed from its receivers.
pub open spec fn signal_without_node(s: SignalView, nk: NodeKey) -> SignalView {
    SignalView { receiver_nodes: without(s.receiver_nodes, nk), ..s }
}

/// Every message with node `nk` removed from its senders and receivers.
pub open spec fn messages_without_node(ms: Map<MessageKey, MessageView>, nk: NodeKey) -> Map<MessageKey, MessageView> {
    ms.map_values(|m: MessageView| message_without_node(m, nk))
}

/// Every signal with node `nk` removed from its receivers.
pub open spec fn signals_without_node(ss: Map<SignalKey, SignalView>, nk: NodeKey) -> Map<SignalKey, SignalView> {
    ss.map_values(|s: SignalView| signal_without_node(s, nk))
}

/// The database after deleting node `nk` (present): the node, its place in
/// the order list and its name entry are gone, no message or signal refers
/// to it any more, and the attribute values of its relations are gone.
pub open spec fn node_deleted(db: DatabaseView, nk: NodeKey) -> DatabaseView {
    DatabaseView {
        nodes: db.nodes.remove(nk),
        nodes_order: without(db.nodes_order, nk),
        node_by_name: db.node_by_name.remove(unicode_lowercase(db.nodes[nk].name)),
        messages: messages_without_node(db.messages, nk),
        signals: signals_without_node(db.signals, nk),
        bu_sg_rel_attributes: rel_without(db.bu_sg_rel_attributes, Some(nk), None),
        bu_bo_rel_attributes: rel_without(db.bu_bo_rel_attributes, Some(nk), None),
        ..db
    }
}

/// The key a name finds in the node table and the node it designates, if
/// that node still exists.
pub open spec fn node_named(db: DatabaseView, name: Seq<char>) -> Option<NodeKey> {
    let l = unicode_lowercase(name);
    if db.node_by_name.contains_key(l) && db.nodes.contains_key(db.node_by_name[l]) {
        Some(db.node_by_name[l])
    } else {
        None
    }
}

/// The first message of `ms` that does not exist.
pub open spec fn first_missing_message(db: DatabaseView, ms: Seq<MessageKey>) -> Option<MessageKey>
    decreases ms.len(),
{
    if ms.len() == 0 {
        None
    } else if !db.messages.contains_key(ms[0]) {
        Some(ms[0])
    } else {
        first_missing_message(db, ms.drop_first())
    }
}

/// The error for the first received signal of `rx` that does not exist or
/// whose message does not exist.
pub open spec fn first_bad_rx(db: DatabaseView, rx: Seq<SignalKey>) -> Option<DatabaseError>
    decreases rx.len(),
{
    if rx.len() == 0 {
        None
    } else if !db.signals.contains_key(rx[0]) {
        Some(DatabaseError::SignalMissing { signal_key: rx[0] })
    } else if !db.messages.contains_key(db.signals[rx[0]].message) {
        Some(DatabaseError::MessageMissing { message_key: db.signals[rx[0]].message })
    } else {
        first_bad_rx(db, rx.drop_first())
    }
}

/// Node `nk` linked as sender of each message of `ms`, in order.
pub open spec fn senders_linked(db: DatabaseView, ms: Seq<MessageKey>, nk: NodeKey) -> DatabaseView
    decreases ms.len(),
{
    if ms.len() == 0 {
        db
    } else {
        sender_linked(senders_linked(db, ms.drop_last(), nk), ms.last(), nk)
    }
}

/// Node `nk` added as receiver of signal `sk` and of message `mk`.
pub open spec fn receiver_linked(db: DatabaseView, sk: SignalKey, mk: MessageKey, nk: NodeKey) -> DatabaseView {
    let s = db.signals[sk];
    let m = db.messages[mk];
    DatabaseView {
        signals: db.signals.insert(sk, SignalView { receiver_nodes: push_new(s.receiver_nodes, nk), ..s }),
        messages: db.messages.insert(mk, MessageView { receiver_nodes: push_new(m.receiver_nodes, nk), ..m }),
        ..db
    }
}

/// Node `nk` added as receiver of each signal of `rx` and of its message
/// (as `orig` records it), in order.
pub open spec fn receivers_linked(db: DatabaseView, rx: Seq<SignalKey>, orig: DatabaseView, nk: NodeKey) -> DatabaseView
    decreases rx.len(),
{
    if rx.len() == 0 {
        db
    } else {
        receiver_linked(receivers_linked(db, rx.drop_last(), orig, nk), rx.last(), orig.signals[rx.last()].message, nk)
    }
}

/// The database after copying node `src` (present, with valid relations) to
/// the fresh key `k` named `name`: the copy keeps the source's comment and
/// relation lists, then becomes a sender of the source's messages and a
/// receiver of the source's received signals and of their messages.
pub open spec fn node_copied(db: DatabaseView, src: NodeKey, k: NodeKey, name: Seq<char>) -> DatabaseView {
    let n = db.nodes[src];
    let d1 = node_added(db, k, NodeView { name: name, ..n });
    receivers_linked(senders_linked(d1, n.messages_sent, k), n.rx_signals, db, k)
}

proof fn lemma_no_missing_message(db: DatabaseView, ms: Seq<MessageKey>)
    requires
        first_missing_message(db, ms) is None,
    ensures
        forall|t: int| 0 <= t < ms.len() ==> db.messages.contains_key(#[trigger] ms[t]),
    decreases ms.len(),
{
    if ms.len() > 0 {
        lemma_no_missing_message(db, ms.drop_first());
        assert forall|t: int| 0 <= t < ms.len() implies db.messages.contains_key(#[trigger] ms[t]) by {
            if t > 0 {
                assert(ms[t] == ms.drop_first()[t - 1]);
            }
        }
    }
}

proof fn lemma_without_twice<K>(s: Seq<K>, x: K)
    ensures
        without(without(s, x), x) == without(s, x),
{
    lemma_without(s, x);
    lemma_without(without(s, x), x);
}

proof fn lemma_message_without_node_twice(m: MessageView, nk: NodeKey)
    ensures
        message_without_node(message_without_node(m, nk), nk) == message_without_node(m, nk),
{
    lemma_without_twice(m.sender_nodes, nk);
    lemma_without_twice(m.receiver_nodes, nk);
}


/// A `String` holding the characters of `s`.
pub fn owned(s: &str) -> (r: String)
    ensures
        r@ == s@,
{
    string_of(&chars_of(s))
}

/// The lower-case characters of `s`.
pub fn lower_chars(s: &str) -> (r: Vec<char>)
    ensures
        r@ == unicode_lowercase(s@),
{
    let l: String = to_lowercase(s);
    chars_of_string(&l)
}

impl DatabaseDBC {
    /// Adds a node named `name` and returns its key; refused when the node
    /// table already holds the name (ignoring case).
    pub fn add_node(&mut self, name: &str) -> (r: Result<NodeKey, DatabaseError>)
        requires
            old(self).wf(),
            old(self).has_room(),
        ensures
            final(self).wf(),
            match r {
                Ok(k) => {
                    &&& !old(self)@.node_by_name.contains_key(unicode_lowercase(name@))
                    &&& !old(self)@.nodes.contains_key(k)
                    &&& final(self).entity_count() == old(self).entity_count() + 1
                    &&& final(self)@ == node_added(old(self)@, k, seeded_node(old(self)@, name@))
                },
                Err(e) => {
                    &&& old(self)@.node_by_name.contains_key(unicode_lowercase(name@))
                    &&& e matches DatabaseError::NodeAlreadyExists { name: n } && n@ == name@
                    &&& final(self).entity_count() == old(self).entity_count()
                    &&& final(self)@ == old(self)@
                },
            },
    {
        let lname: Vec<char> = lower_chars(name);
        if self.node_key_by_name.get(&lname).is_some() {
            return Err(DatabaseError::NodeAlreadyExists { name: owned(name) });
        }
        let mut node: NodeDBC = NodeDBC::named(owned(name));
        node.attributes = defaults_exec(&self.node_attr_spec);
        let ghost before = *self;
        let ghost e = Entity::Node(node);
        let h: u64 = arena_insert(&mut self.arena, Entity::Node(node));
        let k: NodeKey = NodeKey::from_handle(h);
        proof {
            lemma_put_node(arena_slots(before.arena), k, e);
            assert(!before@.nodes.contains_key(k));
            assert(!before.nodes_order@.contains(k));
        }
        self.nodes_order.push(k);
        self.node_key_by_name.insert(lname, k);
        proof {
            assert forall|j: NodeKey| #[trigger] self@.nodes.contains_key(j) <==> self.nodes_order@.contains(j) by {
                if j != k {
                    assert(self.nodes_order@.contains(j) <==> before.nodes_order@.contains(j)) by {
                        crate::dbc::types::keys::lemma_push_contains(before.nodes_order@, k, j);
                    }
                } else {
                    assert(self.nodes_order@[self.nodes_order@.len() - 1] == k);
                }
            }
        }
        Ok(k)
    }

    /// Looks up the key the node table holds for `name` (ignoring case).
    pub fn get_node_key_by_name(&self, name: &str) -> (r: Option<NodeKey>)
        ensures
            r == (if self@.node_by_name.contains_key(unicode_lowercase(name@)) {
                Some(self@.node_by_name[unicode_lowercase(name@)])
            } else {
                None
            }),
    {
        let lname: Vec<char> = lower_chars(name);
        self.node_key_by_name.get(&lname)
    }

    /// The node addressed by `key`.
    pub fn get_node_by_key(&self, key: NodeKey) -> (r: Option<&NodeDBC>)
        ensures
            self@.nodes.contains_key(key) ==> (r matches Some(n) && n@ == self@.nodes[key]),
            !self@.nodes.contains_key(key) ==> r is None,
    {
        if !handle_ok_exec(key.handle()) {
            return None;
        }
        match arena_get(&self.arena, key.handle()) {
            Some(Entity::Node(n)) => Some(n),
            _ => None,
        }
    }

    /// The node the name designates (ignoring case).
    pub fn get_node_by_name(&self, name: &str) -> (r: Option<&NodeDBC>)
        ensures
            node_named(self@, name@) matches Some(k) ==> (r matches Some(n) && n@ == self@.nodes[k]),
            node_named(self@, name@) is None ==> r is None,
    {
        match self.get_node_key_by_name(name) {
            None => None,
            Some(k) => self.get_node_by_key(k),
        }
    }

    /// Links sender node `node_key` and message `msg_key`, keeping both
    /// sides in sync (see [`sender_linked`]).
    pub fn add_sender_relation(&mut self, msg_key: MessageKey, node_key: NodeKey) -> (r: Result<(), DatabaseError>)
        requires
            old(self).wf(),
        ensures
            final(self).wf(),
            final(self).entity_count() == old(self).entity_count(),
            !old(self)@.messages.contains_key(msg_key) ==> r == Err::<(), DatabaseError>(
                DatabaseError::MessageMissing { message_key: msg_key },
            ) && final(self)@ == old(self)@,
            old(self)@.messages.contains_key(msg_key) && !old(self)@.nodes.contains_key(node_key)
                ==> r == Err::<(), DatabaseError>(DatabaseError::NodeMissing { node_key: node_key })
                && final(self)@ == old(self)@,
            old(self)@.messages.contains_key(msg_key) && old(self)@.nodes.contains_key(node_key) ==> r is Ok
                && final(self)@ == sender_linked(old(self)@, msg_key, node_key),
            same_keys(final(self)@, old(self)@),
    {
        let msg_signals: Vec<SignalKey> = match self.get_message_by_key(msg_key) {
            None => return Err(DatabaseError::MessageMissing { message_key: msg_key }),
            Some(m) => copy_keys(&m.signals),
        };
        let new_tx: Vec<SignalKey> = match self.get_node_by_key(node_key) {
            None => return Err(DatabaseError::NodeMissing { node_key: node_key }),
            Some(n) => {
                let pending: Vec<SignalKey> = missing_from_exec(&msg_signals, &n.tx_signals);
                let mut t: Vec<SignalKey> = copy_keys(&n.tx_signals);
                append_keys(&mut t, &pending);
                t
            },
        };
        let ghost d0 = self@;
        let ghost s0 = arena_slots(self.arena);
        let e: &mut Entity = arena_at_mut(&mut self.arena, msg_key.handle());
        match e {
            Entity::Message(m) => {
                push_new_exec(&mut m.sender_nodes, node_key);
            },
            _ => {},
        }
        let ghost s1 = arena_slots(self.arena);
        proof {
            lemma_put_message(s0, msg_key, s1[msg_key.h()]);
        }
        let e2: &mut Entity = arena_at_mut(&mut self.arena, node_key.handle());
        match e2 {
            Entity::Node(n) => {
                push_new_exec(&mut n.messages_sent, msg_key);
                n.tx_signals = new_tx;
            },
            _ => {},
        }
        let ghost s2 = arena_slots(self.arena);
        proof {
            lemma_put_node(s1, node_key, s2[node_key.h()]);
            assert(self@ =~= sender_linked(d0, msg_key, node_key));
            assert(self@.nodes.dom() =~= d0.nodes.dom());
            assert(self@.messages.dom() =~= d0.messages.dom());
        }
        Ok(())
    }

    /// Unlinks sender node `node_key` and message `msg_key`, keeping both
    /// sides in sync (see [`sender_unlinked`]). When the message exists but
    /// the node does not, the node is still dropped from the message's
    /// senders before the error is returned.
    pub fn remove_sender_relation(&mut self, msg_key: MessageKey, node_key: NodeKey) -> (r: Result<(), DatabaseError>)
        requires
            old(self).wf(),
        ensures
            final(self).wf(),
            final(self).entity_count() == old(self).entity_count(),
            !old(self)@.messages.contains_key(msg_key) ==> r == Err::<(), DatabaseError>(
                DatabaseError::MessageMissing { message_key: msg_key },
            ) && final(self)@ == old(self)@,
            old(self)@.messages.contains_key(msg_key) && !old(self)@.nodes.contains_key(node_key)
                ==> r == Err::<(), DatabaseError>(DatabaseError::NodeMissing { node_key: node_key })
                && final(self)@ == sender_dropped_from_message(old(self)@, msg_key, node_key),
            old(self)@.messages.contains_key(msg_key) && old(self)@.nodes.contains_key(node_key) ==> r is Ok
                && final(self)@ == sender_unlinked(old(self)@, msg_key, node_key),
    {
        let to_prune: Vec<SignalKey> = match self.get_message_by_key(msg_key) {
            None => return Err(DatabaseError::MessageMissing { message_key: msg_key }),
            Some(m) => copy_keys(&m.signals),
        };
        let ghost d0 = self@;
        let ghost s0 = arena_slots(self.arena);
        let e: &mut Entity = arena_at_mut(&mut self.arena, msg_key.handle());
        match e {
            Entity::Message(m) => {
                remove_key(&mut m.sender_nodes, &node_key);
            },
            _ => {},
        }
        let ghost s1 = arena_slots(self.arena);
        proof {
            lemma_put_message(s0, msg_key, s1[msg_key.h()]);
            assert(self@ =~= sender_dropped_from_message(d0, msg_key, node_key));
        }
        if !handle_ok_exec(node_key.handle()) {
            return Err(DatabaseError::NodeMissing { node_key: node_key });
        }
        match arena_get(&self.arena, node_key.handle()) {
            Some(Entity::Node(_)) => {},
            _ => return Err(DatabaseError::NodeMissing { node_key: node_key }),
        }
        let e2: &mut Entity = arena_at_mut(&mut self.arena, node_key.handle());
        match e2 {
            Entity::Node(n) => {
                remove_key(&mut n.messages_sent, &msg_key);
                let t: Vec<SignalKey> = without_all_exec(&n.tx_signals, &to_prune);
                n.tx_signals = t;
            },
            _ => {},
        }
        let ghost s2 = arena_slots(self.arena);
        proof {
            lemma_put_node(s1, node_key, s2[node_key.h()]);
            assert(self@ =~= sender_unlinked(d0, msg_key, node_key));
        }
        Ok(())
    }

    /// Removes node `nk` from the senders and receivers of every message.
    fn strip_node_from_messages(&mut self, nk: NodeKey)
        requires
            old(self).wf(),
        ensures
            final(self).wf(),
            final(self).entity_count() == old(self).entity_count(),
            final(self)@ == (DatabaseView {
                messages: messages_without_node(old(self)@.messages, nk),
                ..old(self)@
            }),
    {
        let ghost d0 = self@;
        let order: Vec<MessageKey> = copy_keys(&self.messages_order);
        let mut i: usize = 0;
        while i < order.len()
            invariant
                self.wf(),
                i <= order.len(),
                order@ == self.messages_order@,
                self.entity_count() == old(self).entity_count(),
                self@ == (DatabaseView { messages: self@.messages, ..d0 }),
                self@.messages.dom() == d0.messages.dom(),
                forall|mk: MessageKey| #[trigger] self@.messages.contains_key(mk) ==> self@.messages[mk] == (
                    if order@.take(i as int).contains(mk) {
                        message_without_node(d0.messages[mk], nk)
                    } else {
                        d0.messages[mk]
                    }),
            decreases order.len() - i,
        {
            let mk: MessageKey = order[i];
            assert(self.messages_order@.contains(mk));
            assert(self@.messages.contains_key(mk));
            let ghost s0 = arena_slots(self.arena);
            let ghost m0 = self@.messages[mk];
            let e: &mut Entity = arena_at_mut(&mut self.arena, mk.handle());
            match e {
                Entity::Message(m) => {
                    remove_key(&mut m.sender_nodes, &nk);
                    remove_key(&mut m.receiver_nodes, &nk);
                },
                _ => {},
            }
            proof {
                let s1 = arena_slots(self.arena);
                lemma_put_message(s0, mk, s1[mk.h()]);
                assert(self@.messages[mk] == message_without_node(m0, nk));
                assert forall|j: MessageKey| #[trigger] self@.messages.contains_key(j) implies self@.messages[j] == (
                    if order@.take(i + 1).contains(j) {
                        message_without_node(d0.messages[j], nk)
                    } else {
                        d0.messages[j]
                    }) by {
                    assert(order@.take(i + 1) =~= order@.take(i as int).push(mk));
                    crate::dbc::types::keys::lemma_push_contains(order@.take(i as int), mk, j);
                    if j == mk {
                        if order@.take(i as int).contains(mk) {
                            lemma_message_without_node_twice(d0.messages[mk], nk);
                        }
                    }
                }
            }
            i = i + 1;
        }
        proof {
            assert(order@.take(order.len() as int) =~= order@);
            assert(self@.messages =~= messages_without_node(d0.messages, nk));
        }
    }

    /// Removes node `nk` from the receivers of every signal.
    fn strip_node_from_signals(&mut self, nk: NodeKey)
        requires
            old(self).wf(),
        ensures
            final(self).wf(),
            final(self).entity_count() == old(self).entity_count(),
            final(self)@ == (DatabaseView {
                signals: signals_without_node(old(self)@.signals, nk),
                ..old(self)@
            }),
    {
        let ghost d0 = self@;
        let order: Vec<SignalKey> = copy_keys(&self.signals_order);
        let mut i: usize = 0;
        while i < order.len()
            invariant
                self.wf(),
                i <= order.len(),
                order@ == self.signals_order@,
                self.entity_count() == old(self).entity_count(),
                self@ == (DatabaseView { signals: self@.signals, ..d0 }),
                self@.signals.dom() == d0.signals.dom(),
                forall|sk: SignalKey| #[trigger] self@.signals.contains_key(sk) ==> self@.signals[sk] == (
                    if order@.take(i as int).contains(sk) {
                        signal_without_node(d0.signals[sk], nk)
                    } else {
                        d0.signals[sk]
                    }),
            decreases order.len() - i,
        {
            let sk: SignalKey = order[i];
            assert(self.signals_order@.contains(sk));
            assert(self@.signals.contains_key(sk));
            let ghost s0 = arena_slots(self.arena);
            let ghost g0 = self@.signals[sk];
            let e: &mut Entity = arena_at_mut(&mut self.arena, sk.handle());
            match e {
                Entity::Signal(g) => {
                    remove_key(&mut g.receiver_nodes, &nk);
                },
                _ => {},
            }
            proof {
                let s1 = arena_slots(self.arena);
                crate::dbc::types::database::lemma_put_signal(s0, sk, s1[sk.h()]);
                assert(self@.signals[sk] == signal_without_node(g0, nk));
                assert forall|j: SignalKey| #[trigger] self@.signals.contains_key(j) implies self@.signals[j] == (
                    if order@.take(i + 1).contains(j) {
                        signal_without_node(d0.signals[j], nk)
                    } else {
                        d0.signals[j]
                    }) by {
                    assert(order@.take(i + 1) =~= order@.take(i as int).push(sk));
                    crate::dbc::types::keys::lemma_push_contains(order@.take(i as int), sk, j);
                    if j == sk {
                        if order@.take(i as int).contains(sk) {
                            lemma_without_twice(d0.signals[sk].receiver_nodes, nk);
                        }
                    }
                }
            }
            i = i + 1;
        }
        proof {
            assert(order@.take(order.len() as int) =~= order@);
            assert(self@.signals =~= signals_without_node(d0.signals, nk));
        }
    }

    /// Deletes node `node_key`, removing every reference to it across the
    /// database (see [`node_deleted`]).
    pub fn delete_node(&mut self, node_key: NodeKey) -> (r: Result<(), DatabaseError>)
        requires
            old(self).wf(),
        ensures
            final(self).wf(),
            !old(self)@.nodes.contains_key(node_key) ==> r == Err::<(), DatabaseError>(
                DatabaseError::NodeMissing { node_key: node_key },
            ) && final(self)@ == old(self)@ && final(self).entity_count() == old(self).entity_count(),
            old(self)@.nodes.contains_key(node_key) ==> r is Ok
                && final(self)@ == node_deleted(old(self)@, node_key)
                && final(self).entity_count() + 1 == old(self).entity_count(),
    {
        if !handle_ok_exec(node_key.handle()) {
            return Err(DatabaseError::NodeMissing { node_key: node_key });
        }
        match arena_get(&self.arena, node_key.handle()) {
            Some(Entity::Node(_)) => {},
            _ => return Err(DatabaseError::NodeMissing { node_key: node_key }),
        }
        let ghost d0 = self@;
        let ghost s0 = arena_slots(self.arena);
        let removed: Option<Entity> = arena_remove(&mut self.arena, node_key.handle());
        let lname: Vec<char> = match removed {
            Some(Entity::Node(n)) => lower_chars(n.name.as_str()),
            _ => Vec::new(),
        };
        proof {
            lemma_drop_node(s0, node_key);
            lemma_without(self.nodes_order@, node_key);
            lemma_without_no_dups(self.nodes_order@, node_key);
        }
        remove_key(&mut self.nodes_order, &node_key);
        self.node_key_by_name.remove(&lname);
        proof {
            assert forall|j: NodeKey| #[trigger] self@.nodes.contains_key(j) <==> self.nodes_order@.contains(j) by {
                if j != node_key {
                    assert(d0.nodes.contains_key(j) <==> d0.nodes_order.contains(j));
                }
            }
        }
        self.strip_node_from_messages(node_key);
        self.strip_node_from_signals(node_key);
        self.bu_sg_rel_attributes.remove_where(Some(node_key), None);
        self.bu_bo_rel_attributes.remove_where(Some(node_key), None);
        proof {
            assert(self@ =~= node_deleted(d0, node_key));
        }
        Ok(())
    }

    /// Creates a copy of node `source_node_key` named after it with a
    /// `_copy` suffix (see [`copy_name`]) and relinks it to the source's
    /// messages and received signals (see [`node_copied`]). Refused, with
    /// nothing changed, when the source or one of its related messages or
    /// signals is missing.
    pub fn copy_node(&mut self, source_node_key: NodeKey) -> (r: Result<NodeKey, DatabaseError>)
        requires
            old(self).wf(),
            old(self).has_room(),
        ensures
            final(self).wf(),
            !old(self)@.nodes.contains_key(source_node_key) ==> r == Err::<NodeKey, DatabaseError>(
                DatabaseError::NodeMissing { node_key: source_node_key },
            ) && final(self)@ == old(self)@ && final(self).entity_count() == old(self).entity_count(),
            old(self)@.nodes.contains_key(source_node_key) ==> match first_missing_message(
                old(self)@,
                old(self)@.nodes[source_node_key].messages_sent,
            ) {
                Some(mk) => r == Err::<NodeKey, DatabaseError>(DatabaseError::MessageMissing { message_key: mk })
                    && final(self)@ == old(self)@ && final(self).entity_count() == old(self).entity_count(),
                None => match first_bad_rx(old(self)@, old(self)@.nodes[source_node_key].rx_signals) {
                    Some(e) => r == Err::<NodeKey, DatabaseError>(e) && final(self)@ == old(self)@
                        && final(self).entity_count() == old(self).entity_count(),
                    None => {
                        &&& r matches Ok(k)
                        &&& !old(self)@.nodes.contains_key(k)
                        &&& final(self)@ == node_copied(
                            old(self)@,
                            source_node_key,
                            k,
                            copy_name(old(self)@, NameKind::Node, old(self)@.nodes[source_node_key].name),
                        )
                        &&& final(self).entity_count() == old(self).entity_count() + 1
                    },
                },
            },
    {
        let src: NodeDBC = match self.get_node_by_key(source_node_key) {
            None => return Err(DatabaseError::NodeMissing { node_key: source_node_key }),
            Some(n) => n.duplicate(),
        };
        let ghost d0 = self@;
        let new_name: String = self.copy_name_exec(NameKind::Node, &src.name);
        assert(src.messages_sent@.skip(0) =~= src.messages_sent@);
        assert(src.rx_signals@.skip(0) =~= src.rx_signals@);
        let mut i: usize = 0;
        while i < src.messages_sent.len()
            invariant
                self.wf(),
                self@ == d0,
                d0 == old(self)@,
                self.entity_count() == old(self).entity_count(),
                d0.nodes.contains_key(source_node_key),
                src@ == d0.nodes[source_node_key],
                i <= src.messages_sent.len(),
                first_missing_message(d0, src.messages_sent@) == first_missing_message(d0, src.messages_sent@.skip(i as int)),
            decreases src.messages_sent.len() - i,
        {
            assert(src.messages_sent@.skip(i as int).drop_first() =~= src.messages_sent@.skip(i + 1));
            if self.get_message_by_key(src.messages_sent[i]).is_none() {
                return Err(DatabaseError::MessageMissing { message_key: src.messages_sent[i] });
            }
            i = i + 1;
        }
        let mut msgs: Vec<MessageKey> = Vec::new();
        let mut j: usize = 0;
        while j < src.rx_signals.len()
            invariant
                self.wf(),
                self@ == d0,
                d0 == old(self)@,
                self.entity_count() == old(self).entity_count(),
                d0.nodes.contains_key(source_node_key),
                src@ == d0.nodes[source_node_key],
                first_missing_message(d0, src.messages_sent@) is None,
                j <= src.rx_signals.len(),
                first_bad_rx(d0, src.rx_signals@) == first_bad_rx(d0, src.rx_signals@.skip(j as int)),
                msgs.len() == j,
                forall|t: int| 0 <= t < j ==> d0.signals.contains_key(#[trigger] src.rx_signals@[t])
                    && msgs@[t] == d0.signals[src.rx_signals@[t]].message
                    && d0.messages.contains_key(msgs@[t]),
            decreases src.rx_signals.len() - j,
        {
            assert(src.rx_signals@.skip(j as int).drop_first() =~= src.rx_signals@.skip(j + 1));
            let sk: SignalKey = src.rx_signals[j];
            let mk: MessageKey = match self.get_sig_by_key(sk) {
                None => return Err(DatabaseError::SignalMissing { signal_key: sk }),
                Some(g) => g.message,
            };
            if self.get_message_by_key(mk).is_none() {
                return Err(DatabaseError::MessageMissing { message_key: mk });
            }
            msgs.push(mk);
            j = j + 1;
        }
        let node: NodeDBC = NodeDBC {
            name: new_name,
            comment: src.comment,
            messages_sent: copy_keys(&src.messages_sent),
            tx_signals: src.tx_signals,
            rx_signals: copy_keys(&src.rx_signals),
            attributes: src.attributes,
        };
        let lname: Vec<char> = lower_chars(node.name.as_str());
        let ghost e = Entity::Node(node);
        let ghost before = *self;
        let h: u64 = arena_insert(&mut self.arena, Entity::Node(node));
        let k: NodeKey = NodeKey::from_handle(h);
        proof {
            lemma_put_node(arena_slots(before.arena), k, e);
            assert(!before@.nodes.contains_key(k));
            assert(!before.nodes_order@.contains(k));
        }
        self.nodes_order.push(k);
        self.node_key_by_name.insert(lname, k);
        proof {
            assert forall|x: NodeKey| #[trigger] self@.nodes.contains_key(x) <==> self.nodes_order@.contains(x) by {
                crate::dbc::types::keys::lemma_push_contains(before.nodes_order@, k, x);
            }
            assert(self@ =~= node_added(d0, k, NodeView { name: copy_name(d0, NameKind::Node, d0.nodes[source_node_key].name), ..d0.nodes[source_node_key] }));
        }
        let ghost d1 = self@;
        proof {
            lemma_no_missing_message(d0, src.messages_sent@);
        }
        let mut a: usize = 0;
        while a < src.messages_sent.len()
            invariant
                self.wf(),
                a <= src.messages_sent.len(),
                d0.nodes.contains_key(source_node_key),
                src@ == d0.nodes[source_node_key],
                self@.signals == d0.signals,
                forall|t: int| 0 <= t < src.messages_sent.len() ==> d0.messages.contains_key(#[trigger] src.messages_sent@[t]),
                self.entity_count() == old(self).entity_count() + 1,
                self@.nodes.contains_key(k),
                self@.messages.dom() == d0.messages.dom(),
                self@ == senders_linked(d1, src.messages_sent@.take(a as int), k),
            decreases src.messages_sent.len() - a,
        {
            let mk: MessageKey = src.messages_sent[a];
            match self.add_sender_relation(mk, k) {
                Ok(()) => {},
                Err(err) => return Err(err),
            }
            assert(src.messages_sent@.take(a + 1).drop_last() =~= src.messages_sent@.take(a as int));
            a = a + 1;
        }
        assert(src.messages_sent@.take(src.messages_sent.len() as int) =~= src.messages_sent@);
        let ghost d2 = self@;
        let mut b: usize = 0;
        while b < src.rx_signals.len()
            invariant
                self.wf(),
                b <= src.rx_signals.len(),
                d0.nodes.contains_key(source_node_key),
                src@ == d0.nodes[source_node_key],
                msgs.len() == src.rx_signals.len(),
                forall|t: int| 0 <= t < src.rx_signals.len() ==> d0.signals.contains_key(#[trigger] src.rx_signals@[t])
                    && msgs@[t] == d0.signals[src.rx_signals@[t]].message
                    && d0.messages.contains_key(msgs@[t]),
                self.entity_count() == old(self).entity_count() + 1,
                self@.messages.dom() == d0.messages.dom(),
                self@.signals.dom() == d0.signals.dom(),
                self@ == receivers_linked(d2, src.rx_signals@.take(b as int), d0, k),
            decreases src.rx_signals.len() - b,
        {
            let sk: SignalKey = src.rx_signals[b];
            let mk: MessageKey = msgs[b];
            assert(self@.signals.contains_key(sk));
            assert(self@.messages.contains_key(mk));
            let ghost s0 = arena_slots(self.arena);
            let e1: &mut Entity = arena_at_mut(&mut self.arena, sk.handle());
            match e1 {
                Entity::Signal(g) => {
                    push_new_exec(&mut g.receiver_nodes, k);
                },
                _ => {},
            }
            proof {
                crate::dbc::types::database::lemma_put_signal(s0, sk, arena_slots(self.arena)[sk.h()]);
            }
            let ghost s1 = arena_slots(self.arena);
            let e2: &mut Entity = arena_at_mut(&mut self.arena, mk.handle());
            match e2 {
                Entity::Message(m) => {
                    push_new_exec(&mut m.receiver_nodes, k);
                },
                _ => {},
            }
            proof {
                lemma_put_message(s1, mk, arena_slots(self.arena)[mk.h()]);
                assert(src.rx_signals@.take(b + 1).drop_last() =~= src.rx_signals@.take(b as int));
                assert(self@ =~= receivers_linked(d2, src.rx_signals@.take(b + 1), d0, k));
            }
            b = b + 1;
        }
        proof {
            assert(src.rx_signals@.take(src.rx_signals.len() as int) =~= src.rx_signals@);
        }
        Ok(k)
    }

    /// The key the node table holds for `name` (ignoring case), adding a
    /// node of that name first when the table holds none.
    pub fn add_node_if_absent(&mut self, name: &str) -> (r: NodeKey)
        requires
            old(self).wf(),
            old(self).has_room(),
        ensures
            final(self).wf(),
            old(self)@.node_by_name.contains_key(unicode_lowercase(name@)) ==> {
                &&& r == old(self)@.node_by_name[unicode_lowercase(name@)]
                &&& final(self)@ == old(self)@
                &&& final(self).entity_count() == old(self).entity_count()
            },
            !old(self)@.node_by_name.contains_key(unicode_lowercase(name@)) ==> {
                &&& !old(self)@.nodes.contains_key(r)
                &&& final(self)@ == node_added(old(self)@, r, seeded_node(old(self)@, name@))
                &&& final(self).entity_count() == old(self).entity_count() + 1
            },
    {
        match self.get_node_key_by_name(name) {
            Some(k) => k,
            None => match self.add_node(name) {
                Ok(k) => k,
                Err(_) => NodeKey::null(),
            },
        }
    }

    /// Node `nk`, when present, lists message `mk` among those it sends.
    pub fn add_tx_msg_for_node(&mut self, nk: NodeKey, mk: MessageKey)
        requires
            old(self).wf(),
        ensures
            final(self).wf(),
            final(self).entity_count() == old(self).entity_count(),
            old(self)@.nodes.contains_key(nk) ==> final(self)@ == (DatabaseView {
                nodes: old(self)@.nodes.insert(
                    nk,
                    NodeView { messages_sent: push_new(old(self)@.nodes[nk].messages_sent, mk), ..old(self)@.nodes[nk] },
                ),
                ..old(self)@
            }),
            !old(self)@.nodes.contains_key(nk) ==> final(self)@ == old(self)@,
    {
        if self.get_node_by_key(nk).is_none() {
            return;
        }
        let ghost s0 = arena_slots(self.arena);
        let e: &mut Entity = arena_at_mut(&mut self.arena, nk.handle());
        match e {
            Entity::Node(n) => {
                push_new_exec(&mut n.messages_sent, mk);
            },
            _ => {},
        }
        proof {
            lemma_put_node(s0, nk, arena_slots(self.arena)[nk.h()]);
        }
    }

    /// Node `nk`, when present, lists signal `sk` among those it receives.
    pub fn push_node_rx_signal(&mut self, nk: NodeKey, sk: SignalKey)
        requires
            old(self).wf(),
        ensures
            final(self).wf(),
            final(self).entity_count() == old(self).entity_count(),
            old(self)@.nodes.contains_key(nk) ==> final(self)@ == (DatabaseView {
                nodes: old(self)@.nodes.insert(
                    nk,
                    NodeView { rx_signals: push_new(old(self)@.nodes[nk].rx_signals, sk), ..old(self)@.nodes[nk] },
                ),
                ..old(self)@
            }),
            !old(self)@.nodes.contains_key(nk) ==> final(self)@ == old(self)@,
    {
        if self.get_node_by_key(nk).is_none() {
            return;
        }
        let ghost s0 = arena_slots(self.arena);
        let e: &mut Entity = arena_at_mut(&mut self.arena, nk.handle());
        match e {
            Entity::Node(n) => {
                push_new_exec(&mut n.rx_signals, sk);
            },
            _ => {},
        }
        proof {
            lemma_put_node(s0, nk, arena_slots(self.arena)[nk.h()]);
        }
    }

    /// Sets the comment of node `nk`, when present.
    pub fn set_node_comment(&mut self, nk: NodeKey, c: String)
        requires
            old(self).wf(),
        ensures
            final(self).wf(),
            final(self).entity_count() == old(self).entity_count(),
            old(self)@.nodes.contains_key(nk) ==> final(self)@ == (DatabaseView {
                nodes: old(self)@.nodes.insert(nk, NodeView { comment: c@, ..old(self)@.nodes[nk] }),
                ..old(self)@
            }),
            !old(self)@.nodes.contains_key(nk) ==> final(self)@ == old(self)@,
    {
        if self.get_node_by_key(nk).is_none() {
            return;
        }
        let ghost s0 = arena_slots(self.arena);
        let e: &mut Entity = arena_at_mut(&mut self.arena, nk.handle());
        match e {
            Entity::Node(n) => {
                n.comment = c;
            },
            _ => {},
        }
        proof {
            lemma_put_node(s0, nk, arena_slots(self.arena)[nk.h()]);
        }
    }
}

} // verus!
