//! Ordering of the database by name: the order lists and the key lists held
//! by each node, message and signal.
use vstd::prelude::*;
use crate::dbc::types::arena::{arena_at_mut, arena_slots};
use crate::dbc::types::database::{lemma_put_message, lemma_put_node, lemma_put_signal, DatabaseDBC, DatabaseView};
use crate::dbc::types::entities::{Entity, MessageView, NodeView, SignalView};
use crate::dbc::types::keys::{MessageKey, NodeKey, SignalKey};
use crate::dbc::types::sorting::{
    entries_view, items_of, lemma_stable_sort_items, sort_entries, stable_sort, ExecSortKey, SortKey,
};
use crate::text::{ascii_lower_exec, ascii_lower_seq, chars_of};

verus! {

/// How keys are ordered by the name of what they refer to (ASCII case
/// ignored).
#[derive(Clone, Copy, Debug, PartialEq, Eq, Structural)]
pub enum SortMode {
    /// Keys of nothing first, then by name (sorting by an `Option` of the
    /// name).
    Ordered,
    /// Keys of nothing taken as named by the empty text.
    Field,
    /// Keys of nothing last, ties broken by the keys' slot order.
    Full,
}

/// The sort key of a key: whether it refers to something, that thing's name
/// and the key's handle.
pub open spec fn sort_key_for(present: bool, name: Seq<char>, h: u64, mode: SortMode) -> SortKey {
    let n = if present {
        ascii_lower_seq(name)
    } else {
        Seq::empty()
    };
    match mode {
        SortMode::Ordered => SortKey {
            rank: if present {
                1u8
            } else {
                0u8
            },
            name: n,
            tie: 0,
        },
        SortMode::Field => SortKey { rank: 0, name: n, tie: 0 },
        SortMode::Full => SortKey {
            rank: if present {
                0u8
            } else {
                1u8
            },
            name: n,
            tie: h,
        },
    }
}

/// Node keys with their sort keys.
pub open spec fn node_entries(db: DatabaseView, ks: Seq<NodeKey>, mode: SortMode) -> Seq<(NodeKey, SortKey)> {
    ks.map_values(|k: NodeKey| (k, sort_key_for(db.nodes.contains_key(k), db.nodes[k].name, k.h(), mode)))
}

/// Message keys with their sort keys.
pub open spec fn message_entries(db: DatabaseView, ks: Seq<MessageKey>, mode: SortMode) -> Seq<(MessageKey, SortKey)> {
    ks.map_values(|k: MessageKey| (k, sort_key_for(db.messages.contains_key(k), db.messages[k].name, k.h(), mode)))
}

/// Signal keys with their sort keys.
pub open spec fn signal_entries(db: DatabaseView, ks: Seq<SignalKey>, mode: SortMode) -> Seq<(SignalKey, SortKey)> {
    ks.map_values(|k: SignalKey| (k, sort_key_for(db.signals.contains_key(k), db.signals[k].name, k.h(), mode)))
}

/// Node keys stably sorted by node name.
pub open spec fn nodes_by_name(db: DatabaseView, ks: Seq<NodeKey>, mode: SortMode) -> Seq<NodeKey> {
    items_of(stable_sort(node_entries(db, ks, mode)))
}

/// Message keys stably sorted by message name.
pub open spec fn messages_by_name(db: DatabaseView, ks: Seq<MessageKey>, mode: SortMode) -> Seq<MessageKey> {
    items_of(stable_sort(message_entries(db, ks, mode)))
}

/// Signal keys stably sorted by signal name.
pub open spec fn signals_by_name(db: DatabaseView, ks: Seq<SignalKey>, mode: SortMode) -> Seq<SignalKey> {
    items_of(stable_sort(signal_entries(db, ks, mode)))
}

/// Signal keys with the sort keys of their messages: a key counts as present
/// when both the signal and its message are.
pub open spec fn sent_signal_entries(db: DatabaseView, ks: Seq<SignalKey>, mode: SortMode) -> Seq<(SignalKey, SortKey)> {
    ks.map_values(|k: SignalKey| (k, sort_key_for(
        db.signals.contains_key(k) && db.messages.contains_key(db.signals[k].message),
        db.messages[db.signals[k].message].name,
        k.h(),
        mode,
    )))
}

/// The transmitted signals of a node in order: in the full mode by the name
/// of each signal's message (keys of nothing last, ties by slot order),
/// otherwise by signal name.
pub open spec fn tx_signals_sorted(db: DatabaseView, ks: Seq<SignalKey>, mode: SortMode) -> Seq<SignalKey> {
    if mode == SortMode::Full {
        items_of(stable_sort(sent_signal_entries(db, ks, mode)))
    } else {
        signals_by_name(db, ks, mode)
    }
}

/// A node with its sent messages and received signals sorted by name, and
/// its transmitted signals as [`tx_signals_sorted`] orders them.
pub open spec fn node_lists_sorted(db: DatabaseView, n: NodeView, mode: SortMode) -> NodeView {
    NodeView {
        messages_sent: messages_by_name(db, n.messages_sent, mode),
        tx_signals: tx_signals_sorted(db, n.tx_signals, mode),
        rx_signals: signals_by_name(db, n.rx_signals, mode),
        ..n
    }
}

/// A message with its senders, receivers and signals sorted by name.
pub open spec fn message_lists_sorted(db: DatabaseView, m: MessageView, mode: SortMode) -> MessageView {
    MessageView {
        sender_nodes: nodes_by_name(db, m.sender_nodes, mode),
        receiver_nodes: nodes_by_name(db, m.receiver_nodes, mode),
        signals: signals_by_name(db, m.signals, mode),
        ..m
    }
}

/// A signal with its receivers sorted by name.
pub open spec fn signal_lists_sorted(db: DatabaseView, s: SignalView, mode: SortMode) -> SignalView {
    SignalView { receiver_nodes: nodes_by_name(db, s.receiver_nodes, mode), ..s }
}

proof fn lemma_items_of_entries<K>(ks: Seq<K>, e: Seq<(K, SortKey)>)
    requires
        e.len() == ks.len(),
        forall|i: int| 0 <= i < ks.len() ==> #[trigger] e[i].0 == ks[i],
    ensures
        items_of(e) == ks,
{
    assert(items_of(e) =~= ks);
}

/// The sort key of an entity, given whether it is present and its name.
fn exec_key(present: bool, name: &str, h: u64, mode: SortMode) -> (r: ExecSortKey)
    ensures
        r@ == sort_key_for(present, name@, h, mode),
{
    let n: Vec<char> = if present {
        ascii_lower_exec(&chars_of(name))
    } else {
        Vec::new()
    };
    assert(!present ==> n@ =~= Seq::<char>::empty());
    match mode {
        SortMode::Ordered => ExecSortKey {
            rank: if present {
                1
            } else {
                0
            },
            name: n,
            tie: 0,
        },
        SortMode::Field => ExecSortKey { rank: 0, name: n, tie: 0 },
        SortMode::Full => ExecSortKey {
            rank: if present {
                0
            } else {
                1
            },
            name: n,
            tie: h,
        },
    }
}

impl DatabaseDBC {
    fn node_entries_exec(&self, ks: &Vec<NodeKey>, mode: SortMode) -> (r: Vec<(NodeKey, ExecSortKey)>)
        ensures
            entries_view(r@) == node_entries(self@, ks@, mode),
    {
        let mut out: Vec<(NodeKey, ExecSortKey)> = Vec::new();
        let mut i: usize = 0;
        while i < ks.len()
            invariant
                i <= ks.len(),
                entries_view(out@) == node_entries(self@, ks@, mode).take(i as int),
            decreases ks.len() - i,
        {
            let k: NodeKey = ks[i];
            let e: ExecSortKey = match self.get_node_by_key(k) {
                Some(n) => exec_key(true, n.name.as_str(), k.handle(), mode),
                None => exec_key(false, "", k.handle(), mode),
            };
            let ghost before = entries_view(out@);
            let ghost ev = e@;
            out.push((k, e));
            assert(entries_view(out@) =~= before.push((k, ev)));
            assert(node_entries(self@, ks@, mode).take(i + 1) =~= node_entries(self@, ks@, mode).take(i as int).push(
                (k, ev),
            ));
            i = i + 1;
        }
        assert(node_entries(self@, ks@, mode).take(ks.len() as int) =~= node_entries(self@, ks@, mode));
        out
    }

    fn message_entries_exec(&self, ks: &Vec<MessageKey>, mode: SortMode) -> (r: Vec<(MessageKey, ExecSortKey)>)
        ensures
            entries_view(r@) == message_entries(self@, ks@, mode),
    {
        let mut out: Vec<(MessageKey, ExecSortKey)> = Vec::new();
        let mut i: usize = 0;
        while i < ks.len()
            invariant
                i <= ks.len(),
                entries_view(out@) == message_entries(self@, ks@, mode).take(i as int),
            decreases ks.len() - i,
        {
            let k: MessageKey = ks[i];
            let e: ExecSortKey = match self.get_message_by_key(k) {
                Some(m) => exec_key(true, m.name.as_str(), k.handle(), mode),
                None => exec_key(false, "", k.handle(), mode),
            };
            let ghost before = entries_view(out@);
            let ghost ev = e@;
            out.push((k, e));
            assert(entries_view(out@) =~= before.push((k, ev)));
            assert(message_entries(self@, ks@, mode).take(i + 1) =~= message_entries(self@, ks@, mode).take(
                i as int,
            ).push((k, ev)));
            i = i + 1;
        }
        assert(message_entries(self@, ks@, mode).take(ks.len() as int) =~= message_entries(self@, ks@, mode));
        out
    }

    fn signal_entries_exec(&self, ks: &Vec<SignalKey>, mode: SortMode) -> (r: Vec<(SignalKey, ExecSortKey)>)
        ensures
            entries_view(r@) == signal_entries(self@, ks@, mode),
    {
        let mut out: Vec<(SignalKey, ExecSortKey)> = Vec::new();
        let mut i: usize = 0;
        while i < ks.len()
            invariant
                i <= ks.len(),
                entries_view(out@) == signal_entries(self@, ks@, mode).take(i as int),
            decreases ks.len() - i,
        {
            let k: SignalKey = ks[i];
            let e: ExecSortKey = match self.get_sig_by_key(k) {
                Some(s) => exec_key(true, s.name.as_str(), k.handle(), mode),
                None => exec_key(false, "", k.handle(), mode),
            };
            let ghost before = entries_view(out@);
            let ghost ev = e@;
            out.push((k, e));
            assert(entries_view(out@) =~= before.push((k, ev)));
            assert(signal_entries(self@, ks@, mode).take(i + 1) =~= signal_entries(self@, ks@, mode).take(
                i as int,
            ).push((k, ev)));
            i = i + 1;
        }
        assert(signal_entries(self@, ks@, mode).take(ks.len() as int) =~= signal_entries(self@, ks@, mode));
        out
    }

    fn sent_signal_entries_exec(&self, ks: &Vec<SignalKey>, mode: SortMode) -> (r: Vec<(SignalKey, ExecSortKey)>)
        ensures
            entries_view(r@) == sent_signal_entries(self@, ks@, mode),
    {
        let mut out: Vec<(SignalKey, ExecSortKey)> = Vec::new();
        let mut i: usize = 0;
        while i < ks.len()
            invariant
                i <= ks.len(),
                entries_view(out@) == sent_signal_entries(self@, ks@, mode).take(i as int),
            decreases ks.len() - i,
        {
            let k: SignalKey = ks[i];
            let e: ExecSortKey = match self.get_sig_by_key(k) {
                Some(s) => match self.get_message_by_key(s.message) {
                    Some(m) => exec_key(true, m.name.as_str(), k.handle(), mode),
                    None => exec_key(false, "", k.handle(), mode),
                },
                None => exec_key(false, "", k.handle(), mode),
            };
            let ghost before = entries_view(out@);
            let ghost ev = e@;
            out.push((k, e));
            assert(entries_view(out@) =~= before.push((k, ev)));
            assert(sent_signal_entries(self@, ks@, mode).take(i + 1) =~= sent_signal_entries(self@, ks@, mode).take(
                i as int,
            ).push((k, ev)));
            i = i + 1;
        }
        assert(sent_signal_entries(self@, ks@, mode).take(ks.len() as int) =~= sent_signal_entries(self@, ks@, mode));
        out
    }

    /// The transmitted signals of a node in order (see [`tx_signals_sorted`]).
    fn tx_signals_sorted_exec(&self, ks: &Vec<SignalKey>, mode: SortMode) -> (r: Vec<SignalKey>)
        ensures
            r@ == tx_signals_sorted(self@, ks@, mode),
    {
        if mode == SortMode::Full {
            sort_entries(&self.sent_signal_entries_exec(ks, mode))
        } else {
            self.signals_by_name_exec(ks, mode)
        }
    }

    /// Node keys sorted by node name.
    pub fn nodes_by_name_exec(&self, ks: &Vec<NodeKey>, mode: SortMode) -> (r: Vec<NodeKey>)
        ensures
            r@ == nodes_by_name(self@, ks@, mode),
    {
        sort_entries(&self.node_entries_exec(ks, mode))
    }

    /// Message keys sorted by message name.
    pub fn messages_by_name_exec(&self, ks: &Vec<MessageKey>, mode: SortMode) -> (r: Vec<MessageKey>)
        ensures
            r@ == messages_by_name(self@, ks@, mode),
    {
        sort_entries(&self.message_entries_exec(ks, mode))
    }

    /// Signal keys sorted by signal name.
    pub fn signals_by_name_exec(&self, ks: &Vec<SignalKey>, mode: SortMode) -> (r: Vec<SignalKey>)
        ensures
            r@ == signals_by_name(self@, ks@, mode),
    {
        sort_entries(&self.signal_entries_exec(ks, mode))
    }

    /// Sorts the node order by node name (ASCII case ignored).
    pub fn sort_db_nodes_by_name(&mut self)
        requires
            old(self).wf(),
        ensures
            final(self).wf(),
            final(self).entity_count() == old(self).entity_count(),
            final(self)@ == (DatabaseView {
                nodes_order: nodes_by_name(old(self)@, old(self)@.nodes_order, SortMode::Ordered),
                ..old(self)@
            }),
    {
        let sorted: Vec<NodeKey> = self.nodes_by_name_exec(&self.nodes_order, SortMode::Ordered);
        proof {
            let e = node_entries(self@, self.nodes_order@, SortMode::Ordered);
            lemma_stable_sort_items(e);
            lemma_items_of_entries(self.nodes_order@, e);
        }
        self.nodes_order = sorted;
    }

    /// Sorts the message order by message name (ASCII case ignored).
    pub fn sort_db_messages_by_name(&mut self)
        requires
            old(self).wf(),
        ensures
            final(self).wf(),
            final(self).entity_count() == old(self).entity_count(),
            final(self)@ == (DatabaseView {
                messages_order: messages_by_name(old(self)@, old(self)@.messages_order, SortMode::Ordered),
                ..old(self)@
            }),
    {
        let sorted: Vec<MessageKey> = self.messages_by_name_exec(&self.messages_order, SortMode::Ordered);
        proof {
            let e = message_entries(self@, self.messages_order@, SortMode::Ordered);
            lemma_stable_sort_items(e);
            lemma_items_of_entries(self.messages_order@, e);
        }
        self.messages_order = sorted;
    }

    /// Sorts the signal order by signal name (ASCII case ignored).
    pub fn sort_db_signals_by_name(&mut self)
        requires
            old(self).wf(),
        ensures
            final(self).wf(),
            final(self).entity_count() == old(self).entity_count(),
            final(self)@ == (DatabaseView {
                signals_order: signals_by_name(old(self)@, old(self)@.signals_order, SortMode::Ordered),
                ..old(self)@
            }),
    {
        let sorted: Vec<SignalKey> = self.signals_by_name_exec(&self.signals_order, SortMode::Ordered);
        proof {
            let e = signal_entries(self@, self.signals_order@, SortMode::Ordered);
            lemma_stable_sort_items(e);
            lemma_items_of_entries(self.signals_order@, e);
        }
        self.signals_order = sorted;
    }

    /// Node `nk`, when present, takes the given lists.
    fn set_node_lists(&mut self, nk: NodeKey, ms: Vec<MessageKey>, tx: Vec<SignalKey>, rx: Vec<SignalKey>)
        requires
            old(self).wf(),
        ensures
            final(self).wf(),
            final(self).entity_count() == old(self).entity_count(),
            old(self)@.nodes.contains_key(nk) ==> final(self)@ == (DatabaseView {
                nodes: old(self)@.nodes.insert(
                    nk,
                    NodeView { messages_sent: ms@, tx_signals: tx@, rx_signals: rx@, ..old(self)@.nodes[nk] },
                ),
                ..old(self)@
            }),
            !old(self)@.nodes.contains_key(nk) ==> final(self)@ == old(self)@,
    {
        if self.get_node_by_key(nk).is_none() {
            return;
        }
        let ghost s0 = arena_slots(self.arena);
        let e: &mut Entity = arena_at_mut(&mut self.arena, nk.handle());
        match e {
            Entity::Node(n) => {
                n.messages_sent = ms;
                n.tx_signals = tx;
                n.rx_signals = rx;
            },
            _ => {},
        }
        proof {
            lemma_put_node(s0, nk, arena_slots(self.arena)[nk.h()]);
        }
    }

    /// Message `mk`, when present, takes the given lists.
    fn set_message_lists(&mut self, mk: MessageKey, senders: Vec<NodeKey>, receivers: Vec<NodeKey>, sigs: Vec<SignalKey>)
        requires
            old(self).wf(),
        ensures
            final(self).wf(),
            final(self).entity_count() == old(self).entity_count(),
            old(self)@.messages.contains_key(mk) ==> final(self)@ == (DatabaseView {
                messages: old(self)@.messages.insert(
                    mk,
                    MessageView {
                        sender_nodes: senders@,
                        receiver_nodes: receivers@,
                        signals: sigs@,
                        ..old(self)@.messages[mk]
                    },
                ),
                ..old(self)@
            }),
            !old(self)@.messages.contains_key(mk) ==> final(self)@ == old(self)@,
    {
        if self.get_message_by_key(mk).is_none() {
            return;
        }
        let ghost s0 = arena_slots(self.arena);
        let e: &mut Entity = arena_at_mut(&mut self.arena, mk.handle());
        match e {
            Entity::Message(m) => {
                m.sender_nodes = senders;
                m.receiver_nodes = receivers;
                m.signals = sigs;
            },
            _ => {},
        }
        proof {
            lemma_put_message(s0, mk, arena_slots(self.arena)[mk.h()]);
        }
    }

    /// Signal `sk`, when present, takes the given receivers.
    fn set_signal_receivers(&mut self, sk: SignalKey, ns: Vec<NodeKey>)
        requires
            old(self).wf(),
        ensures
            final(self).wf(),
            final(self).entity_count() == old(self).entity_count(),
            old(self)@.signals.contains_key(sk) ==> final(self)@ == (DatabaseView {
                signals: old(self)@.signals.insert(sk, SignalView { receiver_nodes: ns@, ..old(self)@.signals[sk] }),
                ..old(self)@
            }),
            !old(self)@.signals.contains_key(sk) ==> final(self)@ == old(self)@,
    {
        if self.get_sig_by_key(sk).is_none() {
            return;
        }
        let ghost s0 = arena_slots(self.arena);
        let e: &mut Entity = arena_at_mut(&mut self.arena, sk.handle());
        match e {
            Entity::Signal(g) => {
                g.receiver_nodes = ns;
            },
            _ => {},
        }
        proof {
            lemma_put_signal(s0, sk, arena_slots(self.arena)[sk.h()]);
        }
    }

    fn sort_node_lists(&mut self, nk: NodeKey, mode: SortMode)
        requires
            old(self).wf(),
        ensures
            final(self).wf(),
            final(self).entity_count() == old(self).entity_count(),
            old(self)@.nodes.contains_key(nk) ==> final(self)@ == (DatabaseView {
                nodes: old(self)@.nodes.insert(nk, node_lists_sorted(old(self)@, old(self)@.nodes[nk], mode)),
                ..old(self)@
            }),
            !old(self)@.nodes.contains_key(nk) ==> final(self)@ == old(self)@,
    {
        let (ms, tx, rx) = match self.get_node_by_key(nk) {
            None => return,
            Some(n) => (
                self.messages_by_name_exec(&n.messages_sent, mode),
                self.tx_signals_sorted_exec(&n.tx_signals, mode),
                self.signals_by_name_exec(&n.rx_signals, mode),
            ),
        };
        self.set_node_lists(nk, ms, tx, rx);
    }

    fn sort_message_lists(&mut self, mk: MessageKey, mode: SortMode)
        requires
            old(self).wf(),
        ensures
            final(self).wf(),
            final(self).entity_count() == old(self).entity_count(),
            old(self)@.messages.contains_key(mk) ==> final(self)@ == (DatabaseView {
                messages: old(self)@.messages.insert(
                    mk,
                    message_lists_sorted(old(self)@, old(self)@.messages[mk], mode),
                ),
                ..old(self)@
            }),
            !old(self)@.messages.contains_key(mk) ==> final(self)@ == old(self)@,
    {
        let (senders, receivers, sigs) = match self.get_message_by_key(mk) {
            None => return,
            Some(m) => (
                self.nodes_by_name_exec(&m.sender_nodes, mode),
                self.nodes_by_name_exec(&m.receiver_nodes, mode),
                self.signals_by_name_exec(&m.signals, mode),
            ),
        };
        self.set_message_lists(mk, senders, receivers, sigs);
    }

    fn sort_signal_lists(&mut self, sk: SignalKey, mode: SortMode)
        requires
            old(self).wf(),
        ensures
            final(self).wf(),
            final(self).entity_count() == old(self).entity_count(),
            old(self)@.signals.contains_key(sk) ==> final(self)@ == (DatabaseView {
                signals: old(self)@.signals.insert(sk, signal_lists_sorted(old(self)@, old(self)@.signals[sk], mode)),
                ..old(self)@
            }),
            !old(self)@.signals.contains_key(sk) ==> final(self)@ == old(self)@,
    {
        let ns = match self.get_sig_by_key(sk) {
            None => return,
            Some(s) => self.nodes_by_name_exec(&s.receiver_nodes, mode),
        };
        self.set_signal_receivers(sk, ns);
    }

    /// Sorts the sent messages and the transmitted and received signals of
    /// node `node_key` by name (ASCII case ignored; keys of nothing count as
    /// named by the empty text).
    pub fn sort_node_fields(&mut self, node_key: NodeKey)
        requires
            old(self).wf(),
        ensures
            final(self).wf(),
            final(self).entity_count() == old(self).entity_count(),
            old(self)@.nodes.contains_key(node_key) ==> final(self)@ == (DatabaseView {
                nodes: old(self)@.nodes.insert(
                    node_key,
                    node_lists_sorted(old(self)@, old(self)@.nodes[node_key], SortMode::Field),
                ),
                ..old(self)@
            }),
            !old(self)@.nodes.contains_key(node_key) ==> final(self)@ == old(self)@,
    {
        self.sort_node_lists(node_key, SortMode::Field);
    }

    /// Sorts the senders, receivers and signals of message `msg_key` by name
    /// (ASCII case ignored; keys of nothing count as named by the empty text).
    pub fn sort_message_fields(&mut self, msg_key: MessageKey)
        requires
            old(self).wf(),
        ensures
            final(self).wf(),
            final(self).entity_count() == old(self).entity_count(),
            old(self)@.messages.contains_key(msg_key) ==> final(self)@ == (DatabaseView {
                messages: old(self)@.messages.insert(
                    msg_key,
                    message_lists_sorted(old(self)@, old(self)@.messages[msg_key], SortMode::Field),
                ),
                ..old(self)@
            }),
            !old(self)@.messages.contains_key(msg_key) ==> final(self)@ == old(self)@,
    {
        self.sort_message_lists(msg_key, SortMode::Field);
    }

    /// Sorts the receivers of signal `sig_key` by name (ASCII case ignored;
    /// keys of nothing count as named by the empty text).
    pub fn sort_signal_fields(&mut self, sig_key: SignalKey)
        requires
            old(self).wf(),
        ensures
            final(self).wf(),
            final(self).entity_count() == old(self).entity_count(),
            old(self)@.signals.contains_key(sig_key) ==> final(self)@ == (DatabaseView {
                signals: old(self)@.signals.insert(
                    sig_key,
                    signal_lists_sorted(old(self)@, old(self)@.signals[sig_key], SortMode::Field),
                ),
                ..old(self)@
            }),
            !old(self)@.signals.contains_key(sig_key) ==> final(self)@ == old(self)@,
    {
        self.sort_signal_lists(sig_key, SortMode::Field);
    }

    /// For every node, sorts its sent messages by message name, its
    /// transmitted signals by the name of each signal's message, and its
    /// received signals by signal name (ASCII case ignored); keys of nothing
    /// go last and ties are broken by slot order.
    pub fn sort_all_node_fields(&mut self)
        requires
            old(self).wf(),
        ensures
            final(self).wf(),
            final(self).entity_count() == old(self).entity_count(),
            final(self)@ == (DatabaseView {
                nodes: Map::new(
                    |k: NodeKey| old(self)@.nodes.contains_key(k),
                    |k: NodeKey| node_lists_sorted(old(self)@, old(self)@.nodes[k], SortMode::Full),
                ),
                ..old(self)@
            }),
    {
        let ghost d0 = self@;
        let order: Vec<NodeKey> = crate::dbc::types::keys::copy_keys(&self.nodes_order);
        let mut i: usize = 0;
        assert(d0.nodes =~= Map::new(
            |k: NodeKey| d0.nodes.contains_key(k),
            |k: NodeKey| if order@.take(0).contains(k) {
                node_lists_sorted(d0, d0.nodes[k], SortMode::Full)
            } else {
                d0.nodes[k]
            },
        ));
        while i < order.len()
            invariant
                i <= order.len(),
                self.wf(),
                self.entity_count() == old(self).entity_count(),
                d0 == old(self)@,
                order@ == d0.nodes_order,
                order@.no_duplicates(),
                forall|k: NodeKey| #[trigger] order@.contains(k) <==> d0.nodes.contains_key(k),
                self@ == (DatabaseView {
                    nodes: Map::new(
                        |k: NodeKey| d0.nodes.contains_key(k),
                        |k: NodeKey| if order@.take(i as int).contains(k) {
                            node_lists_sorted(d0, d0.nodes[k], SortMode::Full)
                        } else {
                            d0.nodes[k]
                        },
                    ),
                    ..d0
                }),
            decreases order.len() - i,
        {
            let k: NodeKey = order[i];
            assert(order@.contains(k));
            let ghost before = self@;
            assert(!order@.take(i as int).contains(k)) by {
                if order@.take(i as int).contains(k) {
                    let t0 = order@.take(i as int);
                    let j = choose|j: int| 0 <= j < t0.len() && #[trigger] t0[j] == k;
                    assert(order@[j] == order@[i as int]);
                }
            }
            assert(node_lists_sorted(before, before.nodes[k], SortMode::Full) == node_lists_sorted(
                d0,
                d0.nodes[k],
                SortMode::Full,
            ));
            self.sort_node_lists(k, SortMode::Full);
            assert(self@.nodes =~= Map::new(
                |k2: NodeKey| d0.nodes.contains_key(k2),
                |k2: NodeKey| if order@.take(i + 1).contains(k2) {
                    node_lists_sorted(d0, d0.nodes[k2], SortMode::Full)
                } else {
                    d0.nodes[k2]
                },
            )) by {
                let ghost t0 = order@.take(i as int);
                let ghost t1 = order@.take(i + 1);
                assert(t1 =~= t0.push(k));
                assert forall|k2: NodeKey| #[trigger] t1.contains(k2) <==> (t0.contains(k2) || k2 == k) by {
                    if t1.contains(k2) {
                        let j = choose|j: int| 0 <= j < t1.len() && #[trigger] t1[j] == k2;
                        if j < i {
                            assert(t0[j] == k2);
                        }
                    }
                    if t0.contains(k2) {
                        let j = choose|j: int| 0 <= j < t0.len() && #[trigger] t0[j] == k2;
                        assert(t1[j] == k2);
                    }
                    if k2 == k {
                        assert(t1[i as int] == k2);
                    }
                }
            }
            i = i + 1;
        }
        assert(self@.nodes =~= Map::new(
            |k: NodeKey| d0.nodes.contains_key(k),
            |k: NodeKey| node_lists_sorted(d0, d0.nodes[k], SortMode::Full),
        )) by {
            assert(order@.take(order.len() as int) =~= order@);
        }
    }
    /// For every message, sorts its senders, receivers and signals by name
    /// (ASCII case ignored); keys of nothing go last and ties are broken by
    /// slot order.
    pub fn sort_all_message_fields(&mut self)
        requires
            old(self).wf(),
        ensures
            final(self).wf(),
            final(self).entity_count() == old(self).entity_count(),
            final(self)@ == (DatabaseView {
                messages: Map::new(
                    |k: MessageKey| old(self)@.messages.contains_key(k),
                    |k: MessageKey| message_lists_sorted(old(self)@, old(self)@.messages[k], SortMode::Full),
                ),
                ..old(self)@
            }),
    {
        let ghost d0 = self@;
        let order: Vec<MessageKey> = crate::dbc::types::keys::copy_keys(&self.messages_order);
        let mut i: usize = 0;
        assert(d0.messages =~= Map::new(
            |k: MessageKey| d0.messages.contains_key(k),
            |k: MessageKey| if order@.take(0).contains(k) {
                message_lists_sorted(d0, d0.messages[k], SortMode::Full)
            } else {
                d0.messages[k]
            },
        ));
        while i < order.len()
            invariant
                i <= order.len(),
                self.wf(),
                self.entity_count() == old(self).entity_count(),
                d0 == old(self)@,
                order@ == d0.messages_order,
                order@.no_duplicates(),
                forall|k: MessageKey| #[trigger] order@.contains(k) <==> d0.messages.contains_key(k),
                self@ == (DatabaseView {
                    messages: Map::new(
                        |k: MessageKey| d0.messages.contains_key(k),
                        |k: MessageKey| if order@.take(i as int).contains(k) {
                            message_lists_sorted(d0, d0.messages[k], SortMode::Full)
                        } else {
                            d0.messages[k]
                        },
                    ),
                    ..d0
                }),
            decreases order.len() - i,
        {
            let k: MessageKey = order[i];
            assert(order@.contains(k));
            let ghost before = self@;
            assert(!order@.take(i as int).contains(k)) by {
                if order@.take(i as int).contains(k) {
                    let t0 = order@.take(i as int);
                    let j = choose|j: int| 0 <= j < t0.len() && #[trigger] t0[j] == k;
                    assert(order@[j] == order@[i as int]);
                }
            }
            assert(message_lists_sorted(before, before.messages[k], SortMode::Full) == message_lists_sorted(
                d0,
                d0.messages[k],
                SortMode::Full,
            ));
            self.sort_message_lists(k, SortMode::Full);
            assert(self@.messages =~= Map::new(
                |k2: MessageKey| d0.messages.contains_key(k2),
                |k2: MessageKey| if order@.take(i + 1).contains(k2) {
                    message_lists_sorted(d0, d0.messages[k2], SortMode::Full)
                } else {
                    d0.messages[k2]
                },
            )) by {
                let ghost t0 = order@.take(i as int);
                let ghost t1 = order@.take(i + 1);
                assert(t1 =~= t0.push(k));
                assert forall|k2: MessageKey| #[trigger] t1.contains(k2) <==> (t0.contains(k2) || k2 == k) by {
                    if t1.contains(k2) {
                        let j = choose|j: int| 0 <= j < t1.len() && #[trigger] t1[j] == k2;
                        if j < i {
                            assert(t0[j] == k2);
                        }
                    }
                    if t0.contains(k2) {
                        let j = choose|j: int| 0 <= j < t0.len() && #[trigger] t0[j] == k2;
                        assert(t1[j] == k2);
                    }
                    if k2 == k {
                        assert(t1[i as int] == k2);
                    }
                }
            }
            i = i + 1;
        }
        assert(self@.messages =~= Map::new(
            |k: MessageKey| d0.messages.contains_key(k),
            |k: MessageKey| message_lists_sorted(d0, d0.messages[k], SortMode::Full),
        )) by {
            assert(order@.take(order.len() as int) =~= order@);
        }
    }

    /// For every signal, sorts its receivers by name (ASCII case ignored);
    /// keys of nothing go last and ties are broken by slot order.
    pub fn sort_all_signal_fields(&mut self)
        requires
            old(self).wf(),
        ensures
            final(self).wf(),
            final(self).entity_count() == old(self).entity_count(),
            final(self)@ == (DatabaseView {
                signals: Map::new(
                    |k: SignalKey| old(self)@.signals.contains_key(k),
                    |k: SignalKey| signal_lists_sorted(old(self)@, old(self)@.signals[k], SortMode::Full),
                ),
                ..old(self)@
            }),
    {
        let ghost d0 = self@;
        let order: Vec<SignalKey> = crate::dbc::types::keys::copy_keys(&self.signals_order);
        let mut i: usize = 0;
        assert(d0.signals =~= Map::new(
            |k: SignalKey| d0.signals.contains_key(k),
            |k: SignalKey| if order@.take(0).contains(k) {
                signal_lists_sorted(d0, d0.signals[k], SortMode::Full)
            } else {
                d0.signals[k]
            },
        ));
        while i < order.len()
            invariant
                i <= order.len(),
                self.wf(),
                self.entity_count() == old(self).entity_count(),
                d0 == old(self)@,
                order@ == d0.signals_order,
                order@.no_duplicates(),
                forall|k: SignalKey| #[trigger] order@.contains(k) <==> d0.signals.contains_key(k),
                self@ == (DatabaseView {
                    signals: Map::new(
                        |k: SignalKey| d0.signals.contains_key(k),
                        |k: SignalKey| if order@.take(i as int).contains(k) {
                            signal_lists_sorted(d0, d0.signals[k], SortMode::Full)
                        } else {
                            d0.signals[k]
                        },
                    ),
                    ..d0
                }),
            decreases order.len() - i,
        {
            let k: SignalKey = order[i];
            assert(order@.contains(k));
            let ghost before = self@;
            assert(!order@.take(i as int).contains(k)) by {
                if order@.take(i as int).contains(k) {
                    let t0 = order@.take(i as int);
                    let j = choose|j: int| 0 <= j < t0.len() && #[trigger] t0[j] == k;
                    assert(order@[j] == order@[i as int]);
                }
            }
            assert(signal_lists_sorted(before, before.signals[k], SortMode::Full) == signal_lists_sorted(
                d0,
                d0.signals[k],
                SortMode::Full,
            ));
            self.sort_signal_lists(k, SortMode::Full);
            assert(self@.signals =~= Map::new(
                |k2: SignalKey| d0.signals.contains_key(k2),
                |k2: SignalKey| if order@.take(i + 1).contains(k2) {
                    signal_lists_sorted(d0, d0.signals[k2], SortMode::Full)
                } else {
                    d0.signals[k2]
                },
            )) by {
                let ghost t0 = order@.take(i as int);
                let ghost t1 = order@.take(i + 1);
                assert(t1 =~= t0.push(k));
                assert forall|k2: SignalKey| #[trigger] t1.contains(k2) <==> (t0.contains(k2) || k2 == k) by {
                    if t1.contains(k2) {
                        let j = choose|j: int| 0 <= j < t1.len() && #[trigger] t1[j] == k2;
                        if j < i {
                            assert(t0[j] == k2);
                        }
                    }
                    if t0.contains(k2) {
                        let j = choose|j: int| 0 <= j < t0.len() && #[trigger] t0[j] == k2;
                        assert(t1[j] == k2);
                    }
                    if k2 == k {
                        assert(t1[i as int] == k2);
                    }
                }
            }
            i = i + 1;
        }
        assert(self@.signals =~= Map::new(
            |k: SignalKey| d0.signals.contains_key(k),
            |k: SignalKey| signal_lists_sorted(d0, d0.signals[k], SortMode::Full),
        )) by {
            assert(order@.take(order.len() as int) =~= order@);
        }
    }

}

} // verus!
