//! In-place access to the entities of the keyed database, and the entities
//! in presentation order.
use vstd::prelude::*;
use crate::dbc::types::arena::{arena_at_mut, arena_get, arena_handles, arena_slots, slot_index};
use crate::dbc::types::database::messages::{entry, message_at, normalized_id_hex};
use crate::dbc::types::database::nodes::node_named;
use crate::dbc::types::database::{lemma_put_message, lemma_put_node, lemma_put_signal, DatabaseDBC, DatabaseView};
use crate::dbc::types::entities::{Entity, MessageDBC, MessageView, NodeDBC, NodeView, SignalDBC, SignalView};
use crate::dbc::types::keys::{handle_ok_exec, MessageKey, NodeKey, SignalKey};
use crate::text::unicode_lowercase;

verus! {

/// The database with the node under `k` replaced by `n`.
pub open spec fn node_replaced(d: DatabaseView, k: NodeKey, n: NodeView) -> DatabaseView {
    DatabaseView { nodes: d.nodes.insert(k, n), ..d }
}

/// The database with the message under `k` replaced by `m`.
pub open spec fn message_replaced(d: DatabaseView, k: MessageKey, m: MessageView) -> DatabaseView {
    DatabaseView { messages: d.messages.insert(k, m), ..d }
}

/// The database with the signal under `k` replaced by `s`.
pub open spec fn signal_replaced(d: DatabaseView, k: SignalKey, s: SignalView) -> DatabaseView {
    DatabaseView { signals: d.signals.insert(k, s), ..d }
}

/// The signal key a lookup gives, when the signal exists.
pub open spec fn signal_at(db: DatabaseView, k: Option<SignalKey>) -> Option<SignalKey> {
    match k {
        Some(sk) => if db.signals.contains_key(sk) {
            Some(sk)
        } else {
            None
        },
        None => None,
    }
}

/// The values `m` holds under the keys of `ks`, in order.
pub open spec fn present<K, V>(m: Map<K, V>, ks: Seq<K>) -> Seq<V>
    decreases ks.len(),
{
    if ks.len() == 0 {
        seq![]
    } else if m.contains_key(ks.last()) {
        present(m, ks.drop_last()).push(m[ks.last()])
    } else {
        present(m, ks.drop_last())
    }
}

/// Keys in increasing slot index.
pub open spec fn ascending_slots(hs: Seq<u64>) -> bool {
    forall|i: int, j: int| 0 <= i < j < hs.len() ==> slot_index(#[trigger] hs[i]) < slot_index(#[trigger] hs[j])
}

/// The handles of message keys.
pub open spec fn message_handles(ks: Seq<MessageKey>) -> Seq<u64> {
    ks.map_values(|k: MessageKey| k.h())
}

/// The handles of signal keys.
pub open spec fn signal_handles(ks: Seq<SignalKey>) -> Seq<u64> {
    ks.map_values(|k: SignalKey| k.h())
}

/// `ks` lists every message of `db`, once, in increasing slot index (the
/// order of the slots, which is insertion order as long as no message was
/// deleted).
pub open spec fn messages_in_slot_order(db: DatabaseView, ks: Seq<MessageKey>) -> bool {
    &&& ks.no_duplicates()
    &&& forall|k: MessageKey| #[trigger] ks.contains(k) <==> db.messages.contains_key(k)
    &&& ascending_slots(message_handles(ks))
}

/// `ks` lists every signal of `db`, once, in increasing slot index.
pub open spec fn signals_in_slot_order(db: DatabaseView, ks: Seq<SignalKey>) -> bool {
    &&& ks.no_duplicates()
    &&& forall|k: SignalKey| #[trigger] ks.contains(k) <==> db.signals.contains_key(k)
    &&& ascending_slots(signal_handles(ks))
}

/// A value held under a key of `ks` is among the present values.
pub proof fn lemma_present_contains<K, V>(m: Map<K, V>, ks: Seq<K>, k: K)
    requires
        ks.contains(k),
        m.contains_key(k),
    ensures
        present(m, ks).contains(m[k]),
    decreases ks.len(),
{
    if ks.last() == k {
        assert(present(m, ks).last() == m[k]);
    } else {
        let t = choose|t: int| 0 <= t < ks.len() && ks[t] == k;
        assert(ks.drop_last()[t] == k);
        lemma_present_contains(m, ks.drop_last(), k);
        let j = choose|j: int| 0 <= j < present(m, ks.drop_last()).len() && present(m, ks.drop_last())[j] == m[k];
        if m.contains_key(ks.last()) {
            assert(present(m, ks)[j] == m[k]);
        }
    }
}

/// The views of borrowed nodes.
pub open spec fn node_refs_view(v: Seq<&NodeDBC>) -> Seq<NodeView> {
    v.map_values(|n: &NodeDBC| n@)
}

/// The views of borrowed messages.
pub open spec fn message_refs_view(v: Seq<&MessageDBC>) -> Seq<MessageView> {
    v.map_values(|m: &MessageDBC| m@)
}

/// The views of borrowed signals.
pub open spec fn signal_refs_view(v: Seq<&SignalDBC>) -> Seq<SignalView> {
    v.map_values(|s: &SignalDBC| s@)
}

impl DatabaseDBC {
    /// The node addressed by `key`, to be modified in place.
    pub fn get_node_by_key_mut(&mut self, key: NodeKey) -> (r: Option<&mut NodeDBC>)
        ensures
            old(self)@.nodes.contains_key(key) ==> (r matches Some(n) && n@ == old(self)@.nodes[key] && final(self)@
                == node_replaced(old(self)@, key, final(n)@)),
            !old(self)@.nodes.contains_key(key) ==> r is None && final(self)@ == old(self)@,
            final(self).entity_count() == old(self).entity_count(),
            old(self).wf() ==> final(self).wf(),
    {
        if !handle_ok_exec(key.handle()) {
            return None;
        }
        match arena_get(&self.arena, key.handle()) {
            Some(Entity::Node(_)) => {},
            _ => return None,
        }
        let ghost s0 = arena_slots(self.arena);
        let e: &mut Entity = arena_at_mut(&mut self.arena, key.handle());
        match e {
            Entity::Node(n) => {
                proof {
                    lemma_put_node(s0, key, Entity::Node(*final(n)));
                    assert(s0.insert(key.h(), Entity::Node(*final(n))).dom() =~= s0.dom());
                }
                Some(n)
            },
            _ => None,
        }
    }

    /// The node named `name` (ignoring case), to be modified in place.
    pub fn get_node_by_name_mut(&mut self, name: &str) -> (r: Option<&mut NodeDBC>)
        ensures
            node_named(old(self)@, name@) matches Some(k) ==> (r matches Some(n) && n@ == old(self)@.nodes[k]
                && final(self)@ == node_replaced(old(self)@, k, final(n)@)),
            node_named(old(self)@, name@) is None ==> r is None && final(self)@ == old(self)@,
            final(self).entity_count() == old(self).entity_count(),
            old(self).wf() ==> final(self).wf(),
    {
        match self.get_node_key_by_name(name) {
            None => None,
            Some(k) => self.get_node_by_key_mut(k),
        }
    }

    /// The message addressed by `key`, to be modified in place.
    pub fn get_message_by_key_mut(&mut self, key: MessageKey) -> (r: Option<&mut MessageDBC>)
        ensures
            old(self)@.messages.contains_key(key) ==> (r matches Some(m) && m@ == old(self)@.messages[key] && final(self)@
                == message_replaced(old(self)@, key, final(m)@)),
            !old(self)@.messages.contains_key(key) ==> r is None && final(self)@ == old(self)@,
            final(self).entity_count() == old(self).entity_count(),
            old(self).wf() ==> final(self).wf(),
    {
        if !handle_ok_exec(key.handle()) {
            return None;
        }
        match arena_get(&self.arena, key.handle()) {
            Some(Entity::Message(_)) => {},
            _ => return None,
        }
        let ghost s0 = arena_slots(self.arena);
        let e: &mut Entity = arena_at_mut(&mut self.arena, key.handle());
        match e {
            Entity::Message(m) => {
                proof {
                    lemma_put_message(s0, key, Entity::Message(*final(m)));
                    assert(s0.insert(key.h(), Entity::Message(*final(m))).dom() =~= s0.dom());
                }
                Some(m)
            },
            _ => None,
        }
    }

    /// The message with identifier `id`, to be modified in place.
    pub fn get_message_by_id_mut(&mut self, id: u32) -> (r: Option<&mut MessageDBC>)
        ensures
            message_at(old(self)@, entry(old(self)@.msg_by_id, id)) matches Some(k) ==> (r matches Some(m) && m@
                == old(self)@.messages[k] && final(self)@ == message_replaced(old(self)@, k, final(m)@)),
            message_at(old(self)@, entry(old(self)@.msg_by_id, id)) is None ==> r is None && final(self)@ == old(self)@,
            final(self).entity_count() == old(self).entity_count(),
            old(self).wf() ==> final(self).wf(),
    {
        match self.get_msg_key_by_id(&id) {
            None => None,
            Some(k) => self.get_message_by_key_mut(k),
        }
    }

    /// The message with hexadecimal identifier `id_hex` (normalised as
    /// [`normalized_id_hex`] says), to be modified in place.
    pub fn get_message_by_id_hex_mut(&mut self, id_hex: &str) -> (r: Option<&mut MessageDBC>)
        ensures
            message_at(old(self)@, entry(old(self)@.msg_by_hex, normalized_id_hex(id_hex@))) matches Some(k) ==> (r matches Some(m) && m@
                == old(self)@.messages[k] && final(self)@ == message_replaced(old(self)@, k, final(m)@)),
            message_at(old(self)@, entry(old(self)@.msg_by_hex, normalized_id_hex(id_hex@))) is None ==> r is None && final(self)@
                == old(self)@,
            final(self).entity_count() == old(self).entity_count(),
            old(self).wf() ==> final(self).wf(),
    {
        match self.get_msg_key_by_id_hex(id_hex) {
            None => None,
            Some(k) => self.get_message_by_key_mut(k),
        }
    }

    /// The message named `name` (ignoring case), to be modified in place.
    pub fn get_message_by_name_mut(&mut self, name: &str) -> (r: Option<&mut MessageDBC>)
        ensures
            message_at(old(self)@, entry(old(self)@.msg_by_name, unicode_lowercase(name@))) matches Some(k) ==> (r matches Some(
                m,
            ) && m@ == old(self)@.messages[k] && final(self)@ == message_replaced(old(self)@, k, final(m)@)),
            message_at(old(self)@, entry(old(self)@.msg_by_name, unicode_lowercase(name@))) is None ==> r is None
                && final(self)@ == old(self)@,
            final(self).entity_count() == old(self).entity_count(),
            old(self).wf() ==> final(self).wf(),
    {
        match self.get_msg_key_by_name(name) {
            None => None,
            Some(k) => self.get_message_by_key_mut(k),
        }
    }

    /// The signal addressed by `key`, to be modified in place.
    pub fn get_sig_by_key_mut(&mut self, key: SignalKey) -> (r: Option<&mut SignalDBC>)
        ensures
            old(self)@.signals.contains_key(key) ==> (r matches Some(s) && s@ == old(self)@.signals[key] && final(self)@
                == signal_replaced(old(self)@, key, final(s)@)),
            !old(self)@.signals.contains_key(key) ==> r is None && final(self)@ == old(self)@,
            final(self).entity_count() == old(self).entity_count(),
            old(self).wf() ==> final(self).wf(),
    {
        if !handle_ok_exec(key.handle()) {
            return None;
        }
        match arena_get(&self.arena, key.handle()) {
            Some(Entity::Signal(_)) => {},
            _ => return None,
        }
        let ghost s0 = arena_slots(self.arena);
        let e: &mut Entity = arena_at_mut(&mut self.arena, key.handle());
        match e {
            Entity::Signal(s) => {
                proof {
                    lemma_put_signal(s0, key, Entity::Signal(*final(s)));
                    assert(s0.insert(key.h(), Entity::Signal(*final(s))).dom() =~= s0.dom());
                }
                Some(s)
            },
            _ => None,
        }
    }

    /// The signal named `name` (ignoring case), to be modified in place.
    pub fn get_signal_by_name_mut(&mut self, name: &str) -> (r: Option<&mut SignalDBC>)
        ensures
            signal_at(old(self)@, entry(old(self)@.sig_by_name, unicode_lowercase(name@))) matches Some(k) ==> (r matches Some(
                s,
            ) && s@ == old(self)@.signals[k] && final(self)@ == signal_replaced(old(self)@, k, final(s)@)),
            signal_at(old(self)@, entry(old(self)@.sig_by_name, unicode_lowercase(name@))) is None ==> r is None
                && final(self)@ == old(self)@,
            final(self).entity_count() == old(self).entity_count(),
            old(self).wf() ==> final(self).wf(),
    {
        match self.get_sig_key_by_name(name) {
            None => None,
            Some(k) => self.get_sig_by_key_mut(k),
        }
    }

    /// The nodes in presentation order.
    pub fn iter_nodes(&self) -> (r: Vec<&NodeDBC>)
        ensures
            node_refs_view(r@) == present(self@.nodes, self@.nodes_order),
    {
        let ghost ks = self@.nodes_order;
        let mut r: Vec<&NodeDBC> = Vec::new();
        let mut i: usize = 0;
        while i < self.nodes_order.len()
            invariant
                i <= self.nodes_order.len(),
                ks == self.nodes_order@,
                node_refs_view(r@) == present(self@.nodes, ks.take(i as int)),
            decreases self.nodes_order.len() - i,
        {
            assert(ks.take(i + 1).drop_last() =~= ks.take(i as int));
            let ghost before = node_refs_view(r@);
            match self.get_node_by_key(self.nodes_order[i]) {
                Some(n) => {
                    r.push(n);
                    assert(node_refs_view(r@) =~= before.push(n@));
                },
                None => {},
            }
            i = i + 1;
        }
        assert(ks.take(ks.len() as int) =~= ks);
        r
    }

    /// Every message in increasing slot index.
    fn messages_by_slot(&self) -> (r: Vec<&MessageDBC>)
        ensures
            exists|ks: Seq<MessageKey>| #[trigger] messages_in_slot_order(self@, ks) && message_refs_view(r@) == present(self@.messages, ks),
    {
        broadcast use MessageKey::lemma_h_injective;
        let hs: Vec<u64> = arena_handles(&self.arena);
        let mut r: Vec<&MessageDBC> = Vec::new();
        let ghost mut ks: Seq<MessageKey> = seq![];
        let mut i: usize = 0;
        while i < hs.len()
            invariant
                i <= hs.len(),
                hs@.no_duplicates(),
                forall|h: u64| #[trigger] hs@.contains(h) <==> arena_slots(self.arena).contains_key(h),
                ascending_slots(hs@),
                message_refs_view(r@) == present(self@.messages, ks),
                forall|k: MessageKey| #[trigger] ks.contains(k) <==> (self@.messages.contains_key(k) && hs@.take(i as int).contains(k.h())),
                ks.no_duplicates(),
                ascending_slots(message_handles(ks)),
                i < hs.len() ==> forall|t: int| 0 <= t < ks.len() ==> slot_index(#[trigger] ks[t].h()) < slot_index(hs@[i as int]),
            decreases hs.len() - i,
        {
            let h: u64 = hs[i];
            let ghost ks0 = ks;
            proof {
                assert(hs@.take(i + 1) =~= hs@.take(i as int).push(h));
                assert(!hs@.take(i as int).contains(h)) by {
                    if hs@.take(i as int).contains(h) {
                        let u = choose|u: int| 0 <= u < i && #[trigger] hs@.take(i as int)[u] == h;
                        assert(hs@[u] == hs@[i as int]);
                    }
                }
            }
            let ghost mut added: Option<MessageKey> = None;
            if handle_ok_exec(h) {
                let k: MessageKey = MessageKey::from_handle(h);
                proof {
                    assert forall|k2: MessageKey| k2.h() == h implies k2 == k by {
                        MessageKey::lemma_h_injective(k2, k);
                    }
                }
                match self.get_message_by_key(k) {
                    Some(m) => {
                        let ghost before = message_refs_view(r@);
                        r.push(m);
                        proof {
                            added = Some(k);
                            ks = ks.push(k);
                            assert(ks == ks0.push(k));
                            assert(message_refs_view(r@) =~= before.push(m@));
                            assert(ks.drop_last() =~= ks0);
                        }
                    },
                    None => {},
                }
            }
            assert(added is None ==> ks == ks0);
            assert(forall|k2: MessageKey| #![auto] added is None && k2.h() == h ==> !self@.messages.contains_key(k2)) by {
                broadcast use MessageKey::lemma_h_injective;
            }
            proof {
                assert forall|k2: MessageKey| #[trigger] ks.contains(k2) <==> (self@.messages.contains_key(k2) && hs@.take(i + 1).contains(k2.h())) by {
                    if k2.h() == h {
                        assert(!ks0.contains(k2));
                        match added {
                            Some(ka) => {
                                assert(ks == ks0.push(ka));
                                assert(ka.h() == h);
                                MessageKey::lemma_h_injective(ka, k2);
                                assert(ka == k2);
                                assert(self@.messages.contains_key(k2));
                                assert(ks[ks.len() - 1] == k2);
                                assert(hs@.take(i + 1)[i as int] == h);
                            },
                            None => {
                                assert(ks == ks0);
                                assert(!self@.messages.contains_key(k2));
                            },
                        }
                    } else {
                        if ks.contains(k2) && !ks0.contains(k2) {
                            let t = choose|t: int| 0 <= t < ks.len() && #[trigger] ks[t] == k2;
                            if t < ks0.len() {
                                assert(ks0[t] == k2);
                            }
                        }
                        if ks0.contains(k2) {
                            let t = choose|t: int| 0 <= t < ks0.len() && #[trigger] ks0[t] == k2;
                            assert(ks[t] == k2);
                        }
                        if hs@.take(i + 1).contains(k2.h()) {
                            let u = choose|u: int| 0 <= u < i + 1 && #[trigger] hs@.take(i + 1)[u] == k2.h();
                            assert(u < i);
                            assert(hs@.take(i as int)[u] == k2.h());
                        }
                        if hs@.take(i as int).contains(k2.h()) {
                            let u = choose|u: int| 0 <= u < i && #[trigger] hs@.take(i as int)[u] == k2.h();
                            assert(hs@.take(i + 1)[u] == k2.h());
                        }
                    }
                }
                if i + 1 < hs.len() {
                    assert(slot_index(hs@[i as int]) < slot_index(hs@[i + 1]));
                    assert forall|t: int| 0 <= t < ks.len() implies slot_index(#[trigger] ks[t].h()) < slot_index(hs@[i + 1]) by {
                        if t < ks0.len() {
                            assert(ks[t] == ks0[t]);
                        }
                    }
                }
                assert forall|a: int, b: int| 0 <= a < b < ks.len() implies slot_index(#[trigger] message_handles(ks)[a]) < slot_index(#[trigger] message_handles(ks)[b]) by {
                    if b < ks0.len() {
                        assert(ks[a] == ks0[a] && ks[b] == ks0[b]);
                        assert(message_handles(ks0)[a] == ks0[a].h());
                        assert(message_handles(ks0)[b] == ks0[b].h());
                    } else {
                        assert(ks[a] == ks0[a]);
                    }
                }
                assert(ks.no_duplicates()) by {
                    assert forall|a: int, b: int| 0 <= a < ks.len() && 0 <= b < ks.len() && a != b implies ks[a] != ks[b] by {
                        let lo = if a < b { a } else { b };
                        let hi = if a < b { b } else { a };
                        assert(slot_index(message_handles(ks)[lo]) < slot_index(message_handles(ks)[hi]));
                    }
                }
            }
            i = i + 1;
        }
        proof {
            assert(hs@.take(hs.len() as int) =~= hs@);
            assert(messages_in_slot_order(self@, ks));
        }
        r
    }

    /// Every signal in increasing slot index.
    fn signals_by_slot(&self) -> (r: Vec<&SignalDBC>)
        ensures
            exists|ks: Seq<SignalKey>| #[trigger] signals_in_slot_order(self@, ks) && signal_refs_view(r@) == present(self@.signals, ks),
    {
        broadcast use SignalKey::lemma_h_injective;
        let hs: Vec<u64> = arena_handles(&self.arena);
        let mut r: Vec<&SignalDBC> = Vec::new();
        let ghost mut ks: Seq<SignalKey> = seq![];
        let mut i: usize = 0;
        while i < hs.len()
            invariant
                i <= hs.len(),
                hs@.no_duplicates(),
                forall|h: u64| #[trigger] hs@.contains(h) <==> arena_slots(self.arena).contains_key(h),
                ascending_slots(hs@),
                signal_refs_view(r@) == present(self@.signals, ks),
                forall|k: SignalKey| #[trigger] ks.contains(k) <==> (self@.signals.contains_key(k) && hs@.take(i as int).contains(k.h())),
                ks.no_duplicates(),
                ascending_slots(signal_handles(ks)),
                i < hs.len() ==> forall|t: int| 0 <= t < ks.len() ==> slot_index(#[trigger] ks[t].h()) < slot_index(hs@[i as int]),
            decreases hs.len() - i,
        {
            let h: u64 = hs[i];
            let ghost ks0 = ks;
            proof {
                assert(hs@.take(i + 1) =~= hs@.take(i as int).push(h));
                assert(!hs@.take(i as int).contains(h)) by {
                    if hs@.take(i as int).contains(h) {
                        let u = choose|u: int| 0 <= u < i && #[trigger] hs@.take(i as int)[u] == h;
                        assert(hs@[u] == hs@[i as int]);
                    }
                }
            }
            let ghost mut added: Option<SignalKey> = None;
            if handle_ok_exec(h) {
                let k: SignalKey = SignalKey::from_handle(h);
                proof {
                    assert forall|k2: SignalKey| k2.h() == h implies k2 == k by {
                        SignalKey::lemma_h_injective(k2, k);
                    }
                }
                match self.get_sig_by_key(k) {
                    Some(m) => {
                        let ghost before = signal_refs_view(r@);
                        r.push(m);
                        proof {
                            added = Some(k);
                            ks = ks.push(k);
                            assert(ks == ks0.push(k));
                            assert(signal_refs_view(r@) =~= before.push(m@));
                            assert(ks.drop_last() =~= ks0);
                        }
                    },
                    None => {},
                }
            }
            proof {
                assert forall|k2: SignalKey| #[trigger] ks.contains(k2) <==> (self@.signals.contains_key(k2) && hs@.take(i + 1).contains(k2.h())) by {
                    if k2.h() == h {
                        assert(!ks0.contains(k2));
                        match added {
                            Some(ka) => {
                                assert(ks == ks0.push(ka));
                                assert(ka.h() == h);
                                SignalKey::lemma_h_injective(ka, k2);
                                assert(ka == k2);
                                assert(self@.signals.contains_key(k2));
                                assert(ks[ks.len() - 1] == k2);
                                assert(hs@.take(i + 1)[i as int] == h);
                            },
                            None => {
                                assert(ks == ks0);
                                assert(!self@.signals.contains_key(k2));
                            },
                        }
                    } else {
                        if ks.contains(k2) && !ks0.contains(k2) {
                            let t = choose|t: int| 0 <= t < ks.len() && #[trigger] ks[t] == k2;
                            if t < ks0.len() {
                                assert(ks0[t] == k2);
                            }
                        }
                        if ks0.contains(k2) {
                            let t = choose|t: int| 0 <= t < ks0.len() && #[trigger] ks0[t] == k2;
                            assert(ks[t] == k2);
                        }
                        if hs@.take(i + 1).contains(k2.h()) {
                            let u = choose|u: int| 0 <= u < i + 1 && #[trigger] hs@.take(i + 1)[u] == k2.h();
                            assert(u < i);
                            assert(hs@.take(i as int)[u] == k2.h());
                        }
                        if hs@.take(i as int).contains(k2.h()) {
                            let u = choose|u: int| 0 <= u < i && #[trigger] hs@.take(i as int)[u] == k2.h();
                            assert(hs@.take(i + 1)[u] == k2.h());
                        }
                    }
                }
                if i + 1 < hs.len() {
                    assert(slot_index(hs@[i as int]) < slot_index(hs@[i + 1]));
                    assert forall|t: int| 0 <= t < ks.len() implies slot_index(#[trigger] ks[t].h()) < slot_index(hs@[i + 1]) by {
                        if t < ks0.len() {
                            assert(ks[t] == ks0[t]);
                        }
                    }
                }
                assert forall|a: int, b: int| 0 <= a < b < ks.len() implies slot_index(#[trigger] signal_handles(ks)[a]) < slot_index(#[trigger] signal_handles(ks)[b]) by {
                    if b < ks0.len() {
                        assert(ks[a] == ks0[a] && ks[b] == ks0[b]);
                        assert(signal_handles(ks0)[a] == ks0[a].h());
                        assert(signal_handles(ks0)[b] == ks0[b].h());
                    } else {
                        assert(ks[a] == ks0[a]);
                    }
                }
                assert(ks.no_duplicates()) by {
                    assert forall|a: int, b: int| 0 <= a < ks.len() && 0 <= b < ks.len() && a != b implies ks[a] != ks[b] by {
                        let lo = if a < b { a } else { b };
                        let hi = if a < b { b } else { a };
                        assert(slot_index(signal_handles(ks)[lo]) < slot_index(signal_handles(ks)[hi]));
                    }
                }
            }
            i = i + 1;
        }
        proof {
            assert(hs@.take(hs.len() as int) =~= hs@);
            assert(signals_in_slot_order(self@, ks));
        }
        r
    }

    /// The messages in presentation order; when the presentation order is
    /// empty, every message in slot order (insertion order as long as none
    /// was deleted).
    pub fn iter_messages(&self) -> (r: Vec<&MessageDBC>)
        ensures
            self@.messages_order.len() > 0 ==> message_refs_view(r@) == present(self@.messages, self@.messages_order),
            self@.messages_order.len() == 0 ==> exists|ks: Seq<MessageKey>|
                #[trigger] messages_in_slot_order(self@, ks) && message_refs_view(r@) == present(self@.messages, ks),
            self.wf() ==> forall|k: MessageKey| #[trigger] self@.messages.contains_key(k) ==> message_refs_view(r@).contains(self@.messages[k]),
    {
        if self.messages_order.len() == 0 {
            let r = self.messages_by_slot();
            proof {
                if self.wf() {
                    assert forall|k: MessageKey| #[trigger] self@.messages.contains_key(k) implies false by {
                        assert(self.messages_order@.contains(k));
                    }
                }
            }
            return r;
        }
        let ghost ks = self@.messages_order;
        let mut r: Vec<&MessageDBC> = Vec::new();
        let mut i: usize = 0;
        while i < self.messages_order.len()
            invariant
                i <= self.messages_order.len(),
                ks == self.messages_order@,
                message_refs_view(r@) == present(self@.messages, ks.take(i as int)),
            decreases self.messages_order.len() - i,
        {
            assert(ks.take(i + 1).drop_last() =~= ks.take(i as int));
            let ghost before = message_refs_view(r@);
            match self.get_message_by_key(self.messages_order[i]) {
                Some(m) => {
                    r.push(m);
                    assert(message_refs_view(r@) =~= before.push(m@));
                },
                None => {},
            }
            i = i + 1;
        }
        assert(ks.take(ks.len() as int) =~= ks);
        proof {
            assert forall|k: MessageKey| self.wf() && #[trigger] self@.messages.contains_key(k) implies message_refs_view(r@).contains(self@.messages[k]) by {
                assert(self.messages_order@.contains(k));
                lemma_present_contains(self@.messages, ks, k);
            }
        }
        r
    }

    /// The signals in presentation order; when the presentation order is
    /// empty, every signal in slot order.
    pub fn iter_signals(&self) -> (r: Vec<&SignalDBC>)
        ensures
            self@.signals_order.len() > 0 ==> signal_refs_view(r@) == present(self@.signals, self@.signals_order),
            self@.signals_order.len() == 0 ==> exists|ks: Seq<SignalKey>|
                #[trigger] signals_in_slot_order(self@, ks) && signal_refs_view(r@) == present(self@.signals, ks),
    {
        if self.signals_order.len() == 0 {
            return self.signals_by_slot();
        }
        let ghost ks = self@.signals_order;
        let mut r: Vec<&SignalDBC> = Vec::new();
        let mut i: usize = 0;
        while i < self.signals_order.len()
            invariant
                i <= self.signals_order.len(),
                ks == self.signals_order@,
                signal_refs_view(r@) == present(self@.signals, ks.take(i as int)),
            decreases self.signals_order.len() - i,
        {
            assert(ks.take(i + 1).drop_last() =~= ks.take(i as int));
            let ghost before = signal_refs_view(r@);
            match self.get_sig_by_key(self.signals_order[i]) {
                Some(s) => {
                    r.push(s);
                    assert(signal_refs_view(r@) =~= before.push(s@));
                },
                None => {},
            }
            i = i + 1;
        }
        assert(ks.take(ks.len() as int) =~= ks);
        r
    }
}


/// `after` differs from `before` at most in the nodes of the keys in
/// `ks`: the same keys hold nodes, and every other part is the same.
pub open spec fn nodes_changed_within(before: DatabaseView, after: DatabaseView, ks: Seq<NodeKey>) -> bool {
    &&& after == DatabaseView { nodes: after.nodes, ..before }
    &&& after.nodes.dom() == before.nodes.dom()
    &&& forall|k: NodeKey| #[trigger] after.nodes.contains_key(k) && !ks.contains(k) ==> after.nodes[k] == before.nodes[k]
}

impl DatabaseDBC {
    /// Applies `f` to every node, in presentation order: once per entry of
    /// the order list, in that order, each call on the node as the calls
    /// before left it (an entry whose node is missing is skipped); nothing
    /// but the nodes of the presentation order changes.
    pub fn for_each_node_mut<F: FnMut(&mut NodeDBC)>(&mut self, f: F)
        requires
            forall|n: &mut NodeDBC| f.requires((n,)),
        ensures
            nodes_changed_within(old(self)@, final(self)@, old(self)@.nodes_order),
            final(self).entity_count() == old(self).entity_count(),
            old(self).wf() ==> final(self).wf(),
            old(self).wf() ==> forall|k: NodeKey|
                #![trigger old(self)@.nodes_order.contains(k)]
                old(self)@.nodes_order.contains(k) ==> (exists|r: &mut NodeDBC| (*r)@ == old(self)@.nodes[k] && (*final(r))@ == final(self)@.nodes[k] && #[trigger] f.ensures((r,), ())),
            exists|st: Seq<Map<NodeKey, NodeView>>|
                #![trigger st.len()]
                st.len() == old(self)@.nodes_order.len() + 1 && st[0] == old(self)@.nodes && st[st.len() - 1] == final(self)@.nodes
                    && forall|j: int|
                    #![trigger st[j]]
                    0 <= j < old(self)@.nodes_order.len() ==> if st[j].contains_key(old(self)@.nodes_order[j]) {
                        exists|r: &mut NodeDBC|
                            (*r)@ == st[j][old(self)@.nodes_order[j]] && #[trigger] f.ensures((r,), ()) && st[j + 1] == st[j].insert(
                                old(self)@.nodes_order[j],
                                (*final(r))@,
                            )
                    } else {
                        st[j + 1] == st[j]
                    },
    {
        let ghost f0 = f;
        let mut f = f;
        let keys: Vec<NodeKey> = crate::dbc::types::keys::copy_keys(&self.nodes_order);
        let mut i: usize = 0;
        let ghost mut tr: Seq<Map<NodeKey, NodeView>> = seq![self@.nodes];
        while i < keys.len()
            invariant
                tr.len() == i + 1,
                tr[0] == old(self)@.nodes,
                tr[i as int] == self@.nodes,
                forall|j: int|
                    #![trigger tr[j]]
                    0 <= j < i ==> if tr[j].contains_key(keys@[j]) {
                        exists|r: &mut NodeDBC|
                            (*r)@ == tr[j][keys@[j]] && #[trigger] f0.ensures((r,), ()) && tr[j + 1] == tr[j].insert(keys@[j], (*final(r))@)
                    } else {
                        tr[j + 1] == tr[j]
                    },
                forall|n: &mut NodeDBC| f.requires((n,)),
                keys@ == old(self)@.nodes_order,
                nodes_changed_within(old(self)@, self@, keys@),
                self.entity_count() == old(self).entity_count(),
                old(self).wf() ==> self.wf(),
                i <= keys.len(),
                f == f0,
                old(self).wf() ==> forall|k: NodeKey|
                    #![trigger keys@.take(i as int).contains(k)]
                    keys@.take(i as int).contains(k) ==> (exists|r: &mut NodeDBC| (*r)@ == old(self)@.nodes[k] && (*final(r))@ == self@.nodes[k] && #[trigger] f0.ensures((r,), ())),
                old(self).wf() ==> forall|k: NodeKey|
                    #![trigger keys@.skip(i as int).contains(k)]
                    keys@.skip(i as int).contains(k) && self@.nodes.contains_key(k) ==> self@.nodes[k] == old(self)@.nodes[k],
            decreases keys.len() - i,
        {
            let ghost prev = self@;
            proof {
                assert(keys@.skip(i as int)[0] == keys@[i as int]);
                assert(keys@.skip(i as int).contains(keys@[i as int]));
            }
            assert(old(self).wf() && prev.nodes.contains_key(keys@[i as int]) ==> prev.nodes[keys@[i as int]] == old(self)@.nodes[keys@[i as int]]);
            let ghost mut fin: NodeView = prev.nodes[keys@[i as int]];
            match self.get_node_by_key_mut(keys[i]) {
                Some(n) => {
                    f(n);
                    proof {
                        fin = (*n)@;
                        assert(exists|r: &mut NodeDBC| (*r)@ == prev.nodes[keys@[i as int]] && (*final(r))@ == fin && #[trigger] f0.ensures((r,), ()));
                        assert((*final(n))@ == fin);
                    }
                },
                None => {},
            }
            assert(prev.nodes.contains_key(keys@[i as int]) ==> self@.nodes[keys@[i as int]] == fin && (exists|r: &mut NodeDBC|
                (*r)@ == prev.nodes[keys@[i as int]] && (*final(r))@ == fin && #[trigger] f0.ensures((r,), ())));
            proof {
                assert(self@.nodes.dom() =~= prev.nodes.dom());
                assert(keys@.contains(keys@[i as int]));
                assert(keys@.take(i + 1) =~= keys@.take(i as int).push(keys@[i as int]));
                assert(keys@.skip(i as int) =~= seq![keys@[i as int]] + keys@.skip(i + 1));
                {
                    assert forall|k: NodeKey| #![trigger keys@.skip(i + 1).contains(k)] old(self).wf() && keys@.skip(i + 1).contains(k) && self@.nodes.contains_key(k)
                        implies self@.nodes[k] == old(self)@.nodes[k] by {
                        let t = choose|t: int| 0 <= t < keys@.skip(i + 1).len() && #[trigger] keys@.skip(i + 1)[t] == k;
                        assert(keys@[i + 1 + t] == k);
                        assert(k != keys@[i as int]);
                        assert(keys@.skip(i as int).contains(k)) by {
                            assert(keys@.skip(i as int)[t + 1] == k);
                        }
                    }
                    assert forall|k: NodeKey| #![trigger keys@.take(i + 1).contains(k)] old(self).wf() && keys@.take(i + 1).contains(k)
                        implies (exists|r: &mut NodeDBC| (*r)@ == old(self)@.nodes[k] && (*final(r))@ == self@.nodes[k] && #[trigger] f0.ensures((r,), ())) by {
                        if k == keys@[i as int] {
                            assert(keys@.contains(k));
                            assert(old(self).nodes_order@.contains(k));
                            assert(old(self)@.nodes.contains_key(k));
                            assert(prev.nodes.contains_key(k));
                            assert(prev.nodes[k] == old(self)@.nodes[k]);
                            assert(self@.nodes[k] == fin);
                        } else {
                            let t = choose|t: int| 0 <= t < keys@.take(i + 1).len() && #[trigger] keys@.take(i + 1)[t] == k;
                            assert(keys@.take(i as int)[t] == k);
                            assert(keys@.take(i as int).contains(k));
                            assert(prev.nodes[k] == self@.nodes[k]);
                        }
                    }
                }
            }
            proof {
                let k = keys@[i as int];
                if prev.nodes.contains_key(k) {
                    assert(self@.nodes =~= prev.nodes.insert(k, fin));
                } else {
                    assert(self@.nodes =~= prev.nodes);
                }
                let old_tr = tr;
                tr = tr.push(self@.nodes);
                assert forall|j: int| 0 <= j < i + 1 implies #[trigger] tr[j] == tr[j] && (if tr[j].contains_key(keys@[j]) {
                    exists|r: &mut NodeDBC|
                        (*r)@ == tr[j][keys@[j]] && #[trigger] f0.ensures((r,), ()) && tr[j + 1] == tr[j].insert(keys@[j], (*final(r))@)
                } else {
                    tr[j + 1] == tr[j]
                }) by {
                    if j < i {
                        assert(tr[j] == old_tr[j] && tr[j + 1] == old_tr[j + 1]);
                        assert(old_tr[j] == old_tr[j]);
                    } else {
                        assert(tr[j] == prev.nodes);
                        assert(tr[j + 1] == self@.nodes);
                    }
                }
            }
            i = i + 1;
        }
        assert(keys@.take(keys.len() as int) =~= keys@);
    }
}


/// `after` differs from `before` at most in the messages of the keys in
/// `ks`: the same keys hold messages, and every other part is the same.
pub open spec fn messages_changed_within(before: DatabaseView, after: DatabaseView, ks: Seq<MessageKey>) -> bool {
    &&& after == DatabaseView { messages: after.messages, ..before }
    &&& after.messages.dom() == before.messages.dom()
    &&& forall|k: MessageKey| #[trigger] after.messages.contains_key(k) && !ks.contains(k) ==> after.messages[k] == before.messages[k]
}

/// `after` differs from `before` at most in the signals of the keys in
/// `ks`: the same keys hold signals, and every other part is the same.
pub open spec fn signals_changed_within(before: DatabaseView, after: DatabaseView, ks: Seq<SignalKey>) -> bool {
    &&& after == DatabaseView { signals: after.signals, ..before }
    &&& after.signals.dom() == before.signals.dom()
    &&& forall|k: SignalKey| #[trigger] after.signals.contains_key(k) && !ks.contains(k) ==> after.signals[k] == before.signals[k]
}

impl DatabaseDBC {
    /// Applies `f` to every message, in presentation order: once per entry of
    /// the order list, in that order, each call on the message as the calls
    /// before left it (an entry whose message is missing is skipped); nothing
    /// but the messages of the presentation order changes.
    pub fn for_each_message_mut<F: FnMut(&mut MessageDBC)>(&mut self, f: F)
        requires
            forall|m: &mut MessageDBC| f.requires((m,)),
        ensures
            messages_changed_within(old(self)@, final(self)@, old(self)@.messages_order),
            final(self).entity_count() == old(self).entity_count(),
            old(self).wf() ==> final(self).wf(),
            old(self).wf() ==> forall|k: MessageKey|
                #![trigger old(self)@.messages_order.contains(k)]
                old(self)@.messages_order.contains(k) ==> (exists|r: &mut MessageDBC| (*r)@ == old(self)@.messages[k] && (*final(r))@ == final(self)@.messages[k] && #[trigger] f.ensures((r,), ())),
            exists|st: Seq<Map<MessageKey, MessageView>>|
                #![trigger st.len()]
                st.len() == old(self)@.messages_order.len() + 1 && st[0] == old(self)@.messages && st[st.len() - 1] == final(self)@.messages
                    && forall|j: int|
                    #![trigger st[j]]
                    0 <= j < old(self)@.messages_order.len() ==> if st[j].contains_key(old(self)@.messages_order[j]) {
                        exists|r: &mut MessageDBC|
                            (*r)@ == st[j][old(self)@.messages_order[j]] && #[trigger] f.ensures((r,), ()) && st[j + 1] == st[j].insert(
                                old(self)@.messages_order[j],
                                (*final(r))@,
                            )
                    } else {
                        st[j + 1] == st[j]
                    },
    {
        let ghost f0 = f;
        let mut f = f;
        let keys: Vec<MessageKey> = crate::dbc::types::keys::copy_keys(&self.messages_order);
        let mut i: usize = 0;
        let ghost mut tr: Seq<Map<MessageKey, MessageView>> = seq![self@.messages];
        while i < keys.len()
            invariant
                tr.len() == i + 1,
                tr[0] == old(self)@.messages,
                tr[i as int] == self@.messages,
                forall|j: int|
                    #![trigger tr[j]]
                    0 <= j < i ==> if tr[j].contains_key(keys@[j]) {
                        exists|r: &mut MessageDBC|
                            (*r)@ == tr[j][keys@[j]] && #[trigger] f0.ensures((r,), ()) && tr[j + 1] == tr[j].insert(keys@[j], (*final(r))@)
                    } else {
                        tr[j + 1] == tr[j]
                    },
                forall|m: &mut MessageDBC| f.requires((m,)),
                keys@ == old(self)@.messages_order,
                messages_changed_within(old(self)@, self@, keys@),
                self.entity_count() == old(self).entity_count(),
                old(self).wf() ==> self.wf(),
                i <= keys.len(),
                f == f0,
                old(self).wf() ==> forall|k: MessageKey|
                    #![trigger keys@.take(i as int).contains(k)]
                    keys@.take(i as int).contains(k) ==> (exists|r: &mut MessageDBC| (*r)@ == old(self)@.messages[k] && (*final(r))@ == self@.messages[k] && #[trigger] f0.ensures((r,), ())),
                old(self).wf() ==> forall|k: MessageKey|
                    #![trigger keys@.skip(i as int).contains(k)]
                    keys@.skip(i as int).contains(k) && self@.messages.contains_key(k) ==> self@.messages[k] == old(self)@.messages[k],
            decreases keys.len() - i,
        {
            let ghost prev = self@;
            proof {
                assert(keys@.skip(i as int)[0] == keys@[i as int]);
                assert(keys@.skip(i as int).contains(keys@[i as int]));
            }
            assert(old(self).wf() && prev.messages.contains_key(keys@[i as int]) ==> prev.messages[keys@[i as int]] == old(self)@.messages[keys@[i as int]]);
            let ghost mut fin: MessageView = prev.messages[keys@[i as int]];
            match self.get_message_by_key_mut(keys[i]) {
                Some(m) => {
                    f(m);
                    proof {
                        fin = (*m)@;
                        assert(exists|r: &mut MessageDBC| (*r)@ == prev.messages[keys@[i as int]] && (*final(r))@ == fin && #[trigger] f0.ensures((r,), ()));
                        assert((*final(m))@ == fin);
                    }
                },
                None => {},
            }
            assert(prev.messages.contains_key(keys@[i as int]) ==> self@.messages[keys@[i as int]] == fin && (exists|r: &mut MessageDBC|
                (*r)@ == prev.messages[keys@[i as int]] && (*final(r))@ == fin && #[trigger] f0.ensures((r,), ())));
            proof {
                assert(self@.messages.dom() =~= prev.messages.dom());
                assert(keys@.contains(keys@[i as int]));
                assert(keys@.take(i + 1) =~= keys@.take(i as int).push(keys@[i as int]));
                assert(keys@.skip(i as int) =~= seq![keys@[i as int]] + keys@.skip(i + 1));
                {
                    assert forall|k: MessageKey| #![trigger keys@.skip(i + 1).contains(k)] old(self).wf() && keys@.skip(i + 1).contains(k) && self@.messages.contains_key(k)
                        implies self@.messages[k] == old(self)@.messages[k] by {
                        let t = choose|t: int| 0 <= t < keys@.skip(i + 1).len() && #[trigger] keys@.skip(i + 1)[t] == k;
                        assert(keys@[i + 1 + t] == k);
                        assert(k != keys@[i as int]);
                        assert(keys@.skip(i as int).contains(k)) by {
                            assert(keys@.skip(i as int)[t + 1] == k);
                        }
                    }
                    assert forall|k: MessageKey| #![trigger keys@.take(i + 1).contains(k)] old(self).wf() && keys@.take(i + 1).contains(k)
                        implies (exists|r: &mut MessageDBC| (*r)@ == old(self)@.messages[k] && (*final(r))@ == self@.messages[k] && #[trigger] f0.ensures((r,), ())) by {
                        if k == keys@[i as int] {
                            assert(keys@.contains(k));
                            assert(old(self).messages_order@.contains(k));
                            assert(old(self)@.messages.contains_key(k));
                            assert(prev.messages.contains_key(k));
                            assert(prev.messages[k] == old(self)@.messages[k]);
                            assert(self@.messages[k] == fin);
                        } else {
                            let t = choose|t: int| 0 <= t < keys@.take(i + 1).len() && #[trigger] keys@.take(i + 1)[t] == k;
                            assert(keys@.take(i as int)[t] == k);
                            assert(keys@.take(i as int).contains(k));
                            assert(prev.messages[k] == self@.messages[k]);
                        }
                    }
                }
            }
            proof {
                let k = keys@[i as int];
                if prev.messages.contains_key(k) {
                    assert(self@.messages =~= prev.messages.insert(k, fin));
                } else {
                    assert(self@.messages =~= prev.messages);
                }
                let old_tr = tr;
                tr = tr.push(self@.messages);
                assert forall|j: int| 0 <= j < i + 1 implies #[trigger] tr[j] == tr[j] && (if tr[j].contains_key(keys@[j]) {
                    exists|r: &mut MessageDBC|
                        (*r)@ == tr[j][keys@[j]] && #[trigger] f0.ensures((r,), ()) && tr[j + 1] == tr[j].insert(keys@[j], (*final(r))@)
                } else {
                    tr[j + 1] == tr[j]
                }) by {
                    if j < i {
                        assert(tr[j] == old_tr[j] && tr[j + 1] == old_tr[j + 1]);
                        assert(old_tr[j] == old_tr[j]);
                    } else {
                        assert(tr[j] == prev.messages);
                        assert(tr[j + 1] == self@.messages);
                    }
                }
            }
            i = i + 1;
        }
        assert(keys@.take(keys.len() as int) =~= keys@);
    }

    /// Applies `f` to every signal, in presentation order: once per entry of
    /// the order list, in that order, each call on the signal as the calls
    /// before left it (an entry whose signal is missing is skipped); nothing
    /// but the signals of the presentation order changes.
    pub fn for_each_signal_mut<F: FnMut(&mut SignalDBC)>(&mut self, f: F)
        requires
            forall|s: &mut SignalDBC| f.requires((s,)),
        ensures
            signals_changed_within(old(self)@, final(self)@, old(self)@.signals_order),
            final(self).entity_count() == old(self).entity_count(),
            old(self).wf() ==> final(self).wf(),
            old(self).wf() ==> forall|k: SignalKey|
                #![trigger old(self)@.signals_order.contains(k)]
                old(self)@.signals_order.contains(k) ==> (exists|r: &mut SignalDBC| (*r)@ == old(self)@.signals[k] && (*final(r))@ == final(self)@.signals[k] && #[trigger] f.ensures((r,), ())),
            exists|st: Seq<Map<SignalKey, SignalView>>|
                #![trigger st.len()]
                st.len() == old(self)@.signals_order.len() + 1 && st[0] == old(self)@.signals && st[st.len() - 1] == final(self)@.signals
                    && forall|j: int|
                    #![trigger st[j]]
                    0 <= j < old(self)@.signals_order.len() ==> if st[j].contains_key(old(self)@.signals_order[j]) {
                        exists|r: &mut SignalDBC|
                            (*r)@ == st[j][old(self)@.signals_order[j]] && #[trigger] f.ensures((r,), ()) && st[j + 1] == st[j].insert(
                                old(self)@.signals_order[j],
                                (*final(r))@,
                            )
                    } else {
                        st[j + 1] == st[j]
                    },
    {
        let ghost f0 = f;
        let mut f = f;
        let keys: Vec<SignalKey> = crate::dbc::types::keys::copy_keys(&self.signals_order);
        let mut i: usize = 0;
        let ghost mut tr: Seq<Map<SignalKey, SignalView>> = seq![self@.signals];
        while i < keys.len()
            invariant
                tr.len() == i + 1,
                tr[0] == old(self)@.signals,
                tr[i as int] == self@.signals,
                forall|j: int|
                    #![trigger tr[j]]
                    0 <= j < i ==> if tr[j].contains_key(keys@[j]) {
                        exists|r: &mut SignalDBC|
                            (*r)@ == tr[j][keys@[j]] && #[trigger] f0.ensures((r,), ()) && tr[j + 1] == tr[j].insert(keys@[j], (*final(r))@)
                    } else {
                        tr[j + 1] == tr[j]
                    },
                forall|s: &mut SignalDBC| f.requires((s,)),
                keys@ == old(self)@.signals_order,
                signals_changed_within(old(self)@, self@, keys@),
                self.entity_count() == old(self).entity_count(),
                old(self).wf() ==> self.wf(),
                i <= keys.len(),
                f == f0,
                old(self).wf() ==> forall|k: SignalKey|
                    #![trigger keys@.take(i as int).contains(k)]
                    keys@.take(i as int).contains(k) ==> (exists|r: &mut SignalDBC| (*r)@ == old(self)@.signals[k] && (*final(r))@ == self@.signals[k] && #[trigger] f0.ensures((r,), ())),
                old(self).wf() ==> forall|k: SignalKey|
                    #![trigger keys@.skip(i as int).contains(k)]
                    keys@.skip(i as int).contains(k) && self@.signals.contains_key(k) ==> self@.signals[k] == old(self)@.signals[k],
            decreases keys.len() - i,
        {
            let ghost prev = self@;
            proof {
                assert(keys@.skip(i as int)[0] == keys@[i as int]);
                assert(keys@.skip(i as int).contains(keys@[i as int]));
            }
            assert(old(self).wf() && prev.signals.contains_key(keys@[i as int]) ==> prev.signals[keys@[i as int]] == old(self)@.signals[keys@[i as int]]);
            let ghost mut fin: SignalView = prev.signals[keys@[i as int]];
            match self.get_sig_by_key_mut(keys[i]) {
                Some(s) => {
                    f(s);
                    proof {
                        fin = (*s)@;
                        assert(exists|r: &mut SignalDBC| (*r)@ == prev.signals[keys@[i as int]] && (*final(r))@ == fin && #[trigger] f0.ensures((r,), ()));
                        assert((*final(s))@ == fin);
                    }
                },
                None => {},
            }
            assert(prev.signals.contains_key(keys@[i as int]) ==> self@.signals[keys@[i as int]] == fin && (exists|r: &mut SignalDBC|
                (*r)@ == prev.signals[keys@[i as int]] && (*final(r))@ == fin && #[trigger] f0.ensures((r,), ())));
            proof {
                assert(self@.signals.dom() =~= prev.signals.dom());
                assert(keys@.contains(keys@[i as int]));
                assert(keys@.take(i + 1) =~= keys@.take(i as int).push(keys@[i as int]));
                assert(keys@.skip(i as int) =~= seq![keys@[i as int]] + keys@.skip(i + 1));
                {
                    assert forall|k: SignalKey| #![trigger keys@.skip(i + 1).contains(k)] old(self).wf() && keys@.skip(i + 1).contains(k) && self@.signals.contains_key(k)
                        implies self@.signals[k] == old(self)@.signals[k] by {
                        let t = choose|t: int| 0 <= t < keys@.skip(i + 1).len() && #[trigger] keys@.skip(i + 1)[t] == k;
                        assert(keys@[i + 1 + t] == k);
                        assert(k != keys@[i as int]);
                        assert(keys@.skip(i as int).contains(k)) by {
                            assert(keys@.skip(i as int)[t + 1] == k);
                        }
                    }
                    assert forall|k: SignalKey| #![trigger keys@.take(i + 1).contains(k)] old(self).wf() && keys@.take(i + 1).contains(k)
                        implies (exists|r: &mut SignalDBC| (*r)@ == old(self)@.signals[k] && (*final(r))@ == self@.signals[k] && #[trigger] f0.ensures((r,), ())) by {
                        if k == keys@[i as int] {
                            assert(keys@.contains(k));
                            assert(old(self).signals_order@.contains(k));
                            assert(old(self)@.signals.contains_key(k));
                            assert(prev.signals.contains_key(k));
                            assert(prev.signals[k] == old(self)@.signals[k]);
                            assert(self@.signals[k] == fin);
                        } else {
                            let t = choose|t: int| 0 <= t < keys@.take(i + 1).len() && #[trigger] keys@.take(i + 1)[t] == k;
                            assert(keys@.take(i as int)[t] == k);
                            assert(keys@.take(i as int).contains(k));
                            assert(prev.signals[k] == self@.signals[k]);
                        }
                    }
                }
            }
            proof {
                let k = keys@[i as int];
                if prev.signals.contains_key(k) {
                    assert(self@.signals =~= prev.signals.insert(k, fin));
                } else {
                    assert(self@.signals =~= prev.signals);
                }
                let old_tr = tr;
                tr = tr.push(self@.signals);
                assert forall|j: int| 0 <= j < i + 1 implies #[trigger] tr[j] == tr[j] && (if tr[j].contains_key(keys@[j]) {
                    exists|r: &mut SignalDBC|
                        (*r)@ == tr[j][keys@[j]] && #[trigger] f0.ensures((r,), ()) && tr[j + 1] == tr[j].insert(keys@[j], (*final(r))@)
                } else {
                    tr[j + 1] == tr[j]
                }) by {
                    if j < i {
                        assert(tr[j] == old_tr[j] && tr[j + 1] == old_tr[j + 1]);
                        assert(old_tr[j] == old_tr[j]);
                    } else {
                        assert(tr[j] == prev.signals);
                        assert(tr[j + 1] == self@.signals);
                    }
                }
            }
            i = i + 1;
        }
        assert(keys@.take(keys.len() as int) =~= keys@);
    }
}

} // verus!
