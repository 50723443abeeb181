//! Properties of the keyed database that span its operations.
use vstd::prelude::*;
use crate::dbc::types::database::messages::{
    blank_message, entry, message_added, message_at, message_deleted, normalized_id_hex,
};
use crate::dbc::types::database::nodes::{
    seeded_node, node_added, node_deleted, node_named, sender_linked, sender_unlinked,
};
use crate::dbc::types::database::signals::{
    detached_signals, signal_added, receiver_step3, signal_bound, signal_deleted, signal_unbound, union_receivers,
    unreceive_step3,
};
use crate::dbc::types::attributes::defaults_of;
use crate::dbc::types::database::{id_hex_text, DatabaseDBC, DatabaseView};
use crate::dbc::types::arena::arena_slots;
use crate::dbc::types::database::access::signal_at;
use crate::dbc::types::entities::{MessageView, MuxRole, MuxSelector, NodeView, SignalView};
use crate::dbc::types::keys::{
    lemma_push_contains, lemma_without, push_new, without, without_all, MessageKey, NodeKey,
    SignalKey,
};
use crate::dbc::types::database::sorting::{
    message_entries, messages_by_name, node_entries, nodes_by_name, signal_entries, signals_by_name, SortMode,
};
use crate::dbc::types::sorting::{
    items_of, lemma_stable_sort_items, lemma_stable_sort_len, lemma_stable_sort_sorted, lex_lt, stable_sort, SortKey,
};
use crate::text::{
    ascii_lower_seq, ascii_upper, ascii_upper_seq, hex_char, hex_string, in_class, lead_count, pad_left, starts_with,
    trail_count, trim, unicode_lowercase, CharClass,
};

verus! {

proof fn lemma_push_new_contains<K>(s: Seq<K>, x: K)
    ensures
        push_new(s, x).contains(x),
{
    if !s.contains(x) {
        lemma_push_contains(s, x, x);
    }
}

proof fn lemma_without_all<K>(s: Seq<K>, xs: Seq<K>, y: K)
    requires
        xs.contains(y),
    ensures
        !without_all(s, xs).contains(y),
    decreases s.len(),
{
    if s.len() > 0 {
        lemma_without_all(s.drop_last(), xs, y);
        if !xs.contains(s.last()) {
            lemma_push_contains(without_all(s.drop_last(), xs), s.last(), y);
        }
    }
}

/// Linking a sender keeps both sides in sync: afterwards the message lists
/// the node among its senders and the node lists the message among the
/// messages it sends.
pub proof fn law_sender_link_is_mutual(db: DatabaseView, mk: MessageKey, nk: NodeKey)
    requires
        db.messages.contains_key(mk),
        db.nodes.contains_key(nk),
    ensures
        sender_linked(db, mk, nk).messages[mk].sender_nodes.contains(nk),
        sender_linked(db, mk, nk).nodes[nk].messages_sent.contains(mk),
{
    lemma_push_new_contains(db.messages[mk].sender_nodes, nk);
    lemma_push_new_contains(db.nodes[nk].messages_sent, mk);
}

/// Unlinking a sender keeps both sides in sync: afterwards neither lists
/// the other, and the node transmits none of the message's signals.
pub proof fn law_sender_unlink_is_mutual(db: DatabaseView, mk: MessageKey, nk: NodeKey)
    requires
        db.messages.contains_key(mk),
        db.nodes.contains_key(nk),
    ensures
        !sender_unlinked(db, mk, nk).messages[mk].sender_nodes.contains(nk),
        !sender_unlinked(db, mk, nk).nodes[nk].messages_sent.contains(mk),
        forall|sk: SignalKey| #[trigger] db.messages[mk].signals.contains(sk)
            ==> !sender_unlinked(db, mk, nk).nodes[nk].tx_signals.contains(sk),
{
    lemma_without(db.messages[mk].sender_nodes, nk);
    lemma_without(db.nodes[nk].messages_sent, mk);
    assert forall|sk: SignalKey| #[trigger] db.messages[mk].signals.contains(sk)
        implies !sender_unlinked(db, mk, nk).nodes[nk].tx_signals.contains(sk) by {
        lemma_without_all(db.nodes[nk].tx_signals, db.messages[mk].signals, sk);
    }
}

/// A node just added is found again by its name, and starts with the
/// defaults of the node attribute specifications.
pub proof fn law_node_found_after_add(db: DatabaseView, k: NodeKey, name: Seq<char>)
    ensures
        node_named(node_added(db, k, seeded_node(db, name)), name) == Some(k),
        node_added(db, k, seeded_node(db, name)).nodes[k].name == name,
        node_added(db, k, seeded_node(db, name)).nodes[k].attributes == defaults_of(db.node_attr_spec),
{
}

/// A message just added is found again by its identifier, its hexadecimal
/// identifier and its name, and becomes the current message.
pub proof fn law_message_found_after_add(db: DatabaseView, k: MessageKey, name: Seq<char>, id: u32, len: u16)
    ensures
        message_at(message_added(db, k, blank_message(name, id, len)), entry(
            message_added(db, k, blank_message(name, id, len)).msg_by_id,
            id,
        )) == Some(k),
        message_at(message_added(db, k, blank_message(name, id, len)), entry(
            message_added(db, k, blank_message(name, id, len)).msg_by_hex,
            id_hex_text(id),
        )) == Some(k),
        message_at(message_added(db, k, blank_message(name, id, len)), entry(
            message_added(db, k, blank_message(name, id, len)).msg_by_name,
            unicode_lowercase(name),
        )) == Some(k),
        message_added(db, k, blank_message(name, id, len)).current_msg == Some(k),
{
}

/// Deleting a node leaves no reference to it: it is gone from the nodes and
/// their order, and no message or signal lists it.
pub proof fn law_deleted_node_is_unreferenced(db: DatabaseView, nk: NodeKey)
    requires
        db.nodes.contains_key(nk),
    ensures
        !node_deleted(db, nk).nodes.contains_key(nk),
        !node_deleted(db, nk).nodes_order.contains(nk),
        forall|mk: MessageKey| #[trigger] node_deleted(db, nk).messages.contains_key(mk) ==> {
            &&& !node_deleted(db, nk).messages[mk].sender_nodes.contains(nk)
            &&& !node_deleted(db, nk).messages[mk].receiver_nodes.contains(nk)
        },
        forall|sk: SignalKey| #[trigger] node_deleted(db, nk).signals.contains_key(sk)
            ==> !node_deleted(db, nk).signals[sk].receiver_nodes.contains(nk),
{
    lemma_without(db.nodes_order, nk);
    assert forall|mk: MessageKey| #[trigger] node_deleted(db, nk).messages.contains_key(mk) implies {
        &&& !node_deleted(db, nk).messages[mk].sender_nodes.contains(nk)
        &&& !node_deleted(db, nk).messages[mk].receiver_nodes.contains(nk)
    } by {
        lemma_without(db.messages[mk].sender_nodes, nk);
        lemma_without(db.messages[mk].receiver_nodes, nk);
    }
    assert forall|sk: SignalKey| #[trigger] node_deleted(db, nk).signals.contains_key(sk)
        implies !node_deleted(db, nk).signals[sk].receiver_nodes.contains(nk) by {
        lemma_without(db.signals[sk].receiver_nodes, nk);
    }
}

/// Deleting a message leaves no node sending it or transmitting its
/// signals, and no signal bound to it.
pub proof fn law_deleted_message_is_unreferenced(db: DatabaseView, mk: MessageKey)
    requires
        db.messages.contains_key(mk),
    ensures
        !message_deleted(db, mk).messages.contains_key(mk),
        !message_deleted(db, mk).messages_order.contains(mk),
        forall|nk: NodeKey| #[trigger] message_deleted(db, mk).nodes.contains_key(nk)
            ==> !message_deleted(db, mk).nodes[nk].messages_sent.contains(mk),
        forall|nk: NodeKey, sk: SignalKey|
            #![trigger message_deleted(db, mk).nodes[nk].tx_signals.contains(sk)]
            message_deleted(db, mk).nodes.contains_key(nk) && db.messages[mk].signals.contains(sk)
                ==> !message_deleted(db, mk).nodes[nk].tx_signals.contains(sk),
        forall|sk: SignalKey| #[trigger] message_deleted(db, mk).signals.contains_key(sk)
            ==> message_deleted(db, mk).signals[sk].message != mk || mk == MessageKey::nil(),
{
    lemma_without(db.messages_order, mk);
    assert forall|nk: NodeKey| #[trigger] message_deleted(db, mk).nodes.contains_key(nk)
        implies !message_deleted(db, mk).nodes[nk].messages_sent.contains(mk) by {
        lemma_without(db.nodes[nk].messages_sent, mk);
    }
    assert forall|nk: NodeKey, sk: SignalKey|
        message_deleted(db, mk).nodes.contains_key(nk) && db.messages[mk].signals.contains(sk)
        implies !#[trigger] message_deleted(db, mk).nodes[nk].tx_signals.contains(sk) by {
        lemma_without_all(db.nodes[nk].tx_signals, db.messages[mk].signals, sk);
    }
}

/// Deleting a signal leaves no node or message referring to it.
pub proof fn law_deleted_signal_is_unreferenced(db: DatabaseView, sk: SignalKey)
    requires
        db.signals.contains_key(sk),
    ensures
        !signal_deleted(db, sk).signals.contains_key(sk),
        !signal_deleted(db, sk).signals_order.contains(sk),
        forall|nk: NodeKey| #[trigger] signal_deleted(db, sk).nodes.contains_key(nk) ==> {
            &&& !signal_deleted(db, sk).nodes[nk].tx_signals.contains(sk)
            &&& !signal_deleted(db, sk).nodes[nk].rx_signals.contains(sk)
        },
        forall|mk: MessageKey| #[trigger] signal_deleted(db, sk).messages.contains_key(mk)
            ==> !signal_deleted(db, sk).messages[mk].signals.contains(sk),
{
    lemma_without(db.signals_order, sk);
    assert forall|nk: NodeKey| #[trigger] signal_deleted(db, sk).nodes.contains_key(nk) implies {
        &&& !signal_deleted(db, sk).nodes[nk].tx_signals.contains(sk)
        &&& !signal_deleted(db, sk).nodes[nk].rx_signals.contains(sk)
    } by {
        lemma_without(db.nodes[nk].tx_signals, sk);
        lemma_without(db.nodes[nk].rx_signals, sk);
    }
    assert forall|mk: MessageKey| #[trigger] signal_deleted(db, sk).messages.contains_key(mk)
        implies !signal_deleted(db, sk).messages[mk].signals.contains(sk) by {
        lemma_without(db.messages[mk].signals, sk);
    }
}

/// Adding a receiver keeps the three sides in sync: the signal lists the
/// node, the node lists the signal and the signal's message lists the node.
pub proof fn law_receiver_link_is_mutual(db: DatabaseView, sk: SignalKey, nk: NodeKey)
    requires
        db.signals.contains_key(sk),
        db.nodes.contains_key(nk),
        db.messages.contains_key(db.signals[sk].message),
    ensures
        receiver_step3(db, sk, nk).signals[sk].receiver_nodes.contains(nk),
        receiver_step3(db, sk, nk).nodes[nk].rx_signals.contains(sk),
        receiver_step3(db, sk, nk).messages[db.signals[sk].message].receiver_nodes.contains(nk),
{
    lemma_push_new_contains(db.signals[sk].receiver_nodes, nk);
    lemma_push_new_contains(db.nodes[nk].rx_signals, sk);
    lemma_push_new_contains(db.messages[db.signals[sk].message].receiver_nodes, nk);
}

/// Removing a receiver that receives nothing else of the message keeps the
/// three sides in sync: none of them lists the other any more.
pub proof fn law_receiver_unlink_is_mutual(db: DatabaseView, sk: SignalKey, nk: NodeKey)
    requires
        db.signals.contains_key(sk),
        db.nodes.contains_key(nk),
        db.messages.contains_key(db.signals[sk].message),
    ensures
        !unreceive_step3(db, sk, nk).signals[sk].receiver_nodes.contains(nk),
        !unreceive_step3(db, sk, nk).nodes[nk].rx_signals.contains(sk),
        !unreceive_step3(db, sk, nk).messages[db.signals[sk].message].receiver_nodes.contains(nk),
{
    lemma_without(db.signals[sk].receiver_nodes, nk);
    lemma_without(db.nodes[nk].rx_signals, sk);
    lemma_without(db.messages[db.signals[sk].message].receiver_nodes, nk);
}

/// Binding a signal to a message makes the message list it and the signal
/// point to the message; unbinding it again leaves it pointing nowhere,
/// without multiplexing, and no longer listed by the message.
pub proof fn law_unbind_reverses_bind(
    db: DatabaseView,
    sk: SignalKey,
    mk: MessageKey,
    role: MuxRole,
    sel: Option<MuxSelector>,
)
    requires
        db.signals.contains_key(sk),
        db.messages.contains_key(mk),
    ensures
        signal_bound(db, sk, mk, role, sel).signals[sk].message == mk,
        signal_bound(db, sk, mk, role, sel).messages[mk].signals.contains(sk),
        signal_unbound(signal_bound(db, sk, mk, role, sel), sk, mk).signals[sk].message == MessageKey::nil(),
        signal_unbound(signal_bound(db, sk, mk, role, sel), sk, mk).signals[sk].mux is None,
        !signal_unbound(signal_bound(db, sk, mk, role, sel), sk, mk).messages[mk].signals.contains(sk),
{
    let d = signal_bound(db, sk, mk, role, sel);
    lemma_push_new_contains(db.messages[mk].signals, sk);
    lemma_without(d.messages[mk].signals, sk);
}


proof fn lemma_without_push_absent<K>(s: Seq<K>, x: K)
    requires
        !s.contains(x),
    ensures
        without(push_new(s, x), x) == s,
        without(s, x) == s,
    decreases s.len(),
{
    if s.len() > 0 {
        assert(s.last() != x) by {
            assert(s[s.len() - 1] == s.last());
        }
        assert(!s.drop_last().contains(x)) by {
            if s.drop_last().contains(x) {
                let t = choose|t: int| 0 <= t < s.drop_last().len() && s.drop_last()[t] == x;
                assert(s[t] == x);
            }
        }
        lemma_without_push_absent(s.drop_last(), x);
        assert(s.drop_last().push(s.last()) =~= s);
    }
    assert(without(s, x) == s);
    assert(push_new(s, x) == s.push(x));
    assert(s.push(x).drop_last() =~= s);
    assert(s.push(x).last() == x);
    assert(without(s.push(x), x) == without(s.push(x).drop_last(), x));
}

/// Binding a signal that is not multiplexed to a message that does not list
/// it and whose senders do not transmit it, then unbinding it again, restores the
/// message's signal list and senders and every node's transmitted signals;
/// the message's receivers become the union of the receivers of its
/// signals, and the signal points nowhere again.
pub proof fn law_unbind_after_bind_restores(db: DatabaseView, sk: SignalKey, mk: MessageKey, sel: Option<MuxSelector>)
    requires
        db.signals.contains_key(sk),
        db.messages.contains_key(mk),
        db.signals[sk].mux is None,
        !db.messages[mk].signals.contains(sk),
        forall|k: NodeKey|
            #[trigger] db.messages[mk].sender_nodes.contains(k) && db.nodes.contains_key(k) ==> !db.nodes[k].tx_signals.contains(sk),
    ensures
        ({
            let after = signal_unbound(signal_bound(db, sk, mk, MuxRole::NotMultiplexed, sel), sk, mk);
            &&& after.messages[mk].signals == db.messages[mk].signals
            &&& after.messages[mk].sender_nodes == db.messages[mk].sender_nodes
            &&& after.messages[mk].receiver_nodes == union_receivers(db.messages[mk].signals, after.signals)
            &&& after.nodes.dom() == db.nodes.dom()
            &&& forall|k: NodeKey| #[trigger] after.nodes.contains_key(k) ==> after.nodes[k] == db.nodes[k]
            &&& after.signals[sk] == SignalView { message: MessageKey::nil(), ..db.signals[sk] }
            &&& after.messages.dom() == db.messages.dom()
        }),
{
    let b = signal_bound(db, sk, mk, MuxRole::NotMultiplexed, sel);
    let after = signal_unbound(b, sk, mk);
    lemma_without_push_absent(db.messages[mk].signals, sk);
    assert(after.messages[mk].signals == db.messages[mk].signals);
    assert(detached_signals(b, sk, mk) =~= Seq::<SignalKey>::empty());
    assert forall|k: NodeKey| #[trigger] after.nodes.contains_key(k) implies after.nodes[k] == db.nodes[k] by {
        if db.messages[mk].sender_nodes.contains(k) {
            lemma_without_push_absent(db.nodes[k].tx_signals, sk);
        }
    }
    assert(after.nodes.dom() =~= db.nodes.dom());
    assert(after.messages.dom() =~= db.messages.dom());
}

/// An upper-case hexadecimal digit.
pub open spec fn is_upper_hex_digit(c: char) -> bool {
    ('0' <= c && c <= '9') || ('A' <= c && c <= 'F')
}

/// The value of an upper-case hexadecimal digit.
pub open spec fn upper_hex_digit_value(c: char) -> nat {
    if '0' <= c && c <= '9' {
        (c as nat - '0' as nat) as nat
    } else {
        (c as nat - 'A' as nat + 10) as nat
    }
}

/// The value of a run of hexadecimal digits, most significant first.
pub open spec fn hex_digits_value(s: Seq<char>) -> nat
    decreases s.len(),
{
    if s.len() == 0 {
        0
    } else {
        hex_digits_value(s.drop_last()) * 16 + upper_hex_digit_value(s.last())
    }
}

/// Sixteen to the power `k`.
pub open spec fn pow16(k: nat) -> nat
    decreases k,
{
    if k == 0 {
        1
    } else {
        16 * pow16((k - 1) as nat)
    }
}

proof fn lemma_hex_char(d: nat)
    requires
        d < 16,
    ensures
        is_upper_hex_digit(hex_char(d)),
        upper_hex_digit_value(hex_char(d)) == d,
{
    if d < 10 {
        assert(hex_char(d) as nat == d + 48);
    } else {
        assert(hex_char(d) as nat == d + 55);
    }
}

proof fn lemma_hex_string(n: nat, k: nat)
    requires
        1 <= k,
        n < pow16(k),
    ensures
        hex_string(n).len() <= k,
        hex_string(n).len() >= 1,
        forall|i: int| 0 <= i < hex_string(n).len() ==> is_upper_hex_digit(#[trigger] hex_string(n)[i]),
        hex_digits_value(hex_string(n)) == n,
    decreases n,
{
    if n < 16 {
        let s = hex_string(n);
        lemma_hex_char(n);
        assert(s.drop_last() =~= Seq::<char>::empty());
        assert(s.last() == hex_char(n));
        assert(hex_digits_value(Seq::<char>::empty()) == 0);
        assert(hex_digits_value(s) == hex_digits_value(s.drop_last()) * 16 + upper_hex_digit_value(s.last()));
    } else {
        lemma_hex_char(n % 16);
        if k == 1 {
            assert(pow16(1) == 16) by {
                assert(pow16(0) == 1);
            }
        }
        assert(k >= 2);
        let q = n / 16;
        assert(pow16(k) == 16 * pow16((k - 1) as nat));
        assert(q < pow16((k - 1) as nat)) by (nonlinear_arith)
            requires
                n < 16 * pow16((k - 1) as nat),
                q == n / 16,
        ;
        lemma_hex_string(q, (k - 1) as nat);
        let s = hex_string(n);
        assert(s.drop_last() =~= hex_string(q));
        assert(s.last() == hex_char(n % 16));
        assert(hex_digits_value(s) == hex_digits_value(hex_string(q)) * 16 + upper_hex_digit_value(hex_char(n % 16)));
        assert forall|i: int| 0 <= i < s.len() implies is_upper_hex_digit(#[trigger] s[i]) by {
            if i < s.len() - 1 {
                assert(s[i] == hex_string(q)[i]);
            }
        }
        assert(n == q * 16 + n % 16) by (nonlinear_arith)
            requires
                q == n / 16,
        ;
    }
}

proof fn lemma_zero_padding(s: Seq<char>, w: nat)
    ensures
        hex_digits_value(pad_left(s, w, '0')) == hex_digits_value(s),
        pad_left(s, w, '0').len() == if s.len() >= w { s.len() } else { w },
        forall|i: int| 0 <= i < pad_left(s, w, '0').len() - s.len() ==> #[trigger] pad_left(s, w, '0')[i] == '0',
        forall|i: int| 0 <= i < s.len() ==> #[trigger] pad_left(s, w, '0')[pad_left(s, w, '0').len() - s.len() + i] == s[i],
    decreases s.len(),
{
    if s.len() < w {
        let z = Seq::new((w - s.len()) as nat, |i: int| '0');
        lemma_zeros_value(z);
        lemma_concat_value(z, s);
    }
}

proof fn lemma_zeros_value(z: Seq<char>)
    requires
        forall|i: int| 0 <= i < z.len() ==> z[i] == '0',
    ensures
        hex_digits_value(z) == 0,
    decreases z.len(),
{
    if z.len() > 0 {
        lemma_zeros_value(z.drop_last());
    }
}

proof fn lemma_concat_value(z: Seq<char>, s: Seq<char>)
    requires
        hex_digits_value(z) == 0,
    ensures
        hex_digits_value(z + s) == hex_digits_value(s),
    decreases s.len(),
{
    if s.len() == 0 {
        assert(z + s =~= z);
    } else {
        lemma_concat_value(z, s.drop_last());
        assert((z + s).drop_last() =~= z + s.drop_last());
    }
}

/// The hexadecimal text of an identifier is `0x` followed by upper-case
/// hexadecimal digits: three for a standard identifier (up to `0x7FF`), else
/// eight; read back, the digits give the identifier within the 29-bit mask.
pub proof fn law_id_hex_round_trip(id: u32)
    ensures
        ({
            let h = id_hex_text(id);
            &&& h.len() == (if id <= 0x7FF { 5int } else { 10int })
            &&& h[0] == '0' && h[1] == 'x'
            &&& forall|i: int| 2 <= i < h.len() ==> is_upper_hex_digit(#[trigger] h[i])
            &&& hex_digits_value(h.skip(2)) == (id & 0x1FFF_FFFF)
        }),
{
    let h = id_hex_text(id);
    assert(pow16(3) == 4096) by {
        reveal_with_fuel(pow16, 4);
    }
    assert(pow16(8) == 0x1_0000_0000) by {
        reveal_with_fuel(pow16, 9);
    }
    let v: nat = if id <= 0x7FF { id as nat } else { (id & 0x1FFF_FFFF) as nat };
    let w: nat = if id <= 0x7FF { 3 } else { 8 };
    assert((id & 0x1FFF_FFFF) <= 0x1FFF_FFFF) by (bit_vector);
    assert(id <= 0x7FF ==> (id & 0x1FFF_FFFF) == id) by (bit_vector);
    lemma_hex_string(v, w);
    lemma_zero_padding(hex_string(v), w);
    let p = pad_left(hex_string(v), w, '0');
    assert(h == seq!['0', 'x'] + p);
    assert(h.skip(2) =~= p);
    assert forall|i: int| 2 <= i < h.len() implies is_upper_hex_digit(#[trigger] h[i]) by {
        let j = i - 2;
        assert(h[i] == p[j]);
        if j < p.len() - hex_string(v).len() {
            assert(p[j] == '0');
        } else {
            let t = j - (p.len() - hex_string(v).len());
            assert(p[p.len() - hex_string(v).len() + t] == hex_string(v)[t]);
        }
    }
}

proof fn lemma_sorted_items<K>(ks: Seq<K>, e: Seq<(K, SortKey)>)
    requires
        e.len() == ks.len(),
        forall|i: int| 0 <= i < ks.len() ==> #[trigger] e[i].0 == ks[i],
    ensures
        ({
            let out = stable_sort(e);
            let s = items_of(out);
            &&& s.len() == ks.len()
            &&& forall|k: K| s.contains(k) <==> ks.contains(k)
            &&& ks.no_duplicates() ==> s.no_duplicates()
            &&& forall|i: int| 0 <= i < s.len() ==> #[trigger] s[i] == out[i].0 && e.contains(out[i])
            &&& forall|i: int, j: int| 0 <= i < j < s.len() ==> !crate::dbc::types::sorting::key_lt(#[trigger] out[j].1, #[trigger] out[i].1)
        }),
{
    lemma_stable_sort_items(e);
    lemma_stable_sort_sorted(e);
    lemma_stable_sort_len(e);
    assert(items_of(e) =~= ks);
}

/// Sorting nodes by name (ASCII case ignored), in any of the sort modes,
/// puts them in order: no existing node comes after an existing one whose
/// lower-case name comes after its own; the result holds the same keys as
/// before, as many, and none twice when none was twice before.
pub proof fn law_nodes_sorted_by_name(db: DatabaseView, ks: Seq<NodeKey>, mode: SortMode)
    ensures
        ({
            let s = nodes_by_name(db, ks, mode);
            &&& forall|i: int, j: int|
                0 <= i < j < s.len() && db.nodes.contains_key(#[trigger] s[i]) && db.nodes.contains_key(#[trigger] s[j])
                    ==> !lex_lt(ascii_lower_seq(db.nodes[s[j]].name), ascii_lower_seq(db.nodes[s[i]].name))
            &&& s.len() == ks.len()
            &&& forall|k: NodeKey| s.contains(k) <==> ks.contains(k)
            &&& ks.no_duplicates() ==> s.no_duplicates()
        }),
{
    let e = node_entries(db, ks, mode);
    lemma_sorted_items(ks, e);
    let out = stable_sort(e);
    let s = items_of(out);
    assert forall|i: int, j: int|
        0 <= i < j < s.len() && db.nodes.contains_key(#[trigger] s[i]) && db.nodes.contains_key(#[trigger] s[j]) implies !lex_lt(
        ascii_lower_seq(db.nodes[s[j]].name),
        ascii_lower_seq(db.nodes[s[i]].name),
    ) by {
        assert(e.contains(out[i]) && e.contains(out[j]));
        let a = choose|a: int| 0 <= a < e.len() && e[a] == out[i];
        let b = choose|b: int| 0 <= b < e.len() && e[b] == out[j];
        assert(!crate::dbc::types::sorting::key_lt(out[j].1, out[i].1));
    }
}

/// Sorting messages by name (ASCII case ignored), in any of the sort modes,
/// puts them in order: no existing message comes after an existing one whose
/// lower-case name comes after its own; the result holds the same keys as
/// before, as many, and none twice when none was twice before.
pub proof fn law_messages_sorted_by_name(db: DatabaseView, ks: Seq<MessageKey>, mode: SortMode)
    ensures
        ({
            let s = messages_by_name(db, ks, mode);
            &&& forall|i: int, j: int|
                0 <= i < j < s.len() && db.messages.contains_key(#[trigger] s[i]) && db.messages.contains_key(#[trigger] s[j])
                    ==> !lex_lt(ascii_lower_seq(db.messages[s[j]].name), ascii_lower_seq(db.messages[s[i]].name))
            &&& s.len() == ks.len()
            &&& forall|k: MessageKey| s.contains(k) <==> ks.contains(k)
            &&& ks.no_duplicates() ==> s.no_duplicates()
        }),
{
    let e = message_entries(db, ks, mode);
    lemma_sorted_items(ks, e);
    let out = stable_sort(e);
    let s = items_of(out);
    assert forall|i: int, j: int|
        0 <= i < j < s.len() && db.messages.contains_key(#[trigger] s[i]) && db.messages.contains_key(#[trigger] s[j]) implies !lex_lt(
        ascii_lower_seq(db.messages[s[j]].name),
        ascii_lower_seq(db.messages[s[i]].name),
    ) by {
        assert(e.contains(out[i]) && e.contains(out[j]));
        let a = choose|a: int| 0 <= a < e.len() && e[a] == out[i];
        let b = choose|b: int| 0 <= b < e.len() && e[b] == out[j];
        assert(!crate::dbc::types::sorting::key_lt(out[j].1, out[i].1));
    }
}

/// Sorting signals by name (ASCII case ignored), in any of the sort modes,
/// puts them in order: no existing signal comes after an existing one whose
/// lower-case name comes after its own; the result holds the same keys as
/// before, as many, and none twice when none was twice before.
pub proof fn law_signals_sorted_by_name(db: DatabaseView, ks: Seq<SignalKey>, mode: SortMode)
    ensures
        ({
            let s = signals_by_name(db, ks, mode);
            &&& forall|i: int, j: int|
                0 <= i < j < s.len() && db.signals.contains_key(#[trigger] s[i]) && db.signals.contains_key(#[trigger] s[j])
                    ==> !lex_lt(ascii_lower_seq(db.signals[s[j]].name), ascii_lower_seq(db.signals[s[i]].name))
            &&& s.len() == ks.len()
            &&& forall|k: SignalKey| s.contains(k) <==> ks.contains(k)
            &&& ks.no_duplicates() ==> s.no_duplicates()
        }),
{
    let e = signal_entries(db, ks, mode);
    lemma_sorted_items(ks, e);
    let out = stable_sort(e);
    let s = items_of(out);
    assert forall|i: int, j: int|
        0 <= i < j < s.len() && db.signals.contains_key(#[trigger] s[i]) && db.signals.contains_key(#[trigger] s[j]) implies !lex_lt(
        ascii_lower_seq(db.signals[s[j]].name),
        ascii_lower_seq(db.signals[s[i]].name),
    ) by {
        assert(e.contains(out[i]) && e.contains(out[j]));
        let a = choose|a: int| 0 <= a < e.len() && e[a] == out[i];
        let b = choose|b: int| 0 <= b < e.len() && e[b] == out[j];
        assert(!crate::dbc::types::sorting::key_lt(out[j].1, out[i].1));
    }
}


/// Lookups by name ignore case: two names that are the same in lower case
/// find the same node, message and signal.
pub proof fn law_lookup_by_name_ignores_case(db: DatabaseView, a: Seq<char>, b: Seq<char>)
    requires
        unicode_lowercase(a) == unicode_lowercase(b),
    ensures
        node_named(db, a) == node_named(db, b),
        message_at(db, entry(db.msg_by_name, unicode_lowercase(a))) == message_at(db, entry(db.msg_by_name, unicode_lowercase(b))),
        signal_at(db, entry(db.sig_by_name, unicode_lowercase(a))) == signal_at(db, entry(db.sig_by_name, unicode_lowercase(b))),
{
}

/// Keys are stable: adding a node, a message or a signal under a key not
/// in use leaves every entity already held under its key, unchanged.
pub proof fn law_keys_stable_under_add(
    db: DatabaseView,
    nk: NodeKey,
    n: NodeView,
    mk: MessageKey,
    m: MessageView,
    sk: SignalKey,
    s: SignalView,
)
    requires
        !db.nodes.contains_key(nk),
        !db.messages.contains_key(mk),
        !db.signals.contains_key(sk),
    ensures
        forall|k: NodeKey| #[trigger] db.nodes.contains_key(k) ==> node_added(db, nk, n).nodes.contains_key(k)
            && node_added(db, nk, n).nodes[k] == db.nodes[k],
        forall|k: MessageKey| #[trigger] db.messages.contains_key(k) ==> message_added(db, mk, m).messages.contains_key(k)
            && message_added(db, mk, m).messages[k] == db.messages[k],
        forall|k: SignalKey| #[trigger] db.signals.contains_key(k) ==> signal_added(db, sk, s).signals.contains_key(k)
            && signal_added(db, sk, s).signals[k] == db.signals[k],
        node_added(db, nk, n).messages == db.messages && node_added(db, nk, n).signals == db.signals,
        message_added(db, mk, m).nodes == db.nodes && message_added(db, mk, m).signals == db.signals,
        signal_added(db, sk, s).nodes == db.nodes && signal_added(db, sk, s).messages == db.messages,
{
}

/// The hexadecimal text of an identifier is already in the form that
/// hexadecimal lookups bring their argument to.
pub proof fn law_id_hex_is_normalized(id: u32)
    ensures
        normalized_id_hex(id_hex_text(id)) == id_hex_text(id),
{
    law_id_hex_round_trip(id);
    let h = id_hex_text(id);
    let ws = CharClass::Ws(true);
    assert(!in_class(ws, h[0]));
    assert(lead_count(h, ws) == 0);
    assert(h.skip(0) =~= h);
    assert(is_upper_hex_digit(h[h.len() - 1]));
    assert(h.last() == h[h.len() - 1]);
    assert(!in_class(ws, h.last()));
    assert(trail_count(h, ws) == 0);
    assert(h.take(h.len() as int) =~= h);
    assert(trim(h) == h);
    reveal_strlit("0x");
    assert(h.take(2) =~= "0x"@);
    assert(starts_with(h, "0x"@));
    let a = h.skip(2);
    assert(a.len() > 0 && a.last() == h.last());
    assert forall|i: int| 0 <= i < a.len() implies #[trigger] ascii_upper_seq(a)[i] == a[i] by {
        assert(a[i] == h[i + 2]);
        assert(is_upper_hex_digit(h[i + 2]));
        assert(ascii_upper(a[i]) == a[i]);
    }
    assert(ascii_upper_seq(a) =~= a);
    assert("0x"@ + a =~= h);
}

/// After a message is deleted from a well-formed database, looking it up by
/// its name, its identifier or its hexadecimal identifier finds nothing; it
/// is in neither the message table nor the message order, no node sends it,
/// and no signal belongs to it any more. (The hexadecimal identifier is the
/// one the library writes for the identifier, as for every message it adds;
/// a caller that edits a message in place may change it.)
pub proof fn law_deleted_message_not_found(db: DatabaseDBC, mk: MessageKey)
    requires
        db.wf(),
        db@.messages.contains_key(mk),
        db@.messages[mk].id_hex == id_hex_text(db@.messages[mk].id),
    ensures
        ({
            let after = message_deleted(db@, mk);
            let m = db@.messages[mk];
            &&& entry(after.msg_by_name, unicode_lowercase(m.name)) is None
            &&& entry(after.msg_by_id, m.id) is None
            &&& entry(after.msg_by_hex, normalized_id_hex(m.id_hex)) is None
            &&& !after.messages.contains_key(mk)
            &&& !after.messages_order.contains(mk)
            &&& forall|k: NodeKey| #[trigger] after.nodes.contains_key(k) ==> !after.nodes[k].messages_sent.contains(mk)
            &&& forall|s: SignalKey| #[trigger] after.signals.contains_key(s) ==> after.signals[s].message != mk
        }),
{
    let d = db@;
    let after = message_deleted(d, mk);
    let m = d.messages[mk];
    law_id_hex_is_normalized(m.id);
    lemma_without(d.messages_order, mk);
    assert forall|k: NodeKey| #[trigger] after.nodes.contains_key(k) implies !after.nodes[k].messages_sent.contains(mk) by {
        lemma_without(d.nodes[k].messages_sent, mk);
    }
    assert(arena_slots(db.arena).contains_key(mk.h()));
    assert(!mk.is_null_spec());
    MessageKey::lemma_nil();
}

} // verus!

