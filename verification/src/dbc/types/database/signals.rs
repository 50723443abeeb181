//! Signals of the keyed database and the receiver relation.
use vstd::prelude::*;
use crate::dbc::types::relations::rel_without;
use crate::dbc::types::attributes::{table_of, AttrValueView};
use crate::dbc::types::arena::{arena_at_mut, arena_get, arena_insert, arena_remove, arena_slots};
use crate::dbc::types::database::messages::entry;
use crate::dbc::types::database::nodes::{lower_chars, owned};
use crate::dbc::types::database::{
    copy_name, same_keys, NameKind, lemma_drop_signal, lemma_put_message, lemma_put_node, lemma_put_signal, message_map, node_map,
    signal_map, DatabaseDBC, DatabaseView,
};
use crate::dbc::types::entities::{
    Entity, MessageView, MuxCase, MuxInfo, MuxRole, MuxSelector, NodeView, SignalDBC, SignalView,
};
use crate::dbc::types::errors::DatabaseError;
use crate::dbc::types::keys::{
    contains_key, copy_keys, handle_ok_exec, lemma_push_contains, lemma_without, lemma_without_no_dups,
    push_new, push_new_exec, remove_key, without, without_exec, KeyLike, MessageKey, NodeKey, SignalKey,
};
use crate::dbc::types::signal::{Endianness, Signess};
use crate::dbc::message_layout::{check_signal_fits, fit_error};
use crate::dbc::types::entities::{copy_cases, copy_string, table_view};
use crate::text::{chars_of, chars_of_string, extend_chars, string_of, unicode_lowercase};

verus! {

/// A new signal, bound to no message.
pub open spec fn blank_signal(
    name: Seq<char>,
    endian: Endianness,
    sign: Signess,
    factor: Seq<char>,
    offset: Seq<char>,
    min: Seq<char>,
    max: Seq<char>,
    unit: Seq<char>,
) -> SignalView {
    SignalView {
        name: name,
        bit_start: 0,
        bit_length: 0,
        endian: endian,
        sign: sign,
        factor: factor,
        offset: offset,
        min: min,
        max: max,
        unit_of_measurement: unit,
        receiver_nodes: Seq::empty(),
        comment: Seq::empty(),
        value_table: Seq::empty(),
        message: MessageKey::nil(),
        mux: None,
        attributes: Seq::empty(),
    }
}

/// The database after adding signal `s` under the fresh key `k`, indexed by
/// the lower-case form of its name.
pub open spec fn signal_added(db: DatabaseView, k: SignalKey, s: SignalView) -> DatabaseView {
    DatabaseView {
        signals: db.signals.insert(k, s),
        signals_order: db.signals_order.push(k),
        sig_by_name: db.sig_by_name.insert(unicode_lowercase(s.name), k),
        ..db
    }
}

/// A node that neither transmits nor receives signal `sk`.
pub open spec fn node_without_signal(n: NodeView, sk: SignalKey) -> NodeView {
    NodeView { tx_signals: without(n.tx_signals, sk), rx_signals: without(n.rx_signals, sk), ..n }
}

/// Every node with signal `sk` removed.
pub open spec fn nodes_without_signal(ns: Map<NodeKey, NodeView>, sk: SignalKey) -> Map<NodeKey, NodeView> {
    ns.map_values(|n: NodeView| node_without_signal(n, sk))
}

/// A message without signal `sk`.
pub open spec fn message_without_signal(m: MessageView, sk: SignalKey) -> MessageView {
    MessageView { signals: without(m.signals, sk), ..m }
}

/// Every message with signal `sk` removed.
pub open spec fn messages_without_signal(ms: Map<MessageKey, MessageView>, sk: SignalKey) -> Map<MessageKey, MessageView> {
    ms.map_values(|m: MessageView| message_without_signal(m, sk))
}

/// The database after deleting signal `sk` (present): the signal, its place
/// in the order list and its name entry are gone, no node or message refers
/// to it any more, and the attribute values of its relations with nodes are
/// gone.
pub open spec fn signal_deleted(db: DatabaseView, sk: SignalKey) -> DatabaseView {
    DatabaseView {
        signals: db.signals.remove(sk),
        signals_order: without(db.signals_order, sk),
        sig_by_name: db.sig_by_name.remove(unicode_lowercase(db.signals[sk].name)),
        nodes: nodes_without_signal(db.nodes, sk),
        messages: messages_without_signal(db.messages, sk),
        bu_sg_rel_attributes: rel_without(db.bu_sg_rel_attributes, None, Some(sk)),
        ..db
    }
}

/// The database with signal `sk` changed to `s`.
pub open spec fn with_signal(db: DatabaseView, sk: SignalKey, s: SignalView) -> DatabaseView {
    DatabaseView { signals: db.signals.insert(sk, s), ..db }
}

/// The database with node `nk` changed to `n`.
pub open spec fn with_node(db: DatabaseView, nk: NodeKey, n: NodeView) -> DatabaseView {
    DatabaseView { nodes: db.nodes.insert(nk, n), ..db }
}

/// The database with message `mk` changed to `m`.
pub open spec fn with_message(db: DatabaseView, mk: MessageKey, m: MessageView) -> DatabaseView {
    DatabaseView { messages: db.messages.insert(mk, m), ..db }
}

/// First step of adding receiver `nk` to signal `sk` (present): the node
/// joins the signal's receivers.
pub open spec fn receiver_step1(db: DatabaseView, sk: SignalKey, nk: NodeKey) -> DatabaseView {
    let s = db.signals[sk];
    with_signal(db, sk, SignalView { receiver_nodes: push_new(s.receiver_nodes, nk), ..s })
}

/// Second step (node `nk` present): the signal joins the node's received
/// signals.
pub open spec fn receiver_step2(db: DatabaseView, sk: SignalKey, nk: NodeKey) -> DatabaseView {
    let d = receiver_step1(db, sk, nk);
    let n = d.nodes[nk];
    with_node(d, nk, NodeView { rx_signals: push_new(n.rx_signals, sk), ..n })
}

/// Last step (the signal's message present): the node joins the message's
/// receivers.
pub open spec fn receiver_step3(db: DatabaseView, sk: SignalKey, nk: NodeKey) -> DatabaseView {
    let d = receiver_step2(db, sk, nk);
    let mk = db.signals[sk].message;
    let m = d.messages[mk];
    with_message(d, mk, MessageView { receiver_nodes: push_new(m.receiver_nodes, nk), ..m })
}

/// First step of removing receiver `nk` from signal `sk` (present).
pub open spec fn unreceive_step1(db: DatabaseView, sk: SignalKey, nk: NodeKey) -> DatabaseView {
    let s = db.signals[sk];
    with_signal(db, sk, SignalView { receiver_nodes: without(s.receiver_nodes, nk), ..s })
}

/// Second step (node present): the signal leaves the node's received signals.
pub open spec fn unreceive_step2(db: DatabaseView, sk: SignalKey, nk: NodeKey) -> DatabaseView {
    let d = unreceive_step1(db, sk, nk);
    let n = d.nodes[nk];
    with_node(d, nk, NodeView { rx_signals: without(n.rx_signals, sk), ..n })
}

/// Does node `nk` still receive some existing signal of message `mk`?
pub open spec fn still_receives(db: DatabaseView, nk: NodeKey, mk: MessageKey) -> bool {
    let rx = db.nodes[nk].rx_signals;
    exists|i: int| 0 <= i < rx.len() && db.signals.contains_key(#[trigger] rx[i]) && db.signals[rx[i]].message == mk
}

/// Last step (the node receives nothing else of the message, which is
/// present): the node leaves the message's receivers.
pub open spec fn unreceive_step3(db: DatabaseView, sk: SignalKey, nk: NodeKey) -> DatabaseView {
    let d = unreceive_step2(db, sk, nk);
    let mk = db.signals[sk].message;
    let m = d.messages[mk];
    with_message(d, mk, MessageView { receiver_nodes: without(m.receiver_nodes, nk), ..m })
}

/// Every element of `xs` appended to `s` unless already there, in order.
pub open spec fn push_all_new<K>(s: Seq<K>, xs: Seq<K>) -> Seq<K>
    decreases xs.len(),
{
    if xs.len() == 0 {
        s
    } else {
        push_new(push_all_new(s, xs.drop_last()), xs.last())
    }
}

/// How the message a signal is bound to is named in errors: its name and
/// hexadecimal identifier, or that it is unknown.
pub open spec fn bound_to_text(db: DatabaseView, mk: MessageKey, capital: bool) -> Seq<char> {
    if db.messages.contains_key(mk) {
        (if capital {
            "Message '"@
        } else {
            "message '"@
        }) + db.messages[mk].name + "' (ID "@ + db.messages[mk].id_hex + ")"@
    } else if capital {
        "An unknown message"@
    } else {
        "an unknown message"@
    }
}

/// The multiplexor a multiplexed signal gets when its message has exactly one.
pub open spec fn inferred_switch(m: MessageView, role: MuxRole) -> Option<SignalKey> {
    if role == MuxRole::Multiplexed && m.mux_multiplexors.len() == 1 {
        Some(m.mux_multiplexors[0])
    } else {
        None
    }
}

/// The selector given, or the default one.
pub open spec fn selector_or_default(sel: Option<MuxSelector>) -> MuxSelector {
    match sel {
        Some(x) => x,
        None => MuxSelector::Value(0),
    }
}

/// The multiplexing information of a newly bound signal.
pub open spec fn mux_info_of(role: MuxRole, switch: Option<SignalKey>, sel: Option<MuxSelector>) -> Option<MuxInfo> {
    if role == MuxRole::NotMultiplexed {
        None
    } else {
        Some(MuxInfo { role: role, group: 0, switch: switch, selector: selector_or_default(sel) })
    }
}

/// The nodes after each existing node of `senders` transmits signal `sk`.
pub open spec fn nodes_transmitting(ns: Map<NodeKey, NodeView>, senders: Seq<NodeKey>, sk: SignalKey) -> Map<NodeKey, NodeView> {
    Map::new(
        |k: NodeKey| ns.contains_key(k),
        |k: NodeKey| if senders.contains(k) {
            NodeView { tx_signals: push_new(ns[k].tx_signals, sk), ..ns[k] }
        } else {
            ns[k]
        },
    )
}

/// The nodes after each existing node of `senders` stops transmitting `sk`.
pub open spec fn nodes_not_transmitting(ns: Map<NodeKey, NodeView>, senders: Seq<NodeKey>, sk: SignalKey) -> Map<NodeKey, NodeView> {
    Map::new(
        |k: NodeKey| ns.contains_key(k),
        |k: NodeKey| if senders.contains(k) {
            NodeView { tx_signals: without(ns[k].tx_signals, sk), ..ns[k] }
        } else {
            ns[k]
        },
    )
}

/// Binding step of [`add_msg_sig_relation`](DatabaseDBC::add_msg_sig_relation):
/// the signal belongs to the message with its multiplexing information, the
/// message lists the signal and gains its receivers, and the message's
/// senders transmit it.
pub open spec fn bind_step(db: DatabaseView, sk: SignalKey, mk: MessageKey, role: MuxRole, sel: Option<MuxSelector>) -> DatabaseView {
    let s = db.signals[sk];
    let m = db.messages[mk];
    let s2 = SignalView { message: mk, mux: mux_info_of(role, inferred_switch(m, role), sel), ..s };
    let m2 = MessageView {
        signals: push_new(m.signals, sk),
        receiver_nodes: push_all_new(m.receiver_nodes, s.receiver_nodes),
        ..m
    };
    DatabaseView {
        signals: db.signals.insert(sk, s2),
        messages: db.messages.insert(mk, m2),
        nodes: nodes_transmitting(db.nodes, m.sender_nodes, sk),
        ..db
    }
}

/// A multiplexed signal still waiting for its multiplexor.
pub open spec fn is_pending(sigs: Map<SignalKey, SignalView>, k: SignalKey) -> bool {
    &&& sigs.contains_key(k)
    &&& sigs[k].mux matches Some(mi)
    &&& mi.role == MuxRole::Multiplexed
    &&& mi.switch is None
}

/// The multiplexing cases a new multiplexor `sw` gets: one per pending
/// signal of `list`, in order.
pub open spec fn pending_cases(list: Seq<SignalKey>, sigs: Map<SignalKey, SignalView>, sw: SignalKey) -> Seq<MuxCase>
    decreases list.len(),
{
    if list.len() == 0 {
        Seq::empty()
    } else if is_pending(sigs, list.last()) {
        pending_cases(list.drop_last(), sigs, sw).push(
            MuxCase { switch: sw, selector: sigs[list.last()].mux->Some_0.selector, signal: list.last() },
        )
    } else {
        pending_cases(list.drop_last(), sigs, sw)
    }
}

/// The signals after every pending signal of `list` gets multiplexor `sw`.
pub open spec fn signals_switched(sigs: Map<SignalKey, SignalView>, list: Seq<SignalKey>, sw: SignalKey) -> Map<SignalKey, SignalView> {
    Map::new(
        |k: SignalKey| sigs.contains_key(k),
        |k: SignalKey| if list.contains(k) && is_pending(sigs, k) {
            SignalView { mux: Some(MuxInfo { switch: Some(sw), ..sigs[k].mux->Some_0 }), ..sigs[k] }
        } else {
            sigs[k]
        },
    )
}

/// Some case of `c` belongs to multiplexor `sw`.
pub open spec fn has_switch(c: Seq<MuxCase>, sw: SignalKey) -> bool {
    exists|i: int| 0 <= i < c.len() && #[trigger] c[i].switch == sw
}

/// Multiplexing step of [`add_msg_sig_relation`](DatabaseDBC::add_msg_sig_relation).
/// A multiplexor joins the message's multiplexors and adopts the message's
/// pending multiplexed signals, opening its table of cases when there are
/// any; a multiplexed signal with an inferred multiplexor opens that
/// multiplexor's table (empty if it was not open) and, with a selector,
/// becomes a case of it.
pub open spec fn mux_step(db: DatabaseView, sk: SignalKey, mk: MessageKey, role: MuxRole, sw: Option<SignalKey>, sel: Option<MuxSelector>) -> DatabaseView {
    let m = db.messages[mk];
    if role == MuxRole::Multiplexor {
        let pc = pending_cases(m.signals, db.signals, sk);
        DatabaseView {
            messages: db.messages.insert(
                mk,
                MessageView {
                    mux_multiplexors: push_new(m.mux_multiplexors, sk),
                    mux_cases: m.mux_cases + pc,
                    mux_switches: if pc.len() > 0 {
                        push_new(m.mux_switches, sk)
                    } else {
                        m.mux_switches
                    },
                    ..m
                },
            ),
            signals: signals_switched(db.signals, m.signals, sk),
            ..db
        }
    } else if role == MuxRole::Multiplexed && sw is Some {
        DatabaseView {
            messages: db.messages.insert(
                mk,
                MessageView {
                    mux_cases: match sel {
                        Some(s) => m.mux_cases.push(MuxCase { switch: sw->Some_0, selector: s, signal: sk }),
                        None => m.mux_cases,
                    },
                    mux_switches: push_new(m.mux_switches, sw->Some_0),
                    ..m
                },
            ),
            ..db
        }
    } else {
        db
    }
}

/// The database after binding signal `sk` to message `mk` (both present,
/// signal unbound, layout accepted).
pub open spec fn signal_bound(db: DatabaseView, sk: SignalKey, mk: MessageKey, role: MuxRole, sel: Option<MuxSelector>) -> DatabaseView {
    mux_step(bind_step(db, sk, mk, role, sel), sk, mk, role, inferred_switch(db.messages[mk], role), sel)
}

/// Every element of `xs` appended to a copy of `s` unless already there.
fn push_all_new_exec<K: KeyLike>(s: &Vec<K>, xs: &Vec<K>) -> (r: Vec<K>)
    ensures
        r@ == push_all_new(s@, xs@),
{
    let mut out: Vec<K> = copy_keys(s);
    let mut k: usize = 0;
    while k < xs.len()
        invariant
            k <= xs.len(),
            out@ == push_all_new(s@, xs@.take(k as int)),
        decreases xs.len() - k,
    {
        push_new_exec(&mut out, xs[k]);
        assert(xs@.take(k + 1).drop_last() =~= xs@.take(k as int));
        k = k + 1;
    }
    assert(xs@.take(xs.len() as int) =~= xs@);
    out
}

/// The cases whose multiplexor is not `sw`.
pub open spec fn cases_without_switch(c: Seq<MuxCase>, sw: SignalKey) -> Seq<MuxCase>
    decreases c.len(),
{
    if c.len() == 0 {
        c
    } else if c.last().switch == sw {
        cases_without_switch(c.drop_last(), sw)
    } else {
        cases_without_switch(c.drop_last(), sw).push(c.last())
    }
}

/// The signals of the cases whose multiplexor is `sw`, in order.
pub open spec fn case_signals(c: Seq<MuxCase>, sw: SignalKey) -> Seq<SignalKey>
    decreases c.len(),
{
    if c.len() == 0 {
        Seq::empty()
    } else if c.last().switch == sw {
        case_signals(c.drop_last(), sw).push(c.last().signal)
    } else {
        case_signals(c.drop_last(), sw)
    }
}

/// The cases other than those of signal `sk` under multiplexor `sw`.
pub open spec fn cases_without_signal(c: Seq<MuxCase>, sw: SignalKey, sk: SignalKey) -> Seq<MuxCase>
    decreases c.len(),
{
    if c.len() == 0 {
        c
    } else if c.last().switch == sw && c.last().signal == sk {
        cases_without_signal(c.drop_last(), sw, sk)
    } else {
        cases_without_signal(c.drop_last(), sw, sk).push(c.last())
    }
}

/// First step of unbinding signal `sk` from message `mk`: the message no
/// longer lists the signal; a multiplexor also leaves the multiplexors and
/// its table of cases is dropped, a multiplexed signal's case is dropped
/// and its multiplexor's table with it when no case is left.
pub open spec fn unregister_step(db: DatabaseView, sk: SignalKey, mk: MessageKey) -> DatabaseView {
    let m = db.messages[mk];
    let m1 = MessageView { signals: without(m.signals, sk), ..m };
    let m2 = match db.signals[sk].mux {
        Some(mi) => if mi.role == MuxRole::Multiplexor {
            MessageView {
                mux_multiplexors: without(m1.mux_multiplexors, sk),
                mux_cases: cases_without_switch(m1.mux_cases, sk),
                mux_switches: without(m1.mux_switches, sk),
                ..m1
            }
        } else if mi.role == MuxRole::Multiplexed && mi.switch is Some {
            let sw = mi.switch->Some_0;
            let c = cases_without_signal(m1.mux_cases, sw, sk);
            MessageView {
                mux_cases: c,
                mux_switches: if has_switch(c, sw) {
                    m1.mux_switches
                } else {
                    without(m1.mux_switches, sw)
                },
                ..m1
            }
        } else {
            m1
        },
        None => m1,
    };
    with_message(db, mk, m2)
}

/// The signals that lose their multiplexor when signal `sk` leaves message
/// `mk`: those of the cases of `sk` when it is a multiplexor.
pub open spec fn detached_signals(db: DatabaseView, sk: SignalKey, mk: MessageKey) -> Seq<SignalKey> {
    match db.signals[sk].mux {
        Some(mi) => if mi.role == MuxRole::Multiplexor {
            case_signals(db.messages[mk].mux_cases, sk)
        } else {
            Seq::empty()
        },
        None => Seq::empty(),
    }
}

/// The signals after every multiplexed signal of `deps` loses its multiplexor.
pub open spec fn signals_detached(sigs: Map<SignalKey, SignalView>, deps: Seq<SignalKey>) -> Map<SignalKey, SignalView> {
    Map::new(
        |k: SignalKey| sigs.contains_key(k),
        |k: SignalKey| if deps.contains(k) && (sigs[k].mux matches Some(mi) && mi.role == MuxRole::Multiplexed) {
            SignalView { mux: Some(MuxInfo { switch: None, ..sigs[k].mux->Some_0 }), ..sigs[k] }
        } else {
            sigs[k]
        },
    )
}

/// The union of the receivers of the existing signals of `list`, in order of
/// first appearance.
pub open spec fn union_receivers(list: Seq<SignalKey>, sigs: Map<SignalKey, SignalView>) -> Seq<NodeKey>
    decreases list.len(),
{
    if list.len() == 0 {
        Seq::empty()
    } else if sigs.contains_key(list.last()) {
        push_all_new(union_receivers(list.drop_last(), sigs), sigs[list.last()].receiver_nodes)
    } else {
        union_receivers(list.drop_last(), sigs)
    }
}

/// The database after unbinding signal `sk` from message `mk` (both present,
/// the signal bound to the message and listed by it): see
/// [`unregister_step`]; the detached signals lose their multiplexor, the
/// signal is unbound with no multiplexing, the message's senders stop
/// transmitting it, and the message's receivers become the union of the
/// receivers of its remaining signals.
pub open spec fn signal_unbound(db: DatabaseView, sk: SignalKey, mk: MessageKey) -> DatabaseView {
    let d1 = unregister_step(db, sk, mk);
    let d2 = DatabaseView { signals: signals_detached(d1.signals, detached_signals(db, sk, mk)), ..d1 };
    let d3 = with_signal(d2, sk, SignalView { message: MessageKey::nil(), mux: None, ..d2.signals[sk] });
    let d4 = DatabaseView { nodes: nodes_not_transmitting(d3.nodes, db.messages[mk].sender_nodes, sk), ..d3 };
    let m = d4.messages[mk];
    with_message(d4, mk, MessageView { receiver_nodes: union_receivers(m.signals, d4.signals), ..m })
}

fn cases_without_switch_exec(c: &Vec<MuxCase>, sw: SignalKey) -> (r: Vec<MuxCase>)
    ensures
        r@ == cases_without_switch(c@, sw),
{
    let mut out: Vec<MuxCase> = Vec::new();
    let mut i: usize = 0;
    while i < c.len()
        invariant
            i <= c.len(),
            out@ == cases_without_switch(c@.take(i as int), sw),
        decreases c.len() - i,
    {
        assert(c@.take(i + 1).drop_last() =~= c@.take(i as int));
        if !(c[i].switch == sw) {
            out.push(c[i]);
        }
        i = i + 1;
    }
    assert(c@.take(c.len() as int) =~= c@);
    out
}

fn case_signals_exec(c: &Vec<MuxCase>, sw: SignalKey) -> (r: Vec<SignalKey>)
    ensures
        r@ == case_signals(c@, sw),
{
    let mut out: Vec<SignalKey> = Vec::new();
    let mut i: usize = 0;
    while i < c.len()
        invariant
            i <= c.len(),
            out@ == case_signals(c@.take(i as int), sw),
        decreases c.len() - i,
    {
        assert(c@.take(i + 1).drop_last() =~= c@.take(i as int));
        if c[i].switch == sw {
            out.push(c[i].signal);
        }
        i = i + 1;
    }
    assert(c@.take(c.len() as int) =~= c@);
    out
}

/// Run-time [`has_switch`].
fn has_switch_exec(c: &Vec<MuxCase>, sw: SignalKey) -> (r: bool)
    ensures
        r == has_switch(c@, sw),
{
    let mut i: usize = 0;
    while i < c.len()
        invariant
            i <= c.len(),
            forall|j: int| 0 <= j < i ==> c@[j].switch != sw,
        decreases c.len() - i,
    {
        if c[i].switch.same(&sw) {
            assert(c@[i as int].switch == sw);
            return true;
        }
        i = i + 1;
    }
    false
}

fn cases_without_signal_exec(c: &Vec<MuxCase>, sw: SignalKey, sk: SignalKey) -> (r: Vec<MuxCase>)
    ensures
        r@ == cases_without_signal(c@, sw, sk),
{
    let mut out: Vec<MuxCase> = Vec::new();
    let mut i: usize = 0;
    while i < c.len()
        invariant
            i <= c.len(),
            out@ == cases_without_signal(c@.take(i as int), sw, sk),
        decreases c.len() - i,
    {
        assert(c@.take(i + 1).drop_last() =~= c@.take(i as int));
        if !(c[i].switch == sw && c[i].signal == sk) {
            out.push(c[i]);
        }
        i = i + 1;
    }
    assert(c@.take(c.len() as int) =~= c@);
    out
}

/// One receiver linked to signal `sk` (present) step by step, as the
/// decoders do it: the node joins the signal's receivers; when the node is
/// present, the signal joins its received signals; when the signal's message
/// is present too, the node joins the message's receivers.
pub open spec fn receiver_added(db: DatabaseView, sk: SignalKey, nk: NodeKey) -> DatabaseView {
    if !db.nodes.contains_key(nk) {
        receiver_step1(db, sk, nk)
    } else if !db.messages.contains_key(db.signals[sk].message) {
        receiver_step2(db, sk, nk)
    } else {
        receiver_step3(db, sk, nk)
    }
}

/// Each node of `ns` added as a receiver of signal `sk`, in order.
pub open spec fn receivers_added(db: DatabaseView, sk: SignalKey, ns: Seq<NodeKey>) -> DatabaseView
    decreases ns.len(),
{
    if ns.len() == 0 {
        db
    } else {
        receiver_added(receivers_added(db, sk, ns.drop_last()), sk, ns.last())
    }
}

/// The database after copying signal `src` (present) to the fresh key `k`
/// named `name`: a new unbound signal with the source's encoding, layout,
/// comment and value table, and the source's receivers added in order.
pub open spec fn signal_copied(db: DatabaseView, src: SignalKey, k: SignalKey, name: Seq<char>) -> DatabaseView {
    let s = db.signals[src];
    let d1 = signal_added(
        db,
        k,
        blank_signal(name, s.endian, s.sign, s.factor, s.offset, s.min, s.max, s.unit_of_measurement),
    );
    let d2 = with_signal(
        d1,
        k,
        SignalView {
            comment: s.comment,
            value_table: s.value_table,
            bit_length: s.bit_length,
            bit_start: s.bit_start,
            ..d1.signals[k]
        },
    );
    receivers_added(d2, k, s.receiver_nodes)
}

proof fn lemma_without_twice<K>(s: Seq<K>, x: K)
    ensures
        without(without(s, x), x) == without(s, x),
{
    lemma_without(s, x);
    lemma_without(without(s, x), x);
}

impl DatabaseDBC {
    /// The signal addressed by `key`.
    pub fn get_sig_by_key(&self, key: SignalKey) -> (r: Option<&SignalDBC>)
        ensures
            self@.signals.contains_key(key) ==> (r matches Some(s) && s@ == self@.signals[key]),
            !self@.signals.contains_key(key) ==> r is None,
    {
        if !handle_ok_exec(key.handle()) {
            return None;
        }
        match arena_get(&self.arena, key.handle()) {
            Some(Entity::Signal(s)) => Some(s),
            _ => None,
        }
    }

    /// The key the name table holds for `name` (ignoring case).
    pub fn get_sig_key_by_name(&self, name: &str) -> (r: Option<SignalKey>)
        ensures
            r == entry(self@.sig_by_name, unicode_lowercase(name@)),
    {
        let lname: Vec<char> = lower_chars(name);
        self.sig_key_by_name.get(&lname)
    }

    /// The signal named `name` (ignoring case).
    pub fn get_signal_by_name(&self, name: &str) -> (r: Option<&SignalDBC>)
        ensures
            match entry(self@.sig_by_name, unicode_lowercase(name@)) {
                Some(k) => if self@.signals.contains_key(k) {
                    r matches Some(s) && s@ == self@.signals[k]
                } else {
                    r is None
                },
                None => r is None,
            },
    {
        match self.get_sig_key_by_name(name) {
            None => None,
            Some(k) => self.get_sig_by_key(k),
        }
    }

    /// Adds a signal, bound to no message, and returns its key. The scaling
    /// attributes are given as their literal text.
    pub fn add_signal(
        &mut self,
        name: &str,
        endian: Endianness,
        sign: Signess,
        factor: &str,
        offset: &str,
        min: &str,
        max: &str,
        unit: &str,
    ) -> (r: SignalKey)
        requires
            old(self).wf(),
            old(self).has_room(),
        ensures
            final(self).wf(),
            !old(self)@.signals.contains_key(r),
            final(self).entity_count() == old(self).entity_count() + 1,
            final(self)@ == signal_added(
                old(self)@,
                r,
                blank_signal(name@, endian, sign, factor@, offset@, min@, max@, unit@),
            ),
    {
        let s: SignalDBC = SignalDBC {
            name: owned(name),
            bit_start: 0,
            bit_length: 0,
            endian: endian,
            sign: sign,
            factor: owned(factor),
            offset: owned(offset),
            min: owned(min),
            max: owned(max),
            unit_of_measurement: owned(unit),
            receiver_nodes: Vec::new(),
            comment: String::new(),
            value_table: Vec::new(),
            message: MessageKey::null(),
            mux: None,
            attributes: Vec::new(),
        };
        assert(table_of(s.attributes@) =~= Seq::<(Seq<char>, AttrValueView)>::empty());
        let ghost before = *self;
        let ghost e = Entity::Signal(s);
        let h: u64 = arena_insert(&mut self.arena, Entity::Signal(s));
        let k: SignalKey = SignalKey::from_handle(h);
        proof {
            lemma_put_signal(arena_slots(before.arena), k, e);
            assert(e->Signal_0@.value_table =~= Seq::<(i64, Seq<char>)>::empty());
            assert(!before@.signals.contains_key(k));
            assert(!before.signals_order@.contains(k));
        }
        self.signals_order.push(k);
        self.sig_key_by_name.insert(lower_chars(name), k);
        proof {
            assert forall|j: SignalKey| #[trigger] self@.signals.contains_key(j) <==> self.signals_order@.contains(j) by {
                lemma_push_contains(before.signals_order@, k, j);
            }
            assert(self@ =~= signal_added(
                before@,
                k,
                blank_signal(name@, endian, sign, factor@, offset@, min@, max@, unit@),
            ));
        }
        k
    }

    /// Removes signal `sk` from the transmitted and received signals of
    /// every node.
    fn strip_signal_from_nodes(&mut self, sk: SignalKey)
        requires
            old(self).wf(),
        ensures
            final(self).wf(),
            final(self).entity_count() == old(self).entity_count(),
            final(self)@ == (DatabaseView { nodes: nodes_without_signal(old(self)@.nodes, sk), ..old(self)@ }),
    {
        let ghost d0 = self@;
        let order: Vec<NodeKey> = copy_keys(&self.nodes_order);
        let mut i: usize = 0;
        while i < order.len()
            invariant
                self.wf(),
                i <= order.len(),
                order@ == self.nodes_order@,
                self.entity_count() == old(self).entity_count(),
                self@ == (DatabaseView { nodes: self@.nodes, ..d0 }),
                self@.nodes.dom() == d0.nodes.dom(),
                forall|nk: NodeKey| #[trigger] self@.nodes.contains_key(nk) ==> self@.nodes[nk] == (
                    if order@.take(i as int).contains(nk) {
                        node_without_signal(d0.nodes[nk], sk)
                    } else {
                        d0.nodes[nk]
                    }),
            decreases order.len() - i,
        {
            let nk: NodeKey = order[i];
            assert(self.nodes_order@.contains(nk));
            assert(self@.nodes.contains_key(nk));
            let ghost s0 = arena_slots(self.arena);
            let ghost n0 = self@.nodes[nk];
            let e: &mut Entity = arena_at_mut(&mut self.arena, nk.handle());
            match e {
                Entity::Node(n) => {
                    remove_key(&mut n.tx_signals, &sk);
                    remove_key(&mut n.rx_signals, &sk);
                },
                _ => {},
            }
            proof {
                let s1 = arena_slots(self.arena);
                lemma_put_node(s0, nk, s1[nk.h()]);
                assert(self@.nodes[nk] == node_without_signal(n0, sk));
                assert forall|j: NodeKey| #[trigger] self@.nodes.contains_key(j) implies self@.nodes[j] == (
                    if order@.take(i + 1).contains(j) {
                        node_without_signal(d0.nodes[j], sk)
                    } else {
                        d0.nodes[j]
                    }) by {
                    assert(order@.take(i + 1) =~= order@.take(i as int).push(nk));
                    lemma_push_contains(order@.take(i as int), nk, j);
                    if j == nk && order@.take(i as int).contains(nk) {
                        lemma_without_twice(d0.nodes[nk].tx_signals, sk);
                        lemma_without_twice(d0.nodes[nk].rx_signals, sk);
                    }
                }
            }
            i = i + 1;
        }
        proof {
            assert(order@.take(order.len() as int) =~= order@);
            assert(self@.nodes =~= nodes_without_signal(d0.nodes, sk));
        }
    }

    /// Removes signal `sk` from the signals of every message.
    fn strip_signal_from_messages(&mut self, sk: SignalKey)
        requires
            old(self).wf(),
        ensures
            final(self).wf(),
            final(self).entity_count() == old(self).entity_count(),
            final(self)@ == (DatabaseView { messages: messages_without_signal(old(self)@.messages, sk), ..old(self)@ }),
    {
        let ghost d0 = self@;
        let order: Vec<MessageKey> = copy_keys(&self.messages_order);
        let mut i: usize = 0;
        while i < order.len()
            invariant
                self.wf(),
                i <= order.len(),
                order@ == self.messages_order@,
                self.entity_count() == old(self).entity_count(),
                self@ == (DatabaseView { messages: self@.messages, ..d0 }),
                self@.messages.dom() == d0.messages.dom(),
                forall|mk: MessageKey| #[trigger] self@.messages.contains_key(mk) ==> self@.messages[mk] == (
                    if order@.take(i as int).contains(mk) {
                        message_without_signal(d0.messages[mk], sk)
                    } else {
                        d0.messages[mk]
                    }),
            decreases order.len() - i,
        {
            let mk: MessageKey = order[i];
            assert(self.messages_order@.contains(mk));
            assert(self@.messages.contains_key(mk));
            let ghost s0 = arena_slots(self.arena);
            let ghost m0 = self@.messages[mk];
            let e: &mut Entity = arena_at_mut(&mut self.arena, mk.handle());
            match e {
                Entity::Message(m) => {
                    remove_key(&mut m.signals, &sk);
                },
                _ => {},
            }
            proof {
                let s1 = arena_slots(self.arena);
                lemma_put_message(s0, mk, s1[mk.h()]);
                assert(self@.messages[mk] == message_without_signal(m0, sk));
                assert forall|j: MessageKey| #[trigger] self@.messages.contains_key(j) implies self@.messages[j] == (
                    if order@.take(i + 1).contains(j) {
                        message_without_signal(d0.messages[j], sk)
                    } else {
                        d0.messages[j]
                    }) by {
                    assert(order@.take(i + 1) =~= order@.take(i as int).push(mk));
                    lemma_push_contains(order@.take(i as int), mk, j);
                    if j == mk && order@.take(i as int).contains(mk) {
                        lemma_without_twice(d0.messages[mk].signals, sk);
                    }
                }
            }
            i = i + 1;
        }
        proof {
            assert(order@.take(order.len() as int) =~= order@);
            assert(self@.messages =~= messages_without_signal(d0.messages, sk));
        }
    }

    /// Deletes signal `sig_key`, removing every reference to it across the
    /// database (see [`signal_deleted`]).
    pub fn delete_signal(&mut self, sig_key: SignalKey) -> (r: Result<(), DatabaseError>)
        requires
            old(self).wf(),
        ensures
            final(self).wf(),
            !old(self)@.signals.contains_key(sig_key) ==> r == Err::<(), DatabaseError>(
                DatabaseError::SignalMissing { signal_key: sig_key },
            ) && final(self)@ == old(self)@ && final(self).entity_count() == old(self).entity_count(),
            old(self)@.signals.contains_key(sig_key) ==> r is Ok
                && final(self)@ == signal_deleted(old(self)@, sig_key)
                && final(self).entity_count() + 1 == old(self).entity_count(),
    {
        if !handle_ok_exec(sig_key.handle()) {
            return Err(DatabaseError::SignalMissing { signal_key: sig_key });
        }
        match arena_get(&self.arena, sig_key.handle()) {
            Some(Entity::Signal(_)) => {},
            _ => return Err(DatabaseError::SignalMissing { signal_key: sig_key }),
        }
        let ghost d0 = self@;
        let ghost s0 = arena_slots(self.arena);
        let removed: Option<Entity> = arena_remove(&mut self.arena, sig_key.handle());
        let lname: Vec<char> = match removed {
            Some(Entity::Signal(g)) => lower_chars(g.name.as_str()),
            _ => Vec::new(),
        };
        proof {
            lemma_drop_signal(s0, sig_key);
            lemma_without(self.signals_order@, sig_key);
            lemma_without_no_dups(self.signals_order@, sig_key);
        }
        remove_key(&mut self.signals_order, &sig_key);
        self.sig_key_by_name.remove(&lname);
        proof {
            assert forall|j: SignalKey| #[trigger] self@.signals.contains_key(j) <==> self.signals_order@.contains(j) by {
                if j != sig_key {
                    assert(d0.signals.contains_key(j) <==> d0.signals_order.contains(j));
                }
            }
        }
        self.strip_signal_from_nodes(sig_key);
        self.strip_signal_from_messages(sig_key);
        self.bu_sg_rel_attributes.remove_where(None, Some(sig_key));
        proof {
            assert(self@ =~= signal_deleted(d0, sig_key));
        }
        Ok(())
    }

    /// Links receiver `node_key` to signal `sig_key` step by step (see
    /// [`receiver_added`]); nothing when the signal is missing.
    pub(crate) fn link_receiver(&mut self, sig_key: SignalKey, node_key: NodeKey)
        requires
            old(self).wf(),
        ensures
            final(self).wf(),
            final(self).entity_count() == old(self).entity_count(),
            !old(self)@.signals.contains_key(sig_key) ==> final(self)@ == old(self)@,
            old(self)@.signals.contains_key(sig_key) ==> final(self)@ == receiver_added(old(self)@, sig_key, node_key),
            same_keys(final(self)@, old(self)@),
    {
        if self.get_sig_by_key(sig_key).is_none() {
            return;
        }
        let ghost d0 = self@;
        let ghost s0 = arena_slots(self.arena);
        let e: &mut Entity = arena_at_mut(&mut self.arena, sig_key.handle());
        let mut msg_key: MessageKey = MessageKey::null();
        match e {
            Entity::Signal(g) => {
                msg_key = g.message;
                push_new_exec(&mut g.receiver_nodes, node_key);
            },
            _ => {},
        }
        proof {
            lemma_put_signal(s0, sig_key, arena_slots(self.arena)[sig_key.h()]);
            assert(self@ =~= receiver_step1(d0, sig_key, node_key));
            assert(self@.nodes.dom() =~= d0.nodes.dom());
            assert(self@.messages.dom() =~= d0.messages.dom());
            assert(self@.signals.dom() =~= d0.signals.dom());
        }
        if self.get_node_by_key(node_key).is_none() {
            return;
        }
        let ghost s1 = arena_slots(self.arena);
        let e2: &mut Entity = arena_at_mut(&mut self.arena, node_key.handle());
        match e2 {
            Entity::Node(n) => {
                push_new_exec(&mut n.rx_signals, sig_key);
            },
            _ => {},
        }
        proof {
            lemma_put_node(s1, node_key, arena_slots(self.arena)[node_key.h()]);
            assert(self@ =~= receiver_step2(d0, sig_key, node_key));
            assert(self@.nodes.dom() =~= d0.nodes.dom());
            assert(self@.messages.dom() =~= d0.messages.dom());
            assert(self@.signals.dom() =~= d0.signals.dom());
        }
        if self.get_message_by_key(msg_key).is_none() {
            return;
        }
        let ghost s2 = arena_slots(self.arena);
        let e3: &mut Entity = arena_at_mut(&mut self.arena, msg_key.handle());
        match e3 {
            Entity::Message(m) => {
                push_new_exec(&mut m.receiver_nodes, node_key);
            },
            _ => {},
        }
        proof {
            lemma_put_message(s2, msg_key, arena_slots(self.arena)[msg_key.h()]);
            assert(self@ =~= receiver_step3(d0, sig_key, node_key));
            assert(self@.nodes.dom() =~= d0.nodes.dom());
            assert(self@.messages.dom() =~= d0.messages.dom());
            assert(self@.signals.dom() =~= d0.signals.dom());
        }
    }

    /// Adds receiver `node_key` to signal `sig_key`, keeping the node's
    /// received signals and the message's receivers in sync. The signal, the
    /// node and the signal's message are checked first; a refused call
    /// changes nothing.
    pub fn add_sig_receiver_node(&mut self, sig_key: SignalKey, node_key: NodeKey) -> (r: Result<(), DatabaseError>)
        requires
            old(self).wf(),
        ensures
            final(self).wf(),
            final(self).entity_count() == old(self).entity_count(),
            !old(self)@.signals.contains_key(sig_key) ==> r == Err::<(), DatabaseError>(
                DatabaseError::SignalMissing { signal_key: sig_key },
            ) && final(self)@ == old(self)@,
            old(self)@.signals.contains_key(sig_key) && !old(self)@.nodes.contains_key(node_key) ==> r
                == Err::<(), DatabaseError>(DatabaseError::NodeMissing { node_key: node_key })
                && final(self)@ == old(self)@,
            old(self)@.signals.contains_key(sig_key) && old(self)@.nodes.contains_key(node_key)
                && !old(self)@.messages.contains_key(old(self)@.signals[sig_key].message) ==> r
                == Err::<(), DatabaseError>(
                DatabaseError::MessageMissing { message_key: old(self)@.signals[sig_key].message },
            ) && final(self)@ == old(self)@,
            old(self)@.signals.contains_key(sig_key) && old(self)@.nodes.contains_key(node_key)
                && old(self)@.messages.contains_key(old(self)@.signals[sig_key].message) ==> r is Ok
                && final(self)@ == receiver_step3(old(self)@, sig_key, node_key),
            same_keys(final(self)@, old(self)@),
    {
        let msg_key: MessageKey = match self.get_sig_by_key(sig_key) {
            Some(g) => g.message,
            None => return Err(DatabaseError::SignalMissing { signal_key: sig_key }),
        };
        if self.get_node_by_key(node_key).is_none() {
            return Err(DatabaseError::NodeMissing { node_key: node_key });
        }
        if self.get_message_by_key(msg_key).is_none() {
            return Err(DatabaseError::MessageMissing { message_key: msg_key });
        }
        let ghost d0 = self@;
        let ghost s0 = arena_slots(self.arena);
        let e: &mut Entity = arena_at_mut(&mut self.arena, sig_key.handle());
        match e {
            Entity::Signal(g) => {
                push_new_exec(&mut g.receiver_nodes, node_key);
            },
            _ => {},
        }
        proof {
            lemma_put_signal(s0, sig_key, arena_slots(self.arena)[sig_key.h()]);
            assert(self@ =~= receiver_step1(d0, sig_key, node_key));
            assert(self@.nodes.dom() =~= d0.nodes.dom());
            assert(self@.messages.dom() =~= d0.messages.dom());
            assert(self@.signals.dom() =~= d0.signals.dom());
        }
        let ghost s1 = arena_slots(self.arena);
        let e2: &mut Entity = arena_at_mut(&mut self.arena, node_key.handle());
        match e2 {
            Entity::Node(n) => {
                push_new_exec(&mut n.rx_signals, sig_key);
            },
            _ => {},
        }
        proof {
            lemma_put_node(s1, node_key, arena_slots(self.arena)[node_key.h()]);
            assert(self@ =~= receiver_step2(d0, sig_key, node_key));
            assert(self@.nodes.dom() =~= d0.nodes.dom());
            assert(self@.messages.dom() =~= d0.messages.dom());
            assert(self@.signals.dom() =~= d0.signals.dom());
        }
        let ghost s2 = arena_slots(self.arena);
        let e3: &mut Entity = arena_at_mut(&mut self.arena, msg_key.handle());
        match e3 {
            Entity::Message(m) => {
                push_new_exec(&mut m.receiver_nodes, node_key);
            },
            _ => {},
        }
        proof {
            lemma_put_message(s2, msg_key, arena_slots(self.arena)[msg_key.h()]);
            assert(self@ =~= receiver_step3(d0, sig_key, node_key));
            assert(self@.nodes.dom() =~= d0.nodes.dom());
            assert(self@.messages.dom() =~= d0.messages.dom());
            assert(self@.signals.dom() =~= d0.signals.dom());
        }
        Ok(())
    }

    /// Does node `nk` (present) receive some existing signal of message `mk`?
    fn receives_from(&self, nk: NodeKey, mk: MessageKey) -> (r: bool)
        requires
            self@.nodes.contains_key(nk),
        ensures
            r == still_receives(self@, nk, mk),
    {
        let rx: Vec<SignalKey> = match self.get_node_by_key(nk) {
            Some(n) => copy_keys(&n.rx_signals),
            None => Vec::new(),
        };
        let ghost db = self@;
        let mut i: usize = 0;
        while i < rx.len()
            invariant
                i <= rx.len(),
                db == self@,
                rx@ == db.nodes[nk].rx_signals,
                forall|j: int| 0 <= j < i ==> !(db.signals.contains_key(#[trigger] rx@[j]) && db.signals[rx@[j]].message == mk),
            decreases rx.len() - i,
        {
            match self.get_sig_by_key(rx[i]) {
                Some(g) => {
                    if g.message.same(&mk) {
                        return true;
                    }
                },
                None => {},
            }
            i = i + 1;
        }
        false
    }

    /// Removes receiver `node_key` from signal `sig_key`, keeping the node's
    /// received signals in sync; the node also leaves the receivers of the
    /// signal's message when it receives no other signal of that message.
    /// The steps run in order and stop at the first missing entity, keeping
    /// what the earlier steps did.
    pub fn remove_sig_receiver_node(&mut self, sig_key: SignalKey, node_key: NodeKey) -> (r: Result<(), DatabaseError>)
        requires
            old(self).wf(),
        ensures
            final(self).wf(),
            final(self).entity_count() == old(self).entity_count(),
            !old(self)@.signals.contains_key(sig_key) ==> r == Err::<(), DatabaseError>(
                DatabaseError::SignalMissing { signal_key: sig_key },
            ) && final(self)@ == old(self)@,
            old(self)@.signals.contains_key(sig_key) && !old(self)@.nodes.contains_key(node_key) ==> r
                == Err::<(), DatabaseError>(DatabaseError::NodeMissing { node_key: node_key })
                && final(self)@ == unreceive_step1(old(self)@, sig_key, node_key),
            old(self)@.signals.contains_key(sig_key) && old(self)@.nodes.contains_key(node_key)
                && still_receives(unreceive_step2(old(self)@, sig_key, node_key), node_key, old(self)@.signals[sig_key].message)
                ==> r is Ok && final(self)@ == unreceive_step2(old(self)@, sig_key, node_key),
            old(self)@.signals.contains_key(sig_key) && old(self)@.nodes.contains_key(node_key)
                && !still_receives(unreceive_step2(old(self)@, sig_key, node_key), node_key, old(self)@.signals[sig_key].message)
                && !old(self)@.messages.contains_key(old(self)@.signals[sig_key].message) ==> r
                == Err::<(), DatabaseError>(
                DatabaseError::MessageMissing { message_key: old(self)@.signals[sig_key].message },
            ) && final(self)@ == unreceive_step2(old(self)@, sig_key, node_key),
            old(self)@.signals.contains_key(sig_key) && old(self)@.nodes.contains_key(node_key)
                && !still_receives(unreceive_step2(old(self)@, sig_key, node_key), node_key, old(self)@.signals[sig_key].message)
                && old(self)@.messages.contains_key(old(self)@.signals[sig_key].message) ==> r is Ok
                && final(self)@ == unreceive_step3(old(self)@, sig_key, node_key),
    {
        if self.get_sig_by_key(sig_key).is_none() {
            return Err(DatabaseError::SignalMissing { signal_key: sig_key });
        }
        let ghost d0 = self@;
        let ghost s0 = arena_slots(self.arena);
        let e: &mut Entity = arena_at_mut(&mut self.arena, sig_key.handle());
        let mut msg_key: MessageKey = MessageKey::null();
        match e {
            Entity::Signal(g) => {
                msg_key = g.message;
                remove_key(&mut g.receiver_nodes, &node_key);
            },
            _ => {},
        }
        proof {
            lemma_put_signal(s0, sig_key, arena_slots(self.arena)[sig_key.h()]);
            assert(self@ =~= unreceive_step1(d0, sig_key, node_key));
        }
        if self.get_node_by_key(node_key).is_none() {
            return Err(DatabaseError::NodeMissing { node_key: node_key });
        }
        let ghost s1 = arena_slots(self.arena);
        let e2: &mut Entity = arena_at_mut(&mut self.arena, node_key.handle());
        match e2 {
            Entity::Node(n) => {
                remove_key(&mut n.rx_signals, &sig_key);
            },
            _ => {},
        }
        proof {
            lemma_put_node(s1, node_key, arena_slots(self.arena)[node_key.h()]);
            assert(self@ =~= unreceive_step2(d0, sig_key, node_key));
        }
        if self.receives_from(node_key, msg_key) {
            return Ok(());
        }
        if self.get_message_by_key(msg_key).is_none() {
            return Err(DatabaseError::MessageMissing { message_key: msg_key });
        }
        let ghost s2 = arena_slots(self.arena);
        let e3: &mut Entity = arena_at_mut(&mut self.arena, msg_key.handle());
        match e3 {
            Entity::Message(m) => {
                remove_key(&mut m.receiver_nodes, &node_key);
            },
            _ => {},
        }
        proof {
            lemma_put_message(s2, msg_key, arena_slots(self.arena)[msg_key.h()]);
            assert(self@ =~= unreceive_step3(d0, sig_key, node_key));
        }
        Ok(())
    }

    /// Binding step (see [`bind_step`]); `switch` is the inferred multiplexor.
    fn bind_and_attach(
        &mut self,
        sk: SignalKey,
        mk: MessageKey,
        role: MuxRole,
        switch: Option<SignalKey>,
        sel: Option<MuxSelector>,
    )
        requires
            old(self).wf(),
            old(self)@.signals.contains_key(sk),
            old(self)@.messages.contains_key(mk),
            switch == inferred_switch(old(self)@.messages[mk], role),
        ensures
            final(self).wf(),
            final(self).entity_count() == old(self).entity_count(),
            final(self)@ == bind_step(old(self)@, sk, mk, role, sel),
    {
        let ghost d0 = self@;
        let mux: Option<MuxInfo> = if role == MuxRole::NotMultiplexed {
            None
        } else {
            Some(MuxInfo {
                role: role,
                group: 0,
                switch: switch,
                selector: match sel {
                    Some(x) => x,
                    None => MuxSelector::Value(0),
                },
            })
        };
        let ghost s0 = arena_slots(self.arena);
        let e: &mut Entity = arena_at_mut(&mut self.arena, sk.handle());
        let mut receivers: Vec<NodeKey> = Vec::new();
        match e {
            Entity::Signal(g) => {
                g.message = mk;
                g.mux = mux;
                receivers = copy_keys(&g.receiver_nodes);
            },
            _ => {},
        }
        proof {
            lemma_put_signal(s0, sk, arena_slots(self.arena)[sk.h()]);
        }
        let (new_recv, senders): (Vec<NodeKey>, Vec<NodeKey>) = match self.get_message_by_key(mk) {
            Some(m) => (push_all_new_exec(&m.receiver_nodes, &receivers), copy_keys(&m.sender_nodes)),
            None => (Vec::new(), Vec::new()),
        };
        let ghost s1 = arena_slots(self.arena);
        let e2: &mut Entity = arena_at_mut(&mut self.arena, mk.handle());
        match e2 {
            Entity::Message(m) => {
                push_new_exec(&mut m.signals, sk);
                m.receiver_nodes = new_recv;
            },
            _ => {},
        }
        proof {
            lemma_put_message(s1, mk, arena_slots(self.arena)[mk.h()]);
        }
        let ghost d1 = self@;
        let mut i: usize = 0;
        while i < senders.len()
            invariant
                self.wf(),
                i <= senders.len(),
                senders@ == d0.messages[mk].sender_nodes,
                self.entity_count() == old(self).entity_count(),
                self@ == (DatabaseView { nodes: self@.nodes, ..d1 }),
                self@.nodes == nodes_transmitting(d1.nodes, senders@.take(i as int), sk),
            decreases senders.len() - i,
        {
            let nk: NodeKey = senders[i];
            let ghost prev = self@.nodes;
            if self.get_node_by_key(nk).is_some() {
                let ghost s2 = arena_slots(self.arena);
                let e3: &mut Entity = arena_at_mut(&mut self.arena, nk.handle());
                match e3 {
                    Entity::Node(n) => {
                        push_new_exec(&mut n.tx_signals, sk);
                    },
                    _ => {},
                }
                proof {
                    lemma_put_node(s2, nk, arena_slots(self.arena)[nk.h()]);
                }
            }
            proof {
                assert(senders@.take(i + 1) =~= senders@.take(i as int).push(nk));
                assert forall|j: NodeKey| #[trigger] senders@.take(i + 1).contains(j) <==> (senders@.take(i as int).contains(j) || j == nk) by {
                    lemma_push_contains(senders@.take(i as int), nk, j);
                }
                if d1.nodes.contains_key(nk) && senders@.take(i as int).contains(nk) {
                    crate::dbc::types::keys::lemma_push_new_twice(d1.nodes[nk].tx_signals, sk);
                }
                assert(self@.nodes =~= nodes_transmitting(d1.nodes, senders@.take(i + 1), sk));
            }
            i = i + 1;
        }
        proof {
            assert(senders@.take(senders.len() as int) =~= senders@);
            assert(self@ =~= bind_step(d0, sk, mk, role, sel));
        }
    }

    /// Multiplexor step (see [`mux_step`]): `sk` joins the multiplexors of
    /// message `mk` and adopts its pending multiplexed signals.
    fn register_multiplexor(&mut self, mk: MessageKey, sk: SignalKey)
        requires
            old(self).wf(),
            old(self)@.messages.contains_key(mk),
        ensures
            final(self).wf(),
            final(self).entity_count() == old(self).entity_count(),
            final(self)@ == mux_step(old(self)@, sk, mk, MuxRole::Multiplexor, None, None),
    {
        let ghost d0 = self@;
        let (list, old_cases): (Vec<SignalKey>, Vec<MuxCase>) = match self.get_message_by_key(mk) {
            Some(m) => (copy_keys(&m.signals), copy_cases(&m.mux_cases)),
            None => (Vec::new(), Vec::new()),
        };
        let n0: usize = old_cases.len();
        let mut cases: Vec<MuxCase> = old_cases;
        let mut i: usize = 0;
        while i < list.len()
            invariant
                i <= list.len(),
                self@ == d0,
                list@ == d0.messages[mk].signals,
                cases@ == d0.messages[mk].mux_cases + pending_cases(list@.take(i as int), d0.signals, sk),
            decreases list.len() - i,
        {
            let k: SignalKey = list[i];
            assert(list@.take(i + 1).drop_last() =~= list@.take(i as int));
            assert(list@.take(i + 1).last() == k);
            let ghost before = cases@;
            match self.get_sig_by_key(k) {
                Some(g) => match g.mux {
                    Some(mi) => {
                        if mi.role == MuxRole::Multiplexed && mi.switch.is_none() {
                            cases.push(MuxCase { switch: sk, selector: mi.selector, signal: k });
                            assert(cases@ =~= before.push(MuxCase { switch: sk, selector: mi.selector, signal: k }));
                        }
                    },
                    None => {},
                },
                None => {},
            }
            i = i + 1;
        }
        assert(list@.take(list.len() as int) =~= list@);
        let ghost s0 = arena_slots(self.arena);
        let e: &mut Entity = arena_at_mut(&mut self.arena, mk.handle());
        match e {
            Entity::Message(m) => {
                push_new_exec(&mut m.mux_multiplexors, sk);
                if cases.len() > n0 {
                    push_new_exec(&mut m.mux_switches, sk);
                }
                m.mux_cases = cases;
            },
            _ => {},
        }
        proof {
            lemma_put_message(s0, mk, arena_slots(self.arena)[mk.h()]);
        }
        let ghost d1 = self@;
        let mut j: usize = 0;
        while j < list.len()
            invariant
                self.wf(),
                j <= list.len(),
                list@ == d0.messages[mk].signals,
                self.entity_count() == old(self).entity_count(),
                d1.signals == d0.signals,
                self@ == (DatabaseView { signals: self@.signals, ..d1 }),
                self@.signals == signals_switched(d0.signals, list@.take(j as int), sk),
            decreases list.len() - j,
        {
            let k: SignalKey = list[j];
            let ghost cur = self@.signals;
            proof {
                assert(list@.take(j + 1) =~= list@.take(j as int).push(k));
                assert forall|x: SignalKey| #[trigger] list@.take(j + 1).contains(x) <==> (list@.take(j as int).contains(x) || x == k) by {
                    lemma_push_contains(list@.take(j as int), k, x);
                }
            }
            let pending: bool = match self.get_sig_by_key(k) {
                Some(g) => match g.mux {
                    Some(mi) => mi.role == MuxRole::Multiplexed && mi.switch.is_none(),
                    None => false,
                },
                None => false,
            };
            if pending {
                let ghost s1 = arena_slots(self.arena);
                let e2: &mut Entity = arena_at_mut(&mut self.arena, k.handle());
                match e2 {
                    Entity::Signal(g) => {
                        match g.mux {
                            Some(mi) => {
                                g.mux = Some(MuxInfo { switch: Some(sk), ..mi });
                            },
                            None => {},
                        }
                    },
                    _ => {},
                }
                proof {
                    lemma_put_signal(s1, k, arena_slots(self.arena)[k.h()]);
                }
            }
            proof {
                assert(self@.signals =~= signals_switched(d0.signals, list@.take(j + 1), sk));
            }
            j = j + 1;
        }
        proof {
            assert(list@.take(list.len() as int) =~= list@);
            assert(self@ =~= mux_step(d0, sk, mk, MuxRole::Multiplexor, None, None));
        }
    }

    /// Opens the table of cases of multiplexor `sw` in message `mk` and adds
    /// `case` to it, when given.
    fn open_case(&mut self, mk: MessageKey, sw: SignalKey, case: Option<MuxCase>)
        requires
            old(self).wf(),
            old(self)@.messages.contains_key(mk),
        ensures
            final(self).wf(),
            final(self).entity_count() == old(self).entity_count(),
            final(self)@ == with_message(
                old(self)@,
                mk,
                MessageView {
                    mux_cases: match case {
                        Some(c) => old(self)@.messages[mk].mux_cases.push(c),
                        None => old(self)@.messages[mk].mux_cases,
                    },
                    mux_switches: push_new(old(self)@.messages[mk].mux_switches, sw),
                    ..old(self)@.messages[mk]
                },
            ),
    {
        let ghost s0 = arena_slots(self.arena);
        let e: &mut Entity = arena_at_mut(&mut self.arena, mk.handle());
        match e {
            Entity::Message(m) => {
                match case {
                    Some(c) => m.mux_cases.push(c),
                    None => {},
                }
                push_new_exec(&mut m.mux_switches, sw);
            },
            _ => {},
        }
        proof {
            lemma_put_message(s0, mk, arena_slots(self.arena)[mk.h()]);
        }
    }

    /// Binds signal `sig_key` to message `msg_key` with the given
    /// multiplexing role and selector, after checking that the signal is
    /// unbound and fits in the message's payload (the payload length is
    /// given to the layout check as the DLC). On success the signal, the
    /// message, the message's senders and its multiplexing are updated (see
    /// [`signal_bound`]); on failure nothing changes.
    pub fn add_msg_sig_relation(
        &mut self,
        sig_key: SignalKey,
        msg_key: MessageKey,
        mux_role: MuxRole,
        mux_selector: Option<MuxSelector>,
    ) -> (r: Result<SignalKey, DatabaseError>)
        requires
            old(self).wf(),
        ensures
            final(self).wf(),
            final(self).entity_count() == old(self).entity_count(),
            !old(self)@.signals.contains_key(sig_key) ==> r == Err::<SignalKey, DatabaseError>(
                DatabaseError::SignalMissing { signal_key: sig_key },
            ) && final(self)@ == old(self)@,
            old(self)@.signals.contains_key(sig_key) && !old(self)@.signals[sig_key].message.is_null_spec() ==> {
                &&& r matches Err(DatabaseError::SignalAlreadyAssociated { signal: n, associated_with: a })
                    && n@ == old(self)@.signals[sig_key].name
                    && a@ == bound_to_text(old(self)@, old(self)@.signals[sig_key].message, false)
                &&& final(self)@ == old(self)@
            },
            old(self)@.signals.contains_key(sig_key) && old(self)@.signals[sig_key].message.is_null_spec()
                && !old(self)@.messages.contains_key(msg_key) ==> r == Err::<SignalKey, DatabaseError>(
                DatabaseError::MessageMissing { message_key: msg_key },
            ) && final(self)@ == old(self)@,
            old(self)@.signals.contains_key(sig_key) && old(self)@.signals[sig_key].message.is_null_spec()
                && old(self)@.messages.contains_key(msg_key) ==> match fit_error(
                old(self)@.messages[msg_key].byte_length,
                old(self)@.signals[sig_key].bit_start,
                old(self)@.signals[sig_key].bit_length,
                old(self)@.signals[sig_key].endian,
            ) {
                Some(t) => (r matches Err(DatabaseError::Layout { reason: x }) && x@ == t) && final(self)@ == old(self)@,
                None => r == Ok::<SignalKey, DatabaseError>(sig_key)
                    && final(self)@ == signal_bound(old(self)@, sig_key, msg_key, mux_role, mux_selector),
            },
            same_keys(final(self)@, old(self)@),
    {
        let (bit_start, bit_length, endian, bound): (u16, u16, Endianness, MessageKey) = match self.get_sig_by_key(sig_key) {
            None => return Err(DatabaseError::SignalMissing { signal_key: sig_key }),
            Some(g) => (g.bit_start, g.bit_length, g.endian, g.message),
        };
        if !bound.is_null() {
            let name: String = match self.get_sig_by_key(sig_key) {
                Some(g) => copy_string(&g.name),
                None => String::new(),
            };
            let assoc: String = self.bound_to(bound, false);
            return Err(DatabaseError::SignalAlreadyAssociated { signal: name, associated_with: assoc });
        }
        let (dlc, switch): (u16, Option<SignalKey>) = match self.get_message_by_key(msg_key) {
            None => return Err(DatabaseError::MessageMissing { message_key: msg_key }),
            Some(m) => (
                m.byte_length,
                if mux_role == MuxRole::Multiplexed && m.mux_multiplexors.len() == 1 {
                    Some(m.mux_multiplexors[0])
                } else {
                    None
                },
            ),
        };
        match check_signal_fits(dlc, bit_start, bit_length, endian) {
            Err(t) => return Err(DatabaseError::Layout { reason: t }),
            Ok(()) => {},
        }
        let ghost d0 = self@;
        self.bind_and_attach(sig_key, msg_key, mux_role, switch, mux_selector);
        match mux_role {
            MuxRole::Multiplexor => {
                self.register_multiplexor(msg_key, sig_key);
            },
            MuxRole::Multiplexed => {
                match switch {
                    Some(sw) => match mux_selector {
                        Some(sel) => self.open_case(msg_key, sw, Some(MuxCase { switch: sw, selector: sel, signal: sig_key })),
                        None => self.open_case(msg_key, sw, None),
                    },
                    None => {},
                }
            },
            MuxRole::NotMultiplexed => {},
        }
        proof {
            assert(self@ =~= signal_bound(d0, sig_key, msg_key, mux_role, mux_selector));
            assert(self@.nodes.dom() =~= d0.nodes.dom());
            assert(self@.messages.dom() =~= d0.messages.dom());
            assert(self@.signals.dom() =~= d0.signals.dom());
        }
        Ok(sig_key)
    }

    /// How the message `mk` a signal is bound to is named in errors.
    fn bound_to(&self, mk: MessageKey, capital: bool) -> (r: String)
        ensures
            r@ == bound_to_text(self@, mk, capital),
    {
        match self.get_message_by_key(mk) {
            Some(m) => {
                let mut v: Vec<char> = if capital {
                    chars_of("Message '")
                } else {
                    chars_of("message '")
                };
                extend_chars(&mut v, &chars_of_string(&m.name));
                extend_chars(&mut v, &chars_of("' (ID "));
                extend_chars(&mut v, &chars_of_string(&m.id_hex));
                extend_chars(&mut v, &chars_of(")"));
                string_of(&v)
            },
            None => if capital {
                owned("An unknown message")
            } else {
                owned("an unknown message")
            },
        }
    }

    /// First unbinding step (see [`unregister_step`]); returns the signals
    /// that lose their multiplexor.
    fn unregister(&mut self, sk: SignalKey, mk: MessageKey) -> (deps: Vec<SignalKey>)
        requires
            old(self).wf(),
            old(self)@.signals.contains_key(sk),
            old(self)@.messages.contains_key(mk),
        ensures
            final(self).wf(),
            final(self).entity_count() == old(self).entity_count(),
            final(self)@ == unregister_step(old(self)@, sk, mk),
            deps@ == detached_signals(old(self)@, sk, mk),
    {
        let ghost d0 = self@;
        let mux: Option<MuxInfo> = match self.get_sig_by_key(sk) {
            Some(g) => g.mux,
            None => None,
        };
        let (sigs, muxs, cases, sws, deps): (Vec<SignalKey>, Vec<SignalKey>, Vec<MuxCase>, Vec<SignalKey>, Vec<SignalKey>) = match self.get_message_by_key(mk) {
            Some(m) => {
                let sigs: Vec<SignalKey> = without_exec(&m.signals, &sk);
                match mux {
                    Some(mi) => if mi.role == MuxRole::Multiplexor {
                        (
                            sigs,
                            without_exec(&m.mux_multiplexors, &sk),
                            cases_without_switch_exec(&m.mux_cases, sk),
                            without_exec(&m.mux_switches, &sk),
                            case_signals_exec(&m.mux_cases, sk),
                        )
                    } else if mi.role == MuxRole::Multiplexed && mi.switch.is_some() {
                        let sw: SignalKey = match mi.switch {
                            Some(x) => x,
                            None => sk,
                        };
                        let c: Vec<MuxCase> = cases_without_signal_exec(&m.mux_cases, sw, sk);
                        let sws: Vec<SignalKey> = if has_switch_exec(&c, sw) {
                            copy_keys(&m.mux_switches)
                        } else {
                            without_exec(&m.mux_switches, &sw)
                        };
                        (sigs, copy_keys(&m.mux_multiplexors), c, sws, Vec::new())
                    } else {
                        (sigs, copy_keys(&m.mux_multiplexors), copy_cases(&m.mux_cases), copy_keys(&m.mux_switches), Vec::new())
                    },
                    None => (sigs, copy_keys(&m.mux_multiplexors), copy_cases(&m.mux_cases), copy_keys(&m.mux_switches), Vec::new()),
                }
            },
            None => (Vec::new(), Vec::new(), Vec::new(), Vec::new(), Vec::new()),
        };
        let ghost s0 = arena_slots(self.arena);
        let e: &mut Entity = arena_at_mut(&mut self.arena, mk.handle());
        match e {
            Entity::Message(m) => {
                m.signals = sigs;
                m.mux_multiplexors = muxs;
                m.mux_cases = cases;
                m.mux_switches = sws;
            },
            _ => {},
        }
        proof {
            lemma_put_message(s0, mk, arena_slots(self.arena)[mk.h()]);
            assert(self@ =~= unregister_step(d0, sk, mk));
        }
        deps
    }

    /// Every multiplexed signal of `deps` loses its multiplexor.
    fn detach(&mut self, deps: &Vec<SignalKey>)
        requires
            old(self).wf(),
        ensures
            final(self).wf(),
            final(self).entity_count() == old(self).entity_count(),
            final(self)@ == (DatabaseView { signals: signals_detached(old(self)@.signals, deps@), ..old(self)@ }),
    {
        let ghost d0 = self@;
        let mut i: usize = 0;
        while i < deps.len()
            invariant
                self.wf(),
                i <= deps.len(),
                self.entity_count() == old(self).entity_count(),
                self@ == (DatabaseView { signals: self@.signals, ..d0 }),
                self@.signals == signals_detached(d0.signals, deps@.take(i as int)),
            decreases deps.len() - i,
        {
            let k: SignalKey = deps[i];
            proof {
                assert(deps@.take(i + 1) =~= deps@.take(i as int).push(k));
                assert forall|x: SignalKey| #[trigger] deps@.take(i + 1).contains(x) <==> (deps@.take(i as int).contains(x) || x == k) by {
                    lemma_push_contains(deps@.take(i as int), k, x);
                }
            }
            let multiplexed: bool = match self.get_sig_by_key(k) {
                Some(g) => match g.mux {
                    Some(mi) => mi.role == MuxRole::Multiplexed,
                    None => false,
                },
                None => false,
            };
            if multiplexed {
                let ghost s1 = arena_slots(self.arena);
                let e: &mut Entity = arena_at_mut(&mut self.arena, k.handle());
                match e {
                    Entity::Signal(g) => {
                        match g.mux {
                            Some(mi) => {
                                g.mux = Some(MuxInfo { switch: None, ..mi });
                            },
                            None => {},
                        }
                    },
                    _ => {},
                }
                proof {
                    lemma_put_signal(s1, k, arena_slots(self.arena)[k.h()]);
                }
            }
            proof {
                assert(self@.signals =~= signals_detached(d0.signals, deps@.take(i + 1)));
            }
            i = i + 1;
        }
        proof {
            assert(deps@.take(deps.len() as int) =~= deps@);
        }
    }

    /// Each existing node of `senders` stops transmitting signal `sk`.
    fn untransmit(&mut self, senders: &Vec<NodeKey>, sk: SignalKey)
        requires
            old(self).wf(),
        ensures
            final(self).wf(),
            final(self).entity_count() == old(self).entity_count(),
            final(self)@ == (DatabaseView { nodes: nodes_not_transmitting(old(self)@.nodes, senders@, sk), ..old(self)@ }),
    {
        let ghost d1 = self@;
        let mut i: usize = 0;
        while i < senders.len()
            invariant
                self.wf(),
                i <= senders.len(),
                self.entity_count() == old(self).entity_count(),
                self@ == (DatabaseView { nodes: self@.nodes, ..d1 }),
                self@.nodes == nodes_not_transmitting(d1.nodes, senders@.take(i as int), sk),
            decreases senders.len() - i,
        {
            let nk: NodeKey = senders[i];
            if self.get_node_by_key(nk).is_some() {
                let ghost s2 = arena_slots(self.arena);
                let e: &mut Entity = arena_at_mut(&mut self.arena, nk.handle());
                match e {
                    Entity::Node(n) => {
                        remove_key(&mut n.tx_signals, &sk);
                    },
                    _ => {},
                }
                proof {
                    lemma_put_node(s2, nk, arena_slots(self.arena)[nk.h()]);
                }
            }
            proof {
                assert(senders@.take(i + 1) =~= senders@.take(i as int).push(nk));
                assert forall|j: NodeKey| #[trigger] senders@.take(i + 1).contains(j) <==> (senders@.take(i as int).contains(j) || j == nk) by {
                    lemma_push_contains(senders@.take(i as int), nk, j);
                }
                if d1.nodes.contains_key(nk) && senders@.take(i as int).contains(nk) {
                    lemma_without_twice(d1.nodes[nk].tx_signals, sk);
                }
                assert(self@.nodes =~= nodes_not_transmitting(d1.nodes, senders@.take(i + 1), sk));
            }
            i = i + 1;
        }
        proof {
            assert(senders@.take(senders.len() as int) =~= senders@);
        }
    }

    /// The union of the receivers of the existing signals of `list`.
    fn union_receivers_exec(&self, list: &Vec<SignalKey>) -> (r: Vec<NodeKey>)
        ensures
            r@ == union_receivers(list@, self@.signals),
    {
        let mut out: Vec<NodeKey> = Vec::new();
        let mut i: usize = 0;
        while i < list.len()
            invariant
                i <= list.len(),
                out@ == union_receivers(list@.take(i as int), self@.signals),
            decreases list.len() - i,
        {
            assert(list@.take(i + 1).drop_last() =~= list@.take(i as int));
            assert(list@.take(i + 1).last() == list@[i as int]);
            match self.get_sig_by_key(list[i]) {
                Some(g) => {
                    out = push_all_new_exec(&out, &g.receiver_nodes);
                },
                None => {},
            }
            i = i + 1;
        }
        assert(list@.take(list.len() as int) =~= list@);
        out
    }

    /// Unbinds signal `sig_key` from message `msg_key`, reversing
    /// [`add_msg_sig_relation`](DatabaseDBC::add_msg_sig_relation) (see
    /// [`signal_unbound`]). Refused, with nothing changed, when either is
    /// missing, the signal is unbound or bound elsewhere, or the message
    /// does not list it.
    pub fn remove_msg_sig_relation(&mut self, sig_key: SignalKey, msg_key: MessageKey) -> (r: Result<(), DatabaseError>)
        requires
            old(self).wf(),
        ensures
            final(self).wf(),
            final(self).entity_count() == old(self).entity_count(),
            !old(self)@.messages.contains_key(msg_key) ==> r == Err::<(), DatabaseError>(
                DatabaseError::MessageMissing { message_key: msg_key },
            ) && final(self)@ == old(self)@,
            old(self)@.messages.contains_key(msg_key) && !old(self)@.signals.contains_key(sig_key) ==> r
                == Err::<(), DatabaseError>(DatabaseError::SignalMissing { signal_key: sig_key })
                && final(self)@ == old(self)@,
            old(self)@.messages.contains_key(msg_key) && old(self)@.signals.contains_key(sig_key)
                && old(self)@.signals[sig_key].message.is_null_spec() ==> (r matches Err(
                DatabaseError::InconsistentState { details: t },
            ) && t@ == "Signal is not associated with any message"@) && final(self)@ == old(self)@,
            old(self)@.messages.contains_key(msg_key) && old(self)@.signals.contains_key(sig_key)
                && !old(self)@.signals[sig_key].message.is_null_spec()
                && old(self)@.signals[sig_key].message != msg_key ==> {
                &&& r matches Err(DatabaseError::SignalAlreadyAssociated { signal: n, associated_with: a })
                    && n@ == old(self)@.signals[sig_key].name
                    && a@ == bound_to_text(old(self)@, old(self)@.signals[sig_key].message, true)
                &&& final(self)@ == old(self)@
            },
            old(self)@.messages.contains_key(msg_key) && old(self)@.signals.contains_key(sig_key)
                && !old(self)@.signals[sig_key].message.is_null_spec()
                && old(self)@.signals[sig_key].message == msg_key
                && !old(self)@.messages[msg_key].signals.contains(sig_key) ==> (r matches Err(
                DatabaseError::InconsistentState { details: t },
            ) && t@ == "Signal not registered within the message."@) && final(self)@ == old(self)@,
            old(self)@.messages.contains_key(msg_key) && old(self)@.signals.contains_key(sig_key)
                && !old(self)@.signals[sig_key].message.is_null_spec()
                && old(self)@.signals[sig_key].message == msg_key
                && old(self)@.messages[msg_key].signals.contains(sig_key) ==> r is Ok
                && final(self)@ == signal_unbound(old(self)@, sig_key, msg_key),
    {
        let senders: Vec<NodeKey> = match self.get_message_by_key(msg_key) {
            None => return Err(DatabaseError::MessageMissing { message_key: msg_key }),
            Some(m) => copy_keys(&m.sender_nodes),
        };
        let bound: MessageKey = match self.get_sig_by_key(sig_key) {
            None => return Err(DatabaseError::SignalMissing { signal_key: sig_key }),
            Some(g) => g.message,
        };
        if bound.is_null() {
            return Err(DatabaseError::InconsistentState { details: owned("Signal is not associated with any message") });
        }
        if !bound.same(&msg_key) {
            let name: String = match self.get_sig_by_key(sig_key) {
                Some(g) => copy_string(&g.name),
                None => String::new(),
            };
            let assoc: String = self.bound_to(bound, true);
            return Err(DatabaseError::SignalAlreadyAssociated { signal: name, associated_with: assoc });
        }
        let listed: bool = match self.get_message_by_key(msg_key) {
            Some(m) => contains_key(&m.signals, &sig_key),
            None => false,
        };
        if !listed {
            return Err(DatabaseError::InconsistentState { details: owned("Signal not registered within the message.") });
        }
        let ghost d0 = self@;
        let deps: Vec<SignalKey> = self.unregister(sig_key, msg_key);
        let ghost d1 = self@;
        self.detach(&deps);
        let ghost d2 = self@;
        let ghost s2 = arena_slots(self.arena);
        let e: &mut Entity = arena_at_mut(&mut self.arena, sig_key.handle());
        match e {
            Entity::Signal(g) => {
                g.message = MessageKey::null();
                g.mux = None;
            },
            _ => {},
        }
        proof {
            lemma_put_signal(s2, sig_key, arena_slots(self.arena)[sig_key.h()]);
            assert(self@ =~= with_signal(d2, sig_key, SignalView { message: MessageKey::nil(), mux: None, ..d2.signals[sig_key] }));
        }
        self.untransmit(&senders, sig_key);
        let list: Vec<SignalKey> = match self.get_message_by_key(msg_key) {
            Some(m) => copy_keys(&m.signals),
            None => Vec::new(),
        };
        let recv: Vec<NodeKey> = self.union_receivers_exec(&list);
        let ghost s4 = arena_slots(self.arena);
        let e2: &mut Entity = arena_at_mut(&mut self.arena, msg_key.handle());
        match e2 {
            Entity::Message(m) => {
                m.receiver_nodes = recv;
            },
            _ => {},
        }
        proof {
            lemma_put_message(s4, msg_key, arena_slots(self.arena)[msg_key.h()]);
            assert(self@ =~= signal_unbound(d0, sig_key, msg_key));
        }
        Ok(())
    }

    /// Creates a copy of signal `source_sig_key` named after it with a
    /// `_copy` suffix (see [`copy_name`]) and returns the new key; the copy
    /// is bound to no message and receives from the source's receivers (see
    /// [`signal_copied`]).
    pub fn copy_signal(&mut self, source_sig_key: SignalKey) -> (r: Result<SignalKey, DatabaseError>)
        requires
            old(self).wf(),
            old(self).has_room(),
        ensures
            final(self).wf(),
            !old(self)@.signals.contains_key(source_sig_key) ==> r == Err::<SignalKey, DatabaseError>(
                DatabaseError::SignalMissing { signal_key: source_sig_key },
            ) && final(self)@ == old(self)@ && final(self).entity_count() == old(self).entity_count(),
            old(self)@.signals.contains_key(source_sig_key) ==> {
                &&& r matches Ok(k)
                &&& !old(self)@.signals.contains_key(k)
                &&& final(self)@ == signal_copied(
                    old(self)@,
                    source_sig_key,
                    k,
                    copy_name(old(self)@, NameKind::Signal, old(self)@.signals[source_sig_key].name),
                )
                &&& final(self).entity_count() == old(self).entity_count() + 1
                &&& final(self)@.nodes.dom() == old(self)@.nodes.dom()
                &&& final(self)@.messages.dom() == old(self)@.messages.dom()
                &&& final(self)@.signals.dom() == old(self)@.signals.dom().insert(k)
                &&& final(self)@.signals[k].message == MessageKey::nil()
            },
    {
        let src: SignalDBC = match self.get_sig_by_key(source_sig_key) {
            None => return Err(DatabaseError::SignalMissing { signal_key: source_sig_key }),
            Some(g) => g.duplicate(),
        };
        let ghost d0 = self@;
        let new_name: String = self.copy_name_exec(NameKind::Signal, &src.name);
        let k: SignalKey = self.add_signal(
            new_name.as_str(),
            src.endian,
            src.sign,
            src.factor.as_str(),
            src.offset.as_str(),
            src.min.as_str(),
            src.max.as_str(),
            src.unit_of_measurement.as_str(),
        );
        let ghost d1 = self@;
        proof {
            assert(self@.signals.contains_key(k));
            assert(k.ok());
            assert(d1.signals[k].message == MessageKey::nil());
        }
        let ghost s1 = arena_slots(self.arena);
        let e: &mut Entity = arena_at_mut(&mut self.arena, k.handle());
        match e {
            Entity::Signal(g) => {
                g.comment = src.comment;
                g.value_table = src.value_table;
                g.bit_length = src.bit_length;
                g.bit_start = src.bit_start;
            },
            _ => {},
        }
        proof {
            lemma_put_signal(s1, k, arena_slots(self.arena)[k.h()]);
            assert(self@.signals.dom() =~= d0.signals.dom().insert(k));
            assert(self@.messages.dom() =~= d0.messages.dom());
            assert(self@.nodes.dom() =~= d0.nodes.dom());
            assert(self@.signals[k].message == d1.signals[k].message);
        }
        let ghost d2 = self@;
        let receivers: Vec<NodeKey> = src.receiver_nodes;
        let mut i: usize = 0;
        while i < receivers.len()
            invariant
                self.wf(),
                i <= receivers.len(),
                self.entity_count() == old(self).entity_count() + 1,
                self@.signals.contains_key(k),
                self@ == receivers_added(d2, k, receivers@.take(i as int)),
                self@.nodes.dom() == d0.nodes.dom(),
                self@.messages.dom() == d0.messages.dom(),
                self@.signals.dom() == d0.signals.dom().insert(k),
                self@.signals[k].message == MessageKey::nil(),
            decreases receivers.len() - i,
        {
            let nk: NodeKey = receivers[i];
            self.link_receiver(k, nk);
            proof {
                assert(receivers@.take(i + 1).drop_last() =~= receivers@.take(i as int));
            }
            i = i + 1;
        }
        proof {
            assert(receivers@.take(receivers.len() as int) =~= receivers@);
        }
        Ok(k)
    }

    /// Sets the comment of signal `sk`, when present.
    pub fn set_signal_comment(&mut self, sk: SignalKey, c: String)
        requires
            old(self).wf(),
        ensures
            final(self).wf(),
            final(self).entity_count() == old(self).entity_count(),
            old(self)@.signals.contains_key(sk) ==> final(self)@ == with_signal(
                old(self)@,
                sk,
                SignalView { comment: c@, ..old(self)@.signals[sk] },
            ),
            !old(self)@.signals.contains_key(sk) ==> final(self)@ == old(self)@,
    {
        if self.get_sig_by_key(sk).is_none() {
            return;
        }
        let ghost s0 = arena_slots(self.arena);
        let e: &mut Entity = arena_at_mut(&mut self.arena, sk.handle());
        match e {
            Entity::Signal(g) => {
                g.comment = c;
            },
            _ => {},
        }
        proof {
            lemma_put_signal(s0, sk, arena_slots(self.arena)[sk.h()]);
        }
    }

    /// Sets the value descriptions of signal `sk`, when present.
    pub fn set_signal_value_table(&mut self, sk: SignalKey, t: Vec<(i64, String)>)
        requires
            old(self).wf(),
        ensures
            final(self).wf(),
            final(self).entity_count() == old(self).entity_count(),
            old(self)@.signals.contains_key(sk) ==> final(self)@ == with_signal(
                old(self)@,
                sk,
                SignalView { value_table: table_view(t@), ..old(self)@.signals[sk] },
            ),
            !old(self)@.signals.contains_key(sk) ==> final(self)@ == old(self)@,
    {
        if self.get_sig_by_key(sk).is_none() {
            return;
        }
        let ghost s0 = arena_slots(self.arena);
        let e: &mut Entity = arena_at_mut(&mut self.arena, sk.handle());
        match e {
            Entity::Signal(g) => {
                g.value_table = t;
            },
            _ => {},
        }
        proof {
            lemma_put_signal(s0, sk, arena_slots(self.arena)[sk.h()]);
        }
    }

    /// Sets the value encoding and the length of signal `sk`, when present.
    pub fn set_signal_encoding(&mut self, sk: SignalKey, sign: Signess, bit_length: u16)
        requires
            old(self).wf(),
        ensures
            final(self).wf(),
            final(self).entity_count() == old(self).entity_count(),
            old(self)@.signals.contains_key(sk) ==> final(self)@ == with_signal(
                old(self)@,
                sk,
                SignalView { sign: sign, bit_length: bit_length, ..old(self)@.signals[sk] },
            ),
            !old(self)@.signals.contains_key(sk) ==> final(self)@ == old(self)@,
    {
        if self.get_sig_by_key(sk).is_none() {
            return;
        }
        let ghost s0 = arena_slots(self.arena);
        let e: &mut Entity = arena_at_mut(&mut self.arena, sk.handle());
        match e {
            Entity::Signal(g) => {
                g.sign = sign;
                g.bit_length = bit_length;
            },
            _ => {},
        }
        proof {
            lemma_put_signal(s0, sk, arena_slots(self.arena)[sk.h()]);
        }
    }

    /// Sets the start bit and the length of signal `sk`, when present.
    pub fn set_signal_layout(&mut self, sk: SignalKey, bit_start: u16, bit_length: u16)
        requires
            old(self).wf(),
        ensures
            final(self).wf(),
            final(self).entity_count() == old(self).entity_count(),
            old(self)@.signals.contains_key(sk) ==> final(self)@ == with_signal(
                old(self)@,
                sk,
                SignalView { bit_start: bit_start, bit_length: bit_length, ..old(self)@.signals[sk] },
            ),
            !old(self)@.signals.contains_key(sk) ==> final(self)@ == old(self)@,
            same_keys(final(self)@, old(self)@),
    {
        if self.get_sig_by_key(sk).is_none() {
            return;
        }
        let ghost s0 = arena_slots(self.arena);
        let e: &mut Entity = arena_at_mut(&mut self.arena, sk.handle());
        match e {
            Entity::Signal(g) => {
                g.bit_start = bit_start;
                g.bit_length = bit_length;
            },
            _ => {},
        }
        proof {
            lemma_put_signal(s0, sk, arena_slots(self.arena)[sk.h()]);
            assert(self@.signals.dom() =~= old(self)@.signals.dom());
        }
    }
}

} // verus!
