//! Converting the CAN clusters of an AUTOSAR model into DBC databases.
//!
//! The AUTOSAR model is read elsewhere; what the conversion reads of it is
//! held here as plain values: each cluster with its physical channels,
//! their frame triggerings, the frames with their PDUs and the signals
//! mapped into them, and the frame ports that tell the sending and
//! receiving ECUs.
use vstd::prelude::*;
use crate::dbc::message_layout::fit_error;
use crate::dbc::records::sg_::relation_result;
use crate::dbc::types::arena::ARENA_CAPACITY;
use crate::dbc::types::database::messages::{blank_message, entry, message_added};
use crate::dbc::types::database::nodes::{node_added, seeded_node, sender_linked};
use crate::dbc::types::database::signals::{blank_signal, receiver_added, signal_added};
use crate::dbc::types::database::{empty_view, BusType, DatabaseDBC, DatabaseView};
use crate::dbc::types::entities::{MuxRole, SignalView};
use crate::dbc::types::errors::ArxmlConvertError;
use crate::dbc::types::keys::{MessageKey, NodeKey, SignalKey};
use crate::dbc::types::signal::{Endianness, Signess};
use crate::text::{chars_of, chars_of_string, dec_string, ends_with, ends_with_exec, fmt_dec, string_of, unicode_lowercase};

verus! {

/// Direction of a frame port (`COMMUNICATION-DIRECTION`).
#[derive(Clone, Copy, Debug, PartialEq, Eq, Structural)]
pub enum PortDirection {
    In,
    Out,
    Other,
}

/// A frame port: its direction, when given, and the name of the ECU
/// instance it belongs to, when it can be found.
#[derive(Debug)]
pub struct FramePort {
    pub direction: Option<PortDirection>,
    pub ecu: Option<String>,
}

/// A sub-element of `FRAME-PORT-REFS`: whether it is a `FRAME-PORT-REF`,
/// and the port it refers to, when the reference resolves.
#[derive(Debug)]
pub struct PortRef {
    pub is_frame_port_ref: bool,
    pub target: Option<FramePort>,
}

/// Byte order of a mapped signal (`PACKING-BYTE-ORDER`).
#[derive(Clone, Copy, Debug, PartialEq, Eq, Structural)]
pub enum ByteOrder {
    MostSignificantByteFirst,
    MostSignificantByteLast,
    Other,
}

/// An `I-SIGNAL`: its name and its `LENGTH`, when they read.
#[derive(Debug)]
pub struct ISignal {
    pub name: Option<String>,
    pub length: Option<u16>,
}

/// An `I-SIGNAL-TO-I-PDU-MAPPING`: the signal it refers to (when the
/// reference resolves), its `START-POSITION` and byte order, when given.
#[derive(Debug)]
pub struct ISignalMapping {
    pub signal: Option<ISignal>,
    pub start_position: Option<u16>,
    pub byte_order: Option<ByteOrder>,
}

/// A PDU: whether it is an `I-SIGNAL-I-PDU`, and its signal mappings
/// (`None` without `I-SIGNAL-TO-PDU-MAPPINGS`).
#[derive(Debug)]
pub struct Pdu {
    pub is_isignal_ipdu: bool,
    pub mappings: Option<Vec<ISignalMapping>>,
}

/// A `CAN-FRAME`: its name, `FRAME-LENGTH` and the PDUs of its
/// `PDU-TO-FRAME-MAPPINGS` (each `None` when the reference does not
/// resolve; the list `None` without such mappings).
#[derive(Debug)]
pub struct Frame {
    pub name: Option<String>,
    pub length: Option<u16>,
    pub pdus: Option<Vec<Option<Pdu>>>,
}

/// A `CAN-FRAME-TRIGGERING`: the frame it refers to (when the reference
/// resolves), its `IDENTIFIER` and its `FRAME-PORT-REFS`.
#[derive(Debug)]
pub struct FrameTriggering {
    pub frame: Option<Frame>,
    pub identifier: Option<u32>,
    pub port_refs: Option<Vec<PortRef>>,
}

/// A physical channel: whether it is a `CAN-PHYSICAL-CHANNEL`, and its
/// frame triggerings (`None` without `FRAME-TRIGGERINGS`).
#[derive(Debug)]
pub struct PhysicalChannel {
    pub is_can_physical_channel: bool,
    pub frame_triggerings: Option<Vec<FrameTriggering>>,
}

/// `CAN-CLUSTER-VARIANTS/CAN-CLUSTER-CONDITIONAL`: whether it gives a
/// `CAN-FD-BAUDRATE`, and its physical channels.
#[derive(Debug)]
pub struct ClusterConditional {
    pub has_fd_baudrate: bool,
    pub physical_channels: Option<Vec<PhysicalChannel>>,
}

/// A `CAN-CLUSTER`: its name and conditional part, when present.
#[derive(Debug)]
pub struct CanCluster {
    pub name: Option<String>,
    pub conditional: Option<ClusterConditional>,
}

// ---------------------------------------------------------------------------
// Runs of steps
// ---------------------------------------------------------------------------

/// A sequence of databases, each obtained from the one before by `step` on
/// the next item.
pub open spec fn is_trace<T>(st: Seq<DatabaseView>, xs: Seq<T>, step: spec_fn(DatabaseView, T, DatabaseView) -> bool) -> bool {
    &&& st.len() == xs.len() + 1
    &&& forall|i: int| 0 <= i < xs.len() ==> #[trigger] step(st[i], xs[i], st[i + 1])
}

/// Going through the items `xs` from `db` by `step` can end at `after`.
pub open spec fn steps_to<T>(db: DatabaseView, xs: Seq<T>, step: spec_fn(DatabaseView, T, DatabaseView) -> bool, after: DatabaseView) -> bool {
    exists|st: Seq<DatabaseView>| #[trigger] is_trace(st, xs, step) && st[0] == db && st.last() == after
}

proof fn lemma_trace_push<T>(st: Seq<DatabaseView>, xs: Seq<T>, step: spec_fn(DatabaseView, T, DatabaseView) -> bool, x: T, d: DatabaseView)
    requires
        is_trace(st, xs, step),
        step(st.last(), x, d),
    ensures
        is_trace(st.push(d), xs.push(x), step),
{
    assert forall|i: int| 0 <= i < xs.push(x).len() implies #[trigger] step(st.push(d)[i], xs.push(x)[i], st.push(d)[i + 1]) by {
        if i < xs.len() {
            assert(step(st[i], xs[i], st[i + 1]));
        } else {
            assert(st.push(d)[i] == st.last());
        }
    }
}

// ---------------------------------------------------------------------------
// Nodes and messages
// ---------------------------------------------------------------------------

/// Node key `k` is the node named `name` (compared in lower case): the one
/// present, or a new node of that name.
pub open spec fn node_ensured(db: DatabaseView, name: Seq<char>, k: NodeKey, after: DatabaseView) -> bool {
    let n = unicode_lowercase(name);
    if db.node_by_name.contains_key(n) {
        k == db.node_by_name[n] && after == db
    } else {
        !db.nodes.contains_key(k) && after == node_added(db, k, seeded_node(db, name))
    }
}

/// The node named `name`: the one present (compared in lower case), else a
/// new node of that name.
pub fn ensure_node(db: &mut DatabaseDBC, name: &str) -> (r: Option<NodeKey>)
    requires
        old(db).wf(),
        old(db).has_room(),
    ensures
        final(db).wf(),
        final(db).entity_count() <= old(db).entity_count() + 1,
        r matches Some(k) && node_ensured(old(db)@, name@, k, final(db)@),
{
    Some(db.add_node_if_absent(name))
}

/// Message key `k` is the message with identifier `id`, else the one named
/// `name` (compared in lower case), else a new message `name` of `dlc`
/// bytes.
pub open spec fn message_ensured(db: DatabaseView, name: Seq<char>, id: u32, dlc: u16, k: MessageKey, after: DatabaseView) -> bool {
    let n = unicode_lowercase(name);
    if db.msg_by_id.contains_key(id) {
        k == db.msg_by_id[id] && after == db
    } else if db.msg_by_name.contains_key(n) {
        k == db.msg_by_name[n] && after == db
    } else {
        !db.messages.contains_key(k) && after == message_added(db, k, blank_message(name, id, dlc))
    }
}

/// The message with identifier `id`, else the one named `name`, else a new
/// message (see [`message_ensured`]).
pub fn ensure_message(db: &mut DatabaseDBC, name: &str, id: u32, dlc: u16) -> (r: MessageKey)
    requires
        old(db).wf(),
        old(db).has_room(),
    ensures
        final(db).wf(),
        final(db).entity_count() <= old(db).entity_count() + 1,
        message_ensured(old(db)@, name@, id, dlc, r, final(db)@),
{
    if let Some(k) = db.get_msg_key_by_id(&id) {
        return k;
    }
    if let Some(k) = db.get_msg_key_by_name(name) {
        return k;
    }
    match db.add_message(name, id, dlc) {
        Ok(k) => k,
        Err(_) => MessageKey::null(),
    }
}

// ---------------------------------------------------------------------------
// ECUs of the frame ports
// ---------------------------------------------------------------------------

/// What is read of a frame port: its direction and ECU name, when given.
pub open spec fn port_view(p: FramePort) -> (Option<PortDirection>, Option<Seq<char>>) {
    (
        p.direction,
        match p.ecu {
            Some(e) => Some(e@),
            None => None,
        },
    )
}

/// The views of a list of frame ports.
pub open spec fn ports_view(ps: Seq<FramePort>) -> Seq<(Option<PortDirection>, Option<Seq<char>>)> {
    ps.map_values(|p: FramePort| port_view(p))
}

/// The ECU names of the ports with direction `dir` whose ECU is known, in
/// order.
pub open spec fn ecus_with(ports: Seq<(Option<PortDirection>, Option<Seq<char>>)>, dir: PortDirection) -> Seq<Seq<char>>
    decreases ports.len(),
{
    if ports.len() == 0 {
        seq![]
    } else {
        let rest = ecus_with(ports.drop_last(), dir);
        let p = ports.last();
        if p.0 == Some(dir) && p.1 is Some {
            rest.push(p.1->0)
        } else {
            rest
        }
    }
}

/// The sending (`Out`) and receiving (`In`) ECUs of the frame ports.
pub fn get_rx_tx_ecus(ports: &Vec<FramePort>) -> (r: (Vec<String>, Vec<String>))
    ensures
        crate::dbc::types::attributes::texts(r.0@) == ecus_with(ports_view(ports@), PortDirection::Out),
        crate::dbc::types::attributes::texts(r.1@) == ecus_with(ports_view(ports@), PortDirection::In),
        r.0.len() <= ports.len(),
        r.1.len() <= ports.len(),
{
    let mut senders: Vec<String> = Vec::new();
    let mut receivers: Vec<String> = Vec::new();
    let mut i: usize = 0;
    while i < ports.len()
        invariant
            i <= ports.len(),
            crate::dbc::types::attributes::texts(senders@) == ecus_with(ports_view(ports@).take(i as int), PortDirection::Out),
            crate::dbc::types::attributes::texts(receivers@) == ecus_with(ports_view(ports@).take(i as int), PortDirection::In),
            senders.len() <= i,
            receivers.len() <= i,
        decreases ports.len() - i,
    {
        assert(ports_view(ports@).take(i + 1).drop_last() =~= ports_view(ports@).take(i as int));
        assert(ports_view(ports@).take(i + 1).last() == port_view(ports@[i as int]));
        let p: &FramePort = &ports[i];
        match (&p.direction, &p.ecu) {
            (Some(PortDirection::In), Some(name)) => {
                let ghost before = crate::dbc::types::attributes::texts(receivers@);
                let s: String = string_of(&chars_of_string(name));
                let ghost sv = s@;
                receivers.push(s);
                assert(crate::dbc::types::attributes::texts(receivers@) =~= before.push(sv));
            },
            (Some(PortDirection::Out), Some(name)) => {
                let ghost before = crate::dbc::types::attributes::texts(senders@);
                let s: String = string_of(&chars_of_string(name));
                let ghost sv = s@;
                senders.push(s);
                assert(crate::dbc::types::attributes::texts(senders@) =~= before.push(sv));
            },
            _ => {},
        }
        i = i + 1;
    }
    assert(ports_view(ports@).take(ports.len() as int) =~= ports_view(ports@));
    (senders, receivers)
}

// ---------------------------------------------------------------------------
// Signals of an I-SIGNAL-I-PDU
// ---------------------------------------------------------------------------

/// The number written by `n` one bits (`2^n - 1`).
pub open spec fn all_ones(n: nat) -> nat
    decreases n,
{
    if n == 0 {
        0
    } else {
        2 * all_ones((n - 1) as nat) + 1
    }
}

/// The largest raw value of an unsigned signal of `len` bits, as text: 0
/// for an empty signal, `2^len - 1` below 64 bits, `u64::MAX` from 64 bits
/// on.
pub open spec fn max_raw_text(len: u16) -> Seq<char> {
    if len == 0 {
        "0"@
    } else if len < 64 {
        dec_string(all_ones(len as nat))
    } else {
        dec_string(u64::MAX as nat)
    }
}

/// The signal a mapping adds: named after the I-signal, unsigned, factor 1,
/// offset 0, from 0 to the largest raw value, big endian unless the byte
/// order says most significant byte last, at the mapped start position.
pub open spec fn mapped_signal(m: ISignalMapping) -> SignalView {
    let s = m.signal->0;
    let name = match s.name {
        Some(n) => n@,
        None => Seq::empty(),
    };
    let len: u16 = match s.length {
        Some(l) => l,
        None => 0,
    };
    let endian = if m.byte_order == Some(ByteOrder::MostSignificantByteLast) {
        Endianness::Intel
    } else {
        Endianness::Motorola
    };
    SignalView {
        bit_start: match m.start_position {
            Some(p) => p,
            None => 0,
        },
        bit_length: len,
        ..blank_signal(name, endian, Signess::Unsigned, "1"@, "0"@, "0"@, max_raw_text(len), Seq::empty())
    }
}

/// Binding signal `sk` to message `mk` succeeds: the signal is present and
/// unbound, the message present and the signal fits its payload.
pub open spec fn binds(db: DatabaseView, sk: SignalKey, mk: MessageKey) -> bool {
    db.signals.contains_key(sk) && db.signals[sk].message.is_null_spec() && db.messages.contains_key(mk) && fit_error(
        db.messages[mk].byte_length,
        db.signals[sk].bit_start,
        db.signals[sk].bit_length,
        db.signals[sk].endian,
    ) is None
}

/// One receiving ECU made a receiver of signal `sk`: its node ensured under
/// key `k`, then added as a receiver.
pub open spec fn receiver_ecu_step(sk: SignalKey) -> spec_fn(DatabaseView, Seq<char>, DatabaseView) -> bool {
    |d: DatabaseView, ecu: Seq<char>, after: DatabaseView|
        exists|k: NodeKey, d1: DatabaseView| node_ensured(d, ecu, k, d1) && after == #[trigger] receiver_added(d1, sk, k)
}

/// What one signal mapping does, from `db` to `after`: nothing without a
/// signal; else the signal is added under a new key and bound to message
/// `mk` (when it fits); once bound, each receiving ECU becomes a receiver.
pub open spec fn mapping_outcome(db: DatabaseView, mk: MessageKey, ecus: Seq<Seq<char>>, m: ISignalMapping, after: DatabaseView) -> bool {
    if m.signal is None {
        after == db
    } else {
        exists|sk: SignalKey| !db.signals.contains_key(sk) && #[trigger] mapped_under(db, mk, ecus, m, sk, after)
    }
}

/// [`mapping_outcome`] with the new signal under key `sk`.
pub open spec fn mapped_under(
    db: DatabaseView,
    mk: MessageKey,
    ecus: Seq<Seq<char>>,
    m: ISignalMapping,
    sk: SignalKey,
    after: DatabaseView,
) -> bool {
    let d1 = signal_added(db, sk, mapped_signal(m));
    let d2 = relation_result(d1, sk, mk, MuxRole::NotMultiplexed, None);
    if binds(d1, sk, mk) {
        steps_to(d2, ecus, receiver_ecu_step(sk), after)
    } else {
        after == d2
    }
}

/// The step of [`mapping_outcome`] for message `mk` and ECUs `ecus`.
pub open spec fn mapping_step(mk: MessageKey, ecus: Seq<Seq<char>>) -> spec_fn(DatabaseView, ISignalMapping, DatabaseView) -> bool {
    |d: DatabaseView, m: ISignalMapping, after: DatabaseView| mapping_outcome(d, mk, ecus, m, after)
}

/// The views of a list of names.
pub open spec fn names_view(v: Seq<String>) -> Seq<Seq<char>> {
    crate::dbc::types::attributes::texts(v)
}

fn add_receivers(db: &mut DatabaseDBC, sk: SignalKey, ecus: &Vec<String>)
    requires
        old(db).wf(),
        old(db).entity_count() + ecus.len() < ARENA_CAPACITY,
        old(db)@.signals.contains_key(sk),
    ensures
        final(db).wf(),
        final(db).entity_count() <= old(db).entity_count() + ecus.len(),
        steps_to(old(db)@, names_view(ecus@), receiver_ecu_step(sk), final(db)@),
{
    let ghost d0 = db@;
    let ghost mut st: Seq<DatabaseView> = seq![db@];
    let mut i: usize = 0;
    assert(names_view(ecus@).take(0) =~= Seq::<Seq<char>>::empty());
    while i < ecus.len()
        invariant
            i <= ecus.len(),
            db.wf(),
            db.entity_count() <= old(db).entity_count() + i,
            old(db).entity_count() + ecus.len() < ARENA_CAPACITY,
            db@.signals.contains_key(sk),
            is_trace(st, names_view(ecus@).take(i as int), receiver_ecu_step(sk)),
            st[0] == d0,
            st.last() == db@,
            d0 == old(db)@,
        decreases ecus.len() - i,
    {
        let ghost before = db@;
        let k: NodeKey = match ensure_node(db, ecus[i].as_str()) {
            Some(k) => k,
            None => NodeKey::null(),
        };
        let ghost d1 = db@;
        db.link_receiver(sk, k);
        proof {
            assert(names_view(ecus@)[i as int] == ecus@[i as int]@);
            assert(db@ == receiver_added(d1, sk, k));
            assert(receiver_ecu_step(sk)(before, names_view(ecus@)[i as int], db@));
            lemma_trace_push(st, names_view(ecus@).take(i as int), receiver_ecu_step(sk), names_view(ecus@)[i as int], db@);
            assert(names_view(ecus@).take(i as int).push(names_view(ecus@)[i as int]) =~= names_view(ecus@).take(i + 1));
            st = st.push(db@);
        }
        i = i + 1;
    }
    assert(names_view(ecus@).take(ecus.len() as int) =~= names_view(ecus@));
    assert(is_trace(st, names_view(ecus@), receiver_ecu_step(sk)));
}

/// `2^k` for `k` below 64, as the bound of a `k`-bit value.
pub open spec fn pow2_u64(k: u16) -> int
    decreases k,
{
    if k == 0 {
        1
    } else {
        2 * pow2_u64((k - 1) as u16)
    }
}

proof fn lemma_pow2_u64_pos(k: u16)
    ensures
        pow2_u64(k) >= 1,
    decreases k,
{
    if k > 0 {
        lemma_pow2_u64_pos((k - 1) as u16);
    }
}

proof fn lemma_pow2_u64_bound(k: u16)
    requires
        k <= 63,
    ensures
        pow2_u64(k) <= 0x8000_0000_0000_0000,
    decreases 63 - k,
{
    if k < 63 {
        lemma_pow2_u64_bound((k + 1) as u16);
        lemma_pow2_u64_pos(k);
        assert(pow2_u64((k + 1) as u16) == 2 * pow2_u64(k));
    } else {
        reveal_with_fuel(pow2_u64, 64);
        assert(pow2_u64(63) == 0x8000_0000_0000_0000);
    }
}

/// Text of the largest raw value (see [`max_raw_text`]).
fn max_raw_exec(len: u16) -> (r: String)
    ensures
        r@ == max_raw_text(len),
{
    if len == 0 {
        string_of(&chars_of("0"))
    } else if len < 64 {
        let mut v: u64 = 0;
        let mut k: u16 = 0;
        while k < len
            invariant
                k <= len,
                len < 64,
                v == all_ones(k as nat),
                v < pow2_u64(k),
            decreases len - k,
        {
            proof {
                lemma_pow2_u64_bound(k);
            }
            v = 2 * v + 1;
            k = k + 1;
        }
        string_of(&fmt_dec(v))
    } else {
        string_of(&fmt_dec(u64::MAX))
    }
}

/// Converts the signal mappings of an `I-SIGNAL-I-PDU` into signals of
/// message `msg_key` (see [`mapping_outcome`]).
pub fn process_isignal_ipdu(db: &mut DatabaseDBC, msg_key: MessageKey, mappings: &Vec<ISignalMapping>, receiver_ecus: &Vec<String>)
    requires
        old(db).wf(),
        old(db).entity_count() + mappings.len() * (receiver_ecus.len() + 1) < ARENA_CAPACITY,
    ensures
        final(db).wf(),
        final(db).entity_count() <= old(db).entity_count() + mappings.len() * (receiver_ecus.len() + 1),
        steps_to(old(db)@, mappings@, mapping_step(msg_key, names_view(receiver_ecus@)), final(db)@),
{
    let ghost d0 = db@;
    let ghost ecus = names_view(receiver_ecus@);
    let ghost mut st: Seq<DatabaseView> = seq![db@];
    let ghost e: int = receiver_ecus.len() + 1;
    let mut i: usize = 0;
    assert(mappings@.take(0) =~= Seq::<ISignalMapping>::empty());
    while i < mappings.len()
        invariant
            i <= mappings.len(),
            e == receiver_ecus.len() + 1,
            ecus == names_view(receiver_ecus@),
            db.wf(),
            db.entity_count() <= old(db).entity_count() + i * e,
            old(db).entity_count() + mappings.len() * e < ARENA_CAPACITY,
            is_trace(st, mappings@.take(i as int), mapping_step(msg_key, ecus)),
            st[0] == d0,
            st.last() == db@,
            d0 == old(db)@,
        decreases mappings.len() - i,
    {
        proof {
            assert((i + 1) * e <= mappings.len() * e) by (nonlinear_arith)
                requires
                    i + 1 <= mappings.len(),
                    e >= 0,
            ;
            assert((i + 1) * e == i * e + e) by (nonlinear_arith);
        }
        let ghost before = db@;
        let m: &ISignalMapping = &mappings[i];
        match &m.signal {
            None => {},
            Some(s) => {
                let name: String = match &s.name {
                    Some(n) => string_of(&chars_of_string(n)),
                    None => String::new(),
                };
                let len: u16 = match s.length {
                    Some(l) => l,
                    None => 0,
                };
                let start: u16 = match m.start_position {
                    Some(p) => p,
                    None => 0,
                };
                let endian: Endianness = match m.byte_order {
                    Some(ByteOrder::MostSignificantByteLast) => Endianness::Intel,
                    _ => Endianness::Motorola,
                };
                let max: String = max_raw_exec(len);
                let sk: SignalKey = db.add_signal(name.as_str(), endian, Signess::Unsigned, "1", "0", "0", max.as_str(), "");
                db.set_signal_layout(sk, start, len);
                proof {
                    MessageKey::lemma_nil();
                    reveal_strlit("");
                    assert(m.signal == Some(*s));
                    let g = db@.signals[sk];
                    let w = mapped_signal(*m);
                    assert(g.name == w.name);
                    assert(g.endian == w.endian);
                    assert(g.bit_start == w.bit_start);
                    assert(g.bit_length == w.bit_length);
                    assert(g.max == w.max);
                    assert(g.factor == w.factor);
                    assert(g.unit_of_measurement == w.unit_of_measurement);
                    assert(g == w);
                    assert(db@.signals =~= before.signals.insert(sk, mapped_signal(*m)));
                    assert(db@ == signal_added(before, sk, mapped_signal(*m)));
                }
                let bound: bool = db.add_msg_sig_relation(sk, msg_key, MuxRole::NotMultiplexed, None).is_ok();
                let ghost d2 = db@;
                assert(d2 == relation_result(signal_added(before, sk, mapped_signal(*m)), sk, msg_key, MuxRole::NotMultiplexed, None));
                if bound {
                    add_receivers(db, sk, receiver_ecus);
                    assert(steps_to(d2, ecus, receiver_ecu_step(sk), db@));
                }
                assert(mapped_under(before, msg_key, ecus, *m, sk, db@));
                assert(mapping_outcome(before, msg_key, ecus, *m, db@));
            },
        }
        proof {
            assert(mappings@[i as int] == *m);
            assert(mapping_step(msg_key, ecus)(before, mappings@[i as int], db@));
            lemma_trace_push(st, mappings@.take(i as int), mapping_step(msg_key, ecus), mappings@[i as int], db@);
            assert(mappings@.take(i as int).push(mappings@[i as int]) =~= mappings@.take(i + 1));
            st = st.push(db@);
        }
        i = i + 1;
    }
    assert(mappings@.take(mappings.len() as int) =~= mappings@);
    assert(is_trace(st, mappings@, mapping_step(msg_key, ecus)));
}

// ---------------------------------------------------------------------------
// Frame triggerings
// ---------------------------------------------------------------------------

/// The ports of the `FRAME-PORT-REF`s that resolve, in order.
pub open spec fn resolved_ports(refs: Seq<PortRef>) -> Seq<(Option<PortDirection>, Option<Seq<char>>)>
    decreases refs.len(),
{
    if refs.len() == 0 {
        seq![]
    } else {
        let rest = resolved_ports(refs.drop_last());
        let r = refs.last();
        if r.is_frame_port_ref && r.target is Some {
            rest.push(port_view(r.target->0))
        } else {
            rest
        }
    }
}

/// What linking sender node `k` to message `mk` does
/// ([`add_sender_relation`](DatabaseDBC::add_sender_relation)).
pub open spec fn sender_result(db: DatabaseView, mk: MessageKey, k: NodeKey) -> DatabaseView {
    if db.messages.contains_key(mk) && db.nodes.contains_key(k) {
        sender_linked(db, mk, k)
    } else {
        db
    }
}

/// One sending ECU linked to message `mk`: its node ensured under key `k`,
/// then made a sender of the message.
pub open spec fn sender_ecu_step(mk: MessageKey) -> spec_fn(DatabaseView, Seq<char>, DatabaseView) -> bool {
    |d: DatabaseView, ecu: Seq<char>, after: DatabaseView|
        exists|k: NodeKey, d1: DatabaseView| node_ensured(d, ecu, k, d1) && after == #[trigger] sender_result(d1, mk, k)
}

/// What one PDU of a frame does: an `I-SIGNAL-I-PDU` with signal mappings
/// adds its signals to message `mk` (see [`mapping_outcome`]); anything
/// else changes nothing.
pub open spec fn pdu_step(mk: MessageKey, ecus: Seq<Seq<char>>) -> spec_fn(DatabaseView, Option<Pdu>, DatabaseView) -> bool {
    |d: DatabaseView, p: Option<Pdu>, after: DatabaseView|
        match p {
            Some(pdu) => if pdu.is_isignal_ipdu && pdu.mappings is Some {
                steps_to(d, pdu.mappings->0@, mapping_step(mk, ecus), after)
            } else {
                after == d
            },
            None => after == d,
        }
}

/// The frame's name (`CAN_Frame` when it has none), identifier (0 when
/// absent) and length (0 when absent).
pub open spec fn frame_header(ft: FrameTriggering) -> (Seq<char>, u32, u16) {
    let f = ft.frame->0;
    (
        match f.name {
            Some(n) => n@,
            None => "CAN_Frame"@,
        },
        match ft.identifier {
            Some(i) => i,
            None => 0,
        },
        match f.length {
            Some(l) => l,
            None => 0,
        },
    )
}

/// The ports of a frame triggering.
pub open spec fn ports_of(ft: FrameTriggering) -> Seq<(Option<PortDirection>, Option<Seq<char>>)> {
    match ft.port_refs {
        Some(refs) => resolved_ports(refs@),
        None => seq![],
    }
}

/// The PDUs of a frame triggering's frame.
pub open spec fn pdus_of(ft: FrameTriggering) -> Seq<Option<Pdu>> {
    match ft.frame->0.pdus {
        Some(ps) => ps@,
        None => seq![],
    }
}

/// [`frame_outcome`] with message key `mk` and the databases `d1` after the
/// message and `d2` after its senders.
pub open spec fn frame_under(db: DatabaseView, ft: FrameTriggering, mk: MessageKey, d1: DatabaseView, d2: DatabaseView, after: DatabaseView) -> bool {
    let (name, id, dlc) = frame_header(ft);
    &&& message_ensured(db, name, id, dlc, mk, d1)
    &&& steps_to(d1, ecus_with(ports_of(ft), PortDirection::Out), sender_ecu_step(mk), d2)
    &&& steps_to(d2, pdus_of(ft), pdu_step(mk, ecus_with(ports_of(ft), PortDirection::In)), after)
}

/// What a frame triggering does, from `db` to `after`: nothing without a
/// frame; else the frame's message is ensured, its sending ECUs become its
/// senders and the signals of its PDUs are added with the receiving ECUs as
/// receivers.
pub open spec fn frame_outcome(db: DatabaseView, ft: FrameTriggering, after: DatabaseView) -> bool {
    if ft.frame is None {
        after == db
    } else {
        exists|mk: MessageKey, d1: DatabaseView, d2: DatabaseView| #[trigger] frame_under(db, ft, mk, d1, d2, after)
    }
}

/// The number of signal mappings of a PDU.
pub open spec fn pdu_mappings(p: Option<Pdu>) -> nat {
    match p {
        Some(p) => match p.mappings {
            Some(ms) => ms.len() as nat,
            None => 0,
        },
        None => 0,
    }
}

/// The number of signal mappings of the PDUs.
pub open spec fn mapping_count(ps: Seq<Option<Pdu>>) -> nat
    decreases ps.len(),
{
    if ps.len() == 0 {
        0
    } else {
        mapping_count(ps.drop_last()) + pdu_mappings(ps.last())
    }
}

proof fn lemma_mapping_count_prefix(ps: Seq<Option<Pdu>>, i: int)
    requires
        0 <= i < ps.len(),
    ensures
        mapping_count(ps.take(i + 1)) == mapping_count(ps.take(i)) + pdu_mappings(ps[i]),
        mapping_count(ps.take(i + 1)) <= mapping_count(ps),
    decreases ps.len() - i,
{
    assert(ps.take(i + 1).drop_last() =~= ps.take(i));
    if i + 1 < ps.len() {
        lemma_mapping_count_prefix(ps, i + 1);
    } else {
        assert(ps.take(i + 1) =~= ps);
    }
}

/// The number of port references of a frame triggering.
pub open spec fn port_count(ft: FrameTriggering) -> nat {
    match ft.port_refs {
        Some(r) => r.len() as nat,
        None => 0,
    }
}

/// The most entities a frame triggering can add.
pub open spec fn frame_budget(ft: FrameTriggering) -> nat {
    if ft.frame is None {
        0
    } else {
        let p = port_count(ft);
        1 + p + mapping_count(pdus_of(ft)) * (p + 1)
    }
}

proof fn lemma_resolved_ports_len(refs: Seq<PortRef>)
    ensures
        resolved_ports(refs).len() <= refs.len(),
    decreases refs.len(),
{
    if refs.len() > 0 {
        lemma_resolved_ports_len(refs.drop_last());
    }
}

proof fn lemma_ecus_len(ports: Seq<(Option<PortDirection>, Option<Seq<char>>)>, dir: PortDirection)
    ensures
        ecus_with(ports, dir).len() <= ports.len(),
    decreases ports.len(),
{
    if ports.len() > 0 {
        lemma_ecus_len(ports.drop_last(), dir);
    }
}

fn copy_text(s: &String) -> (r: String)
    ensures
        r@ == s@,
{
    string_of(&chars_of_string(s))
}

fn resolved_ports_exec(refs: &Vec<PortRef>) -> (r: Vec<FramePort>)
    ensures
        ports_view(r@) == resolved_ports(refs@),
{
    let mut out: Vec<FramePort> = Vec::new();
    let mut i: usize = 0;
    while i < refs.len()
        invariant
            i <= refs.len(),
            ports_view(out@) == resolved_ports(refs@.take(i as int)),
        decreases refs.len() - i,
    {
        assert(refs@.take(i + 1).drop_last() =~= refs@.take(i as int));
        assert(refs@.take(i + 1).last() == refs@[i as int]);
        if refs[i].is_frame_port_ref {
            match &refs[i].target {
                Some(p) => {
                    let c = FramePort {
                        direction: p.direction,
                        ecu: match &p.ecu {
                            Some(e) => Some(copy_text(e)),
                            None => None,
                        },
                    };
                    assert(port_view(c) == port_view(*p));
                    let ghost before = ports_view(out@);
                    out.push(c);
                    assert(ports_view(out@) =~= before.push(port_view(*p)));
                },
                None => {},
            }
        }
        i = i + 1;
    }
    assert(refs@.take(refs.len() as int) =~= refs@);
    out
}

fn add_senders(db: &mut DatabaseDBC, mk: MessageKey, ecus: &Vec<String>)
    requires
        old(db).wf(),
        old(db).entity_count() + ecus.len() < ARENA_CAPACITY,
    ensures
        final(db).wf(),
        final(db).entity_count() <= old(db).entity_count() + ecus.len(),
        steps_to(old(db)@, names_view(ecus@), sender_ecu_step(mk), final(db)@),
{
    let ghost d0 = db@;
    let ghost mut st: Seq<DatabaseView> = seq![db@];
    let mut i: usize = 0;
    assert(names_view(ecus@).take(0) =~= Seq::<Seq<char>>::empty());
    while i < ecus.len()
        invariant
            i <= ecus.len(),
            db.wf(),
            db.entity_count() <= old(db).entity_count() + i,
            old(db).entity_count() + ecus.len() < ARENA_CAPACITY,
            is_trace(st, names_view(ecus@).take(i as int), sender_ecu_step(mk)),
            st[0] == d0,
            st.last() == db@,
            d0 == old(db)@,
        decreases ecus.len() - i,
    {
        let ghost before = db@;
        let k: NodeKey = match ensure_node(db, ecus[i].as_str()) {
            Some(k) => k,
            None => NodeKey::null(),
        };
        let ghost d1 = db@;
        let _ = db.add_sender_relation(mk, k);
        proof {
            assert(names_view(ecus@)[i as int] == ecus@[i as int]@);
            assert(db@ == sender_result(d1, mk, k));
            assert(sender_ecu_step(mk)(before, names_view(ecus@)[i as int], db@));
            lemma_trace_push(st, names_view(ecus@).take(i as int), sender_ecu_step(mk), names_view(ecus@)[i as int], db@);
            assert(names_view(ecus@).take(i as int).push(names_view(ecus@)[i as int]) =~= names_view(ecus@).take(i + 1));
            st = st.push(db@);
        }
        i = i + 1;
    }
    assert(names_view(ecus@).take(ecus.len() as int) =~= names_view(ecus@));
}

/// Converts one `CAN-FRAME-TRIGGERING` into a message with its senders and
/// signals (see [`frame_outcome`]).
pub fn process_can_frame_triggering(db: &mut DatabaseDBC, ft: &FrameTriggering)
    requires
        old(db).wf(),
        old(db).entity_count() + frame_budget(*ft) < ARENA_CAPACITY,
    ensures
        final(db).wf(),
        final(db).entity_count() <= old(db).entity_count() + frame_budget(*ft),
        frame_outcome(old(db)@, *ft, final(db)@),
{
    let frame: &Frame = match &ft.frame {
        None => return,
        Some(f) => f,
    };
    let name: String = match &frame.name {
        Some(n) => copy_text(n),
        None => string_of(&chars_of("CAN_Frame")),
    };
    let id: u32 = match ft.identifier {
        Some(i) => i,
        None => 0,
    };
    let dlc: u16 = match frame.length {
        Some(l) => l,
        None => 0,
    };
    let ghost p: nat = port_count(*ft);
    let ghost m: nat = mapping_count(pdus_of(*ft));
    let ghost d0 = db@;
    let mk: MessageKey = ensure_message(db, name.as_str(), id, dlc);
    let ghost d1 = db@;
    let ports: Vec<FramePort> = match &ft.port_refs {
        Some(refs) => resolved_ports_exec(refs),
        None => Vec::new(),
    };
    assert(ports_view(ports@) == ports_of(*ft));
    proof {
        if ft.port_refs is Some {
            lemma_resolved_ports_len(ft.port_refs->0@);
        }
        lemma_ecus_len(ports_view(ports@), PortDirection::Out);
        lemma_ecus_len(ports_view(ports@), PortDirection::In);
    }
    let (senders, receivers) = get_rx_tx_ecus(&ports);
    add_senders(db, mk, &senders);
    let ghost d2 = db@;
    let ghost c2 = db.entity_count();
    let ghost rx = names_view(receivers@);
    let ghost mut st: Seq<DatabaseView> = seq![db@];
    let ghost ps: Seq<Option<Pdu>> = pdus_of(*ft);
    match &frame.pdus {
        None => {
            assert(ps =~= Seq::<Option<Pdu>>::empty());
            assert(is_trace(st, ps, pdu_step(mk, rx)));
        },
        Some(pdus) => {
            let mut i: usize = 0;
            assert(ps == pdus@);
            assert(pdus@.take(0) =~= Seq::<Option<Pdu>>::empty());
            while i < pdus.len()
                invariant
                    i <= pdus.len(),
                    ps == pdus@,
                    rx == names_view(receivers@),
                    receivers.len() <= p,
                    db.wf(),
                    db.entity_count() <= c2 + mapping_count(pdus@.take(i as int)) * (p + 1),
                    old(db).entity_count() + 1 + p + mapping_count(pdus@) * (p + 1) < ARENA_CAPACITY,
                    c2 <= old(db).entity_count() + 1 + p,
                    is_trace(st, pdus@.take(i as int), pdu_step(mk, rx)),
                    st[0] == d2,
                    st.last() == db@,
                decreases pdus.len() - i,
            {
                let ghost before = db@;
                assert(pdus@.take(i + 1).drop_last() =~= pdus@.take(i as int));
                assert(pdus@.take(i + 1).last() == pdus@[i as int]);
                proof {
                    lemma_mapping_count_prefix(pdus@, i as int);
                }
                match &pdus[i] {
                    Some(pdu) => {
                        if pdu.is_isignal_ipdu {
                            match &pdu.mappings {
                                Some(ms) => {
                                    proof {
                                        let a = mapping_count(pdus@.take(i as int));
                                        let n = ms.len() as int;
                                        assert(n * (receivers.len() + 1) <= n * (p + 1)) by (nonlinear_arith)
                                            requires
                                                receivers.len() <= p,
                                                n >= 0,
                                        ;
                                        assert((a + n) * (p + 1) == a * (p + 1) + n * (p + 1)) by (nonlinear_arith);
                                        assert(mapping_count(pdus@.take(i + 1)) <= mapping_count(pdus@));
                                        assert(mapping_count(pdus@.take(i + 1)) * (p + 1) <= mapping_count(pdus@) * (p + 1)) by (nonlinear_arith)
                                            requires
                                                mapping_count(pdus@.take(i + 1)) <= mapping_count(pdus@),
                                        ;
                                    }
                                    process_isignal_ipdu(db, mk, ms, &receivers);
                                },
                                None => {},
                            }
                        }
                    },
                    None => {},
                }
                proof {
                    let a = mapping_count(pdus@.take(i as int));
                    let b = mapping_count(pdus@.take(i + 1));
                    assert(a * (p + 1) <= b * (p + 1)) by (nonlinear_arith)
                        requires
                            a <= b,
                    ;
                    assert(pdu_step(mk, rx)(before, pdus@[i as int], db@));
                    lemma_trace_push(st, pdus@.take(i as int), pdu_step(mk, rx), pdus@[i as int], db@);
                    assert(pdus@.take(i as int).push(pdus@[i as int]) =~= pdus@.take(i + 1));
                    st = st.push(db@);
                }
                i = i + 1;
            }
            assert(pdus@.take(pdus.len() as int) =~= pdus@);
        },
    }
    assert(frame_under(d0, *ft, mk, d1, d2, db@));
}


// ---------------------------------------------------------------------------
// Clusters
// ---------------------------------------------------------------------------

/// The frame triggerings the conversion reads from a physical channel:
/// those of a `CAN-PHYSICAL-CHANNEL` only.
pub open spec fn channel_frames(ch: PhysicalChannel) -> Seq<FrameTriggering> {
    if ch.is_can_physical_channel && ch.frame_triggerings is Some {
        ch.frame_triggerings->0@
    } else {
        seq![]
    }
}

/// The frame triggerings of the channels, channel after channel.
pub open spec fn channels_frames(chs: Seq<PhysicalChannel>) -> Seq<FrameTriggering>
    decreases chs.len(),
{
    if chs.len() == 0 {
        seq![]
    } else {
        channels_frames(chs.drop_last()) + channel_frames(chs.last())
    }
}

/// The frame triggerings of a cluster, in the order they are converted.
pub open spec fn cluster_frames(c: CanCluster) -> Seq<FrameTriggering> {
    match c.conditional {
        Some(cc) => match cc.physical_channels {
            Some(chs) => channels_frames(chs@),
            None => seq![],
        },
        None => seq![],
    }
}

/// The most entities the frame triggerings can add.
pub open spec fn frames_budget(fts: Seq<FrameTriggering>) -> nat
    decreases fts.len(),
{
    if fts.len() == 0 {
        0
    } else {
        frames_budget(fts.drop_last()) + frame_budget(fts.last())
    }
}

/// One frame triggering converted (see [`frame_outcome`]).
pub open spec fn frame_step() -> spec_fn(DatabaseView, FrameTriggering, DatabaseView) -> bool {
    |d: DatabaseView, ft: FrameTriggering, after: DatabaseView| frame_outcome(d, ft, after)
}

/// The database a cluster's conversion starts from: empty, named after the
/// cluster (empty without a name), CAN FD when the conditional part gives a
/// `CAN-FD-BAUDRATE` and CAN otherwise.
pub open spec fn cluster_start(c: CanCluster) -> DatabaseView {
    empty_view(
        match c.name {
            Some(n) => n@,
            None => seq![],
        },
        if c.conditional->0.has_fd_baudrate {
            BusType::CanFd
        } else {
            BusType::Can
        },
        seq![],
    )
}

/// `d` is what converting cluster `c` gives: its frame triggerings applied
/// one after the other to [`cluster_start`].
pub open spec fn cluster_built(c: CanCluster, d: DatabaseView) -> bool {
    steps_to(cluster_start(c), cluster_frames(c), frame_step(), d)
}

/// The clusters that have a conditional part, in order.
pub open spec fn with_conditional(cs: Seq<CanCluster>) -> Seq<CanCluster>
    decreases cs.len(),
{
    if cs.len() == 0 {
        seq![]
    } else if cs.last().conditional is Some {
        with_conditional(cs.drop_last()).push(cs.last())
    } else {
        with_conditional(cs.drop_last())
    }
}

/// `n`, or the arena's capacity when `n` reaches it.
pub open spec fn capped(n: nat) -> nat {
    if n < ARENA_CAPACITY {
        n
    } else {
        ARENA_CAPACITY as nat
    }
}

proof fn lemma_steps_empty<T>(d: DatabaseView, step: spec_fn(DatabaseView, T, DatabaseView) -> bool)
    ensures
        steps_to(d, Seq::<T>::empty(), step, d),
{
    let st = seq![d];
    assert(is_trace(st, Seq::<T>::empty(), step));
}

proof fn lemma_steps_concat<T>(
    a: DatabaseView,
    xs: Seq<T>,
    b: DatabaseView,
    ys: Seq<T>,
    c: DatabaseView,
    step: spec_fn(DatabaseView, T, DatabaseView) -> bool,
)
    requires
        steps_to(a, xs, step, b),
        steps_to(b, ys, step, c),
    ensures
        steps_to(a, xs + ys, step, c),
{
    let st1 = choose|st: Seq<DatabaseView>| #[trigger] is_trace(st, xs, step) && st[0] == a && st.last() == b;
    let st2 = choose|st: Seq<DatabaseView>| #[trigger] is_trace(st, ys, step) && st[0] == b && st.last() == c;
    let st = st1 + st2.subrange(1, st2.len() as int);
    let zs = xs + ys;
    assert forall|i: int| 0 <= i < zs.len() implies #[trigger] step(st[i], zs[i], st[i + 1]) by {
        if i < xs.len() {
            assert(step(st1[i], xs[i], st1[i + 1]));
        } else {
            let j = i - xs.len();
            assert(step(st2[j], ys[j], st2[j + 1]));
            assert(st[i] == st2[j]);
            assert(st[i + 1] == st2[j + 1]);
        }
    }
    assert(is_trace(st, zs, step));
}

proof fn lemma_frames_budget_concat(a: Seq<FrameTriggering>, b: Seq<FrameTriggering>)
    ensures
        frames_budget(a + b) == frames_budget(a) + frames_budget(b),
    decreases b.len(),
{
    if b.len() == 0 {
        assert(a + b =~= a);
    } else {
        assert((a + b).drop_last() =~= a + b.drop_last());
        lemma_frames_budget_concat(a, b.drop_last());
    }
}

proof fn lemma_channels_budget_prefix(chs: Seq<PhysicalChannel>, i: int)
    requires
        0 <= i <= chs.len(),
    ensures
        frames_budget(channels_frames(chs.take(i))) <= frames_budget(channels_frames(chs)),
        i < chs.len() ==> channels_frames(chs.take(i + 1)) == channels_frames(chs.take(i)) + channel_frames(chs[i]),
    decreases chs.len() - i,
{
    if i < chs.len() {
        assert(chs.take(i + 1).drop_last() =~= chs.take(i));
        lemma_frames_budget_concat(channels_frames(chs.take(i)), channel_frames(chs[i]));
        lemma_channels_budget_prefix(chs, i + 1);
    } else {
        assert(chs.take(i) =~= chs);
    }
}

proof fn lemma_frames_budget_prefix(fts: Seq<FrameTriggering>, i: int)
    requires
        0 <= i < fts.len(),
    ensures
        frames_budget(fts.take(i + 1)) == frames_budget(fts.take(i)) + frame_budget(fts[i]),
        frames_budget(fts.take(i + 1)) <= frames_budget(fts),
{
    assert(fts.take(i + 1).drop_last() =~= fts.take(i));
    assert(fts =~= fts.take(i + 1) + fts.skip(i + 1));
    lemma_frames_budget_concat(fts.take(i + 1), fts.skip(i + 1));
}

fn add_channel(db: &mut DatabaseDBC, ch: &PhysicalChannel)
    requires
        old(db).wf(),
        old(db).entity_count() + frames_budget(channel_frames(*ch)) < ARENA_CAPACITY,
    ensures
        final(db).wf(),
        final(db).entity_count() <= old(db).entity_count() + frames_budget(channel_frames(*ch)),
        steps_to(old(db)@, channel_frames(*ch), frame_step(), final(db)@),
{
    proof {
        lemma_steps_empty(db@, frame_step());
    }
    if !ch.is_can_physical_channel {
        return;
    }
    let fts: &Vec<FrameTriggering> = match &ch.frame_triggerings {
        None => return,
        Some(fts) => fts,
    };
    let ghost d0 = db@;
    let ghost mut st: Seq<DatabaseView> = seq![db@];
    let mut i: usize = 0;
    assert(fts@.take(0) =~= Seq::<FrameTriggering>::empty());
    while i < fts.len()
        invariant
            i <= fts.len(),
            fts@ == channel_frames(*ch),
            db.wf(),
            db.entity_count() <= old(db).entity_count() + frames_budget(fts@.take(i as int)),
            old(db).entity_count() + frames_budget(fts@) < ARENA_CAPACITY,
            is_trace(st, fts@.take(i as int), frame_step()),
            st[0] == d0,
            d0 == old(db)@,
            st.last() == db@,
        decreases fts.len() - i,
    {
        proof {
            lemma_frames_budget_prefix(fts@, i as int);
        }
        let ghost before = db@;
        process_can_frame_triggering(db, &fts[i]);
        proof {
            assert(frame_step()(before, fts@[i as int], db@));
            lemma_trace_push(st, fts@.take(i as int), frame_step(), fts@[i as int], db@);
            assert(fts@.take(i as int).push(fts@[i as int]) =~= fts@.take(i + 1));
            st = st.push(db@);
        }
        i = i + 1;
    }
    assert(fts@.take(fts.len() as int) =~= fts@);
}

/// Converts one `CAN-CLUSTER` into a database: `None` without a
/// `CAN-CLUSTER-CONDITIONAL`; else the database [`cluster_built`] describes.
pub fn build_can_database(c: &CanCluster) -> (r: Option<DatabaseDBC>)
    requires
        frames_budget(cluster_frames(*c)) < ARENA_CAPACITY,
    ensures
        r is None <==> c.conditional is None,
        r matches Some(d) ==> d.wf() && cluster_built(*c, d@),
{
    let name: String = match &c.name {
        Some(n) => copy_text(n),
        None => String::new(),
    };
    let cc: &ClusterConditional = match &c.conditional {
        None => return None,
        Some(cc) => cc,
    };
    let bustype: BusType = if cc.has_fd_baudrate {
        BusType::CanFd
    } else {
        BusType::Can
    };
    let mut db: DatabaseDBC = DatabaseDBC::with_info(name, bustype, String::new());
    let ghost start = db@;
    assert(start == cluster_start(*c));
    proof {
        lemma_steps_empty(start, frame_step());
    }
    match &cc.physical_channels {
        None => {
            assert(cluster_frames(*c) =~= Seq::<FrameTriggering>::empty());
        },
        Some(chs) => {
            let mut k: usize = 0;
            assert(chs@.take(0) =~= Seq::<PhysicalChannel>::empty());
            assert(channels_frames(chs@.take(0)) =~= Seq::<FrameTriggering>::empty());
            while k < chs.len()
                invariant
                    k <= chs.len(),
                    cluster_frames(*c) == channels_frames(chs@),
                    frames_budget(channels_frames(chs@)) < ARENA_CAPACITY,
                    db.wf(),
                    db.entity_count() <= frames_budget(channels_frames(chs@.take(k as int))),
                    steps_to(start, channels_frames(chs@.take(k as int)), frame_step(), db@),
                decreases chs.len() - k,
            {
                proof {
                    lemma_channels_budget_prefix(chs@, k as int);
                    lemma_channels_budget_prefix(chs@, k + 1);
                    lemma_frames_budget_concat(channels_frames(chs@.take(k as int)), channel_frames(chs@[k as int]));
                }
                let ghost before = db@;
                add_channel(&mut db, &chs[k]);
                proof {
                    lemma_steps_concat(start, channels_frames(chs@.take(k as int)), before, channel_frames(chs@[k as int]), db@, frame_step());
                }
                k = k + 1;
            }
            assert(chs@.take(chs.len() as int) =~= chs@);
        },
    }
    Some(db)
}

/// Converts the clusters that have a conditional part, in order, each into
/// a database of its own.
pub fn databases_from_clusters(cs: &Vec<CanCluster>) -> (r: Vec<DatabaseDBC>)
    requires
        forall|i: int| 0 <= i < cs.len() ==> frames_budget(cluster_frames(#[trigger] cs@[i])) < ARENA_CAPACITY,
    ensures
        r.len() == with_conditional(cs@).len(),
        forall|i: int| 0 <= i < r.len() ==> (#[trigger] r@[i]).wf() && cluster_built(with_conditional(cs@)[i], r@[i]@),
{
    let mut out: Vec<DatabaseDBC> = Vec::new();
    let mut i: usize = 0;
    while i < cs.len()
        invariant
            i <= cs.len(),
            forall|j: int| 0 <= j < cs.len() ==> frames_budget(cluster_frames(#[trigger] cs@[j])) < ARENA_CAPACITY,
            out.len() == with_conditional(cs@.take(i as int)).len(),
            forall|j: int| 0 <= j < out.len() ==> (#[trigger] out@[j]).wf() && cluster_built(with_conditional(cs@.take(i as int))[j], out@[j]@),
        decreases cs.len() - i,
    {
        assert(cs@.take(i + 1).drop_last() =~= cs@.take(i as int));
        assert(cs@.take(i + 1).last() == cs@[i as int]);
        let ghost kept = with_conditional(cs@.take(i as int));
        match build_can_database(&cs[i]) {
            Some(db) => {
                out.push(db);
                assert(with_conditional(cs@.take(i + 1)) == kept.push(cs@[i as int]));
            },
            None => {
                assert(with_conditional(cs@.take(i + 1)) == kept);
            },
        }
        i = i + 1;
    }
    assert(cs@.take(cs.len() as int) =~= cs@);
    out
}

/// Checks the extension of an AUTOSAR file's path: `.arxml`, or
/// [`ArxmlConvertError::InvalidExtension`] with the path.
pub fn check_arxml_path(path: &str) -> (r: Result<(), ArxmlConvertError>)
    ensures
        r is Ok <==> ends_with(path@, ".arxml"@),
        r matches Err(ArxmlConvertError::InvalidExtension { path: p }) ==> p@ == path@,
{
    if ends_with_exec(&chars_of(path), &chars_of(".arxml")) {
        Ok(())
    } else {
        Err(ArxmlConvertError::InvalidExtension { path: string_of(&chars_of(path)) })
    }
}


fn mapping_count_capped(ps: &Vec<Option<Pdu>>) -> (r: u64)
    ensures
        r == capped(mapping_count(ps@)),
{
    let mut total: u64 = 0;
    let mut i: usize = 0;
    while i < ps.len()
        invariant
            i <= ps.len(),
            total == capped(mapping_count(ps@.take(i as int))),
        decreases ps.len() - i,
    {
        proof {
            lemma_mapping_count_prefix(ps@, i as int);
        }
        let n: u64 = match &ps[i] {
            Some(p) => match &p.mappings {
                Some(ms) => ms.len() as u64,
                None => 0,
            },
            None => 0,
        };
        assert(n == pdu_mappings(ps@[i as int]));
        if n >= ARENA_CAPACITY as u64 || total + n >= ARENA_CAPACITY as u64 {
            total = ARENA_CAPACITY as u64;
        } else {
            total = total + n;
        }
        i = i + 1;
    }
    assert(ps@.take(ps.len() as int) =~= ps@);
    total
}

fn frame_budget_capped(ft: &FrameTriggering) -> (r: u64)
    ensures
        r == capped(frame_budget(*ft)),
{
    let f: &Frame = match &ft.frame {
        None => return 0,
        Some(f) => f,
    };
    let p: u64 = match &ft.port_refs {
        Some(refs) => refs.len() as u64,
        None => 0,
    };
    let m: u64 = match &f.pdus {
        Some(ps) => mapping_count_capped(ps),
        None => 0,
    };
    assert(p == port_count(*ft));
    assert(m == capped(mapping_count(pdus_of(*ft))));
    let cap: u64 = ARENA_CAPACITY as u64;
    if p >= cap {
        return cap;
    }
    if m >= cap {
        proof {
            let mc = mapping_count(pdus_of(*ft));
            assert(mc * (p + 1) >= mc) by (nonlinear_arith)
                requires
                    mc >= 0,
                    p >= 0,
            ;
        }
        return cap;
    }
    assert(m * (p + 1) <= (cap - 1) * cap) by (nonlinear_arith)
        requires
            m < cap,
            p < cap,
    ;
    assert(cap == 0xFFFF_FFFE);
    let total: u64 = 1 + p + m * (p + 1);
    if total < cap {
        total
    } else {
        cap
    }
}

proof fn lemma_capped_sum(a: nat, b: nat)
    ensures
        capped(a + b) == capped(capped(a) + capped(b)),
{
}

fn channel_budget_capped(ch: &PhysicalChannel) -> (r: u64)
    ensures
        r == capped(frames_budget(channel_frames(*ch))),
{
    if !ch.is_can_physical_channel {
        return 0;
    }
    let fts: &Vec<FrameTriggering> = match &ch.frame_triggerings {
        None => return 0,
        Some(fts) => fts,
    };
    let mut total: u64 = 0;
    let mut i: usize = 0;
    assert(fts@.take(0) =~= Seq::<FrameTriggering>::empty());
    while i < fts.len()
        invariant
            i <= fts.len(),
            fts@ == channel_frames(*ch),
            total == capped(frames_budget(fts@.take(i as int))),
        decreases fts.len() - i,
    {
        proof {
            lemma_frames_budget_prefix(fts@, i as int);
            lemma_capped_sum(frames_budget(fts@.take(i as int)), frame_budget(fts@[i as int]));
        }
        let x: u64 = frame_budget_capped(&fts[i]);
        let sum: u64 = total + x;
        total = if sum < ARENA_CAPACITY as u64 {
            sum
        } else {
            ARENA_CAPACITY as u64
        };
        i = i + 1;
    }
    assert(fts@.take(fts.len() as int) =~= fts@);
    total
}

/// Whether converting the cluster stays within the arena's capacity: the
/// condition [`build_can_database`] asks for.
pub fn cluster_fits(c: &CanCluster) -> (r: bool)
    ensures
        r == (frames_budget(cluster_frames(*c)) < ARENA_CAPACITY),
{
    let cc: &ClusterConditional = match &c.conditional {
        None => return true,
        Some(cc) => cc,
    };
    let chs: &Vec<PhysicalChannel> = match &cc.physical_channels {
        None => return true,
        Some(chs) => chs,
    };
    let mut total: u64 = 0;
    let mut k: usize = 0;
    assert(chs@.take(0) =~= Seq::<PhysicalChannel>::empty());
    assert(channels_frames(chs@.take(0)) =~= Seq::<FrameTriggering>::empty());
    while k < chs.len()
        invariant
            k <= chs.len(),
            cluster_frames(*c) == channels_frames(chs@),
            total == capped(frames_budget(channels_frames(chs@.take(k as int)))),
        decreases chs.len() - k,
    {
        proof {
            lemma_channels_budget_prefix(chs@, k as int);
            lemma_frames_budget_concat(channels_frames(chs@.take(k as int)), channel_frames(chs@[k as int]));
            lemma_capped_sum(frames_budget(channels_frames(chs@.take(k as int))), frames_budget(channel_frames(chs@[k as int])));
        }
        let x: u64 = channel_budget_capped(&chs[k]);
        let sum: u64 = total + x;
        total = if sum < ARENA_CAPACITY as u64 {
            sum
        } else {
            ARENA_CAPACITY as u64
        };
        k = k + 1;
    }
    assert(chs@.take(chs.len() as int) =~= chs@);
    total < ARENA_CAPACITY as u64
}

} // verus!
