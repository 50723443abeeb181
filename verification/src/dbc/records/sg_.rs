//! The `SG_` record: a signal of the current message.
use vstd::prelude::*;
use crate::dbc::legacy::signals::{float_or, float_or_exec, nth_or, nth_or_exec};
use crate::dbc::support::node_attrs::number_or_zero;
use crate::dbc::message_layout::fit_error;
use crate::dbc::records::bo_tx_bu_::known_node_keys;
use crate::dbc::types::arena::ARENA_CAPACITY;
use crate::dbc::types::database::messages::{blank_message, message_added};
use crate::dbc::types::database::signals::{blank_signal, receivers_added, signal_added, signal_bound};
use crate::dbc::types::database::{same_keys, DatabaseDBC, DatabaseView};
use crate::dbc::types::entities::{MuxRole, MuxSelector, NodeView, SignalView};
use crate::dbc::types::keys::{push_new, MessageKey, NodeKey, SignalKey};
use crate::dbc::types::signal::{Endianness, Signess};
use crate::text::{
    chars_of, digit_val, string_of, unicode_lowercase, extend_chars, find_char, find_exec, is_digit, lemma_find_char, parse_u16, parse_u32,
    parse_unsigned, slice_of, split_char, split_char_exec, split_ws, strip_prefix, strip_prefix_exec, tokens, trim,
    trim_by, trim_end_by, trim_end_exec, trim_exec, trim_start_by, trim_start_exec, views, CharClass,
};

verus! {

/// What an `SG_` line says of its signal.
pub struct SignalLineView {
    pub name: Seq<char>,
    pub role: MuxRole,
    pub selector: Option<MuxSelector>,
    pub bit_start: u16,
    pub bit_length: u16,
    pub endian: Endianness,
    pub sign: Signess,
    pub factor: Seq<char>,
    pub offset: Seq<char>,
    pub min: Seq<char>,
    pub max: Seq<char>,
    pub unit: Seq<char>,
    pub receivers: Seq<Seq<char>>,
}

/// An `SG_` line taken apart (see [`SignalLineView`]).
pub struct SignalLine {
    pub name: Vec<char>,
    pub role: MuxRole,
    pub selector: Option<MuxSelector>,
    pub bit_start: u16,
    pub bit_length: u16,
    pub endian: Endianness,
    pub sign: Signess,
    pub factor: String,
    pub offset: String,
    pub min: String,
    pub max: String,
    pub unit: Vec<char>,
    pub receivers: Vec<Vec<char>>,
}

impl View for SignalLine {
    type V = SignalLineView;

    open spec fn view(&self) -> SignalLineView {
        SignalLineView {
            name: self.name@,
            role: self.role,
            selector: self.selector,
            bit_start: self.bit_start,
            bit_length: self.bit_length,
            endian: self.endian,
            sign: self.sign,
            factor: self.factor@,
            offset: self.offset@,
            min: self.min@,
            max: self.max@,
            unit: self.unit@,
            receivers: views(self.receivers@),
        }
    }
}

/// The text of the smallest finite `f64`, the minimum of a signal without
/// bounds.
pub open spec fn f64_min_text() -> Seq<char> {
    "-1.7976931348623157e308"@
}

/// The text of the largest finite `f64`, the maximum of a signal without
/// bounds.
pub open spec fn f64_max_text() -> Seq<char> {
    "1.7976931348623157e308"@
}

/// The two sides of an `SG_` line around its first `:`, both trimmed (the
/// right one empty without a `:`); leading whitespace and trailing `;` are
/// removed from the line first.
pub open spec fn sg_halves(line: Seq<char>) -> (Seq<char>, Seq<char>) {
    let l = trim_end_by(trim_start_by(line, CharClass::Ws(true)), CharClass::Is(';'));
    match find_char(l, ':') {
        Some(i) => (trim(l.take(i)), trim(l.skip(i + 1))),
        None => (trim(l), Seq::empty()),
    }
}

/// The multiplexing tag after the name: `M` is the multiplexor, `m<n>` a
/// signal selected by switch value `n`; anything else is not multiplexed.
pub open spec fn mux_of(after_name: Seq<char>) -> (MuxRole, Option<MuxSelector>) {
    let tag = trim_end_by(after_name, CharClass::Is(':'));
    if after_name.len() == 0 {
        (MuxRole::NotMultiplexed, None)
    } else if tag == "M"@ {
        (MuxRole::Multiplexor, None)
    } else if tag.len() > 0 && tag[0] == 'm' && parse_unsigned(tag.drop_first(), u32::MAX as nat) is Some {
        (MuxRole::Multiplexed, Some(MuxSelector::Value(parse_unsigned(tag.drop_first(), u32::MAX as nat)->0 as u32)))
    } else {
        (MuxRole::NotMultiplexed, None)
    }
}

/// Text `acc` with the words of `it` from position `pos` on appended, each
/// after a space, until the text ends with `close` or the words run out;
/// with the position after the last word taken.
pub open spec fn gather(it: Seq<Seq<char>>, pos: int, acc: Seq<char>, close: char) -> (Seq<char>, int)
    decreases it.len() - pos,
{
    if (acc.len() > 0 && acc.last() == close) || pos < 0 || pos >= it.len() {
        (acc, pos)
    } else {
        gather(it, pos + 1, acc + seq![' '] + it[pos], close)
    }
}

/// Word `pos` of `it` and the position after it, or the empty text and
/// `pos` when the words have run out.
pub open spec fn next_word(it: Seq<Seq<char>>, pos: int) -> (Seq<char>, int) {
    if 0 <= pos < it.len() {
        (it[pos], pos + 1)
    } else {
        (Seq::empty(), pos)
    }
}

/// Factor and offset written `(<factor>,<offset>)` starting at word `pos`,
/// with the position after them. The word at `pos` is taken in any case;
/// without a `(` there the defaults 1 and 0 hold.
pub open spec fn scale_of(it: Seq<Seq<char>>, pos: int) -> (Seq<char>, Seq<char>, int) {
    if 0 <= pos < it.len() && it[pos].len() > 0 && it[pos][0] == '(' {
        let (acc, p) = gather(it, pos + 1, it[pos], ')');
        let inner = trim_end_by(trim_start_by(acc, CharClass::Is('(')), CharClass::Is(')'));
        let parts = split_char(inner, ',');
        (float_or(trim(parts[0]), "1"@), float_or(trim(nth_or(parts, 1, "0"@)), "0"@), p)
    } else {
        ("1"@, "0"@, next_word(it, pos).1)
    }
}

/// Whether the word starts a `[<min>|<max>]` range.
pub open spec fn opens_range(w: Seq<char>) -> bool {
    w.len() > 0 && w[0] == '[' && find_char(w, '|') is Some
}

/// Minimum, maximum and the word that holds the unit, starting at word
/// `pos`, with the position after that word. Without a range there the
/// bounds are those of `f64` and the word taken is the unit's.
pub open spec fn bounds_of(it: Seq<Seq<char>>, pos: int) -> (Seq<char>, Seq<char>, Seq<char>, int) {
    let (w, p) = next_word(it, pos);
    if opens_range(w) {
        let (acc, q) = gather(it, p, w, ']');
        let inner = trim_end_by(trim_start_by(acc, CharClass::Is('[')), CharClass::Is(']'));
        let parts = split_char(inner, '|');
        let (u, r) = next_word(it, q);
        (float_or(trim(parts[0]), "0"@), float_or(trim(nth_or(parts, 1, "0"@)), "0"@), u, r)
    } else {
        (f64_min_text(), f64_max_text(), w, p)
    }
}

/// The unit written by word `w` (a quoted unit may run over the following
/// words from `pos` on) without quotes and without a leading `Unit_`, with
/// the position after it.
pub open spec fn unit_of(it: Seq<Seq<char>>, pos: int, w: Seq<char>) -> (Seq<char>, int) {
    let raw = trim(w);
    let (u, p) = if raw.len() > 0 && raw[0] == '"' {
        let (acc, q) = gather(it, pos, raw, '"');
        (trim_by(acc, CharClass::Is('"')), q)
    } else {
        (trim_by(raw, CharClass::Is('"')), pos)
    };
    match strip_prefix(u, "Unit_"@) {
        Some(rest) => (rest, p),
        None => (u, p),
    }
}

/// The endianness digit after `@`: 1 (Intel) when absent or not a digit.
pub open spec fn endian_of(es: Seq<char>) -> Endianness {
    if es.len() > 0 && is_digit(es[0]) && digit_val(es[0]) != 1 {
        Endianness::Motorola
    } else {
        Endianness::Intel
    }
}

/// The sign after the endianness digit: `-` is signed.
pub open spec fn sign_of(es: Seq<char>) -> Signess {
    if es.len() > 1 && es[1] == '-' {
        Signess::Signed
    } else {
        Signess::Unsigned
    }
}

/// What a line
/// `SG_ <name> [M|m<n>] : <start>|<len>@<endian><sign> (<factor>,<offset>) [<min>|<max>] "<unit>" <receivers>`
/// says of its signal; `None` when it names none.
pub open spec fn sg_line(line: Seq<char>) -> Option<SignalLineView> {
    let (left, right) = sg_halves(line);
    let lt = tokens(left, false);
    let name = nth_or(lt, 1, ""@);
    if name.len() == 0 {
        None
    } else {
        let it = tokens(right, false);
        let (bit_info, p1) = next_word(it, 0);
        let at = split_char(bit_info, '@');
        let es = nth_or(at, 1, ""@);
        let pl = split_char(at[0], '|');
        let (factor, offset, p2) = scale_of(it, p1);
        let (min, max, uw, p3) = bounds_of(it, p2);
        let (unit, p4) = unit_of(it, p3, uw);
        let (recv, _p5) = next_word(it, p4);
        let (role, selector) = mux_of(nth_or(lt, 2, ""@));
        Some(
            SignalLineView {
                name: name,
                role: role,
                selector: selector,
                bit_start: number_or_zero(pl[0], u16::MAX as nat) as u16,
                bit_length: number_or_zero(nth_or(pl, 1, "0"@), u16::MAX as nat) as u16,
                endian: endian_of(es),
                sign: sign_of(es),
                factor: factor,
                offset: offset,
                min: min,
                max: max,
                unit: unit,
                receivers: if 0 <= p4 < it.len() {
                    split_char(recv, ',')
                } else {
                    Seq::empty()
                },
            },
        )
    }
}

fn u16_or_zero(t: &Vec<char>) -> (r: u16)
    ensures
        r == number_or_zero(t@, u16::MAX as nat) as u16,
{
    match parse_u16(t) {
        Some(x) => x,
        None => 0,
    }
}

pub fn gather_exec(it: &Vec<Vec<char>>, pos: usize, acc: Vec<char>, close: char) -> (r: (Vec<char>, usize))
    requires
        pos <= it.len(),
    ensures
        (r.0@, r.1 as int) == gather(views(it@), pos as int, acc@, close),
        r.1 <= it.len(),
{
    let mut a: Vec<char> = acc;
    let mut p: usize = pos;
    while !(a.len() > 0 && a[a.len() - 1] == close) && p < it.len()
        invariant
            pos <= p <= it.len(),
            gather(views(it@), pos as int, acc@, close) == gather(views(it@), p as int, a@, close),
        decreases it.len() - p,
    {
        let ghost before = a@;
        a.push(' ');
        extend_chars(&mut a, &it[p]);
        assert(a@ =~= before + seq![' '] + views(it@)[p as int]);
        p = p + 1;
    }
    (a, p)
}

fn next_word_exec(it: &Vec<Vec<char>>, pos: usize) -> (r: (Vec<char>, usize))
    requires
        pos <= it.len(),
    ensures
        (r.0@, r.1 as int) == next_word(views(it@), pos as int),
        r.1 <= it.len(),
{
    if pos < it.len() {
        (slice_of(&it[pos], 0, it[pos].len()), pos + 1)
    } else {
        (Vec::new(), pos)
    }
}

fn mux_exec(after_name: &Vec<char>) -> (r: (MuxRole, Option<MuxSelector>))
    ensures
        r == mux_of(after_name@),
{
    let tag: Vec<char> = trim_end_exec(after_name, CharClass::Is(':'));
    if after_name.len() == 0 {
        return (MuxRole::NotMultiplexed, None);
    }
    let m: Vec<char> = chars_of("M");
    if crate::text::eq_vec(&tag, &m) {
        return (MuxRole::Multiplexor, None);
    }
    if tag.len() > 0 && tag[0] == 'm' {
        let rest: Vec<char> = slice_of(&tag, 1, tag.len());
        assert(rest@ =~= tag@.drop_first());
        match parse_u32(&rest) {
            Some(v) => return (MuxRole::Multiplexed, Some(MuxSelector::Value(v))),
            None => {},
        }
    }
    (MuxRole::NotMultiplexed, None)
}

fn scale_exec(it: &Vec<Vec<char>>, pos: usize) -> (r: (String, String, usize))
    requires
        pos <= it.len(),
    ensures
        (r.0@, r.1@, r.2 as int) == scale_of(views(it@), pos as int),
        r.2 <= it.len(),
{
    if pos < it.len() && it[pos].len() > 0 && it[pos][0] == '(' {
        let first: Vec<char> = slice_of(&it[pos], 0, it[pos].len());
        assert(first@ =~= views(it@)[pos as int]);
        let (acc, p) = gather_exec(it, pos + 1, first, ')');
        let a1: Vec<char> = trim_start_exec(&acc, CharClass::Is('('));
        let inner: Vec<char> = trim_end_exec(&a1, CharClass::Is(')'));
        let parts: Vec<Vec<char>> = split_char_exec(&inner, ',');
        assert(views(parts@)[0] == parts@[0]@);
        let f0: Vec<char> = trim_exec(&parts[0], CharClass::Ws(true));
        let o0: Vec<char> = nth_or_exec(&parts, 1, "0");
        let o1: Vec<char> = trim_exec(&o0, CharClass::Ws(true));
        (float_or_exec(&f0, "1"), float_or_exec(&o1, "0"), p)
    } else {
        let (_w, p) = next_word_exec(it, pos);
        let one: Vec<char> = chars_of("1");
        let zero: Vec<char> = chars_of("0");
        (crate::text::string_of(&one), crate::text::string_of(&zero), p)
    }
}

fn bounds_exec(it: &Vec<Vec<char>>, pos: usize) -> (r: (String, String, Vec<char>, usize))
    requires
        pos <= it.len(),
    ensures
        (r.0@, r.1@, r.2@, r.3 as int) == bounds_of(views(it@), pos as int),
        r.3 <= it.len(),
{
    let (w, p) = next_word_exec(it, pos);
    proof {
        lemma_find_char(w@, '|');
    }
    if w.len() > 0 && w[0] == '[' && find_exec(&w, '|').is_some() {
        let (acc, q) = gather_exec(it, p, w, ']');
        let a1: Vec<char> = trim_start_exec(&acc, CharClass::Is('['));
        let inner: Vec<char> = trim_end_exec(&a1, CharClass::Is(']'));
        let parts: Vec<Vec<char>> = split_char_exec(&inner, '|');
        assert(views(parts@)[0] == parts@[0]@);
        let m0: Vec<char> = trim_exec(&parts[0], CharClass::Ws(true));
        let x0: Vec<char> = nth_or_exec(&parts, 1, "0");
        let x1: Vec<char> = trim_exec(&x0, CharClass::Ws(true));
        let (u, r) = next_word_exec(it, q);
        (float_or_exec(&m0, "0"), float_or_exec(&x1, "0"), u, r)
    } else {
        let lo: Vec<char> = chars_of("-1.7976931348623157e308");
        let hi: Vec<char> = chars_of("1.7976931348623157e308");
        (crate::text::string_of(&lo), crate::text::string_of(&hi), w, p)
    }
}

fn unit_exec(it: &Vec<Vec<char>>, pos: usize, w: &Vec<char>) -> (r: (Vec<char>, usize))
    requires
        pos <= it.len(),
    ensures
        (r.0@, r.1 as int) == unit_of(views(it@), pos as int, w@),
        r.1 <= it.len(),
{
    let raw: Vec<char> = trim_exec(w, CharClass::Ws(true));
    let (u, p): (Vec<char>, usize) = if raw.len() > 0 && raw[0] == '"' {
        let (acc, q) = gather_exec(it, pos, raw, '"');
        (trim_exec(&acc, CharClass::Is('"')), q)
    } else {
        (trim_exec(&raw, CharClass::Is('"')), pos)
    };
    match strip_prefix_exec(&u, &chars_of("Unit_")) {
        Some(rest) => (rest, p),
        None => (u, p),
    }
}

/// Takes an `SG_` line apart (see [`sg_line`]).
pub fn sg_line_exec(line: &str) -> (r: Option<SignalLine>)
    ensures
        r is None ==> sg_line(line@) is None,
        r matches Some(f) ==> sg_line(line@) == Some(f@),
{
    let l0: Vec<char> = chars_of(line);
    let l1: Vec<char> = trim_start_exec(&l0, CharClass::Ws(true));
    let l: Vec<char> = trim_end_exec(&l1, CharClass::Is(';'));
    proof {
        lemma_find_char(l@, ':');
    }
    let (left, right): (Vec<char>, Vec<char>) = match find_exec(&l, ':') {
        Some(i) => {
            let a: Vec<char> = slice_of(&l, 0, i);
            let b: Vec<char> = slice_of(&l, i + 1, l.len());
            assert(a@ =~= l@.take(i as int));
            assert(b@ =~= l@.skip(i + 1));
            (trim_exec(&a, CharClass::Ws(true)), trim_exec(&b, CharClass::Ws(true)))
        },
        None => (trim_exec(&l, CharClass::Ws(true)), Vec::new()),
    };
    let lt: Vec<Vec<char>> = split_ws(&left, false);
    let name: Vec<char> = nth_or_exec(&lt, 1, "");
    if name.len() == 0 {
        return None;
    }
    let it: Vec<Vec<char>> = split_ws(&right, false);
    let (bit_info, p1) = next_word_exec(&it, 0);
    let at: Vec<Vec<char>> = split_char_exec(&bit_info, '@');
    assert(views(at@)[0] == at@[0]@);
    let es: Vec<char> = nth_or_exec(&at, 1, "");
    let pl: Vec<Vec<char>> = split_char_exec(&at[0], '|');
    assert(views(pl@)[0] == pl@[0]@);
    let bit_start: u16 = u16_or_zero(&pl[0]);
    let bl: Vec<char> = nth_or_exec(&pl, 1, "0");
    let bit_length: u16 = u16_or_zero(&bl);
    let endian: Endianness = if es.len() > 0 && '0' <= es[0] && es[0] <= '9' && es[0] != '1' {
        Endianness::Motorola
    } else {
        Endianness::Intel
    };
    let sign: Signess = if es.len() > 1 && es[1] == '-' {
        Signess::Signed
    } else {
        Signess::Unsigned
    };
    let (factor, offset, p2) = scale_exec(&it, p1);
    let (min, max, uw, p3) = bounds_exec(&it, p2);
    let (unit, p4) = unit_exec(&it, p3, &uw);
    let (recv, _p5) = next_word_exec(&it, p4);
    let receivers: Vec<Vec<char>> = if p4 < it.len() {
        split_char_exec(&recv, ',')
    } else {
        Vec::new()
    };
    assert(views(receivers@) =~= (if p4 < it.len() {
        split_char(recv@, ',')
    } else {
        Seq::empty()
    }));
    let after_name: Vec<char> = nth_or_exec(&lt, 2, "");
    let (role, selector) = mux_exec(&after_name);
    Some(
        SignalLine {
            name: name,
            role: role,
            selector: selector,
            bit_start: bit_start,
            bit_length: bit_length,
            endian: endian,
            sign: sign,
            factor: factor,
            offset: offset,
            min: min,
            max: max,
            unit: unit,
            receivers: receivers,
        },
    )
}

/// The signal an `SG_` line adds, not yet bound to a message.
pub open spec fn line_signal(f: SignalLineView) -> SignalView {
    SignalView {
        bit_start: f.bit_start,
        bit_length: f.bit_length,
        ..blank_signal(f.name, f.endian, f.sign, f.factor, f.offset, f.min, f.max, f.unit)
    }
}

/// The database after binding signal `sk` to message `mk`: done when the
/// signal is present and unbound, the message present and the signal fits
/// its payload; nothing changes otherwise.
pub open spec fn relation_result(
    db: DatabaseView,
    sk: SignalKey,
    mk: MessageKey,
    role: MuxRole,
    sel: Option<MuxSelector>,
) -> DatabaseView {
    if db.signals.contains_key(sk) && db.signals[sk].message.is_null_spec() && db.messages.contains_key(mk)
        && fit_error(
        db.messages[mk].byte_length,
        db.signals[sk].bit_start,
        db.signals[sk].bit_length,
        db.signals[sk].endian,
    ) is None {
        signal_bound(db, sk, mk, role, sel)
    } else {
        db
    }
}

/// The nodes after each present node of `ks` lists signal `sk` among those
/// it receives.
pub open spec fn nodes_reading(ns: Map<NodeKey, NodeView>, ks: Seq<NodeKey>, sk: SignalKey) -> Map<NodeKey, NodeView>
    decreases ks.len(),
{
    if ks.len() == 0 {
        ns
    } else {
        let p = nodes_reading(ns, ks.drop_last(), sk);
        let k = ks.last();
        if p.contains_key(k) {
            p.insert(k, NodeView { rx_signals: push_new(p[k].rx_signals, sk), ..p[k] })
        } else {
            p
        }
    }
}

/// The name of the message that takes signals met before any message.
pub open spec fn fallback_name() -> Seq<char> {
    "_Independent_Signal_"@
}

/// A signal line met without a current message creates the fallback
/// message: neither its name nor identifier 0 is taken.
pub open spec fn creates_fallback(db: DatabaseView) -> bool {
    db.current_msg is None && !db.msg_by_name.contains_key(unicode_lowercase(fallback_name()))
        && !db.msg_by_id.contains_key(0)
}

/// The database after an `SG_` line described by `f`, the signal under key
/// `sk` and, when created, the fallback message under key `mk0`: the signal
/// is added with the named nodes that exist as receivers; it goes to the
/// current message, else to the message named `_Independent_Signal_`
/// (created with identifier 0 and 8 bytes when no message has that name
/// or identifier 0; when identifier 0 is taken by another message, that one
/// becomes current and the signal stays unbound); bound to it, and its
/// receivers list it among the signals they receive.
pub open spec fn sg_applied(db: DatabaseView, f: SignalLineView, sk: SignalKey, mk0: MessageKey) -> DatabaseView {
    let rk = known_node_keys(db, f.receivers);
    let d2 = receivers_added(signal_added(db, sk, line_signal(f)), sk, rk);
    let fb = unicode_lowercase(fallback_name());
    let (d3, target) = match db.current_msg {
        Some(k) => (d2, Some(k)),
        None => if db.msg_by_name.contains_key(fb) {
            (DatabaseView { current_msg: Some(db.msg_by_name[fb]), ..d2 }, Some(db.msg_by_name[fb]))
        } else if db.msg_by_id.contains_key(0) {
            (DatabaseView { current_msg: Some(db.msg_by_id[0]), ..d2 }, None)
        } else {
            (message_added(d2, mk0, blank_message(fallback_name(), 0, 8)), Some(mk0))
        },
    };
    match target {
        None => d3,
        Some(mk) => {
            let d5 = relation_result(DatabaseView { current_msg: Some(mk), ..d3 }, sk, mk, f.role, f.selector);
            DatabaseView { nodes: nodes_reading(d5.nodes, rk, sk), ..d5 }
        },
    }
}

/// What an `SG_` line does to `db`, giving `after`: nothing while no message
/// exists or when the line names no signal; else [`sg_applied`] with new
/// keys.
pub open spec fn sg_outcome(db: DatabaseView, line: Seq<char>, after: DatabaseView) -> bool {
    if db.messages_order.len() == 0 {
        after == db
    } else {
        match sg_line(line) {
            None => after == db,
            Some(f) => exists|sk: SignalKey, mk0: MessageKey|
                !db.signals.contains_key(sk) && (creates_fallback(db) ==> !db.messages.contains_key(mk0))
                && after == #[trigger] sg_applied(db, f, sk, mk0),
        }
    }
}

/// Decodes an `SG_` line belonging to the current message (the last `BO_`),
/// `SG_ <name> [M|m<n>] : <start>|<len>@<endian><sign> (<factor>,<offset>) [<min>|<max>] "<unit>" <receivers>`
/// (see [`sg_outcome`]).
pub fn decode(db: &mut DatabaseDBC, line: &str)
    requires
        old(db).wf(),
        old(db).entity_count() + 2 < ARENA_CAPACITY,
    ensures
        final(db).wf(),
        final(db).entity_count() <= old(db).entity_count() + 2,
        sg_outcome(old(db)@, line@, final(db)@),
{
    if db.messages_order.len() == 0 {
        return;
    }
    let f: SignalLine = match sg_line_exec(line) {
        None => return,
        Some(f) => f,
    };
    let ghost d0 = db@;
    let mut rk: Vec<NodeKey> = Vec::new();
    let mut k: usize = 0;
    while k < f.receivers.len()
        invariant
            k <= f.receivers.len(),
            db@ == d0,
            rk@ == known_node_keys(d0, views(f.receivers@).take(k as int)),
        decreases f.receivers.len() - k,
    {
        assert(views(f.receivers@).take(k + 1).drop_last() =~= views(f.receivers@).take(k as int));
        assert(views(f.receivers@).take(k + 1).last() == f.receivers@[k as int]@);
        let s: String = string_of(&f.receivers[k]);
        match db.get_node_key_by_name(s.as_str()) {
            Some(nk) => rk.push(nk),
            None => {},
        }
        k = k + 1;
    }
    assert(views(f.receivers@).take(f.receivers.len() as int) =~= views(f.receivers@));
    let name: String = string_of(&f.name);
    let unit: String = string_of(&f.unit);
    let sk: SignalKey = db.add_signal(
        name.as_str(),
        f.endian,
        f.sign,
        f.factor.as_str(),
        f.offset.as_str(),
        f.min.as_str(),
        f.max.as_str(),
        unit.as_str(),
    );
    db.set_signal_layout(sk, f.bit_start, f.bit_length);
    let ghost d1 = db@;
    assert(d1.signals =~= d0.signals.insert(sk, line_signal(f@)));
    assert(d1 == signal_added(d0, sk, line_signal(f@)));
    let mut i: usize = 0;
    assert(rk@.take(0) =~= Seq::<NodeKey>::empty());
    while i < rk.len()
        invariant
            i <= rk.len(),
            db.wf(),
            db.entity_count() == old(db).entity_count() + 1,
            db@ == receivers_added(d1, sk, rk@.take(i as int)),
            same_keys(db@, d1),
            db@.current_msg == d0.current_msg,
            db@.msg_by_name == d0.msg_by_name,
            db@.msg_by_id == d0.msg_by_id,
            db@.signals.contains_key(sk),
        decreases rk.len() - i,
    {
        assert(rk@.take(i + 1).drop_last() =~= rk@.take(i as int));
        db.link_receiver(sk, rk[i]);
        i = i + 1;
    }
    assert(rk@.take(rk.len() as int) =~= rk@);
    let ghost d2 = db@;
    let ghost mut mk0: MessageKey = MessageKey::nil();
    let target: Option<MessageKey> = match db.current_msg {
        Some(k) => Some(k),
        None => match db.add_message("_Independent_Signal_", 0, 8) {
            Ok(k) => {
                proof {
                    mk0 = k;
                }
                Some(k)
            },
            Err(_) => db.get_msg_key_by_name("_Independent_Signal_"),
        },
    };
    let mk: MessageKey = match target {
        None => {
            assert(db@ == sg_applied(d0, f@, sk, mk0));
            return;
        },
        Some(mk) => mk,
    };
    db.current_msg = Some(mk);
    let _ = db.add_msg_sig_relation(sk, mk, f.role, f.selector);
    let ghost d5 = db@;
    let ghost c5 = db.entity_count();
    let mut j: usize = 0;
    assert(rk@.take(0) =~= Seq::<NodeKey>::empty());
    while j < rk.len()
        invariant
            j <= rk.len(),
            db.wf(),
            db.entity_count() == c5,
            db@ == (DatabaseView { nodes: nodes_reading(d5.nodes, rk@.take(j as int), sk), ..d5 }),
        decreases rk.len() - j,
    {
        assert(rk@.take(j + 1).drop_last() =~= rk@.take(j as int));
        db.push_node_rx_signal(rk[j], sk);
        j = j + 1;
    }
    assert(rk@.take(rk.len() as int) =~= rk@);
    assert(db@ == sg_applied(d0, f@, sk, mk0));
}

} // verus!
