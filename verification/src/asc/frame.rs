//! The fields of one CAN frame line of an ASC trace, and the texts of the
//! trace's times.
//!
//! A frame line reads `timestamp channel id direction ... d length bytes...`
//! (words separated by whitespace). The timestamp stays as its literal
//! text: what is computed from its value is done by whoever holds it as a
//! floating-point number. The frame's name and sending node come from the
//! database of its channel, when there is one.
use vstd::prelude::*;
use chrono::{Datelike, NaiveDate, NaiveDateTime, TimeDelta, Timelike};
use std::collections::HashMap;
use std::fmt::Write;
use crate::dbc::legacy::{first_message_with_hex, messages_view, Database};
use crate::text::{
    chars_of, chars_of_string, dec_string, eq_vec, is_float_literal, is_float_literal_exec, join_exec, join_with, pad_left,
    pad_left_exec, fmt_dec, parse_unsigned, parse_usize, split_ws, string_of, tokens, trim_end_by, trim_end_exec, views,
    CharClass,
};

verus! {

/// The fields of a frame line, the timestamp as its literal text.
#[derive(Debug)]
pub struct FrameFields {
    pub timestamp: String,
    pub channel: usize,
    pub id: String,
    pub direction: String,
    /// Empty when the channel's database does not know the message.
    pub name: String,
    /// Empty when the message is unknown or has no sender.
    pub sender_node: String,
    pub byte_length: usize,
    /// The payload bytes as written, separated by single spaces.
    pub data: String,
    /// `CAN` up to 8 bytes, `CAN FD` beyond.
    pub protocol: String,
}

/// Abstract frame fields.
pub struct FrameFieldsView {
    pub timestamp: Seq<char>,
    pub channel: usize,
    pub id: Seq<char>,
    pub direction: Seq<char>,
    pub name: Seq<char>,
    pub sender_node: Seq<char>,
    pub byte_length: usize,
    pub data: Seq<char>,
    pub protocol: Seq<char>,
}

impl View for FrameFields {
    type V = FrameFieldsView;

    open spec fn view(&self) -> FrameFieldsView {
        FrameFieldsView {
            timestamp: self.timestamp@,
            channel: self.channel,
            id: self.id@,
            direction: self.direction@,
            name: self.name@,
            sender_node: self.sender_node@,
            byte_length: self.byte_length,
            data: self.data@,
            protocol: self.protocol@,
        }
    }
}

/// The view of an optional set of frame fields.
pub open spec fn opt_fields(o: Option<FrameFields>) -> Option<FrameFieldsView> {
    match o {
        Some(f) => Some(f@),
        None => None,
    }
}

/// The protocol a payload length implies.
pub open spec fn protocol_of(len: nat) -> Seq<char> {
    if len <= 8 {
        "CAN"@
    } else {
        "CAN FD"@
    }
}

/// The name and first sender of the message the channel's database gives
/// for a trace identifier: the message whose identifier text is `0x` and the
/// identifier without its trailing `x`/`X` (ASCII case ignored); empty
/// texts when the channel has no database or it has no such message.
pub open spec fn decoded_names(dbs: Map<usize, Database>, channel: usize, id: Seq<char>) -> (Seq<char>, Seq<char>) {
    if dbs.contains_key(channel) {
        let ms = messages_view(dbs[channel].messages@);
        match first_message_with_hex(ms, "0x"@ + trim_end_by(id, CharClass::Either('x', 'X'))) {
            Some(i) => (
                ms[i].name,
                if ms[i].sender_nodes.len() > 0 {
                    ms[i].sender_nodes[0].name
                } else {
                    seq![]
                },
            ),
            None => (seq![], seq![]),
        }
    } else {
        (seq![], seq![])
    }
}

/// The position of the first `d` or `D` word from position `i` on.
pub open spec fn d_marker_from(parts: Seq<Seq<char>>, i: int) -> Option<int>
    decreases parts.len() - i,
{
    if i < 0 || i >= parts.len() {
        None
    } else if parts[i] == "d"@ || parts[i] == "D"@ {
        Some(i)
    } else {
        d_marker_from(parts, i + 1)
    }
}

/// The fields of a frame line whose payload follows its length after the
/// `d` marker: at least 7 words, a floating-point timestamp, a channel
/// number, a `d`/`D` word from the fifth word on followed by the length
/// and at least that many payload bytes (further words are ignored).
pub open spec fn marked_frame(line: Seq<char>, dbs: Map<usize, Database>) -> Option<FrameFieldsView> {
    let parts = tokens(line, true);
    if parts.len() < 7 || !is_float_literal(parts[0]) {
        None
    } else {
        match parse_unsigned(parts[1], usize::MAX as nat) {
            None => None,
            Some(ch) => match d_marker_from(parts, 4) {
                None => None,
                Some(di) => if di + 1 >= parts.len() {
                    None
                } else {
                    match parse_unsigned(parts[di + 1], usize::MAX as nat) {
                        None => None,
                        Some(len) => if di + 2 + len > parts.len() {
                            None
                        } else {
                            let names = decoded_names(dbs, ch as usize, parts[2]);
                            Some(
                                FrameFieldsView {
                                    timestamp: parts[0],
                                    channel: ch as usize,
                                    id: parts[2],
                                    direction: parts[3],
                                    name: names.0,
                                    sender_node: names.1,
                                    byte_length: len as usize,
                                    data: join_with(parts.subrange(di + 2, di + 2 + len), " "@),
                                    protocol: protocol_of(len),
                                },
                            )
                        },
                    }
                },
            },
        }
    }
}

/// The length after the `d` marker is so large that the end of the payload
/// is past the largest `usize`.
pub open spec fn marked_length_overflows(line: Seq<char>) -> bool {
    let parts = tokens(line, true);
    &&& parts.len() >= 7
    &&& is_float_literal(parts[0])
    &&& parse_unsigned(parts[1], usize::MAX as nat) is Some
    &&& d_marker_from(parts, 4) matches Some(di) && di + 1 < parts.len() && match parse_unsigned(
        parts[di + 1],
        usize::MAX as nat,
    ) {
        Some(len) => di + 2 + len > usize::MAX,
        None => false,
    }
}

/// The words before the first `Length` word.
pub open spec fn until_length(ps: Seq<Seq<char>>) -> Seq<Seq<char>>
    decreases ps.len(),
{
    if ps.len() == 0 || ps[0] == "Length"@ {
        seq![]
    } else {
        seq![ps[0]] + until_length(ps.drop_first())
    }
}

/// The fields of a frame line whose length is its sixth word and whose
/// payload is every word from the seventh on, up to a `Length` word: at
/// least 7 words, a floating-point timestamp, a channel number and a
/// length number.
pub open spec fn listed_frame(line: Seq<char>, dbs: Map<usize, Database>) -> Option<FrameFieldsView> {
    let parts = tokens(line, true);
    if parts.len() < 7 || !is_float_literal(parts[0]) {
        None
    } else {
        match parse_unsigned(parts[1], usize::MAX as nat) {
            None => None,
            Some(ch) => match parse_unsigned(parts[5], usize::MAX as nat) {
                None => None,
                Some(len) => {
                    let names = decoded_names(dbs, ch as usize, parts[2]);
                    Some(
                        FrameFieldsView {
                            timestamp: parts[0],
                            channel: ch as usize,
                            id: parts[2],
                            direction: parts[3],
                            name: names.0,
                            sender_node: names.1,
                            byte_length: len as usize,
                            data: join_with(until_length(parts.skip(6)), " "@),
                            protocol: protocol_of(len),
                        },
                    )
                },
            },
        }
    }
}

fn text_of(v: &Vec<char>) -> (r: String)
    ensures
        r@ == v@,
{
    string_of(v)
}

fn names_for(dbs: &HashMap<usize, Database>, channel: usize, id: &Vec<char>) -> (r: (String, String))
    ensures
        (r.0@, r.1@) == decoded_names(dbs@, channel, id@),
{
    broadcast use vstd::std_specs::hash::group_hash_axioms;

    match dbs.get(&channel) {
        Some(db) => {
            assert(dbs@.contains_key(channel) && dbs@[channel] == *db);
            let mut hex: Vec<char> = chars_of("0x");
            let mut bare: Vec<char> = trim_end_exec(id, CharClass::Either('x', 'X'));
            hex.append(&mut bare);
            let key: String = string_of(&hex);
            assert(key@ == "0x"@ + trim_end_by(id@, CharClass::Either('x', 'X')));
            let ghost ms = messages_view(db.messages@);
            match db.get_message_by_id_hex(key.as_str()) {
                Some(m) => {
                    let ghost i = first_message_with_hex(ms, key@)->0;
                    assert(ms[i] == m@);
                    let sender: String = if m.sender_nodes.len() > 0 {
                        assert(m@.sender_nodes[0] == m.sender_nodes@[0]@);
                        text_of(&chars_of_string(&m.sender_nodes[0].name))
                    } else {
                        String::new()
                    };
                    (text_of(&chars_of_string(&m.name)), sender)
                },
                None => (String::new(), String::new()),
            }
        },
        None => {
            assert(!dbs@.contains_key(channel));
            (String::new(), String::new())
        },
    }
}

fn protocol_exec(len: usize) -> (r: String)
    ensures
        r@ == protocol_of(len as nat),
{
    if len <= 8 {
        string_of(&chars_of("CAN"))
    } else {
        string_of(&chars_of("CAN FD"))
    }
}

fn is_word(w: &Vec<char>, s: &str) -> (r: bool)
    ensures
        r == (w@ == s@),
{
    eq_vec(w, &chars_of(s))
}

fn d_marker_exec(parts: &Vec<Vec<char>>) -> (r: usize)
    requires
        parts.len() >= 4,
    ensures
        r <= parts.len(),
        r < parts.len() ==> d_marker_from(views(parts@), 4) == Some(r as int),
        r == parts.len() ==> d_marker_from(views(parts@), 4) is None,
{
    let ghost ps = views(parts@);
    let mut di: usize = 4;
    while di < parts.len() && !(is_word(&parts[di], "d") || is_word(&parts[di], "D"))
        invariant
            4 <= di <= parts.len(),
            ps == views(parts@),
            d_marker_from(ps, 4) == d_marker_from(ps, di as int),
        decreases parts.len() - di,
    {
        assert(ps[di as int] == parts@[di as int]@);
        di = di + 1;
    }
    if di < parts.len() {
        assert(ps[di as int] == parts@[di as int]@);
    }
    di
}

fn copy_word(w: &Vec<char>) -> (r: Vec<char>)
    ensures
        r@ == w@,
{
    let r: Vec<char> = crate::text::slice_of(w, 0, w.len());
    assert(r@ =~= w@);
    r
}

/// The fields of a frame line with a `d` marker (see [`marked_frame`]).
pub fn frame_fields(line: &str, dbs: &HashMap<usize, Database>) -> (r: Option<FrameFields>)
    requires
        !marked_length_overflows(line@),
    ensures
        opt_fields(r) == marked_frame(line@, dbs@),
{
    let parts: Vec<Vec<char>> = split_ws(&chars_of(line), true);
    let ghost ps = tokens(line@, true);
    assert(views(parts@) == ps);
    if parts.len() < 7 {
        return None;
    }
    assert(ps[0] == parts@[0]@);
    if !is_float_literal_exec(&parts[0]) {
        return None;
    }
    assert(ps[1] == parts@[1]@);
    let channel: usize = match parse_usize(&parts[1]) {
        Some(c) => c,
        None => return None,
    };
    let di: usize = d_marker_exec(&parts);
    if di >= parts.len() {
        return None;
    }
    if di + 1 >= parts.len() {
        return None;
    }
    assert(ps[di + 1] == parts@[di + 1]@);
    let len: usize = match parse_usize(&parts[di + 1]) {
        Some(l) => l,
        None => return None,
    };
    if len > parts.len() - (di + 2) {
        return None;
    }
    let start: usize = di + 2;
    let end: usize = start + len;
    let mut payload: Vec<Vec<char>> = Vec::new();
    let mut k: usize = start;
    while k < end
        invariant
            start <= k <= end <= parts.len(),
            views(parts@) == ps,
            views(payload@) == ps.subrange(start as int, k as int),
        decreases end - k,
    {
        let ghost before = views(payload@);
        assert(parts@[k as int]@ == ps[k as int]);
        payload.push(copy_word(&parts[k]));
        assert(views(payload@) =~= before.push(ps[k as int]));
        assert(views(payload@) =~= ps.subrange(start as int, k + 1));
        k = k + 1;
    }
    let (name, sender) = names_for(dbs, channel, &parts[2]);
    assert(ps[2] == parts@[2]@);
    assert(ps[3] == parts@[3]@);
    Some(
        FrameFields {
            timestamp: text_of(&parts[0]),
            channel: channel,
            id: text_of(&parts[2]),
            direction: text_of(&parts[3]),
            name: name,
            sender_node: sender,
            byte_length: len,
            data: text_of(&join_exec(&payload, &chars_of(" "))),
            protocol: protocol_exec(len),
        },
    )
}

/// Whether the length after the `d` marker overflows (see
/// [`marked_length_overflows`]): the lines [`frame_fields`] does not take.
pub fn frame_length_overflows(line: &str) -> (r: bool)
    ensures
        r == marked_length_overflows(line@),
{
    let parts: Vec<Vec<char>> = split_ws(&chars_of(line), true);
    let ghost ps = tokens(line@, true);
    if parts.len() < 7 {
        return false;
    }
    assert(ps[0] == parts@[0]@);
    assert(ps[1] == parts@[1]@);
    if !is_float_literal_exec(&parts[0]) || parse_usize(&parts[1]).is_none() {
        return false;
    }
    let di: usize = d_marker_exec(&parts);
    if di >= parts.len() || di + 1 >= parts.len() {
        return false;
    }
    assert(ps[di + 1] == parts@[di + 1]@);
    match parse_usize(&parts[di + 1]) {
        Some(len) => len > usize::MAX - (di + 2),
        None => false,
    }
}

/// The fields of a frame line with its length as sixth word (see
/// [`listed_frame`]).
pub fn frame_fields_listed(line: &str, dbs: &HashMap<usize, Database>) -> (r: Option<FrameFields>)
    ensures
        opt_fields(r) == listed_frame(line@, dbs@),
{
    let parts: Vec<Vec<char>> = split_ws(&chars_of(line), true);
    let ghost ps = tokens(line@, true);
    assert(views(parts@) == ps);
    if parts.len() < 7 {
        return None;
    }
    assert(ps[0] == parts@[0]@);
    if !is_float_literal_exec(&parts[0]) {
        return None;
    }
    assert(ps[1] == parts@[1]@);
    let channel: usize = match parse_usize(&parts[1]) {
        Some(c) => c,
        None => return None,
    };
    assert(ps[5] == parts@[5]@);
    let len: usize = match parse_usize(&parts[5]) {
        Some(l) => l,
        None => return None,
    };
    let mut payload: Vec<Vec<char>> = Vec::new();
    let mut k: usize = 6;
    assert(views(payload@) + until_length(ps.skip(6)) =~= until_length(ps.skip(6)));
    while k < parts.len() && !is_word(&parts[k], "Length")
        invariant
            6 <= k <= parts.len(),
            views(parts@) == ps,
            until_length(ps.skip(6)) == views(payload@) + until_length(ps.skip(k as int)),
        decreases parts.len() - k,
    {
        assert(ps.skip(k as int)[0] == parts@[k as int]@);
        assert(ps.skip(k as int).drop_first() =~= ps.skip(k + 1));
        let ghost before = views(payload@);
        payload.push(copy_word(&parts[k]));
        assert(views(payload@) =~= before.push(ps[k as int]));
        assert(before + (seq![ps[k as int]] + until_length(ps.skip(k + 1))) =~= before.push(ps[k as int]) + until_length(ps.skip(k + 1)));
        k = k + 1;
    }
    if k < parts.len() {
        assert(ps.skip(k as int)[0] == parts@[k as int]@);
        assert(until_length(ps.skip(k as int)) =~= Seq::<Seq<char>>::empty());
    } else {
        assert(ps.skip(k as int) =~= Seq::<Seq<char>>::empty());
    }
    assert(views(payload@) =~= until_length(ps.skip(6)));
    let (name, sender) = names_for(dbs, channel, &parts[2]);
    assert(ps[2] == parts@[2]@);
    assert(ps[3] == parts@[3]@);
    Some(
        FrameFields {
            timestamp: text_of(&parts[0]),
            channel: channel,
            id: text_of(&parts[2]),
            direction: text_of(&parts[3]),
            name: name,
            sender_node: sender,
            byte_length: len,
            data: text_of(&join_exec(&payload, &chars_of(" "))),
            protocol: protocol_exec(len),
        },
    )
}

} // verus!
