//! `SG_` signals, `CM_ SG_` comments and `VAL_` value tables.
use std::collections::HashMap;
use vstd::prelude::*;
use crate::dbc::legacy::{
    find_message, find_signal, first_message_with_id, first_signal_named, messages_view, nodes_view,
    signals_view, table_view, Database, DatabaseView, MessageView, Node, NodeView, Signal, SignalView,
};
use crate::dbc::legacy::messages::usize_or_zero;
use crate::dbc::legacy::nodes::{quoted_body, quoted_body_exec};
use crate::text::{
    chars_of, contains_exec, contains_seq, digit_val, find_char, find_exec, is_digit,
    is_float_literal, is_float_literal_exec, join_exec, join_with, normalize_lines,
    normalize_lines_exec, parse_i32, parse_signed, parse_u64, parse_unsigned, parse_usize, slice_of,
    split_char, split_char_exec, split_ws, string_of, tokens, trim, trim_by, trim_end_by,
    trim_end_exec, trim_exec, trim_start_by, trim_start_exec, views, CharClass,
};

verus! {

broadcast use vstd::std_specs::hash::group_hash_axioms;

/// `t` when `str::parse::<f64>` accepts it, the literal `d` otherwise
/// (what `parse().unwrap_or(d)` keeps, written as text).
pub open spec fn float_or(t: Seq<char>, d: Seq<char>) -> Seq<char> {
    if is_float_literal(t) {
        t
    } else {
        d
    }
}

/// Element `i` of `s`, or `d` past its end.
pub open spec fn nth_or(s: Seq<Seq<char>>, i: int, d: Seq<char>) -> Seq<char> {
    if 0 <= i < s.len() {
        s[i]
    } else {
        d
    }
}

/// `s` from element `i` on (empty past its end).
pub open spec fn skip_or_empty(s: Seq<Seq<char>>, i: int) -> Seq<Seq<char>> {
    if i < s.len() {
        s.skip(i)
    } else {
        seq![]
    }
}

/// The two sides of a `SG_` line around its first `:` (both trimmed).
pub open spec fn sg_sides(line: Seq<char>) -> (Seq<char>, Seq<char>) {
    let l = trim_start_by(line, CharClass::Ws(true));
    match find_char(l, ':') {
        Some(i) => (trim(l.take(i)), trim(l.skip(i + 1))),
        None => (trim(l), seq![]),
    }
}

/// Receiver nodes of the comma-separated pieces: each non-empty piece, trimmed.
pub open spec fn receivers_of(ps: Seq<Seq<char>>) -> Seq<NodeView>
    decreases ps.len(),
{
    if ps.len() == 0 {
        seq![]
    } else {
        let rest = receivers_of(ps.drop_last());
        if ps.last().len() > 0 {
            rest.push(NodeView { name: trim(ps.last()), comment: seq![] })
        } else {
            rest
        }
    }
}

/// The endianness digit: the first character after `@` when it is a decimal
/// digit, 1 otherwise.
pub open spec fn endian_of(es: Seq<char>) -> usize {
    if es.len() > 0 && is_digit(es[0]) {
        digit_val(es[0]) as usize
    } else {
        1
    }
}

/// The signal described by a `SG_` line:
/// `SG_ <name> : <start>|<len>@<endian><sign> (<factor>,<offset>) [<min>|<max>] "<unit>" <receivers>`.
pub open spec fn sg_signal(line: Seq<char>) -> SignalView {
    let (left, right) = sg_sides(line);
    let name = nth_or(tokens(left, true), 1, ""@);
    let rp = tokens(right, true);
    let bit_info = nth_or(rp, 0, ""@);
    let at = split_char(bit_info, '@');
    let es = nth_or(at, 1, ""@);
    let pl = split_char(at[0], '|');
    let fo = trim_by(nth_or(rp, 1, "(1,0)"@), CharClass::Either('(', ')'));
    let so = split_char(fo, ',');
    let mm = trim_by(nth_or(rp, 2, "[0|0]"@), CharClass::Either('[', ']'));
    let ms = split_char(mm, '|');
    SignalView {
        name: name,
        bit_start: usize_or_zero(pl[0]),
        bit_length: usize_or_zero(nth_or(pl, 1, "0"@)),
        endian: endian_of(es),
        sign: if contains_seq(es, seq!['-']) {
            1
        } else {
            0
        },
        factor: float_or(so[0], "1"@),
        offset: float_or(nth_or(so, 1, "0"@), "0"@),
        min: float_or(ms[0], "0"@),
        max: float_or(nth_or(ms, 1, "0"@), "0"@),
        unit_of_measurement: trim_by(nth_or(rp, 3, ""@), CharClass::Is('"')),
        receiver_nodes: receivers_of(split_char(join_with(skip_or_empty(rp, 4), seq![' ']), ',')),
        comment: seq![],
        value_table: Map::empty(),
    }
}

pub fn nth_or_exec(v: &Vec<Vec<char>>, i: usize, d: &str) -> (r: Vec<char>)
    ensures
        r@ == nth_or(views(v@), i as int, d@),
{
    if i < v.len() {
        slice_of(&v[i], 0, v[i].len())
    } else {
        chars_of(d)
    }
}

pub fn float_or_exec(t: &Vec<char>, d: &str) -> (r: String)
    ensures
        r@ == float_or(t@, d@),
{
    if is_float_literal_exec(t) {
        string_of(t)
    } else {
        let v: Vec<char> = chars_of(d);
        string_of(&v)
    }
}

fn receivers_exec(ps: &Vec<Vec<char>>) -> (r: Vec<Node>)
    ensures
        nodes_view(r@) == receivers_of(views(ps@)),
{
    let mut out: Vec<Node> = Vec::new();
    let mut k: usize = 0;
    while k < ps.len()
        invariant
            k <= ps.len(),
            nodes_view(out@) == receivers_of(views(ps@).take(k as int)),
        decreases ps.len() - k,
    {
        assert(views(ps@).take(k + 1).drop_last() =~= views(ps@).take(k as int));
        if ps[k].len() > 0 {
            let n: Vec<char> = trim_exec(&ps[k], CharClass::Ws(true));
            let ghost before = nodes_view(out@);
            out.push(Node { name: string_of(&n), comment: string_of(&Vec::new()) });
            assert(nodes_view(out@) =~= before.push(NodeView { name: n@, comment: seq![] }));
        }
        k = k + 1;
    }
    assert(views(ps@).take(ps.len() as int) =~= views(ps@));
    out
}

fn tail_from(v: &Vec<Vec<char>>, from: usize) -> (r: Vec<Vec<char>>)
    ensures
        views(r@) == skip_or_empty(views(v@), from as int),
{
    let mut out: Vec<Vec<char>> = Vec::new();
    if from >= v.len() {
        assert(views(out@) =~= Seq::<Seq<char>>::empty());
        return out;
    }
    let mut k: usize = from;
    while k < v.len()
        invariant
            from <= k <= v.len(),
            from < v.len(),
            views(out@) == views(v@).subrange(from as int, k as int),
        decreases v.len() - k,
    {
        let ghost before = views(out@);
        let w: Vec<char> = slice_of(&v[k], 0, v[k].len());
        assert(w@ =~= v@[k as int]@);
        out.push(w);
        assert(views(out@) =~= before.push(w@));
        assert(views(out@) =~= views(v@).subrange(from as int, k + 1));
        k = k + 1;
    }
    assert(views(v@).skip(from as int) =~= views(v@).subrange(from as int, v.len() as int));
    out
}

fn build_signal(line: &str) -> (r: Signal)
    ensures
        r@ == sg_signal(line@),
{
    let l0: Vec<char> = chars_of(line);
    let l: Vec<char> = trim_start_exec(&l0, CharClass::Ws(true));
    let (left, right): (Vec<char>, Vec<char>) = match find_exec(&l, ':') {
        Some(i) => {
            let a: Vec<char> = slice_of(&l, 0, i);
            let b: Vec<char> = slice_of(&l, i + 1, l.len());
            assert(a@ =~= l@.take(i as int));
            assert(b@ =~= l@.skip(i + 1));
            (trim_exec(&a, CharClass::Ws(true)), trim_exec(&b, CharClass::Ws(true)))
        },
        None => (trim_exec(&l, CharClass::Ws(true)), Vec::new()),
    };
    assert(left@ == sg_sides(line@).0 && right@ == sg_sides(line@).1);
    let lt: Vec<Vec<char>> = split_ws(&left, true);
    let name: Vec<char> = nth_or_exec(&lt, 1, "");
    let rp: Vec<Vec<char>> = split_ws(&right, true);
    let bit_info: Vec<char> = nth_or_exec(&rp, 0, "");
    let at: Vec<Vec<char>> = split_char_exec(&bit_info, '@');
    let es: Vec<char> = nth_or_exec(&at, 1, "");
    let pl: Vec<Vec<char>> = split_char_exec(&at[0], '|');
    let bit_start: usize = match parse_usize(&pl[0]) {
        Some(v) => v,
        None => 0,
    };
    let bl_text: Vec<char> = nth_or_exec(&pl, 1, "0");
    assert(bl_text@ == nth_or(split_char(at@[0]@, '|'), 1, "0"@));
    let bit_length: usize = match parse_usize(&bl_text) {
        Some(v) => v,
        None => 0,
    };
    let endian: usize = if es.len() > 0 && '0' <= es[0] && es[0] <= '9' {
        (es[0] as u32 - '0' as u32) as usize
    } else {
        1
    };
    let mut minus: Vec<char> = Vec::new();
    minus.push('-');
    assert(minus@ =~= seq!['-']);
    let sign: usize = if contains_exec(&es, &minus) {
        1
    } else {
        0
    };
    let fo0: Vec<char> = nth_or_exec(&rp, 1, "(1,0)");
    let fo: Vec<char> = trim_exec(&fo0, CharClass::Either('(', ')'));
    let so: Vec<Vec<char>> = split_char_exec(&fo, ',');
    let off_text: Vec<char> = nth_or_exec(&so, 1, "0");
    let mm0: Vec<char> = nth_or_exec(&rp, 2, "[0|0]");
    let mm: Vec<char> = trim_exec(&mm0, CharClass::Either('[', ']'));
    let ms: Vec<Vec<char>> = split_char_exec(&mm, '|');
    let max_text: Vec<char> = nth_or_exec(&ms, 1, "0");
    let unit0: Vec<char> = nth_or_exec(&rp, 3, "");
    let unit: Vec<char> = trim_exec(&unit0, CharClass::Is('"'));
    let tail: Vec<Vec<char>> = tail_from(&rp, 4);
    let mut space: Vec<char> = Vec::new();
    space.push(' ');
    assert(space@ =~= seq![' ']);
    let joined: Vec<char> = join_exec(&tail, &space);
    let pieces: Vec<Vec<char>> = split_char_exec(&joined, ',');
    let receivers: Vec<Node> = receivers_exec(&pieces);
    let sig: Signal = Signal {
        name: string_of(&name),
        bit_start,
        bit_length,
        endian,
        sign,
        factor: float_or_exec(&so[0], "1"),
        offset: float_or_exec(&off_text, "0"),
        min: float_or_exec(&ms[0], "0"),
        max: float_or_exec(&max_text, "0"),
        unit_of_measurement: string_of(&unit),
        receiver_nodes: receivers,
        comment: string_of(&Vec::new()),
        value_table: HashMap::new(),
    };
    assert(table_view(sig.value_table@) =~= Map::<i32, Seq<char>>::empty());
    let ghost g = sg_signal(line@);
    assert(sig@.name == g.name);
    assert(sig@.bit_start == g.bit_start);
    assert(sig@.bit_length == g.bit_length);
    assert(sig@.endian == g.endian);
    assert(sig@.sign == g.sign);
    assert(sig@.factor == g.factor);
    assert(sig@.offset == g.offset);
    assert(sig@.min == g.min);
    assert(sig@.max == g.max);
    assert(sig@.unit_of_measurement == g.unit_of_measurement);
    assert(sig@.receiver_nodes == g.receiver_nodes);
    assert(sig@.comment == g.comment);
    sig
}

/// Decodes a `SG_` line and appends the signal to the last message; without
/// any message the database is left as it is.
pub fn fct(db: &mut Database, line: &str)
    ensures
        old(db).messages.len() == 0 ==> final(db)@ == old(db)@,
        old(db).messages.len() > 0 ==> final(db)@ == ({
            let ms = old(db)@.messages;
            let last = ms.len() - 1;
            DatabaseView {
                messages: ms.update(last, MessageView { signals: ms[last].signals.push(sg_signal(line@)), ..ms[last] }),
                ..old(db)@
            }
        }),
{
    if db.messages.len() == 0 {
        return;
    }
    let sig: Signal = build_signal(line);
    let last: usize = db.messages.len() - 1;
    let ghost before = signals_view(db.messages@[last as int].signals@);
    let ghost sv = sig@;
    db.messages[last].signals.push(sig);
    assert(signals_view(db.messages@[last as int].signals@) =~= before.push(sv));
    assert(messages_view(db.messages@) =~= old(db)@.messages.update(
        last as int,
        MessageView { signals: old(db)@.messages[last as int].signals.push(sg_signal(line@)), ..old(db)@.messages[last as int] },
    ));
}

/// The database after a `CM_ SG_ <ID> <SignalName> "..."` line.
pub open spec fn signal_comment_result(db: DatabaseView, line: Seq<char>) -> DatabaseView {
    let t = tokens(line, true);
    if t.len() < 4 {
        db
    } else {
        match parse_unsigned(t[2], u64::MAX as nat) {
            None => db,
            Some(id) => match first_message_with_id(db.messages, id as u64) {
                None => db,
                Some(i) => match first_signal_named(db.messages[i].signals, t[3]) {
                    None => db,
                    Some(g) => match quoted_body(line) {
                        None => db,
                        Some(b) => {
                            let m = db.messages[i];
                            DatabaseView {
                                messages: db.messages.update(
                                    i,
                                    MessageView {
                                        signals: m.signals.update(g, SignalView { comment: normalize_lines(b), ..m.signals[g] }),
                                        ..m
                                    },
                                ),
                                ..db
                            }
                        },
                    },
                },
            },
        }
    }
}

/// Decodes `CM_ SG_ <ID> <SignalName> "Comment..."`: the comment, with leading
/// whitespace removed from each of its lines, goes to the first signal of that
/// name in the first message with that identifier.
pub fn comments(db: &mut Database, line: &str)
    ensures
        final(db)@ == signal_comment_result(old(db)@, line@),
{
    let l: Vec<char> = chars_of(line);
    let parts: Vec<Vec<char>> = split_ws(&l, true);
    if parts.len() < 3 {
        return;
    }
    let id: u64 = match parse_u64(&parts[2]) {
        Some(v) => v,
        None => return,
    };
    if parts.len() < 4 {
        return;
    }
    let mi: usize = match find_message(&db.messages, id) {
        Some(i) => i,
        None => return,
    };
    let gi: usize = match find_signal(&db.messages[mi].signals, &parts[3]) {
        Some(g) => g,
        None => return,
    };
    let body: Vec<char> = match quoted_body_exec(&l) {
        Some(b) => b,
        None => return,
    };
    let c: Vec<char> = normalize_lines_exec(&body);
    let ghost m = old(db)@.messages[mi as int];
    db.messages[mi].signals[gi].comment = string_of(&c);
    assert(signals_view(db.messages@[mi as int].signals@) =~= m.signals.update(
        gi as int,
        SignalView { comment: c@, ..m.signals[gi as int] },
    ));
    assert(messages_view(db.messages@) =~= old(db)@.messages.update(
        mi as int,
        MessageView { signals: m.signals.update(gi as int, SignalView { comment: c@, ..m.signals[gi as int] }), ..m },
    ));
}

/// The value table read from the trimmed pieces between quotes: a piece whose
/// last word is an `i32` pairs that number with the next piece.
pub open spec fn vt_fold(ps: Seq<Seq<char>>, m: Map<i32, Seq<char>>) -> Map<i32, Seq<char>>
    decreases ps.len(),
{
    if ps.len() == 0 {
        m
    } else if ps[0].len() == 0 {
        vt_fold(ps.drop_first(), m)
    } else {
        let w = tokens(ps[0], true);
        if w.len() > 0 && parse_signed(w.last(), i32::MIN as int, i32::MAX as int) is Some {
            let v = parse_signed(w.last(), i32::MIN as int, i32::MAX as int).unwrap() as i32;
            if ps.len() > 1 {
                vt_fold(ps.skip(2), m.insert(v, ps[1]))
            } else {
                m
            }
        } else {
            vt_fold(ps.drop_first(), m)
        }
    }
}

/// Every piece trimmed of surrounding whitespace.
pub open spec fn trim_each(ps: Seq<Seq<char>>) -> Seq<Seq<char>> {
    ps.map_values(|p: Seq<char>| trim(p))
}

/// The parts of a `VAL_ <MessageID> <SignalName> <v> "<desc>" ... ;` line:
/// identifier, signal name and the value table.
pub open spec fn val_parts(line: Seq<char>) -> (u64, Seq<char>, Map<i32, Seq<char>>) {
    let t = tokens(trim_start_by(line, CharClass::Ws(true)), true);
    let id = match parse_unsigned(nth_or(t, 1, ""@), u64::MAX as nat) {
        Some(v) => v as u64,
        None => 0,
    };
    let rest = trim(trim_end_by(join_with(skip_or_empty(t, 3), seq![' ']), CharClass::Is(';')));
    let pieces = trim_each(split_char(rest, '"'));
    (id, nth_or(t, 2, ""@), vt_fold(pieces, Map::empty()))
}

/// The database after a `VAL_` line.
pub open spec fn value_table_result(db: DatabaseView, line: Seq<char>) -> DatabaseView {
    let (id, name, table) = val_parts(line);
    match first_message_with_id(db.messages, id) {
        None => db,
        Some(i) => match first_signal_named(db.messages[i].signals, name) {
            None => db,
            Some(g) => {
                let m = db.messages[i];
                DatabaseView {
                    messages: db.messages.update(
                        i,
                        MessageView { signals: m.signals.update(g, SignalView { value_table: table, ..m.signals[g] }), ..m },
                    ),
                    ..db
                }
            },
        },
    }
}

fn last_word(v: &Vec<char>) -> (r: Option<Vec<char>>)
    ensures
        r matches Some(w) ==> tokens(v@, true).len() > 0 && w@ == tokens(v@, true).last(),
        r is None ==> tokens(v@, true).len() == 0,
{
    let ws: Vec<Vec<char>> = split_ws(v, true);
    if ws.len() > 0 {
        let w: Vec<char> = slice_of(&ws[ws.len() - 1], 0, ws[ws.len() - 1].len());
        Some(w)
    } else {
        None
    }
}

fn build_table(pieces: &Vec<Vec<char>>) -> (r: HashMap<i32, String>)
    ensures
        table_view(r@) == vt_fold(views(pieces@), Map::empty()),
{
    let mut table: HashMap<i32, String> = HashMap::new();
    let mut p: usize = 0;
    let ghost ps = views(pieces@);
    assert(ps.skip(0) =~= ps);
    assert(table_view(table@) =~= Map::<i32, Seq<char>>::empty());
    while p < pieces.len()
        invariant
            p <= pieces.len(),
            ps == views(pieces@),
            vt_fold(ps.skip(p as int), table_view(table@)) == vt_fold(ps, Map::empty()),
        decreases pieces.len() - p,
    {
        let ghost cur = ps.skip(p as int);
        assert(cur[0] == pieces@[p as int]@);
        if pieces[p].len() == 0 {
            assert(cur.drop_first() =~= ps.skip(p + 1));
            p = p + 1;
        } else {
            match last_word(&pieces[p]) {
                Some(w) => match parse_i32(&w) {
                    Some(val) => {
                        if p + 1 < pieces.len() {
                            let desc: String = string_of(&pieces[p + 1]);
                            assert(cur[1] == pieces@[p + 1]@);
                            let ghost before = table_view(table@);
                            table.insert(val, desc);
                            assert(table_view(table@) =~= before.insert(val, pieces@[p + 1]@));
                            assert(cur.skip(2) =~= ps.skip(p + 2));
                            p = p + 2;
                        } else {
                            assert(ps.skip(pieces.len() as int) =~= Seq::<Seq<char>>::empty());
                            p = pieces.len();
                        }
                    },
                    None => {
                        assert(cur.drop_first() =~= ps.skip(p + 1));
                        p = p + 1;
                    },
                },
                None => {
                    assert(cur.drop_first() =~= ps.skip(p + 1));
                    p = p + 1;
                },
            }
        }
    }
    assert(ps.skip(p as int) =~= Seq::<Seq<char>>::empty());
    table
}

fn trimmed_pieces(v: &Vec<char>) -> (r: Vec<Vec<char>>)
    ensures
        views(r@) == trim_each(split_char(v@, '"')),
{
    let raw: Vec<Vec<char>> = split_char_exec(v, '"');
    let mut out: Vec<Vec<char>> = Vec::new();
    let mut k: usize = 0;
    while k < raw.len()
        invariant
            k <= raw.len(),
            views(raw@) == split_char(v@, '"'),
            views(out@) == trim_each(split_char(v@, '"')).take(k as int),
        decreases raw.len() - k,
    {
        let t: Vec<char> = trim_exec(&raw[k], CharClass::Ws(true));
        assert(t@ == trim(views(raw@)[k as int]));
        let ghost before = views(out@);
        out.push(t);
        assert(views(out@) =~= before.push(t@));
        assert(views(out@) =~= trim_each(split_char(v@, '"')).take(k + 1));
        k = k + 1;
    }
    assert(trim_each(split_char(v@, '"')).take(raw.len() as int) =~= trim_each(split_char(v@, '"')));
    out
}

/// Decodes `VAL_ <message_id> <signal_name> <val1> "<descr1>" ... ;`: the
/// table replaces the value table of the first signal of that name in the
/// first message with that identifier.
pub fn value_table(db: &mut Database, line: &str)
    ensures
        final(db)@ == value_table_result(old(db)@, line@),
{
    let l0: Vec<char> = chars_of(line);
    let l: Vec<char> = trim_start_exec(&l0, CharClass::Ws(true));
    let t: Vec<Vec<char>> = split_ws(&l, true);
    let id_text: Vec<char> = nth_or_exec(&t, 1, "");
    let id: u64 = match parse_u64(&id_text) {
        Some(v) => v,
        None => 0,
    };
    let name: Vec<char> = nth_or_exec(&t, 2, "");
    let tail: Vec<Vec<char>> = tail_from(&t, 3);
    let mut space: Vec<char> = Vec::new();
    space.push(' ');
    assert(space@ =~= seq![' ']);
    let joined: Vec<char> = join_exec(&tail, &space);
    let r1: Vec<char> = trim_end_exec(&joined, CharClass::Is(';'));
    let rest: Vec<char> = trim_exec(&r1, CharClass::Ws(true));
    let pieces: Vec<Vec<char>> = trimmed_pieces(&rest);
    let table: HashMap<i32, String> = build_table(&pieces);
    assert(id == val_parts(line@).0);
    assert(name@ == val_parts(line@).1);
    assert(table_view(table@) == val_parts(line@).2);
    let mi: usize = match find_message(&db.messages, id) {
        Some(i) => i,
        None => return,
    };
    let gi: usize = match find_signal(&db.messages[mi].signals, &name) {
        Some(g) => g,
        None => return,
    };
    let ghost m = old(db)@.messages[mi as int];
    let ghost tv = table_view(table@);
    db.messages[mi].signals[gi].value_table = table;
    assert(signals_view(db.messages@[mi as int].signals@) =~= m.signals.update(
        gi as int,
        SignalView { value_table: tv, ..m.signals[gi as int] },
    ));
    assert(messages_view(db.messages@) =~= old(db)@.messages.update(
        mi as int,
        MessageView { signals: m.signals.update(gi as int, SignalView { value_table: tv, ..m.signals[gi as int] }), ..m },
    ));
}

} // verus!
