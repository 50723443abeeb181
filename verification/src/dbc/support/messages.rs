//! Messages: `BO_` definitions, message comments and the cycle time.
use vstd::prelude::*;
use crate::dbc::support::basic_info::{between_outer_quotes, between_outer_quotes_exec};
use crate::dbc::support::node_attrs::number_or_zero;
use crate::dbc::support::nodes::{find_node, first_node_named, lemma_first_node_named};
use crate::dbc::support::{
    messages_view, nodes_view, Database, DatabaseView, GenMsgSendType, Message, MessageView,
    NodeView,
};
use crate::dbc::types::database::{id_hex_text, id_to_hex};
use crate::text::{
    chars_of, chars_of_string, contains_exec, contains_seq, eq_vec, find_char, find_exec,
    in_class, is_ws, lead_count, lemma_find_char, lemma_find_char_at, parse_u16, parse_u32, parse_unsigned, slice_of, split_ws, starts_with,
    starts_with_exec, string_of, tokens, trail_count, trim, trim_end_by, trim_end_exec, trim_exec,
    trim_start_pat, trim_start_pat_exec, word_len, word_len_exec, CharClass,
};

verus! {

/// Position of the first message with identifier `id`.
pub open spec fn first_message_with_id(s: Seq<MessageView>, id: u32) -> Option<int>
    decreases s.len(),
{
    if s.len() == 0 {
        None
    } else {
        match first_message_with_id(s.drop_last(), id) {
            Some(i) => Some(i),
            None => if s.last().id == id {
                Some(s.len() - 1)
            } else {
                None
            },
        }
    }
}

proof fn lemma_first_message_result(s: Seq<MessageView>, id: u32)
    ensures
        first_message_with_id(s, id) matches Some(k) ==> 0 <= k < s.len() && s[k].id == id,
    decreases s.len(),
{
    if s.len() > 0 {
        lemma_first_message_result(s.drop_last(), id);
    }
}

proof fn lemma_first_message_none(s: Seq<MessageView>, id: u32)
    requires
        forall|j: int| 0 <= j < s.len() ==> s[j].id != id,
    ensures
        first_message_with_id(s, id) is None,
    decreases s.len(),
{
    if s.len() > 0 {
        lemma_first_message_none(s.drop_last(), id);
    }
}

proof fn lemma_first_message_at(s: Seq<MessageView>, id: u32, i: int)
    requires
        0 <= i < s.len(),
        s[i].id == id,
        forall|j: int| 0 <= j < i ==> s[j].id != id,
    ensures
        first_message_with_id(s, id) == Some(i),
    decreases s.len(),
{
    if s.len() - 1 > i {
        lemma_first_message_at(s.drop_last(), id, i);
    } else {
        lemma_first_message_none(s.drop_last(), id);
    }
}

/// Position of the first message with identifier `id`.
pub fn find_message(v: &Vec<Message>, id: u32) -> (r: Option<usize>)
    ensures
        r matches Some(k) ==> first_message_with_id(messages_view(v@), id) == Some(k as int),
        r is None ==> first_message_with_id(messages_view(v@), id) is None,
        first_message_with_id(messages_view(v@), id) matches Some(k) ==> 0 <= k < v.len()
            && messages_view(v@)[k].id == id,
{
    let ghost s = messages_view(v@);
    proof {
        lemma_first_message_result(s, id);
    }
    let mut i: usize = 0;
    while i < v.len()
        invariant
            i <= v.len(),
            s == messages_view(v@),
            forall|j: int| 0 <= j < i ==> s[j].id != id,
        decreases v.len() - i,
    {
        if v[i].id == id {
            proof {
                lemma_first_message_at(s, id, i as int);
            }
            return Some(i);
        }
        i = i + 1;
    }
    proof {
        lemma_first_message_none(s, id);
    }
    None
}

/// The number a token writes as a `u32`, 0 when it is not one.
pub open spec fn u32_or_zero(t: Seq<char>) -> u32 {
    number_or_zero(t, u32::MAX as nat) as u32
}

fn u32_or_zero_exec(t: &Vec<char>) -> (r: u32)
    ensures
        r == u32_or_zero(t@),
{
    match parse_u32(t) {
        Some(x) => x,
        None => 0,
    }
}

fn u16_or_zero_exec(t: &Vec<char>) -> (r: u16)
    ensures
        r == number_or_zero(t@, u16::MAX as nat) as u16,
{
    match parse_u16(t) {
        Some(x) => x,
        None => 0,
    }
}

/// The fields of a `BO_ <id> <name>: <length> <sender>` line: identifier
/// (0 when not a number), name (up to the first `:`, trimmed, trailing `:`
/// removed), payload length (0 when absent or not a number) and sender
/// name (trailing `;` removed, empty when absent). `None` when the line
/// does not start with `BO_` or has no `:` after the identifier.
pub open spec fn bo_fields(line: Seq<char>) -> Option<(u32, Seq<char>, u16, Seq<char>)> {
    let l = trim(line);
    if !starts_with(l, "BO_"@) {
        None
    } else {
        let after = trim(trim_start_pat(l, "BO_"@));
        let w = word_len(after, true);
        let id = u32_or_zero(after.take(w as int));
        bo_rest(id, trim(after.skip(w as int)))
    }
}

/// The fields of a `BO_` line read from the text `rest` after its
/// identifier `id`: the name before the first colon (trimmed), then the
/// payload length and the sender after it.
pub open spec fn bo_rest(id: u32, rest: Seq<char>) -> Option<(u32, Seq<char>, u16, Seq<char>)> {
    match find_char(rest, ':') {
        None => None,
        Some(c) => {
            let name = trim_end_by(trim(rest.take(c)), CharClass::Is(':'));
            let it = tokens(trim(rest.skip(c + 1)), false);
            let len = if it.len() > 0 {
                number_or_zero(it[0], u16::MAX as nat) as u16
            } else {
                0u16
            };
            let sender = if it.len() > 1 {
                trim_end_by(it[1], CharClass::Is(';'))
            } else {
                Seq::empty()
            };
            Some((id, name, len, sender))
        },
    }
}

proof fn lemma_lead_concat(h: Seq<char>, y: Seq<char>, k: CharClass)
    ensures
        lead_count(h + y, k) == if lead_count(h, k) < h.len() {
            lead_count(h, k)
        } else {
            h.len() + lead_count(y, k)
        },
        lead_count(h, k) <= h.len(),
    decreases h.len(),
{
    if h.len() > 0 {
        assert((h + y).drop_first() =~= h.drop_first() + y);
        assert((h + y)[0] == h[0]);
        lemma_lead_concat(h.drop_first(), y, k);
    } else {
        assert(h + y =~= y);
    }
}

/// A space at the end does not change what `trim` gives.
proof fn lemma_trim_trailing_space(h: Seq<char>)
    ensures
        trim(h.push(' ')) == trim(h),
{
    let k = CharClass::Ws(true);
    let lc = lead_count(h, k);
    lemma_lead_concat(h, seq![' '], k);
    assert(h.push(' ') =~= h + seq![' ']);
    assert(in_class(k, ' ')) by {
        assert(is_ws(' ', true));
    }
    if lc < h.len() {
        let a = h.skip(lc as int);
        assert(h.push(' ').skip(lc as int) =~= a.push(' '));
        assert(a.push(' ').drop_last() =~= a);
        assert(trail_count(a.push(' '), k) == 1 + trail_count(a, k));
        crate::text::lemma_trail_count_bound(a, k);
        assert(a.push(' ').take(a.push(' ').len() - trail_count(a.push(' '), k)) =~= a.take(a.len() - trail_count(a, k)));
    } else {
        assert(seq![' '].drop_first() =~= Seq::<char>::empty());
        assert(seq![' '][0] == ' ');
        assert(lead_count(Seq::<char>::empty(), k) == 0);
        assert(lead_count(seq![' '], k) == 1 + lead_count(seq![' '].drop_first(), k));
        assert(lead_count(seq![' '], k) == 1);
        assert(h.push(' ').skip(h.len() as int + 1) =~= Seq::<char>::empty());
        assert(h.skip(h.len() as int) =~= Seq::<char>::empty());
    }
}

/// Both spellings of a `BO_` line's colon read the same message: in the
/// text after the identifier, a space before the colon (`NAME : 8 Node`
/// against `NAME: 8 Node`) changes none of the fields.
pub proof fn law_space_before_colon(id: u32, h: Seq<char>, t: Seq<char>)
    requires
        forall|j: int| 0 <= j < h.len() ==> h[j] != ':',
    ensures
        bo_rest(id, h + seq![':'] + t) == bo_rest(id, h + seq![' ', ':'] + t),
{
    let r1 = h + seq![':'] + t;
    let r2 = h + seq![' ', ':'] + t;
    assert forall|j: int| 0 <= j < h.len() implies r1[j] != ':' by {
        assert(r1[j] == h[j]);
    }
    assert forall|j: int| 0 <= j < h.len() as int + 1 implies r2[j] != ':' by {
        if j < h.len() {
            assert(r2[j] == h[j]);
        } else {
            assert(r2[j] == ' ');
        }
    }
    lemma_find_char_at(r1, ':', h.len() as int);
    lemma_find_char_at(r2, ':', h.len() as int + 1);
    assert(r1.take(h.len() as int) =~= h);
    assert(r2.take(h.len() as int + 1) =~= h.push(' '));
    assert(r1.skip(h.len() as int + 1) =~= t);
    assert(r2.skip(h.len() as int + 2) =~= t);
    lemma_trim_trailing_space(h);
}

proof fn lemma_lead_facts(h: Seq<char>, k: CharClass)
    ensures
        lead_count(h, k) <= h.len(),
        forall|j: int| 0 <= j < lead_count(h, k) ==> in_class(k, #[trigger] h[j]),
        lead_count(h, k) < h.len() ==> !in_class(k, h[lead_count(h, k) as int]),
    decreases h.len(),
{
    if h.len() > 0 && in_class(k, h[0]) {
        let d = h.drop_first();
        lemma_lead_facts(d, k);
        assert forall|j: int| 0 <= j < lead_count(h, k) implies in_class(k, #[trigger] h[j]) by {
            if j > 0 {
                assert(h[j] == d[j - 1]);
            }
        }
        if lead_count(h, k) < h.len() {
            assert(h[lead_count(h, k) as int] == d[lead_count(d, k) as int]);
        }
    }
}

proof fn lemma_trail_facts(t: Seq<char>, k: CharClass)
    ensures
        trail_count(t, k) <= t.len(),
        forall|j: int| t.len() - trail_count(t, k) <= j < t.len() ==> in_class(k, #[trigger] t[j]),
        trail_count(t, k) < t.len() ==> !in_class(k, t[t.len() - trail_count(t, k) - 1]),
    decreases t.len(),
{
    if t.len() > 0 && in_class(k, t.last()) {
        let d = t.drop_last();
        lemma_trail_facts(d, k);
        assert forall|j: int| t.len() - trail_count(t, k) <= j < t.len() implies in_class(k, #[trigger] t[j]) by {
            if j < t.len() - 1 {
                assert(t[j] == d[j]);
            }
        }
        if trail_count(t, k) < t.len() {
            assert(t[t.len() - trail_count(t, k) - 1] == d[d.len() - trail_count(d, k) - 1]);
        }
    }
}

/// `trim` keeps `s[a..e]` when everything before `a` and from `e` on is
/// whitespace and the characters at `a` and `e - 1` are not.
proof fn lemma_trim_bounds(s: Seq<char>, a: int, e: int)
    requires
        0 <= a < e <= s.len(),
        forall|j: int| 0 <= j < a ==> is_ws(#[trigger] s[j], true),
        forall|j: int| e <= j < s.len() ==> is_ws(#[trigger] s[j], true),
        !is_ws(s[a], true),
        !is_ws(s[e - 1], true),
    ensures
        trim(s) == s.subrange(a, e),
{
    let k = CharClass::Ws(true);
    crate::text::lemma_lead_count(s, a, k);
    let u = s.skip(a);
    assert(u[0] == s[a]);
    assert(lead_count(u, k) == 0);
    assert(s.skip(lead_count(s, k) as int) == u);
    assert forall|j: int| e - a <= j < u.len() implies in_class(k, #[trigger] u[j]) by {
        assert(u[j] == s[j + a]);
    }
    crate::text::lemma_trail_count(u, e - a, k);
    let v = u.take(e - a);
    assert(v.last() == s[e - 1]);
    assert(trail_count(v, k) == 0);
    assert(u.take(u.len() - trail_count(u, k)) =~= s.subrange(a, e));
}

/// `word_len` of a word followed by whitespace is the word's length.
proof fn lemma_word_len_prefix(w: Seq<char>, y: Seq<char>)
    requires
        forall|j: int| 0 <= j < w.len() ==> !is_ws(#[trigger] w[j], true),
        y.len() > 0,
        is_ws(y[0], true),
    ensures
        word_len(w + y, true) == w.len(),
    decreases w.len(),
{
    if w.len() > 0 {
        assert((w + y)[0] == w[0]);
        assert((w + y).drop_first() =~= w.drop_first() + y);
        assert forall|j: int| 0 <= j < w.drop_first().len() implies !is_ws(#[trigger] w.drop_first()[j], true) by {
            assert(w.drop_first()[j] == w[j + 1]);
        }
        lemma_word_len_prefix(w.drop_first(), y);
    } else {
        assert(w + y =~= y);
    }
}

/// The fields of a line `BO_ <w> <h><m><t>`, where `<w>` is a word and
/// `<m>` ends in a character that is not whitespace, come from the text
/// after the word: a space, then `<h><m>` and `<t>` without its trailing
/// whitespace.
proof fn lemma_bo_fields_form(w: Seq<char>, h: Seq<char>, m: Seq<char>, t: Seq<char>)
    requires
        w.len() > 0,
        forall|j: int| 0 <= j < w.len() ==> !is_ws(#[trigger] w[j], true),
        m.len() > 0,
        !is_ws(m.last(), true),
    ensures
        bo_fields("BO_ "@ + w + " "@ + h + m + t) == bo_rest(
            u32_or_zero(w),
            trim(seq![' '] + h + m + t.take(t.len() - trail_count(t, CharClass::Ws(true)))),
        ),
{
    let k = CharClass::Ws(true);
    reveal_strlit("BO_ ");
    reveal_strlit(" ");
    reveal_strlit("BO_");
    let bo4 = "BO_ "@;
    assert(bo4 =~= seq!['B', 'O', '_', ' ']);
    assert(" "@ =~= seq![' ']);
    let p = bo4 + w + seq![' '] + h + m;
    let line = p + t;
    assert("BO_ "@ + w + " "@ + h + m + t =~= line);
    lemma_trail_facts(t, k);
    let tt = trail_count(t, k);
    let te = t.take(t.len() - tt);
    let e1 = p.len() + t.len() - tt;
    assert(p.last() == m.last());
    assert(!is_ws(line[0], true)) by {
        assert(line[0] == 'B');
    }
    assert(!is_ws(line[e1 - 1], true)) by {
        if tt < t.len() {
            assert(line[e1 - 1] == t[t.len() - tt - 1]);
        } else {
            assert(line[e1 - 1] == p.last());
        }
    }
    assert forall|j: int| e1 <= j < line.len() implies is_ws(#[trigger] line[j], true) by {
        assert(line[j] == t[j - p.len()]);
        assert(in_class(k, t[j - p.len()]));
    }
    lemma_trim_bounds(line, 0, e1);
    let l1 = line.subrange(0, e1);
    assert(l1 =~= p + te);
    assert(l1.take(3) =~= "BO_"@);
    assert(starts_with(l1, "BO_"@));
    let sk = l1.skip(3);
    assert(sk[0] == ' ');
    assert(!starts_with(sk, "BO_"@)) by {
        if starts_with(sk, "BO_"@) {
            assert(sk.take(3)[0] == "BO_"@[0]);
        }
    }
    assert(trim_start_pat(sk, "BO_"@) == sk);
    assert(trim_start_pat(l1, "BO_"@) == sk);
    assert(sk =~= seq![' '] + w + seq![' '] + h + m + te);
    assert(is_ws(sk[0], true));
    assert(sk[1] == w[0]);
    assert(!is_ws(sk[sk.len() - 1], true)) by {
        if tt < t.len() {
            assert(sk[sk.len() - 1] == t[t.len() - tt - 1]);
        } else {
            assert(sk[sk.len() - 1] == m.last());
        }
    }
    lemma_trim_bounds(sk, 1, sk.len() as int);
    let after = sk.subrange(1, sk.len() as int);
    let y = seq![' '] + h + m + te;
    assert(after =~= w + y);
    assert(y[0] == ' ');
    lemma_word_len_prefix(w, y);
    assert(after.take(w.len() as int) =~= w);
    assert(after.skip(w.len() as int) =~= y);
}

/// Both spellings of a `BO_` line's colon read the same message:
/// `BO_ <id> <name>: ...` and `BO_ <id> <name> : ...` (a space before the
/// colon) give the same database.
pub proof fn law_bo_colon_spellings(db: DatabaseView, w: Seq<char>, h: Seq<char>, t: Seq<char>)
    requires
        w.len() > 0,
        forall|j: int| 0 <= j < w.len() ==> !is_ws(#[trigger] w[j], true),
        forall|j: int| 0 <= j < h.len() ==> h[j] != ':',
    ensures
        message_def_result(db, "BO_ "@ + w + " "@ + h + ":"@ + t) == message_def_result(db, "BO_ "@ + w + " "@ + h + " :"@ + t),
{
    let k = CharClass::Ws(true);
    reveal_strlit(":");
    reveal_strlit(" :");
    assert(":"@ =~= seq![':']);
    assert(" :"@ =~= seq![' ', ':']);
    assert(":"@.last() == ':');
    assert(" :"@.last() == ':');
    lemma_bo_fields_form(w, h, ":"@, t);
    lemma_bo_fields_form(w, h, " :"@, t);
    lemma_trail_facts(t, k);
    let tt = trail_count(t, k);
    let te = t.take(t.len() - tt);
    let id = u32_or_zero(w);
    let y1 = seq![' '] + h + seq![':'] + te;
    let y2 = seq![' '] + h + seq![' ', ':'] + te;
    assert(seq![' '] + h + ":"@ + te =~= y1);
    assert(seq![' '] + h + " :"@ + te =~= y2);
    assert(!is_ws(y1[y1.len() - 1], true) && !is_ws(y2[y2.len() - 1], true)) by {
        if tt < t.len() {
            assert(y1[y1.len() - 1] == t[t.len() - tt - 1]);
            assert(y2[y2.len() - 1] == t[t.len() - tt - 1]);
        } else {
            assert(y1[y1.len() - 1] == ':');
            assert(y2[y2.len() - 1] == ':');
        }
    }
    lemma_lead_facts(h, k);
    let lh: int = lead_count(h, k) as int;
    let hl: int = h.len() as int;
    if lh < hl {
        assert forall|j: int| 0 <= j < 1 + lh implies is_ws(#[trigger] y1[j], true) by {
            if j > 0 {
                assert(y1[j] == h[j - 1]);
                assert(in_class(k, h[j - 1]));
            }
        }
        assert forall|j: int| 0 <= j < 1 + lh implies is_ws(#[trigger] y2[j], true) by {
            if j > 0 {
                assert(y2[j] == h[j - 1]);
                assert(in_class(k, h[j - 1]));
            }
        }
        assert(y1[1 + lh] == h[lh] && y2[1 + lh] == h[lh]);
        lemma_trim_bounds(y1, 1 + lh, y1.len() as int);
        lemma_trim_bounds(y2, 1 + lh, y2.len() as int);
        let hs = h.skip(lh);
        assert(y1.subrange(1 + lh, y1.len() as int) =~= hs + seq![':'] + te);
        assert(y2.subrange(1 + lh, y2.len() as int) =~= hs + seq![' ', ':'] + te);
        assert forall|j: int| 0 <= j < hs.len() implies hs[j] != ':' by {
            assert(hs[j] == h[j + lh]);
        }
        law_space_before_colon(id, hs, te);
    } else {
        assert forall|j: int| 0 <= j < 1 + hl implies is_ws(#[trigger] y1[j], true) by {
            if j > 0 {
                assert(y1[j] == h[j - 1]);
                assert(in_class(k, h[j - 1]));
            }
        }
        assert forall|j: int| 0 <= j < 2 + hl implies is_ws(#[trigger] y2[j], true) by {
            if 0 < j < 1 + hl {
                assert(y2[j] == h[j - 1]);
                assert(in_class(k, h[j - 1]));
            }
        }
        assert(y1[1 + hl] == ':' && y2[2 + hl] == ':');
        lemma_trim_bounds(y1, 1 + hl, y1.len() as int);
        lemma_trim_bounds(y2, 2 + hl, y2.len() as int);
        assert(y1.subrange(1 + hl, y1.len() as int) =~= y2.subrange(2 + hl, y2.len() as int));
    }
}

/// A new message with no senders, no comment and default attributes.
pub open spec fn new_message(id: u32, name: Seq<char>, len: u16) -> MessageView {
    MessageView {
        id: id,
        id_hex: id_hex_text(id),
        name: name,
        byte_length: len,
        sender_nodes: Seq::empty(),
        comment: Seq::empty(),
        cycle_time: 0,
        tx_method: GenMsgSendType::NotUsed,
    }
}

/// The database after adding a message unless one with the same identifier
/// exists. When a node is named `sender`, the first such node becomes the
/// message's sender and lists the message among those it sends.
pub open spec fn with_message(db: DatabaseView, id: u32, name: Seq<char>, len: u16, sender: Seq<char>) -> DatabaseView {
    if first_message_with_id(db.messages, id) is Some {
        db
    } else {
        let m = db.messages.len() as usize;
        match first_node_named(db.nodes, sender) {
            None => DatabaseView { messages: db.messages.push(new_message(id, name, len)), ..db },
            Some(k) => DatabaseView {
                messages: db.messages.push(
                    MessageView { sender_nodes: seq![k as usize], ..new_message(id, name, len) },
                ),
                nodes: db.nodes.update(
                    k,
                    NodeView { messages_sent: db.nodes[k].messages_sent.push(m), ..db.nodes[k] },
                ),
                ..db
            },
        }
    }
}

impl Database {
    /// Adds a message unless one with the same identifier exists (see
    /// [`with_message`]).
    pub fn add_message_if_absent(&mut self, name: &Vec<char>, id: u32, len: u16, sender: &Vec<char>)
        requires
            old(self).messages.len() < usize::MAX,
        ensures
            final(self)@ == with_message(old(self)@, id, name@, len, sender@),
    {
        if find_message(&self.messages, id).is_some() {
            return;
        }
        let m: usize = self.messages.len();
        let msg: Message = Message {
            id: id,
            id_hex: id_to_hex(id),
            name: string_of(name),
            byte_length: len,
            sender_nodes: Vec::new(),
            comment: String::new(),
            cycle_time: 0,
            tx_method: GenMsgSendType::NotUsed,
        };
        let ghost ms = messages_view(self.messages@);
        let ghost ns = nodes_view(self.nodes@);
        match find_node(&self.nodes, sender) {
            None => {
                self.messages.push(msg);
                assert(messages_view(self.messages@) =~= ms.push(new_message(id, name@, len)));
            },
            Some(k) => {
                proof {
                    crate::dbc::support::nodes::lemma_first_node_named_result(ns, sender@);
                }
                let mut msg2: Message = msg;
                msg2.sender_nodes.push(k);
                self.messages.push(msg2);
                self.nodes[k].messages_sent.push(m);
                assert(messages_view(self.messages@) =~= ms.push(
                    MessageView { sender_nodes: seq![k], ..new_message(id, name@, len) },
                ));
                assert(nodes_view(self.nodes@) =~= ns.update(
                    k as int,
                    NodeView { messages_sent: ns[k as int].messages_sent.push(m), ..ns[k as int] },
                ));
            },
        }
    }
}

/// The database after a `BO_` line (see [`bo_fields`] and [`with_message`]).
pub open spec fn message_def_result(db: DatabaseView, line: Seq<char>) -> DatabaseView {
    match bo_fields(line) {
        None => db,
        Some((id, name, len, sender)) => with_message(db, id, name, len, sender),
    }
}

/// Run-time [`bo_fields`]: identifier, name, payload length and sender of
/// a `BO_` line.
pub fn bo_fields_exec(line: &str) -> (r: Option<(u32, Vec<char>, u16, Vec<char>)>)
    ensures
        match r {
            None => bo_fields(line@) is None,
            Some((id, name, len, sender)) => bo_fields(line@) == Some((id, name@, len, sender@)),
        },
{
    let l0: Vec<char> = chars_of(line);
    let l: Vec<char> = trim_exec(&l0, CharClass::Ws(true));
    let bo: Vec<char> = chars_of("BO_");
    if !starts_with_exec(&l, &bo) {
        return None;
    }
    let stripped: Vec<char> = trim_start_pat_exec(&l, &bo);
    let after: Vec<char> = trim_exec(&stripped, CharClass::Ws(true));
    let w: usize = word_len_exec(&after, true);
    let id_v: Vec<char> = slice_of(&after, 0, w);
    assert(id_v@ =~= after@.take(w as int));
    let id: u32 = u32_or_zero_exec(&id_v);
    let tail: Vec<char> = slice_of(&after, w, after.len());
    assert(tail@ =~= after@.skip(w as int));
    let rest: Vec<char> = trim_exec(&tail, CharClass::Ws(true));
    proof {
        lemma_find_char(rest@, ':');
    }
    let c: usize = match find_exec(&rest, ':') {
        None => return None,
        Some(c) => c,
    };
    let head: Vec<char> = slice_of(&rest, 0, c);
    assert(head@ =~= rest@.take(c as int));
    let head_t: Vec<char> = trim_exec(&head, CharClass::Ws(true));
    let name: Vec<char> = trim_end_exec(&head_t, CharClass::Is(':'));
    let after_colon: Vec<char> = slice_of(&rest, c + 1, rest.len());
    assert(after_colon@ =~= rest@.skip(c + 1));
    let ac: Vec<char> = trim_exec(&after_colon, CharClass::Ws(true));
    let it: Vec<Vec<char>> = split_ws(&ac, false);
    let len: u16 = if it.len() > 0 {
        u16_or_zero_exec(&it[0])
    } else {
        0
    };
    let sender: Vec<char> = if it.len() > 1 {
        trim_end_exec(&it[1], CharClass::Is(';'))
    } else {
        Vec::new()
    };
    assert(sender@ =~= (if it@.len() > 1 {
        trim_end_by(tokens(ac@, false)[1], CharClass::Is(';'))
    } else {
        Seq::empty()
    }));
    Some((id, name, len, sender))
}

/// Decodes a `BO_` line, with or without a space before the colon:
/// `BO_ 123 NAME: 8 Node` or `BO_ 123 NAME : 8 Node`.
pub fn decode(db: &mut Database, line: &str)
    requires
        old(db).messages.len() < usize::MAX,
    ensures
        final(db)@ == message_def_result(old(db)@, line@),
{
    match bo_fields_exec(line) {
        None => {},
        Some((id, name, len, sender)) => db.add_message_if_absent(&name, id, len, &sender),
    }
}

/// The database after `CM_ BO_ <id> "comment";`: the first message with a
/// non-zero identifier `id` takes the text between the first and the last
/// quote (trailing `;` and surrounding whitespace removed first).
pub open spec fn message_comment_result(db: DatabaseView, line: Seq<char>) -> DatabaseView {
    let t = tokens(line, false);
    if t.len() < 3 || t[0] != "CM_"@ || t[1] != "BO_"@ || u32_or_zero(t[2]) == 0 {
        db
    } else {
        match between_outer_quotes(trim(trim_end_by(line, CharClass::Is(';')))) {
            None => db,
            Some(c) => match first_message_with_id(db.messages, u32_or_zero(t[2])) {
                None => db,
                Some(k) => DatabaseView {
                    messages: db.messages.update(k, MessageView { comment: c, ..db.messages[k] }),
                    ..db
                },
            },
        }
    }
}

/// Decodes a message comment: `CM_ BO_ <ID> "Comment...";`.
pub fn comments(db: &mut Database, line: &str)
    ensures
        final(db)@ == message_comment_result(old(db)@, line@),
{
    let l: Vec<char> = chars_of(line);
    let t: Vec<Vec<char>> = split_ws(&l, false);
    if t.len() < 3 || !eq_vec(&t[0], &chars_of("CM_")) || !eq_vec(&t[1], &chars_of("BO_")) {
        return;
    }
    let id: u32 = u32_or_zero_exec(&t[2]);
    if id == 0 {
        return;
    }
    let body0: Vec<char> = trim_end_exec(&l, CharClass::Is(';'));
    let body: Vec<char> = trim_exec(&body0, CharClass::Ws(true));
    match between_outer_quotes_exec(&body) {
        None => {},
        Some(c) => match find_message(&db.messages, id) {
            None => {},
            Some(k) => {
                let ghost before = messages_view(db.messages@);
                db.messages[k].comment = string_of(&c);
                assert(messages_view(db.messages@) =~= before.update(
                    k as int,
                    MessageView { comment: c@, ..before[k as int] },
                ));
            },
        },
    }
}

/// The database after `BA_ "GenMsgCycleTime" BO_ <id> <ms>;`: for a line
/// that mentions `GenMsgCycleTime`, has `BO_` as third token and a non-zero
/// identifier, the first message with that identifier takes the cycle time
/// (trailing `;` removed; 0 when not a number).
pub open spec fn cycle_time_result(db: DatabaseView, line: Seq<char>) -> DatabaseView {
    let t = tokens(line, false);
    if !contains_seq(line, "GenMsgCycleTime"@) || t.len() < 5 || t[2] != "BO_"@ || u32_or_zero(t[3]) == 0 {
        db
    } else {
        match first_message_with_id(db.messages, u32_or_zero(t[3])) {
            None => db,
            Some(k) => DatabaseView {
                messages: db.messages.update(
                    k,
                    MessageView {
                        cycle_time: number_or_zero(trim_end_by(t[4], CharClass::Is(';')), u16::MAX as nat) as u16,
                        ..db.messages[k]
                    },
                ),
                ..db
            },
        }
    }
}

/// Decodes `BA_ "GenMsgCycleTime" BO_ <ID> <ms>;`.
pub fn cycle_time(db: &mut Database, line: &str)
    ensures
        final(db)@ == cycle_time_result(old(db)@, line@),
{
    let l: Vec<char> = chars_of(line);
    if !contains_exec(&l, &chars_of("GenMsgCycleTime")) {
        return;
    }
    let t: Vec<Vec<char>> = split_ws(&l, false);
    if t.len() < 5 || !eq_vec(&t[2], &chars_of("BO_")) {
        return;
    }
    let id: u32 = u32_or_zero_exec(&t[3]);
    if id == 0 {
        return;
    }
    match find_message(&db.messages, id) {
        None => {},
        Some(k) => {
            let v: Vec<char> = trim_end_exec(&t[4], CharClass::Is(';'));
            let ct: u16 = u16_or_zero_exec(&v);
            let ghost before = messages_view(db.messages@);
            db.messages[k].cycle_time = ct;
            assert(messages_view(db.messages@) =~= before.update(
                k as int,
                MessageView { cycle_time: ct, ..before[k as int] },
            ));
        },
    }
}

} // verus!
