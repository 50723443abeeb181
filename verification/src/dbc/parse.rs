//! Reading a DBC file into the keyed database.
//!
//! The file is taken line by line (each line ends at `\n`); each line is
//! decoded as Windows-1252, a handful of German characters are written in
//! ASCII (`ü` → `u`, `ß` → `ss`, ...) and trailing `\r`/`\n` are dropped.
//! Each record is then decoded by its keyword; comments on signals and nodes
//! may run over several lines. Finally the order lists and the key lists of
//! every entity are sorted by name.
use vstd::prelude::*;
use encoding_rs::WINDOWS_1252;
use crate::dbc::legacy::signals::nth_or;
use crate::dbc::legacy::version::version_text;
use crate::dbc::records::attributes::{
    attr_def_result, attr_default_result, attr_value_result, node_value_result, object_def_result, rel_def_result,
    rel_default_result, rel_value_result, signal_value_result, AttrObject,
};
use crate::dbc::records::bo_::message_def_outcome;
use crate::dbc::records::bo_tx_bu_::tx_senders_result;
use crate::dbc::records::bu_::node_list_outcome;
use crate::dbc::records::comments::{
    message_comment_result, network_comment_result, node_comment_result, signal_comment_result,
};
use crate::dbc::records::sg_::sg_outcome;
use crate::dbc::records::sig_valtype_::valtype_result;
use crate::dbc::records::val_::value_table_result;
use crate::dbc::records;
use crate::dbc::types::arena::ARENA_CAPACITY;
use crate::dbc::types::database::sorting::{
    message_lists_sorted, messages_by_name, node_lists_sorted, nodes_by_name, signal_lists_sorted,
    signals_by_name, SortMode,
};
use crate::dbc::types::database::{empty_view, BusType, DatabaseDBC, DatabaseView};
use crate::dbc::types::database::laws::{law_messages_sorted_by_name, law_nodes_sorted_by_name, law_signals_sorted_by_name};
use crate::dbc::types::errors::DbcParseError;
use crate::dbc::types::sorting::lex_lt;
use crate::dbc::types::keys::{MessageKey, NodeKey, SignalKey};
use crate::strings::{accumulate_until_two_unescaped_quotes, accumulated, line_views, unescaped_quotes};
use crate::text::{
    ascii_lower_seq, chars_of, chars_of_string, ends_with, ends_with_exec, eq_vec, push_char, split_ws, starts_with,
    starts_with_exec, string_of, tokens, trim_end_by, trim_end_exec, trim_start_by, trim_start_exec, views,
    CharClass,
};

verus! {

// ---------------------------------------------------------------------------
// Lines of the file
// ---------------------------------------------------------------------------

/// The lines of a file as `read_until(b'\n')` yields them: each ends with
/// its `\n`, except perhaps the last; there is no empty last line.
pub open spec fn byte_lines(raw: Seq<u8>) -> Seq<Seq<u8>>
    decreases raw.len(),
{
    if raw.len() == 0 {
        seq![]
    } else {
        let n = newline_end(raw);
        proof {
            lemma_newline_end(raw);
        }
        seq![raw.take(n)] + byte_lines(raw.skip(n))
    }
}

/// The length of the first line of `raw`: up to and including the first
/// `\n`, or all of it.
pub open spec fn newline_end(raw: Seq<u8>) -> int
    decreases raw.len(),
{
    if raw.len() == 0 {
        0
    } else if raw[0] == 10u8 {
        1
    } else {
        1 + newline_end(raw.drop_first())
    }
}

pub proof fn lemma_newline_end(raw: Seq<u8>)
    ensures
        raw.len() > 0 ==> 1 <= newline_end(raw) <= raw.len(),
        raw.len() == 0 ==> newline_end(raw) == 0,
    decreases raw.len(),
{
    if raw.len() > 0 && raw[0] != 10u8 {
        lemma_newline_end(raw.drop_first());
    }
}

fn newline_end_exec(raw: &Vec<u8>, from: usize) -> (r: usize)
    requires
        from <= raw.len(),
    ensures
        r == newline_end(raw@.skip(from as int)),
        from + r <= raw.len(),
{
    let mut j: usize = from;
    assert(raw@.skip(from as int).skip(0) =~= raw@.skip(from as int));
    while j < raw.len() && raw[j] != 10u8
        invariant
            from <= j <= raw.len(),
            forall|k: int| from <= k < j ==> raw@[k] != 10u8,
            newline_end(raw@.skip(from as int)) == (j - from) + newline_end(raw@.skip(j as int)),
        decreases raw.len() - j,
    {
        assert(raw@.skip(j as int).drop_first() =~= raw@.skip(j + 1));
        j = j + 1;
    }
    if j < raw.len() {
        assert(raw@.skip(j as int)[0] == raw@[j as int]);
        j + 1 - from
    } else {
        j - from
    }
}

/// Splits the bytes of a file into its lines (see [`byte_lines`]).
pub fn split_lines(raw: &Vec<u8>) -> (r: Vec<Vec<u8>>)
    ensures
        r@.map_values(|l: Vec<u8>| l@) == byte_lines(raw@),
{
    let mut out: Vec<Vec<u8>> = Vec::new();
    let mut i: usize = 0;
    assert(raw@.skip(0) =~= raw@);
    while i < raw.len()
        invariant
            i <= raw.len(),
            out@.map_values(|l: Vec<u8>| l@) + byte_lines(raw@.skip(i as int)) == byte_lines(raw@),
        decreases raw.len() - i,
    {
        let n: usize = newline_end_exec(raw, i);
        proof {
            lemma_newline_end(raw@.skip(i as int));
        }
        let mut line: Vec<u8> = Vec::new();
        let mut k: usize = 0;
        while k < n
            invariant
                k <= n,
                i + n <= raw.len(),
                line@ == raw@.subrange(i as int, i + k),
            decreases n - k,
        {
            line.push(raw[i + k]);
            assert(raw@.subrange(i as int, i + k + 1) =~= raw@.subrange(i as int, i + k).push(raw@[i + k]));
            k = k + 1;
        }
        let ghost before = out@.map_values(|l: Vec<u8>| l@);
        let ghost lv = line@;
        out.push(line);
        proof {
            let s = raw@.skip(i as int);
            assert(lv =~= s.take(n as int));
            assert(s.skip(n as int) =~= raw@.skip(i + n));
            assert(out@.map_values(|l: Vec<u8>| l@) =~= before.push(lv));
            assert(before.push(lv) + byte_lines(raw@.skip(i + n)) =~= before + (seq![lv] + byte_lines(
                raw@.skip(i + n),
            )));
        }
        i = i + n;
    }
    assert(raw@.skip(raw.len() as int) =~= Seq::<u8>::empty());
    assert(out@.map_values(|l: Vec<u8>| l@) + Seq::<Seq<u8>>::empty() =~= out@.map_values(|l: Vec<u8>| l@));
    out
}

/// The text `Encoding::decode` gives for `bytes` with Windows-1252 as the
/// encoding to use when no byte order mark says otherwise.
pub uninterp spec fn windows_1252_text(bytes: Seq<u8>) -> Seq<char>;

/// `encoding_rs::WINDOWS_1252.decode`: the text of the bytes (a UTF-8 or
/// UTF-16 byte order mark selects that encoding; malformed sequences become
/// U+FFFD). Nothing more is stated of the text than its name.
#[verifier::external_body]
fn decode_windows_1252(bytes: &Vec<u8>) -> (r: String)
    ensures
        r@ == windows_1252_text(bytes@),
{
    WINDOWS_1252.decode(bytes.as_slice()).0.into_owned()
}

/// The German characters written in ASCII: `ü ö ä Ü Ö Ä` lose their umlaut,
/// `ß` becomes `ss` and `¿` becomes `?`.
pub open spec fn transliterated(s: Seq<char>) -> Seq<char>
    decreases s.len(),
{
    if s.len() == 0 {
        s
    } else {
        let c = s.last();
        let t = if c == 'ü' {
            seq!['u']
        } else if c == 'ö' {
            seq!['o']
        } else if c == 'ä' {
            seq!['a']
        } else if c == 'ß' {
            seq!['s', 's']
        } else if c == 'Ü' {
            seq!['U']
        } else if c == 'Ö' {
            seq!['O']
        } else if c == 'Ä' {
            seq!['A']
        } else if c == '¿' {
            seq!['?']
        } else {
            seq![c]
        };
        transliterated(s.drop_last()) + t
    }
}

/// A decoded line ready for parsing: transliterated, trailing `\r` and
/// `\n` dropped.
pub open spec fn clean_line(decoded: Seq<char>) -> Seq<char> {
    trim_end_by(transliterated(decoded), CharClass::Either('\n', '\r'))
}

/// Run-time [`clean_line`].
pub fn clean_line_exec(decoded: &String) -> (r: String)
    ensures
        r@ == clean_line(decoded@),
{
    let v: Vec<char> = chars_of_string(decoded);
    let mut out: Vec<char> = Vec::new();
    let mut i: usize = 0;
    while i < v.len()
        invariant
            i <= v.len(),
            out@ == transliterated(v@.take(i as int)),
        decreases v.len() - i,
    {
        let c: char = v[i];
        assert(v@.take(i + 1).drop_last() =~= v@.take(i as int));
        let ghost before = out@;
        if c == 'ü' {
            out.push('u');
        } else if c == 'ö' {
            out.push('o');
        } else if c == 'ä' {
            out.push('a');
        } else if c == 'ß' {
            out.push('s');
            out.push('s');
        } else if c == 'Ü' {
            out.push('U');
        } else if c == 'Ö' {
            out.push('O');
        } else if c == 'Ä' {
            out.push('A');
        } else if c == '¿' {
            out.push('?');
        } else {
            out.push(c);
        }
        assert(out@ =~= transliterated(v@.take(i + 1)));
        i = i + 1;
    }
    assert(v@.take(v.len() as int) =~= v@);
    let t: Vec<char> = trim_end_exec(&out, CharClass::Either('\n', '\r'));
    string_of(&t)
}

// ---------------------------------------------------------------------------
// Records
// ---------------------------------------------------------------------------

/// A comment that may run over several lines: `CM_ SG_` or `CM_ BU_`.
pub open spec fn is_spanning_comment(l: Seq<char>) -> bool {
    let t = tokens(l, false);
    t.len() >= 2 && t[0] == "CM_"@ && (t[1] == "SG_"@ || t[1] == "BU_"@)
}

/// The last line a spanning comment starting at line `i` takes: the first
/// line `j` from the one given on at which the text holds two unescaped
/// quotes, or the last line of the file.
pub open spec fn comment_end(acc: Seq<char>, ls: Seq<Seq<char>>, i: int, j: int) -> int
    decreases ls.len() - j,
{
    if j < i || unescaped_quotes(accumulated(acc, ls, i, j)) >= 2 || j + 1 >= ls.len() {
        j
    } else {
        comment_end(acc, ls, i, j + 1)
    }
}

pub proof fn lemma_comment_end_bounds(acc: Seq<char>, ls: Seq<Seq<char>>, i: int, j: int)
    ensures
        comment_end(acc, ls, i, j) >= j,
        j < ls.len() ==> comment_end(acc, ls, i, j) < ls.len(),
    decreases ls.len() - j,
{
    if !(j < i || unescaped_quotes(accumulated(acc, ls, i, j)) >= 2 || j + 1 >= ls.len()) {
        lemma_comment_end_bounds(acc, ls, i, j + 1);
    }
}

proof fn lemma_comment_end(acc: Seq<char>, ls: Seq<Seq<char>>, i: int, j: int, f: int)
    requires
        i <= j <= f < ls.len(),
        forall|k: int| i <= k < f ==> unescaped_quotes(#[trigger] accumulated(acc, ls, i, k)) < 2,
        unescaped_quotes(accumulated(acc, ls, i, f)) >= 2 || f + 1 >= ls.len(),
    ensures
        comment_end(acc, ls, i, j) == f,
    decreases f - j,
{
    if j < f {
        assert(unescaped_quotes(accumulated(acc, ls, i, j)) < 2);
        lemma_comment_end(acc, ls, i, j + 1, f);
    }
}

/// The records of the file from line `i` on, each as its first line (with
/// leading whitespace removed) and its whole text: a spanning comment
/// without its closing quote is joined with the following lines (see
/// [`accumulated`]); any other record is its line.
pub open spec fn records_from(ls: Seq<Seq<char>>, i: int) -> Seq<(Seq<char>, Seq<char>)>
    decreases ls.len() - i,
{
    if i < 0 || i >= ls.len() {
        seq![]
    } else {
        let l = trim_start_by(ls[i], CharClass::Ws(true));
        if is_spanning_comment(l) && unescaped_quotes(l) < 2 {
            let j = comment_end(l, ls, i, i);
            proof {
                lemma_comment_end_bounds(l, ls, i, i);
            }
            seq![(l, accumulated(l, ls, i, j))] + records_from(ls, j + 1)
        } else {
            seq![(l, l)] + records_from(ls, i + 1)
        }
    }
}

/// What one record does to `db`, giving `after`, by the first word of its
/// first line `head` (and, for `CM_`, `BA_DEF_` and `BA_`, the second or
/// third); the decoders read its whole text `rec`. `VERSION`, `BU_:` or `BU_`, `BO_`,
/// `SG_`, `BO_TX_BU_`, `CM_` (network, `BO_`, `SG_`, `BU_`), `VAL_`,
/// `SIG_VALTYPE_` and the database attribute records `BA_DEF_`,
/// `BA_DEF_DEF_` and `BA_`, the definitions of node, message and signal
/// attributes (`BA_DEF_ BU_|BO_|SG_`) and node and signal attribute values
/// (`BA_ ... BU_`, `BA_ ... SG_`) and the relation attribute definitions,
/// defaults and values (`BA_DEF_REL_`, `BA_DEF_DEF_REL_`, `BA_REL_`) are
/// decoded; message attribute values (`BA_ ... BO_`), empty lines, `//`
/// comments and other records change nothing.
pub open spec fn record_outcome(db: DatabaseView, head: Seq<char>, rec: Seq<char>, after: DatabaseView) -> bool {
    let t = tokens(head, false);
    let first = nth_or(t, 0, ""@);
    let second = nth_or(t, 1, ""@);
    if head.len() == 0 || starts_with(head, "//"@) {
        after == db
    } else if first == "VERSION"@ {
        after == DatabaseView { version: version_text(rec), ..db }
    } else if first == "BU_:"@ || first == "BU_"@ {
        node_list_outcome(db, rec, after)
    } else if first == "BO_"@ {
        message_def_outcome(db, rec, after)
    } else if first == "SG_"@ {
        sg_outcome(db, rec, after)
    } else if first == "BO_TX_BU_"@ {
        after == tx_senders_result(db, rec)
    } else if first == "CM_"@ {
        if second.len() > 0 && second[0] == '"' {
            after == network_comment_result(db, rec)
        } else if second == "BO_"@ {
            after == message_comment_result(db, rec)
        } else if second == "SG_"@ {
            after == signal_comment_result(db, rec)
        } else if second == "BU_"@ {
            after == node_comment_result(db, rec)
        } else {
            after == db
        }
    } else if first == "BA_DEF_"@ {
        if second == "BU_"@ {
            after == object_def_result(db, rec, AttrObject::Node)
        } else if second == "BO_"@ {
            after == object_def_result(db, rec, AttrObject::Message)
        } else if second == "SG_"@ {
            after == object_def_result(db, rec, AttrObject::Signal)
        } else {
            after == attr_def_result(db, rec)
        }
    } else if first == "BA_DEF_DEF_"@ {
        after == attr_default_result(db, rec)
    } else if first == "BA_DEF_REL_"@ {
        after == rel_def_result(db, rec)
    } else if first == "BA_DEF_DEF_REL_"@ {
        after == rel_default_result(db, rec)
    } else if first == "BA_REL_"@ {
        after == rel_value_result(db, rec)
    } else if first == "BA_"@ {
        let third = nth_or(t, 2, ""@);
        if third == "BU_"@ {
            after == node_value_result(db, rec)
        } else if third == "SG_"@ {
            after == signal_value_result(db, rec)
        } else if third == "BO_"@ {
            after == db
        } else {
            after == attr_value_result(db, rec)
        }
    } else if first == "VAL_"@ {
        after == value_table_result(db, rec)
    } else if first == "SIG_VALTYPE_"@ {
        after == valtype_result(db, rec)
    } else {
        after == db
    }
}

/// The database sorted for reading: the node, message and signal orders by
/// name (keys of nothing first), then the key lists of every node, message
/// and signal by name (keys of nothing last, ties by slot order).
pub open spec fn sorted_for_reading(d: DatabaseView) -> DatabaseView {
    let d1 = DatabaseView { nodes_order: nodes_by_name(d, d.nodes_order, SortMode::Ordered), ..d };
    let d2 = DatabaseView { messages_order: messages_by_name(d1, d1.messages_order, SortMode::Ordered), ..d1 };
    let d3 = DatabaseView { signals_order: signals_by_name(d2, d2.signals_order, SortMode::Ordered), ..d2 };
    let d4 = DatabaseView {
        nodes: Map::new(
            |k: NodeKey| d3.nodes.contains_key(k),
            |k: NodeKey| node_lists_sorted(d3, d3.nodes[k], SortMode::Full),
        ),
        ..d3
    };
    let d5 = DatabaseView {
        messages: Map::new(
            |k: MessageKey| d4.messages.contains_key(k),
            |k: MessageKey| message_lists_sorted(d4, d4.messages[k], SortMode::Full),
        ),
        ..d4
    };
    DatabaseView {
        signals: Map::new(
            |k: SignalKey| d5.signals.contains_key(k),
            |k: SignalKey| signal_lists_sorted(d5, d5.signals[k], SortMode::Full),
        ),
        ..d5
    }
}

/// A run of databases, one per record, each obtained from the one before
/// by that record.
pub open spec fn is_run(st: Seq<DatabaseView>, recs: Seq<(Seq<char>, Seq<char>)>) -> bool {
    &&& st.len() == recs.len() + 1
    &&& forall|i: int| 0 <= i < recs.len() ==> #[trigger] record_outcome(st[i], recs[i].0, recs[i].1, st[i + 1])
}

/// What parsing the lines `ls` gives: starting from an empty database, each
/// record in turn, then sorting for reading.
pub open spec fn parse_outcome(ls: Seq<Seq<char>>, after: DatabaseView) -> bool {
    exists|st: Seq<DatabaseView>|
        #[trigger] is_run(st, records_from(ls, 0)) && st[0] == empty_view(Seq::empty(), BusType::Can, Seq::empty())
            && after == sorted_for_reading(st.last())
}

/// The most entities the lines can make: per line, its length and two.
pub open spec fn line_budget(ls: Seq<Seq<char>>) -> nat
    decreases ls.len(),
{
    if ls.len() == 0 {
        0
    } else {
        ls[0].len() + 2 + line_budget(ls.drop_first())
    }
}

proof fn lemma_budget_skip(ls: Seq<Seq<char>>, a: int, b: int)
    requires
        0 <= a <= b <= ls.len(),
    ensures
        line_budget(ls.skip(a)) >= line_budget(ls.skip(b)),
        a < ls.len() ==> line_budget(ls.skip(a)) == ls[a].len() + 2 + line_budget(ls.skip(a + 1)),
    decreases b - a,
{
    if a < ls.len() {
        assert(ls.skip(a).drop_first() =~= ls.skip(a + 1));
    }
    if a < b {
        lemma_budget_skip(ls, a + 1, b);
    }
}

// ---------------------------------------------------------------------------
// Parsing
// ---------------------------------------------------------------------------

/// The first word of a record's first line, or the empty text.
fn word_or_empty(t: &Vec<Vec<char>>, k: usize) -> (r: Vec<char>)
    ensures
        r@ == nth_or(views(t@), k as int, ""@),
{
    if k < t.len() {
        crate::text::slice_of(&t[k], 0, t[k].len())
    } else {
        chars_of("")
    }
}

fn is_word(w: &Vec<char>, s: &str) -> (r: bool)
    ensures
        r == (w@ == s@),
{
    eq_vec(w, &chars_of(s))
}

/// Applies one record, first line `head`, whole text `rec` (see
/// [`record_outcome`]).
fn apply_record(db: &mut DatabaseDBC, head: &Vec<char>, rec: &str)
    requires
        old(db).wf(),
        old(db).entity_count() + head@.len() + 2 < ARENA_CAPACITY,
        rec@ == head@ || nth_or(tokens(head@, false), 0, ""@) == "CM_"@,
    ensures
        final(db).wf(),
        final(db).entity_count() <= old(db).entity_count() + head@.len() + 2,
        record_outcome(old(db)@, head@, rec@, final(db)@),
{
    proof {
        reveal_strlit("CM_");
        reveal_strlit("VERSION");
        reveal_strlit("BU_:");
        reveal_strlit("BU_");
        reveal_strlit("BO_");
        reveal_strlit("SG_");
        reveal_strlit("BO_TX_BU_");
        reveal_strlit("VAL_");
        reveal_strlit("SIG_VALTYPE_");
        reveal_strlit("BA_DEF_");
        reveal_strlit("BA_DEF_DEF_");
        reveal_strlit("BA_");
        assert("BA_DEF_"@.len() == 7 && "BA_DEF_DEF_"@.len() == 11 && "BA_"@.len() == 3);
        assert("BA_"@[1] == 'A');
        assert("CM_"@.len() == 3);
        assert("VERSION"@.len() == 7);
        assert("BU_:"@.len() == 4);
        assert("BO_"@[1] == 'O' && "CM_"@[1] == 'M');
        assert("SG_"@[0] == 'S' && "CM_"@[0] == 'C');
        assert("BO_TX_BU_"@.len() == 9);
        assert("VAL_"@.len() == 4);
        assert("SIG_VALTYPE_"@.len() == 12);
    }
    let t: Vec<Vec<char>> = split_ws(head, false);
    let first: Vec<char> = word_or_empty(&t, 0);
    let second: Vec<char> = word_or_empty(&t, 1);
    if head.len() == 0 || starts_with_exec(head, &chars_of("//")) {
        return;
    }
    let is_comment: bool = is_word(&first, "CM_");
    if !is_comment {
        assert(rec@ == head@);
    }
    if is_word(&first, "VERSION") {
        records::version::decode(db, rec);
    } else if is_word(&first, "BU_:") || is_word(&first, "BU_") {
        records::bu_::decode(db, rec);
    } else if is_word(&first, "BO_") {
        records::bo_::decode(db, rec);
    } else if is_word(&first, "SG_") {
        records::sg_::decode(db, rec);
    } else if is_word(&first, "BO_TX_BU_") {
        records::bo_tx_bu_::decode(db, rec);
    } else if is_word(&first, "CM_") {
        if second.len() > 0 && second[0] == '"' {
            records::comments::cm_(db, rec);
        } else if is_word(&second, "BO_") {
            records::comments::cm_bo_(db, rec);
        } else if is_word(&second, "SG_") {
            records::comments::cm_sg_(db, rec);
        } else if is_word(&second, "BU_") {
            records::comments::cm_bu_(db, rec);
        }
    } else if is_word(&first, "BA_DEF_") {
        if is_word(&second, "BU_") {
            records::attributes::ba_def_object(db, rec, AttrObject::Node);
        } else if is_word(&second, "BO_") {
            records::attributes::ba_def_object(db, rec, AttrObject::Message);
        } else if is_word(&second, "SG_") {
            records::attributes::ba_def_object(db, rec, AttrObject::Signal);
        } else {
            records::attributes::ba_def_(db, rec);
        }
    } else if is_word(&first, "BA_DEF_DEF_") {
        records::attributes::ba_def_def_(db, rec);
    } else if is_word(&first, "BA_DEF_REL_") {
        records::attributes::ba_def_rel_(db, rec);
    } else if is_word(&first, "BA_DEF_DEF_REL_") {
        records::attributes::ba_def_def_rel_(db, rec);
    } else if is_word(&first, "BA_REL_") {
        records::attributes::ba_rel_(db, rec);
    } else if is_word(&first, "BA_") {
        let third: Vec<char> = word_or_empty(&t, 2);
        if is_word(&third, "BU_") {
            records::attributes::ba_bu_(db, rec);
        } else if is_word(&third, "SG_") {
            records::attributes::ba_sg_(db, rec);
        } else if !is_word(&third, "BO_") {
            records::attributes::ba_(db, rec);
        }
    } else if is_word(&first, "VAL_") {
        records::val_::decode(db, rec);
    } else if is_word(&first, "SIG_VALTYPE_") {
        records::sig_valtype_::decode(db, rec);
    }
}

/// Sorts the database for reading (see [`sorted_for_reading`]).
pub fn sort_for_reading(db: &mut DatabaseDBC)
    requires
        old(db).wf(),
    ensures
        final(db).wf(),
        final(db).entity_count() == old(db).entity_count(),
        final(db)@ == sorted_for_reading(old(db)@),
{
    db.sort_db_nodes_by_name();
    db.sort_db_messages_by_name();
    db.sort_db_signals_by_name();
    db.sort_all_node_fields();
    db.sort_all_message_fields();
    db.sort_all_signal_fields();
}

/// Parses the (decoded, cleaned) lines of a DBC file into a database (see
/// [`parse_outcome`]). Before each record the room it may need is checked:
/// `None` when the database is too full for the next record, which happens
/// only when the lines could make more entities than it can hold (see
/// [`line_budget`]).
pub fn parse_lines(lines: &Vec<String>) -> (r: Option<DatabaseDBC>)
    ensures
        r matches Some(db) ==> db.wf() && parse_outcome(line_views(lines@), db@),
        r is None ==> line_budget(line_views(lines@)) >= ARENA_CAPACITY,
{
    let ghost ls = line_views(lines@);
    let mut db: DatabaseDBC = DatabaseDBC::new();
    let ghost mut st: Seq<DatabaseView> = seq![db@];
    let ghost mut done: Seq<(Seq<char>, Seq<char>)> = seq![];
    let mut i: usize = 0;
    assert(ls.skip(0) =~= ls);
    assert(done + records_from(ls, 0) =~= records_from(ls, 0));
    while i < lines.len()
        invariant
            i <= lines.len(),
            ls == line_views(lines@),
            db.wf(),
            db.entity_count() + line_budget(ls.skip(i as int)) <= line_budget(ls),
            records_from(ls, 0) == done + records_from(ls, i as int),
            is_run(st, done),
            st[0] == empty_view(Seq::empty(), BusType::Can, Seq::empty()),
            st.last() == db@,
        decreases lines.len() - i,
    {
        let line: Vec<char> = chars_of_string(&lines[i]);
        assert(line@ == ls[i as int]);
        let l: Vec<char> = trim_start_exec(&line, CharClass::Ws(true));
        let t: Vec<Vec<char>> = split_ws(&l, false);
        let spanning: bool = t.len() >= 2 && is_word(&t[0], "CM_") && (is_word(&t[1], "SG_") || is_word(
            &t[1],
            "BU_",
        ));
        proof {
            if t.len() >= 2 {
                assert(views(t@)[0] == t@[0]@ && views(t@)[1] == t@[1]@);
            }
            assert(spanning == is_spanning_comment(l@));
            lemma_budget_skip(ls, i as int, i as int);
            crate::text::lemma_lead_count_bound(line@, CharClass::Ws(true));
        }
        let c: usize = db.count();
        if c >= ARENA_CAPACITY - 2 || l.len() >= ARENA_CAPACITY - 2 - c {
            proof {
                lemma_budget_skip(ls, i as int, i as int);
            }
            return None;
        }
        let i0: usize = i;
        let ghost before = db@;
        let ghost c0 = db.entity_count();
        let rec: String = if spanning && crate::strings::count_unescaped_chars(&l) < 2 {
            let mut acc: String = string_of(&l);
            let sl: &[String] = lines.as_slice();
            accumulate_until_two_unescaped_quotes(&mut acc, sl, &mut i);
            proof {
                assert(line_views(sl@) == ls);
                lemma_comment_end(l@, ls, i0 as int, i0 as int, i as int);
                assert(nth_or(tokens(l@, false), 0, ""@) == "CM_"@);
            }
            acc
        } else {
            string_of(&l)
        };
        proof {
            assert(records_from(ls, i0 as int) == seq![(l@, rec@)] + records_from(ls, i + 1));
        }
        apply_record(&mut db, &l, rec.as_str());
        proof {
            lemma_budget_skip(ls, i0 as int + 1, i + 1);
            let old_st = st;
            st = st.push(db@);
            let old_done = done;
            done = done.push((l@, rec@));
            assert(records_from(ls, 0) == done + records_from(ls, i + 1)) by {
                assert(old_done + (seq![(l@, rec@)] + records_from(ls, i + 1)) =~= done + records_from(ls, i + 1));
            }
            assert forall|k: int| 0 <= k < done.len() implies #[trigger] record_outcome(
                st[k],
                done[k].0,
                done[k].1,
                st[k + 1],
            ) by {
                if k < old_done.len() {
                    assert(record_outcome(old_st[k], old_done[k].0, old_done[k].1, old_st[k + 1]));
                }
            }
        }
        i = i + 1;
    }
    assert(records_from(ls, lines.len() as int) =~= Seq::<(Seq<char>, Seq<char>)>::empty());
    assert(done =~= records_from(ls, 0));
    let ghost last = db@;
    sort_for_reading(&mut db);
    assert(is_run(st, records_from(ls, 0)));
    Some(db)
}

/// Checks the name of a DBC file: it must end in `.dbc`, or
/// [`DbcParseError::InvalidExtension`] names it.
pub fn check_dbc_path(path: &str) -> (r: Result<(), DbcParseError>)
    ensures
        r is Ok <==> ends_with(path@, ".dbc"@),
        r matches Err(DbcParseError::InvalidExtension { path: p }) ==> p@ == path@,
{
    if ends_with_exec(&chars_of(path), &chars_of(".dbc")) {
        Ok(())
    } else {
        Err(DbcParseError::InvalidExtension { path: string_of(&chars_of(path)) })
    }
}

/// Reads the bytes of a DBC file named `path` (see the module
/// documentation). `Some(Err(..))` when the path does not end in `.dbc`;
/// `None` when the database fills up before a record (see
/// [`parse_lines`]); otherwise the parsed database.
pub fn from_bytes(path: &str, raw: &Vec<u8>) -> (r: Option<Result<DatabaseDBC, DbcParseError>>)
    ensures
        !ends_with(path@, ".dbc"@) <==> (r matches Some(Err(DbcParseError::InvalidExtension { path: p })) && p@
            == path@),
        ends_with(path@, ".dbc"@) ==> {
            let ls = byte_lines(raw@).map_values(|b: Seq<u8>| clean_line(windows_1252_text(b)));
            &&& r is None ==> line_budget(ls) >= ARENA_CAPACITY
            &&& r matches Some(Ok(db)) ==> db.wf() && parse_outcome(ls, db@)
        },
{
    match check_dbc_path(path) {
        Err(e) => return Some(Err(e)),
        Ok(()) => {},
    }
    let chunks: Vec<Vec<u8>> = split_lines(raw);
    let ghost bl = byte_lines(raw@);
    let ghost target = bl.map_values(|b: Seq<u8>| clean_line(windows_1252_text(b)));
    let mut lines: Vec<String> = Vec::new();
    let mut k: usize = 0;
    while k < chunks.len()
        invariant
            k <= chunks.len(),
            chunks@.map_values(|l: Vec<u8>| l@) == bl,
            target == bl.map_values(|b: Seq<u8>| clean_line(windows_1252_text(b))),
            line_views(lines@) == target.take(k as int),
        decreases chunks.len() - k,
    {
        let decoded: String = decode_windows_1252(&chunks[k]);
        let cleaned: String = clean_line_exec(&decoded);
        let ghost before = line_views(lines@);
        let ghost cv = cleaned@;
        lines.push(cleaned);
        proof {
            assert(bl[k as int] == chunks@[k as int]@);
            assert(line_views(lines@) =~= before.push(cv));
            assert(target.take(k + 1) =~= target.take(k as int).push(target[k as int]));
        }
        k = k + 1;
    }
    assert(target.take(chunks.len() as int) =~= target);
    match parse_lines(&lines) {
        Some(db) => Some(Ok(db)),
        None => None,
    }
}

/// A database read from text lists its nodes, messages and signals in name
/// order, ASCII case ignored: none comes after one whose lower-case name
/// comes after its own.
pub proof fn law_read_database_in_name_order(ls: Seq<Seq<char>>, d: DatabaseView)
    requires
        parse_outcome(ls, d),
    ensures
        forall|i: int, j: int|
            0 <= i < j < d.nodes_order.len() && d.nodes.contains_key(#[trigger] d.nodes_order[i]) && d.nodes.contains_key(
                #[trigger] d.nodes_order[j],
            ) ==> !lex_lt(ascii_lower_seq(d.nodes[d.nodes_order[j]].name), ascii_lower_seq(d.nodes[d.nodes_order[i]].name)),
        forall|i: int, j: int|
            0 <= i < j < d.messages_order.len() && d.messages.contains_key(#[trigger] d.messages_order[i])
                && d.messages.contains_key(#[trigger] d.messages_order[j]) ==> !lex_lt(
                ascii_lower_seq(d.messages[d.messages_order[j]].name),
                ascii_lower_seq(d.messages[d.messages_order[i]].name),
            ),
        forall|i: int, j: int|
            0 <= i < j < d.signals_order.len() && d.signals.contains_key(#[trigger] d.signals_order[i])
                && d.signals.contains_key(#[trigger] d.signals_order[j]) ==> !lex_lt(
                ascii_lower_seq(d.signals[d.signals_order[j]].name),
                ascii_lower_seq(d.signals[d.signals_order[i]].name),
            ),
{
    let st = choose|st: Seq<DatabaseView>|
        #[trigger] is_run(st, records_from(ls, 0)) && st[0] == empty_view(Seq::empty(), BusType::Can, Seq::empty()) && d
            == sorted_for_reading(st.last());
    let d0 = st.last();
    law_nodes_sorted_by_name(d0, d0.nodes_order, SortMode::Ordered);
    law_messages_sorted_by_name(d0, d0.messages_order, SortMode::Ordered);
    law_signals_sorted_by_name(d0, d0.signals_order, SortMode::Ordered);
    assert forall|k: NodeKey| #[trigger] d.nodes.contains_key(k) implies d0.nodes.contains_key(k) && d.nodes[k].name
        == d0.nodes[k].name by {}
    assert forall|k: MessageKey| #[trigger] d.messages.contains_key(k) implies d0.messages.contains_key(k)
        && d.messages[k].name == d0.messages[k].name by {}
    assert forall|k: SignalKey| #[trigger] d.signals.contains_key(k) implies d0.signals.contains_key(k)
        && d.signals[k].name == d0.signals[k].name by {}
}

} // verus!
