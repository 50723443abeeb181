//! The `CM_` records: comments of the network, a message, a signal or a node.
use vstd::prelude::*;
use crate::dbc::support::basic_info::{between_outer_quotes, between_outer_quotes_exec};
use crate::dbc::support::messages::u32_or_zero;
use crate::dbc::types::database::messages::entry;
use crate::dbc::types::database::signals::with_signal;
use crate::dbc::types::database::{DatabaseDBC, DatabaseView};
use crate::dbc::types::entities::{MessageView, NodeView, SignalView};
use crate::dbc::types::keys::SignalKey;
use crate::text::{
    ascii_lower_exec, ascii_lower_seq, chars_of, eq_vec, parse_u32, slice_of, split_ws, starts_with, starts_with_exec,
    string_of, tokens, trim, trim_by, trim_end_by, trim_end_exec, trim_exec, unicode_lowercase, views, CharClass,
};

verus! {

pub fn u32_or_zero_exec(t: &Vec<char>) -> (r: u32)
    ensures
        r == u32_or_zero(t@),
{
    match parse_u32(t) {
        Some(x) => x,
        None => 0,
    }
}

/// The database after the network comment `CM_ "...";`: the text between
/// the first and the last quote (trailing `;` removed first), when there
/// are two quotes.
pub open spec fn network_comment_result(db: DatabaseView, line: Seq<char>) -> DatabaseView {
    match between_outer_quotes(trim_end_by(line, CharClass::Is(';'))) {
        Some(c) => DatabaseView { comment: c, ..db },
        None => db,
    }
}

/// Decodes the network comment `CM_ "Comment regarding the network";`.
pub fn cm_(db: &mut DatabaseDBC, line: &str)
    requires
        old(db).wf(),
    ensures
        final(db).wf(),
        final(db).entity_count() == old(db).entity_count(),
        final(db)@ == network_comment_result(old(db)@, line@),
{
    let l: Vec<char> = chars_of(line);
    let s: Vec<char> = trim_end_exec(&l, CharClass::Is(';'));
    if let Some(c) = between_outer_quotes_exec(&s) {
        db.comment = string_of(&c);
    }
}

/// The database after `CM_ BO_ <id> "comment";`: for a non-zero identifier
/// the message with it, when present, takes the text between the first and
/// the last quote (trailing `;` and surrounding whitespace removed first).
pub open spec fn message_comment_result(db: DatabaseView, line: Seq<char>) -> DatabaseView {
    let t = tokens(line, false);
    if t.len() < 3 || t[0] != "CM_"@ || t[1] != "BO_"@ || u32_or_zero(t[2]) == 0 {
        db
    } else {
        match between_outer_quotes(trim(trim_end_by(line, CharClass::Is(';')))) {
            None => db,
            Some(c) => match entry(db.msg_by_id, u32_or_zero(t[2])) {
                Some(mk) => if db.messages.contains_key(mk) {
                    DatabaseView { messages: db.messages.insert(mk, MessageView { comment: c, ..db.messages[mk] }), ..db }
                } else {
                    db
                },
                None => db,
            },
        }
    }
}

/// Decodes a message comment: `CM_ BO_ <id> "Comment...";`.
pub fn cm_bo_(db: &mut DatabaseDBC, line: &str)
    requires
        old(db).wf(),
    ensures
        final(db).wf(),
        final(db).entity_count() == old(db).entity_count(),
        final(db)@ == message_comment_result(old(db)@, line@),
{
    let l: Vec<char> = chars_of(line);
    let t: Vec<Vec<char>> = split_ws(&l, false);
    if t.len() >= 3 {
        assert(views(t@)[0] == t@[0]@ && views(t@)[1] == t@[1]@ && views(t@)[2] == t@[2]@);
    }
    if t.len() < 3 || !eq_vec(&t[0], &chars_of("CM_")) || !eq_vec(&t[1], &chars_of("BO_")) {
        return;
    }
    let id: u32 = u32_or_zero_exec(&t[2]);
    if id == 0 {
        return;
    }
    let body0: Vec<char> = trim_end_exec(&l, CharClass::Is(';'));
    let body: Vec<char> = trim_exec(&body0, CharClass::Ws(true));
    match between_outer_quotes_exec(&body) {
        None => {},
        Some(c) => match db.get_msg_key_by_id(&id) {
            None => {},
            Some(mk) => db.set_message_comment(mk, string_of(&c)),
        },
    }
}

/// Are the names equal, ignoring ASCII case when `fold` is set?
pub open spec fn same_name(a: Seq<char>, b: Seq<char>, fold: bool) -> bool {
    if fold {
        ascii_lower_seq(a) == ascii_lower_seq(b)
    } else {
        a == b
    }
}

/// The first of the signals `ks` (present in `db`) named `name` (ASCII case
/// ignored when `fold` is set).
pub open spec fn signal_named_in(db: DatabaseView, ks: Seq<SignalKey>, name: Seq<char>, fold: bool) -> Option<SignalKey>
    decreases ks.len(),
{
    if ks.len() == 0 {
        None
    } else if db.signals.contains_key(ks[0]) && same_name(db.signals[ks[0]].name, name, fold) {
        Some(ks[0])
    } else {
        signal_named_in(db, ks.drop_first(), name, fold)
    }
}

/// The database after `CM_ SG_ <id> <signal> "comment";` (keyword case
/// ignored): within the message with that identifier, the first signal of
/// that name (ASCII case ignored, surrounding quotes removed) takes the text
/// between the first and the last quote of the line.
pub open spec fn signal_comment_result(db: DatabaseView, text: Seq<char>) -> DatabaseView {
    let p = tokens(text, false);
    if !starts_with(ascii_lower_seq(text), "cm_ sg_"@) || p.len() < 4 {
        db
    } else {
        match entry(db.msg_by_id, u32_or_zero(p[2])) {
            None => db,
            Some(mk) => if !db.messages.contains_key(mk) {
                db
            } else {
                match signal_named_in(db, db.messages[mk].signals, trim_by(p[3], CharClass::Is('"')), true) {
                    None => db,
                    Some(sk) => match between_outer_quotes(text) {
                        None => db,
                        Some(c) => with_signal(db, sk, SignalView { comment: c, ..db.signals[sk] }),
                    },
                }
            },
        }
    }
}

pub proof fn lemma_signal_named_in(db: DatabaseView, ks: Seq<SignalKey>, name: Seq<char>, fold: bool)
    ensures
        signal_named_in(db, ks, name, fold) matches Some(k) ==> db.signals.contains_key(k),
    decreases ks.len(),
{
    if ks.len() > 0 {
        lemma_signal_named_in(db, ks.drop_first(), name, fold);
    }
}

/// Run-time [`signal_named_in`].
pub fn signal_named_in_exec(db: &DatabaseDBC, ks: &Vec<SignalKey>, name: &Vec<char>, fold: bool) -> (r: Option<SignalKey>)
    ensures
        r == signal_named_in(db@, ks@, name@, fold),
{
    let lname: Vec<char> = if fold {
        ascii_lower_exec(name)
    } else {
        slice_of(name, 0, name.len())
    };
    assert(fold ==> lname@ == ascii_lower_seq(name@));
    assert(!fold ==> lname@ =~= name@);
    let mut i: usize = 0;
    assert(ks@.skip(0) =~= ks@);
    while i < ks.len()
        invariant
            i <= ks.len(),
            fold ==> lname@ == ascii_lower_seq(name@),
            !fold ==> lname@ == name@,
            signal_named_in(db@, ks@, name@, fold) == signal_named_in(db@, ks@.skip(i as int), name@, fold),
        decreases ks.len() - i,
    {
        assert(ks@.skip(i as int)[0] == ks@[i as int]);
        match db.get_sig_by_key(ks[i]) {
            Some(s) => {
                let n: Vec<char> = chars_of(s.name.as_str());
                let ln: Vec<char> = if fold {
                    ascii_lower_exec(&n)
                } else {
                    n
                };
                if eq_vec(&ln, &lname) {
                    return Some(ks[i]);
                }
            },
            None => {},
        }
        assert(ks@.skip(i as int).drop_first() =~= ks@.skip(i + 1));
        i = i + 1;
    }
    None
}

/// Decodes a signal comment: `CM_ SG_ <message id> <signal name> "Comment...";`.
pub fn cm_sg_(db: &mut DatabaseDBC, text: &str)
    requires
        old(db).wf(),
    ensures
        final(db).wf(),
        final(db).entity_count() == old(db).entity_count(),
        final(db)@ == signal_comment_result(old(db)@, text@),
{
    let l: Vec<char> = chars_of(text);
    let lower: Vec<char> = ascii_lower_exec(&l);
    if !starts_with_exec(&lower, &chars_of("cm_ sg_")) {
        return;
    }
    let p: Vec<Vec<char>> = split_ws(&l, false);
    if p.len() < 4 {
        return;
    }
    assert(views(p@)[2] == p@[2]@ && views(p@)[3] == p@[3]@);
    let id: u32 = u32_or_zero_exec(&p[2]);
    let name: Vec<char> = trim_exec(&p[3], CharClass::Is('"'));
    let mk = match db.get_msg_key_by_id(&id) {
        None => return,
        Some(mk) => mk,
    };
    let sk: Option<SignalKey> = match db.get_message_by_key(mk) {
        None => return,
        Some(m) => signal_named_in_exec(db, &m.signals, &name, true),
    };
    proof {
        lemma_signal_named_in(db@, db@.messages[mk].signals, name@, true);
    }
    match sk {
        None => {},
        Some(sk) => match between_outer_quotes_exec(&l) {
            None => {},
            Some(c) => db.set_signal_comment(sk, string_of(&c)),
        },
    }
}

/// The database after `CM_ BU_ <node> "comment";`: the node of that name
/// (compared in lower case), when present, takes the text between the
/// first and the last quote of the line.
pub open spec fn node_comment_result(db: DatabaseView, line: Seq<char>) -> DatabaseView {
    let t = tokens(line, false);
    if t.len() < 3 || t[0] != "CM_"@ || t[1] != "BU_"@ {
        db
    } else {
        match between_outer_quotes(line) {
            None => db,
            Some(c) => match entry(db.node_by_name, unicode_lowercase(t[2])) {
                Some(nk) => if db.nodes.contains_key(nk) {
                    DatabaseView { nodes: db.nodes.insert(nk, NodeView { comment: c, ..db.nodes[nk] }), ..db }
                } else {
                    db
                },
                None => db,
            },
        }
    }
}

/// Decodes a node comment: `CM_ BU_ <node name> "Comment...";`.
pub fn cm_bu_(db: &mut DatabaseDBC, line: &str)
    requires
        old(db).wf(),
    ensures
        final(db).wf(),
        final(db).entity_count() == old(db).entity_count(),
        final(db)@ == node_comment_result(old(db)@, line@),
{
    let l: Vec<char> = chars_of(line);
    let t: Vec<Vec<char>> = split_ws(&l, false);
    if t.len() >= 3 {
        assert(views(t@)[0] == t@[0]@ && views(t@)[1] == t@[1]@ && views(t@)[2] == t@[2]@);
    }
    if t.len() < 3 || !eq_vec(&t[0], &chars_of("CM_")) || !eq_vec(&t[1], &chars_of("BU_")) {
        return;
    }
    match between_outer_quotes_exec(&l) {
        None => {},
        Some(c) => {
            let name: String = string_of(&t[2]);
            match db.get_node_key_by_name(name.as_str()) {
                None => {},
                Some(nk) => db.set_node_comment(nk, string_of(&c)),
            }
        },
    }
}

} // verus!
