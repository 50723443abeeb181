//! The `VAL_` record: value descriptions of a signal.
use vstd::prelude::*;
use crate::dbc::legacy::signals::nth_or;
use crate::dbc::records::comments::{
    lemma_signal_named_in, signal_named_in, signal_named_in_exec, u32_or_zero_exec,
};
use crate::dbc::records::sg_::{gather, gather_exec};
use crate::dbc::support::messages::u32_or_zero;
use crate::dbc::types::database::messages::entry;
use crate::dbc::types::database::signals::with_signal;
use crate::dbc::types::database::{DatabaseDBC, DatabaseView};
use crate::dbc::types::entities::{table_view, SignalView};
use crate::text::{
    ascii_lower_exec, ascii_lower_seq, chars_of, eq_vec, parse_i32, parse_signed, slice_of, split_ws, string_of,
    tokens, trim_by, trim_exec, views, CharClass,
};

verus! {

/// Table `t` (ordered by value, each value once) with description `d` for
/// value `k`, replacing an earlier one.
pub open spec fn sorted_insert(t: Seq<(i64, Seq<char>)>, k: i64, d: Seq<char>) -> Seq<(i64, Seq<char>)>
    decreases t.len(),
{
    if t.len() == 0 {
        seq![(k, d)]
    } else if t[0].0 == k {
        seq![(k, d)] + t.drop_first()
    } else if k < t[0].0 {
        seq![(k, d)] + t
    } else {
        seq![t[0]] + sorted_insert(t.drop_first(), k, d)
    }
}

pub proof fn lemma_gather_moves(it: Seq<Seq<char>>, pos: int, acc: Seq<char>, close: char)
    ensures
        gather(it, pos, acc, close).1 >= pos,
        gather(it, pos, acc, close).1 == pos || gather(it, pos, acc, close).1 <= it.len(),
    decreases it.len() - pos,
{
    if !((acc.len() > 0 && acc.last() == close) || pos < 0 || pos >= it.len()) {
        lemma_gather_moves(it, pos + 1, acc + seq![' '] + it[pos], close);
    }
}

/// The value/description pairs written from word `pos` on, added to table
/// `t`: each value is an `i32` followed by a quoted description (which may
/// span several words); a word ending in `;`, a value that is not an `i32`
/// or a description without its opening quote ends the pairs. A value at the
/// end of the line gets an empty description.
pub open spec fn val_pairs(it: Seq<Seq<char>>, pos: int, t: Seq<(i64, Seq<char>)>) -> Seq<(i64, Seq<char>)>
    decreases it.len() + 1 - pos,
{
    if pos < 0 || pos >= it.len() {
        t
    } else {
        let w = it[pos];
        if w.len() > 0 && w.last() == ';' {
            t
        } else {
            match parse_signed(w, i32::MIN as int, i32::MAX as int) {
                None => t,
                Some(v) => if pos + 1 < it.len() {
                    let d = it[pos + 1];
                    if d.len() > 0 && d[0] == '"' {
                        let g = gather(it, pos + 2, d, '"');
                        proof {
                            lemma_gather_moves(it, pos + 2, d, '"');
                            assert(g.1 >= pos + 2);
                        }
                        val_pairs(it, g.1, sorted_insert(t, v as i64, trim_by(g.0, CharClass::Is('"'))))
                    } else {
                        t
                    }
                } else {
                    sorted_insert(t, v as i64, Seq::empty())
                },
            }
        }
    }
}

/// The database after `VAL_ <id> <signal> <value> "<desc>" ... ;` (keyword
/// case ignored): the first signal named exactly `<signal>` of the message
/// with that identifier takes the table of the pairs, ordered by value.
pub open spec fn value_table_result(db: DatabaseView, line: Seq<char>) -> DatabaseView {
    let it = tokens(line, false);
    if it.len() < 3 || ascii_lower_seq(it[0]) != "val_"@ {
        db
    } else {
        match entry(db.msg_by_id, u32_or_zero(it[1])) {
            None => db,
            Some(mk) => if !db.messages.contains_key(mk) {
                db
            } else {
                match signal_named_in(db, db.messages[mk].signals, it[2], false) {
                    None => db,
                    Some(sk) => with_signal(
                        db,
                        sk,
                        SignalView { value_table: val_pairs(it, 3, Seq::empty()), ..db.signals[sk] },
                    ),
                }
            },
        }
    }
}

fn sorted_insert_exec(t: &Vec<(i64, String)>, k: i64, d: String) -> (r: Vec<(i64, String)>)
    ensures
        table_view(r@) == sorted_insert(table_view(t@), k, d@),
{
    let mut out: Vec<(i64, String)> = Vec::new();
    let mut i: usize = 0;
    let ghost tv = table_view(t@);
    assert(tv.skip(0) =~= tv);
    while i < t.len() && t[i].0 < k
        invariant
            i <= t.len(),
            tv == table_view(t@),
            table_view(out@) + sorted_insert(tv.skip(i as int), k, d@) == sorted_insert(tv, k, d@),
        decreases t.len() - i,
    {
        let ghost before = table_view(out@);
        let e: (i64, String) = (t[i].0, crate::dbc::types::entities::copy_string(&t[i].1));
        out.push(e);
        assert(tv.skip(i as int)[0] == tv[i as int]);
        assert(tv.skip(i as int).drop_first() =~= tv.skip(i + 1));
        assert(table_view(out@) =~= before.push(tv[i as int]));
        assert(before.push(tv[i as int]) + sorted_insert(tv.skip(i + 1), k, d@) =~= before + (seq![tv[i as int]]
            + sorted_insert(tv.skip(i + 1), k, d@)));
        i = i + 1;
    }
    let ghost before = table_view(out@);
    let ghost dv = d@;
    out.push((k, d));
    assert(table_view(out@) =~= before.push((k, dv)));
    let mut j: usize = if i < t.len() && t[i].0 == k {
        i + 1
    } else {
        i
    };
    proof {
        if i < t.len() {
            assert(tv.skip(i as int)[0] == tv[i as int]);
            if t@[i as int].0 == k {
                assert(tv.skip(i as int).drop_first() =~= tv.skip(i + 1));
            }
        }
        assert(table_view(out@) + tv.skip(j as int) =~= sorted_insert(tv, k, dv));
    }
    while j < t.len()
        invariant
            j <= t.len(),
            tv == table_view(t@),
            table_view(out@) + tv.skip(j as int) == sorted_insert(tv, k, dv),
        decreases t.len() - j,
    {
        let ghost b2 = table_view(out@);
        let e: (i64, String) = (t[j].0, crate::dbc::types::entities::copy_string(&t[j].1));
        out.push(e);
        assert(table_view(out@) =~= b2.push(tv[j as int]));
        assert(b2.push(tv[j as int]) + tv.skip(j + 1) =~= b2 + tv.skip(j as int));
        j = j + 1;
    }
    assert(table_view(out@) + tv.skip(t.len() as int) =~= table_view(out@));
    out
}

fn val_pairs_exec(it: &Vec<Vec<char>>) -> (r: Vec<(i64, String)>)
    requires
        it.len() >= 3,
    ensures
        table_view(r@) == val_pairs(views(it@), 3, Seq::empty()),
{
    let mut t: Vec<(i64, String)> = Vec::new();
    let mut pos: usize = 3;
    assert(table_view(t@) =~= Seq::<(i64, Seq<char>)>::empty());
    loop
        invariant
            3 <= pos <= it.len(),
            val_pairs(views(it@), 3, Seq::empty()) == val_pairs(views(it@), pos as int, table_view(t@)),
        decreases it.len() - pos,
    {
        if pos >= it.len() {
            return t;
        }
        let w: &Vec<char> = &it[pos];
        assert(views(it@)[pos as int] == w@);
        if w.len() > 0 && w[w.len() - 1] == ';' {
            return t;
        }
        let v: i32 = match parse_i32(w) {
            None => return t,
            Some(v) => v,
        };
        if pos + 1 < it.len() {
            let d: &Vec<char> = &it[pos + 1];
            assert(views(it@)[pos + 1] == d@);
            if d.len() > 0 && d[0] == '"' {
                let d0: Vec<char> = slice_of(d, 0, d.len());
                assert(d0@ =~= d@);
                let (acc, q) = gather_exec(it, pos + 2, d0, '"');
                proof {
                    lemma_gather_moves(views(it@), pos + 2, d@, '"');
                }
                let desc: Vec<char> = trim_exec(&acc, CharClass::Is('"'));
                t = sorted_insert_exec(&t, v as i64, string_of(&desc));
                pos = q;
            } else {
                return t;
            }
        } else {
            t = sorted_insert_exec(&t, v as i64, String::new());
            return t;
        }
    }
}

/// Decodes `VAL_ <MessageID> <SignalName> <value> "<desc>" ... ;`, the value
/// descriptions of a signal.
pub fn decode(db: &mut DatabaseDBC, line: &str)
    requires
        old(db).wf(),
    ensures
        final(db).wf(),
        final(db).entity_count() == old(db).entity_count(),
        final(db)@ == value_table_result(old(db)@, line@),
{
    let l: Vec<char> = chars_of(line);
    let it: Vec<Vec<char>> = split_ws(&l, false);
    if it.len() < 3 {
        return;
    }
    assert(views(it@)[0] == it@[0]@ && views(it@)[1] == it@[1]@ && views(it@)[2] == it@[2]@);
    let k0: Vec<char> = ascii_lower_exec(&it[0]);
    if !eq_vec(&k0, &chars_of("val_")) {
        return;
    }
    let id: u32 = u32_or_zero_exec(&it[1]);
    let table: Vec<(i64, String)> = val_pairs_exec(&it);
    let mk = match db.get_msg_key_by_id(&id) {
        None => return,
        Some(mk) => mk,
    };
    let sk = match db.get_message_by_key(mk) {
        None => return,
        Some(m) => signal_named_in_exec(db, &m.signals, &it[2], false),
    };
    proof {
        lemma_signal_named_in(db@, db@.messages[mk].signals, it@[2]@, false);
    }
    match sk {
        None => {},
        Some(sk) => db.set_signal_value_table(sk, table),
    }
}

} // verus!
