//! General attributes given by exact name: `BA_ "<attribute>" <value>;`.
use vstd::prelude::*;
use crate::dbc::support::{
    apply_general, general_name, general_name_exec, general_table, general_table_exec, with_general,
    Database, DatabaseView, GeneralAttr,
};
use crate::dbc::types::database::BusType;
use crate::text::{
    ascii_lower_exec, ascii_lower_seq, chars_of, eq_vec, find_char, find_exec, join_exec, join_with,
    lemma_find_char, slice_of, split_ws, tokens, trim, trim_by, trim_end_by, trim_end_exec,
    trim_exec, views, words_from, CharClass,
};

verus! {

/// The first attribute of the general table, from position `i` on, named
/// exactly `name`.
pub open spec fn attr_named(name: Seq<char>, i: nat) -> Option<GeneralAttr>
    decreases general_table().len() - i,
{
    if i >= general_table().len() {
        None
    } else if general_name(general_table()[i as int]) == name {
        Some(general_table()[i as int])
    } else {
        attr_named(name, i + 1)
    }
}

/// The value of an attribute line from the text after the attribute name:
/// a quoted value up to its closing quote (none when the quote is not
/// closed), anything else as it stands.
pub open spec fn ba_value(rest: Seq<char>) -> Option<Seq<char>> {
    if rest.len() > 0 && rest[0] == '"' {
        match find_char(rest.drop_first(), '"') {
            Some(e) => Some(rest.drop_first().take(e)),
            None => None,
        }
    } else {
        Some(rest)
    }
}

/// The database after `BA_ "<attribute>" <value>;`.
///
/// The line (trimmed, trailing `;` removed) is split on ASCII whitespace; the
/// first token must be `BA_`, the second names the attribute (quotes
/// trimmed), the remaining tokens joined by single spaces form the value
/// text ([`ba_value`]). A known attribute is then set from the value (the
/// bus type is `CanFd` when the value is `CAN FD` ignoring ASCII case);
/// everything else leaves the database unchanged.
pub open spec fn ba_line_result(db: DatabaseView, line: Seq<char>) -> DatabaseView {
    let t = tokens(trim_end_by(trim(line), CharClass::Is(';')), false);
    if t.len() < 2 || t[0] != "BA_"@ {
        db
    } else {
        let attribute = trim_by(t[1], CharClass::Is('"'));
        match ba_value(trim(join_with(t.skip(2), " "@))) {
            None => db,
            Some(v) => match attr_named(attribute, 0) {
                None => db,
                Some(a) => if a == GeneralAttr::BusType {
                    DatabaseView {
                        bustype: if ascii_lower_seq(v) == "can fd"@ {
                            BusType::CanFd
                        } else {
                            BusType::Can
                        },
                        ..db
                    }
                } else {
                    with_general(db, a, v)
                },
            },
        }
    }
}

/// Run-time [`attr_named`] from the start of the table.
fn find_named(name: &Vec<char>) -> (r: Option<GeneralAttr>)
    ensures
        r == attr_named(name@, 0),
{
    let table: Vec<GeneralAttr> = general_table_exec();
    let mut i: usize = 0;
    while i < table.len()
        invariant
            table@ == general_table(),
            i <= table.len(),
            attr_named(name@, 0) == attr_named(name@, i as nat),
        decreases table.len() - i,
    {
        let a: GeneralAttr = table[i];
        let n: Vec<char> = general_name_exec(a);
        if eq_vec(&n, name) {
            return Some(a);
        }
        i = i + 1;
    }
    None
}

/// Run-time [`ba_value`].
fn ba_value_exec(rest: &Vec<char>) -> (r: Option<Vec<char>>)
    ensures
        r matches Some(v) ==> ba_value(rest@) == Some(v@),
        r is None ==> ba_value(rest@) is None,
{
    if rest.len() > 0 && rest[0] == '"' {
        let inner: Vec<char> = slice_of(rest, 1, rest.len());
        assert(inner@ =~= rest@.drop_first());
        proof {
            lemma_find_char(inner@, '"');
        }
        match find_exec(&inner, '"') {
            Some(e) => {
                let v: Vec<char> = slice_of(&inner, 0, e);
                assert(v@ =~= inner@.take(e as int));
                Some(v)
            },
            None => None,
        }
    } else {
        let v: Vec<char> = slice_of(rest, 0, rest.len());
        assert(v@ =~= rest@);
        Some(v)
    }
}

/// Decodes a general attribute line `BA_ "<attribute>" <value>;` with the
/// attribute given by its exact name (see [`ba_line_result`]).
pub fn decode(db: &mut Database, line: &str)
    ensures
        final(db)@ == ba_line_result(old(db)@, line@),
{
    let l: Vec<char> = chars_of(line);
    let tl: Vec<char> = trim_exec(&l, CharClass::Ws(true));
    let body: Vec<char> = trim_end_exec(&tl, CharClass::Is(';'));
    let t: Vec<Vec<char>> = split_ws(&body, false);
    if t.len() < 2 || !eq_vec(&t[0], &chars_of("BA_")) {
        return;
    }
    let attribute: Vec<char> = trim_exec(&t[1], CharClass::Is('"'));
    let tail: Vec<Vec<char>> = words_from(&t, 2);
    assert(views(t@).skip(2) =~= tokens(body@, false).skip(2));
    let joined: Vec<char> = join_exec(&tail, &chars_of(" "));
    let rest: Vec<char> = trim_exec(&joined, CharClass::Ws(true));
    match ba_value_exec(&rest) {
        None => {},
        Some(v) => match find_named(&attribute) {
            None => {},
            Some(a) => {
                if a == GeneralAttr::BusType {
                    let low: Vec<char> = ascii_lower_exec(&v);
                    db.bustype = if eq_vec(&low, &chars_of("can fd")) {
                        BusType::CanFd
                    } else {
                        BusType::Can
                    };
                } else {
                    apply_general(db, a, &v);
                }
            },
        },
    }
}

} // verus!
