//! General attributes found by name anywhere in a `BA_` line, and the
//! network comment (`CM_ "..."`).
use vstd::prelude::*;
use crate::dbc::support::{
    apply_general, bus_of, general_name, general_name_exec, general_table, general_table_exec,
    with_general, Database, DatabaseView, GeneralAttr,
};
use crate::text::{
    ascii_lower_exec, ascii_lower_seq, chars_of, contains_exec, contains_seq, eq_vec, extend_chars,
    find_char, lemma_find_char, lemma_rfind_char, find_exec, rfind_char, rfind_exec, slice_of,
    split_char, split_char_exec, split_ws, string_of, tokens, trim, trim_by, trim_end_by,
    trim_end_exec, trim_exec, CharClass,
};

verus! {

/// `"name"`: a name between double quotes.
pub open spec fn quoted(s: Seq<char>) -> Seq<char> {
    seq!['"'] + s + seq!['"']
}

/// The first attribute of the general table, from position `i` on, whose
/// quoted name occurs in `line`.
pub open spec fn first_mentioned(line: Seq<char>, i: nat) -> Option<GeneralAttr>
    decreases general_table().len() - i,
{
    if i >= general_table().len() {
        None
    } else if contains_seq(line, quoted(general_name(general_table()[i as int]))) {
        Some(general_table()[i as int])
    } else {
        first_mentioned(line, i + 1)
    }
}

/// Attributes whose value is text (the others are numbers or the bus type).
pub open spec fn general_is_text(a: GeneralAttr) -> bool {
    match a {
        GeneralAttr::DbName | GeneralAttr::NmType | GeneralAttr::Manufacturer
        | GeneralAttr::GenNwmTalkNm | GeneralAttr::GenNwmGotoModeBusSleep
        | GeneralAttr::GenNwmGotoModeAwake | GeneralAttr::GenNwmApCanWakeUp
        | GeneralAttr::GenNwmApCanSleep | GeneralAttr::GenNwmApCanOn
        | GeneralAttr::GenNwmApCanOff | GeneralAttr::GenNwmApCanNormal
        | GeneralAttr::GenNwmApBusSleep => true,
        _ => false,
    }
}

/// The third ASCII-whitespace-separated token of `s`.
pub open spec fn third_ascii_token(s: Seq<char>) -> Option<Seq<char>> {
    let t = tokens(s, false);
    if t.len() > 2 {
        Some(t[2])
    } else {
        None
    }
}

/// The database after a general-information line: the first attribute of
/// the table whose quoted name occurs in the line is set.
///
/// - The bus type comes from the quoted pieces of the line: when the first
///   one is `BusType` (ASCII case-insensitively), the second one decides
///   (`CAN FD` or not).
/// - Any other attribute takes the third token of the line (trailing `;`
///   removed): a number as written, a text with its quotes trimmed.
pub open spec fn general_line_result(db: DatabaseView, line: Seq<char>) -> DatabaseView {
    let body = trim_end_by(line, CharClass::Is(';'));
    match first_mentioned(line, 0) {
        None => db,
        Some(a) => if a == GeneralAttr::BusType {
            let p = split_char(trim(body), '"');
            if p.len() >= 4 && ascii_lower_seq(p[1]) == "bustype"@ {
                DatabaseView { bustype: bus_of(p[3]), ..db }
            } else {
                db
            }
        } else {
            match third_ascii_token(body) {
                None => db,
                Some(t) => with_general(
                    db,
                    a,
                    if general_is_text(a) {
                        trim_by(t, CharClass::Is('"'))
                    } else {
                        t
                    },
                ),
            }
        },
    }
}

/// Run-time [`first_mentioned`] from the start of the table.
fn find_mentioned(l: &Vec<char>) -> (r: Option<GeneralAttr>)
    ensures
        r == first_mentioned(l@, 0),
{
    let table: Vec<GeneralAttr> = general_table_exec();
    let mut i: usize = 0;
    while i < table.len()
        invariant
            table@ == general_table(),
            i <= table.len(),
            first_mentioned(l@, 0) == first_mentioned(l@, i as nat),
        decreases table.len() - i,
    {
        let a: GeneralAttr = table[i];
        let name: Vec<char> = general_name_exec(a);
        let mut q: Vec<char> = Vec::new();
        q.push('"');
        extend_chars(&mut q, &name);
        q.push('"');
        assert(q@ =~= quoted(general_name(a)));
        if contains_exec(l, &q) {
            return Some(a);
        }
        i = i + 1;
    }
    None
}

fn general_is_text_exec(a: GeneralAttr) -> (r: bool)
    ensures
        r == general_is_text(a),
{
    match a {
        GeneralAttr::DbName | GeneralAttr::NmType | GeneralAttr::Manufacturer
        | GeneralAttr::GenNwmTalkNm | GeneralAttr::GenNwmGotoModeBusSleep
        | GeneralAttr::GenNwmGotoModeAwake | GeneralAttr::GenNwmApCanWakeUp
        | GeneralAttr::GenNwmApCanSleep | GeneralAttr::GenNwmApCanOn
        | GeneralAttr::GenNwmApCanOff | GeneralAttr::GenNwmApCanNormal
        | GeneralAttr::GenNwmApBusSleep => true,
        _ => false,
    }
}

/// Run-time [`third_ascii_token`].
pub fn third_ascii_token_exec(v: &Vec<char>) -> (r: Option<Vec<char>>)
    ensures
        r matches Some(t) ==> third_ascii_token(v@) == Some(t@),
        r is None ==> third_ascii_token(v@) is None,
{
    let toks: Vec<Vec<char>> = split_ws(v, false);
    if toks.len() > 2 {
        let t: Vec<char> = slice_of(&toks[2], 0, toks[2].len());
        assert(t@ =~= toks@[2]@);
        Some(t)
    } else {
        None
    }
}

/// Decodes a general-information `BA_` line: the first known attribute whose
/// quoted name occurs in the line is set (see [`general_line_result`]);
/// unknown attributes, missing values and values that are not numbers of the
/// field's type leave the database unchanged.
///
/// Expected formats: `BA_ "DBName" "TestCAN";`, `BA_ "BusType" "CAN FD";`,
/// `BA_ "Baudrate" 500000;`, `BA_ "BaudrateCANFD" 2000000;`
pub fn decode(db: &mut Database, line: &str)
    ensures
        final(db)@ == general_line_result(old(db)@, line@),
{
    let l: Vec<char> = chars_of(line);
    let body: Vec<char> = trim_end_exec(&l, CharClass::Is(';'));
    match find_mentioned(&l) {
        None => {},
        Some(a) => {
            if a == GeneralAttr::BusType {
                let s: Vec<char> = trim_exec(&body, CharClass::Ws(true));
                let p: Vec<Vec<char>> = split_char_exec(&s, '"');
                if p.len() >= 4 {
                    let key: Vec<char> = ascii_lower_exec(&p[1]);
                    assert(p@[1]@ == split_char(s@, '"')[1]);
                    assert(p@[3]@ == split_char(s@, '"')[3]);
                    if eq_vec(&key, &chars_of("bustype")) {
                        db.bustype = if eq_vec(&p[3], &chars_of("CAN FD")) {
                            crate::dbc::types::database::BusType::CanFd
                        } else {
                            crate::dbc::types::database::BusType::Can
                        };
                    }
                }
            } else {
                match third_ascii_token_exec(&body) {
                    None => {},
                    Some(t) => {
                        if general_is_text_exec(a) {
                            let v: Vec<char> = trim_exec(&t, CharClass::Is('"'));
                            apply_general(db, a, &v);
                        } else {
                            apply_general(db, a, &t);
                        }
                    },
                }
            }
        },
    }
}

/// The text between the first and the last double quote of `s`, when there
/// are two of them.
pub open spec fn between_outer_quotes(s: Seq<char>) -> Option<Seq<char>> {
    match find_char(s, '"') {
        None => None,
        Some(i) => match rfind_char(s.skip(i + 1), '"') {
            None => None,
            Some(j) => Some(s.skip(i + 1).take(j)),
        },
    }
}

/// Run-time [`between_outer_quotes`].
pub fn between_outer_quotes_exec(v: &Vec<char>) -> (r: Option<Vec<char>>)
    ensures
        r matches Some(t) ==> between_outer_quotes(v@) == Some(t@),
        r is None ==> between_outer_quotes(v@) is None,
{
    proof {
        lemma_find_char(v@, '"');
    }
    match find_exec(v, '"') {
        None => None,
        Some(i) => {
            let rest: Vec<char> = slice_of(v, i + 1, v.len());
            assert(rest@ =~= v@.skip(i + 1));
            proof {
                lemma_rfind_char(rest@, '"');
            }
            match rfind_exec(&rest, '"') {
                None => None,
                Some(j) => {
                    let t: Vec<char> = slice_of(&rest, 0, j);
                    assert(t@ =~= rest@.take(j as int));
                    Some(t)
                },
            }
        },
    }
}

/// The database after a network comment line `CM_ "..."`: the comment is the
/// text between the first and the last quote (trailing `;` removed first);
/// without two quotes the database is unchanged.
pub open spec fn network_comment_result(db: DatabaseView, line: Seq<char>) -> DatabaseView {
    match between_outer_quotes(trim_end_by(line, CharClass::Is(';'))) {
        Some(c) => DatabaseView { comment: c, ..db },
        None => db,
    }
}

/// Decodes the network comment: `CM_ "Comment regarding the network";`.
pub fn comment(db: &mut Database, line: &str)
    ensures
        final(db)@ == network_comment_result(old(db)@, line@),
{
    let l: Vec<char> = chars_of(line);
    let s: Vec<char> = trim_end_exec(&l, CharClass::Is(';'));
    if let Some(c) = between_outer_quotes_exec(&s) {
        db.comment = string_of(&c);
    }
}

} // verus!
