//! `BA_` lines carrying the general database information.
use vstd::prelude::*;
use crate::dbc::legacy::{Database, DatabaseView};
use crate::text::{
    chars_of, contains_exec, contains_seq, find_char, find_exec, parse_u32, parse_unsigned, slice_of,
    split_ws, string_of, tokens, trim_by, trim_end_by, trim_end_exec, trim_exec, CharClass,
};

verus! {

/// `splitn(3, ' ')`: the third piece, i.e. what follows the second space.
pub open spec fn third_space_piece(s: Seq<char>) -> Option<Seq<char>> {
    match find_char(s, ' ') {
        Some(i) => match find_char(s.skip(i + 1), ' ') {
            Some(j) => Some(s.skip(i + 1).skip(j + 1)),
            None => None,
        },
        None => None,
    }
}

fn third_space_piece_exec(v: &Vec<char>) -> (r: Option<Vec<char>>)
    ensures
        r matches Some(t) ==> third_space_piece(v@) == Some(t@),
        r is None ==> third_space_piece(v@) is None,
{
    proof {
        crate::text::lemma_find_char(v@, ' ');
    }
    match find_exec(v, ' ') {
        Some(i) => {
            let rest: Vec<char> = slice_of(v, i + 1, v.len());
            assert(rest@ =~= v@.skip(i + 1));
            proof {
                crate::text::lemma_find_char(rest@, ' ');
            }
            match find_exec(&rest, ' ') {
                Some(j) => {
                    let t: Vec<char> = slice_of(&rest, j + 1, rest.len());
                    assert(t@ =~= rest@.skip(j + 1));
                    Some(t)
                },
                None => None,
            }
        },
        None => None,
    }
}

/// The third whitespace token of `s`, if there is one.
pub open spec fn third_token(s: Seq<char>) -> Option<Seq<char>> {
    let t = tokens(s, true);
    if t.len() > 2 {
        Some(t[2])
    } else {
        None
    }
}

/// The number in the third token of `line` (after dropping trailing `;`).
pub open spec fn third_u32(line: Seq<char>) -> Option<u32> {
    match third_token(trim_end_by(line, CharClass::Is(';'))) {
        Some(t) => match parse_unsigned(t, u32::MAX as nat) {
            Some(v) => Some(v as u32),
            None => None,
        },
        None => None,
    }
}

/// The database after decoding one general-information line.
pub open spec fn basic_info_result(db: DatabaseView, line: Seq<char>) -> DatabaseView {
    let body = trim_end_by(line, CharClass::Is(';'));
    if contains_seq(line, "\"Baudrate\""@) {
        match third_u32(line) {
            Some(v) => DatabaseView { baudrate: v, ..db },
            None => db,
        }
    } else if contains_seq(line, "\"BusType\""@) {
        match third_space_piece(body) {
            Some(t) => DatabaseView { bustype: trim_by(t, CharClass::Is('"')), ..db },
            None => db,
        }
    } else if contains_seq(line, "\"DBName\""@) {
        match third_token(body) {
            Some(t) => DatabaseView { name: trim_by(t, CharClass::Is('"')), ..db },
            None => db,
        }
    } else if contains_seq(line, "\"BaudrateCANFD\""@) {
        match third_u32(line) {
            Some(v) => DatabaseView { baudrate_canfd: v, ..db },
            None => db,
        }
    } else {
        db
    }
}

fn third_token_exec(v: &Vec<char>) -> (r: Option<Vec<char>>)
    ensures
        r matches Some(t) ==> third_token(v@) == Some(t@),
        r is None ==> third_token(v@) is None,
{
    let toks: Vec<Vec<char>> = split_ws(v, true);
    if toks.len() > 2 {
        let t: Vec<char> = slice_of(&toks[2], 0, toks[2].len());
        assert(t@ =~= toks@[2]@);
        Some(t)
    } else {
        None
    }
}

/// Decodes `BA_ "Baudrate" | "BusType" | "DBName" | "BaudrateCANFD"` lines
/// into the matching database fields; other lines leave the database as it is.
///
/// Expected formats:
/// `BA_ "DBName" "TestCAN";`, `BA_ "BusType" "CAN FD";`,
/// `BA_ "Baudrate" 500000;`, `BA_ "BaudrateCANFD" 2000000;`
pub fn fct(db: &mut Database, line: &str)
    ensures
        final(db)@ == basic_info_result(old(db)@, line@),
{
    let l: Vec<char> = chars_of(line);
    let body: Vec<char> = trim_end_exec(&l, CharClass::Is(';'));
    if contains_exec(&l, &chars_of("\"Baudrate\"")) {
        if let Some(t) = third_token_exec(&body) {
            if let Some(b) = parse_u32(&t) {
                db.baudrate = b;
            }
        }
    } else if contains_exec(&l, &chars_of("\"BusType\"")) {
        if let Some(t) = third_space_piece_exec(&body) {
            let v: Vec<char> = trim_exec(&t, CharClass::Is('"'));
            db.bustype = string_of(&v);
        }
    } else if contains_exec(&l, &chars_of("\"DBName\"")) {
        if let Some(t) = third_token_exec(&body) {
            let v: Vec<char> = trim_exec(&t, CharClass::Is('"'));
            db.name = string_of(&v);
        }
    } else if contains_exec(&l, &chars_of("\"BaudrateCANFD\"")) {
        if let Some(t) = third_token_exec(&body) {
            if let Some(b) = parse_u32(&t) {
                db.baudrate_canfd = b;
            }
        }
    }
}

} // verus!
