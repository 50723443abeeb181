//! The `VERSION` line.
use vstd::prelude::*;
use crate::dbc::legacy::{Database, DatabaseView};
use crate::text::{chars_of, string_of, strip_prefix, strip_prefix_exec, trim, trim_by, trim_exec, CharClass};

verus! {

/// The version text of a `VERSION "..."` line, as written: the line
/// trimmed, its leading `VERSION` word dropped, then surrounding whitespace
/// and quotes trimmed.
pub open spec fn version_text(line: Seq<char>) -> Seq<char> {
    let t = trim(line);
    let rest = match strip_prefix(t, "VERSION"@) {
        Some(r) => r,
        None => t,
    };
    trim_by(trim(rest), CharClass::Is('"'))
}

/// Run-time [`version_text`].
pub fn version_text_exec(line: &str) -> (r: String)
    ensures
        r@ == version_text(line@),
{
    let t: Vec<char> = trim_exec(&chars_of(line), CharClass::Ws(true));
    let kw: Vec<char> = chars_of("VERSION");
    let rest: Vec<char> = match strip_prefix_exec(&t, &kw) {
        Some(r) => r,
        None => t,
    };
    let w: Vec<char> = trim_exec(&rest, CharClass::Ws(true));
    let q: Vec<char> = trim_exec(&w, CharClass::Is('"'));
    string_of(&q)
}

/// Stores the version of a `VERSION "1.0"` line.
pub fn fct(db: &mut Database, line: &str)
    ensures
        final(db)@ == (DatabaseView { version: version_text(line@), ..old(db)@ }),
{
    db.version = version_text_exec(line);
}

} // verus!
