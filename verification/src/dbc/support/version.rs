//! The `VERSION` line.
use vstd::prelude::*;
use crate::dbc::legacy::version::{version_text, version_text_exec};
use crate::dbc::support::{Database, DatabaseView};

verus! {

/// Stores the version of a `VERSION "1.0"` line as written between the
/// quotes (see [`version_text`]).
pub fn decode(db: &mut Database, line: &str)
    ensures
        final(db)@ == (DatabaseView { version: version_text(line@), ..old(db)@ }),
{
    db.version = version_text_exec(line);
}

} // verus!
