//! The `VERSION` record.
use vstd::prelude::*;
use crate::dbc::legacy::version::{version_text, version_text_exec};
use crate::dbc::types::database::{DatabaseDBC, DatabaseView};

verus! {

/// Stores the version of a `VERSION "1.0"` line as written between the
/// quotes (see [`version_text`]).
pub fn decode(db: &mut DatabaseDBC, line: &str)
    requires
        old(db).wf(),
    ensures
        final(db).wf(),
        final(db).entity_count() == old(db).entity_count(),
        final(db)@ == (DatabaseView { version: version_text(line@), ..old(db)@ }),
{
    db.version = version_text_exec(line);
}

} // verus!
