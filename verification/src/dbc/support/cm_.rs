//! The network comment line `CM_ "...";`.
use vstd::prelude::*;
use crate::dbc::support::basic_info::{comment, network_comment_result};
use crate::dbc::support::Database;

verus! {

/// Decodes the network comment `CM_ "Comment regarding the network";`: the
/// comment becomes the text between the first and the last quote; a line
/// without two quotes leaves the database unchanged.
pub fn decode(db: &mut Database, line: &str)
    ensures
        final(db)@ == network_comment_result(old(db)@, line@),
{
    comment(db, line);
}

} // verus!
