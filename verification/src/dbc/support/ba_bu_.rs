//! Node attributes: `BA_ "<attribute>" BU_ <node> <value>;`.
use vstd::prelude::*;
use crate::dbc::support::nodes::{add_info, node_attr_result};
use crate::dbc::support::Database;

verus! {

/// Decodes a node attribute line `BA_ "<attribute>" BU_ <node> <value>;`:
/// the same effect as [`add_info`] (see [`node_attr_result`]).
pub fn decode(db: &mut Database, line: &str)
    ensures
        final(db)@ == node_attr_result(old(db)@, line@),
{
    add_info(db, line);
}

} // verus!
