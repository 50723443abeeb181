//! The `BO_` record: a message definition.
use vstd::prelude::*;
use crate::dbc::support::messages::{bo_fields, bo_fields_exec};
use crate::dbc::types::database::messages::{blank_message, message_added};
use crate::dbc::types::database::nodes::sender_linked;
use crate::dbc::types::database::{DatabaseDBC, DatabaseView};
use crate::dbc::types::keys::MessageKey;
use crate::text::{string_of, unicode_lowercase};

verus! {

/// The database after the just-added message `mk` got its sender: the node
/// named `sender` (compared in lower case), when there is one.
pub open spec fn with_named_sender(db: DatabaseView, mk: MessageKey, sender: Seq<char>) -> DatabaseView {
    let n = unicode_lowercase(sender);
    if db.node_by_name.contains_key(n) && db.nodes.contains_key(db.node_by_name[n]) && db.messages.contains_key(mk) {
        sender_linked(db, mk, db.node_by_name[n])
    } else {
        db
    }
}

/// What a `BO_ <id> <name>: <length> <sender>` line does to `db`, giving
/// `after`. A message whose name or identifier is taken is not added; the
/// message that holds it becomes the current one. Otherwise the message is
/// added under a new key, made current, and linked to its sender node.
pub open spec fn message_def_outcome(db: DatabaseView, line: Seq<char>, after: DatabaseView) -> bool {
    match bo_fields(line) {
        None => after == db,
        Some((id, name, len, sender)) => {
            let n = unicode_lowercase(name);
            if db.msg_by_name.contains_key(n) {
                after == DatabaseView { current_msg: Some(db.msg_by_name[n]), ..db }
            } else if db.msg_by_id.contains_key(id) {
                after == DatabaseView { current_msg: Some(db.msg_by_id[id]), ..db }
            } else {
                exists|k: MessageKey|
                    !db.messages.contains_key(k) && after == #[trigger] with_named_sender(
                        message_added(db, k, blank_message(name, id, len)),
                        k,
                        sender,
                    )
            }
        },
    }
}

/// Decodes a `BO_` line, with or without a space before the colon:
/// `BO_ 123 NAME: 8 Node` or `BO_ 123 NAME : 8 Node`.
pub fn decode(db: &mut DatabaseDBC, line: &str)
    requires
        old(db).wf(),
        old(db).has_room(),
    ensures
        final(db).wf(),
        final(db).entity_count() <= old(db).entity_count() + 1,
        message_def_outcome(old(db)@, line@, final(db)@),
{
    let (id, name_v, len, sender_v) = match bo_fields_exec(line) {
        None => return,
        Some(f) => f,
    };
    let name: String = string_of(&name_v);
    let sender: String = string_of(&sender_v);
    match db.add_message(name.as_str(), id, len) {
        Err(_) => {},
        Ok(mk) => {
            let ghost d1 = db@;
            match db.get_node_key_by_name(sender.as_str()) {
                None => {},
                Some(nk) => {
                    let _ = db.add_sender_relation(mk, nk);
                },
            }
            assert(db@ == with_named_sender(d1, mk, sender@));
        },
    }
}

} // verus!
