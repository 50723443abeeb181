//! Message attributes: `BA_ "<attribute>" BO_ <id> <value>;`.
use vstd::prelude::*;
use crate::dbc::support::messages::{find_message, first_message_with_id};
use crate::dbc::support::node_attrs::number_or_zero;
use crate::dbc::support::{messages_view, Database, DatabaseView, GenMsgSendType, MessageView};
use crate::text::{
    chars_of, eq_vec, parse_u16, parse_u32, parse_unsigned, split_ws, tokens, trim, trim_by,
    trim_end_by, trim_end_exec, trim_exec, CharClass,
};

verus! {

/// The send type written by a `GenMsgSendType` value.
pub open spec fn send_type_of(v: Seq<char>) -> GenMsgSendType {
    if v == "0"@ {
        GenMsgSendType::Cyclic
    } else if v == "7"@ {
        GenMsgSendType::IfActive
    } else if v == "8"@ {
        GenMsgSendType::NoMsgSendType
    } else {
        GenMsgSendType::NotUsed
    }
}

/// The database after a message attribute line. The line (trimmed,
/// trailing `;` removed) is split on ASCII whitespace: the second token
/// names the attribute (quotes trimmed), the fourth is a non-zero `u32`
/// identifier of an existing message, the fifth the value. Then the first
/// message with that identifier takes `GenMsgCycleTime` (0 when the value is
/// not a `u16`) or `GenMsgSendType` ([`send_type_of`]); other attributes and
/// other lines leave the database unchanged.
pub open spec fn message_attr_result(db: DatabaseView, line: Seq<char>) -> DatabaseView {
    let t = tokens(trim_end_by(trim(line), CharClass::Is(';')), false);
    if t.len() < 5 {
        db
    } else {
        let attribute = trim_by(t[1], CharClass::Is('"'));
        match parse_unsigned(t[3], u32::MAX as nat) {
            None => db,
            Some(id) => if id == 0 {
                db
            } else {
                match first_message_with_id(db.messages, id as u32) {
                    None => db,
                    Some(k) => {
                        let v = trim(t[4]);
                        if attribute == "GenMsgCycleTime"@ {
                            DatabaseView {
                                messages: db.messages.update(
                                    k,
                                    MessageView {
                                        cycle_time: number_or_zero(v, u16::MAX as nat) as u16,
                                        ..db.messages[k]
                                    },
                                ),
                                ..db
                            }
                        } else if attribute == "GenMsgSendType"@ {
                            DatabaseView {
                                messages: db.messages.update(
                                    k,
                                    MessageView { tx_method: send_type_of(v), ..db.messages[k] },
                                ),
                                ..db
                            }
                        } else {
                            db
                        }
                    },
                }
            },
        }
    }
}

/// Decodes `BA_ "<attribute>" BO_ <ID> <value>;` for the message attributes
/// `GenMsgCycleTime` and `GenMsgSendType` (see [`message_attr_result`]).
pub fn decode(db: &mut Database, line: &str)
    ensures
        final(db)@ == message_attr_result(old(db)@, line@),
{
    let l0: Vec<char> = chars_of(line);
    let l1: Vec<char> = trim_exec(&l0, CharClass::Ws(true));
    let l: Vec<char> = trim_end_exec(&l1, CharClass::Is(';'));
    let t: Vec<Vec<char>> = split_ws(&l, false);
    if t.len() < 5 {
        return;
    }
    let attribute: Vec<char> = trim_exec(&t[1], CharClass::Is('"'));
    let id: u32 = match parse_u32(&t[3]) {
        None => return,
        Some(id) => id,
    };
    if id == 0 {
        return;
    }
    let k: usize = match find_message(&db.messages, id) {
        None => return,
        Some(k) => k,
    };
    let v: Vec<char> = trim_exec(&t[4], CharClass::Ws(true));
    let ghost before = messages_view(db.messages@);
    if eq_vec(&attribute, &chars_of("GenMsgCycleTime")) {
        let ct: u16 = match parse_u16(&v) {
            Some(x) => x,
            None => 0,
        };
        db.messages[k].cycle_time = ct;
        assert(messages_view(db.messages@) =~= before.update(
            k as int,
            MessageView { cycle_time: ct, ..before[k as int] },
        ));
    } else if eq_vec(&attribute, &chars_of("GenMsgSendType")) {
        let st: GenMsgSendType = if eq_vec(&v, &chars_of("0")) {
            GenMsgSendType::Cyclic
        } else if eq_vec(&v, &chars_of("7")) {
            GenMsgSendType::IfActive
        } else if eq_vec(&v, &chars_of("8")) {
            GenMsgSendType::NoMsgSendType
        } else {
            GenMsgSendType::NotUsed
        };
        db.messages[k].tx_method = st;
        assert(messages_view(db.messages@) =~= before.update(
            k as int,
            MessageView { tx_method: st, ..before[k as int] },
        ));
    }
}

} // verus!
