//! The `SIG_VALTYPE_` record: floating-point encoding of a signal.
use vstd::prelude::*;
use crate::dbc::legacy::signals::nth_or;
use crate::dbc::records::comments::{lemma_signal_named_in, signal_named_in, signal_named_in_exec};
use crate::dbc::types::database::messages::entry;
use crate::dbc::types::database::signals::with_signal;
use crate::dbc::types::database::{DatabaseDBC, DatabaseView};
use crate::dbc::types::entities::SignalView;
use crate::dbc::types::signal::Signess;
use crate::text::{
    chars_of, eq_vec, parse_u32, parse_unsigned, split_ws, tokens, trim_end_by, trim_end_exec, views, CharClass,
};

verus! {

/// The encoding and length a `SIG_VALTYPE_` value sets: `1` is a 32-bit
/// IEEE float, `2` a 64-bit IEEE double; other values set nothing.
pub open spec fn valtype_of(v: Seq<char>) -> Option<(Signess, u16)> {
    if v == "2"@ {
        Some((Signess::IeeeDouble, 64u16))
    } else if v == "1"@ {
        Some((Signess::IeeeFloat, 32u16))
    } else {
        None
    }
}

/// The database after `SIG_VALTYPE_ <id> <signal> : <value>;`: the first
/// signal of that name (ASCII case ignored) of the message with that
/// identifier takes the encoding of the value. The identifier must be a
/// `u32` and the fourth word a lone `:`.
pub open spec fn valtype_result(db: DatabaseView, line: Seq<char>) -> DatabaseView {
    let p = tokens(trim_end_by(line, CharClass::Is(';')), false);
    if p.len() < 5 || p[0] != "SIG_VALTYPE_"@ || parse_unsigned(p[1], u32::MAX as nat) is None || p[3] != ":"@ {
        db
    } else {
        match entry(db.msg_by_id, parse_unsigned(p[1], u32::MAX as nat)->0 as u32) {
            None => db,
            Some(mk) => if !db.messages.contains_key(mk) {
                db
            } else {
                match signal_named_in(db, db.messages[mk].signals, p[2], true) {
                    None => db,
                    Some(sk) => match valtype_of(p[4]) {
                        None => db,
                        Some((sign, len)) => with_signal(
                            db,
                            sk,
                            SignalView { sign: sign, bit_length: len, ..db.signals[sk] },
                        ),
                    },
                }
            },
        }
    }
}

/// Decodes `SIG_VALTYPE_ <MsgID> <SignalName> : <Value>;`, which marks a
/// signal as an IEEE float (`1`) or double (`2`).
pub fn decode(db: &mut DatabaseDBC, line: &str)
    requires
        old(db).wf(),
    ensures
        final(db).wf(),
        final(db).entity_count() == old(db).entity_count(),
        final(db)@ == valtype_result(old(db)@, line@),
{
    let l0: Vec<char> = chars_of(line);
    let l: Vec<char> = trim_end_exec(&l0, CharClass::Is(';'));
    let p: Vec<Vec<char>> = split_ws(&l, false);
    if p.len() < 5 {
        return;
    }
    assert(views(p@)[0] == p@[0]@ && views(p@)[1] == p@[1]@ && views(p@)[2] == p@[2]@);
    assert(views(p@)[3] == p@[3]@ && views(p@)[4] == p@[4]@);
    if !eq_vec(&p[0], &chars_of("SIG_VALTYPE_")) {
        return;
    }
    let id: u32 = match parse_u32(&p[1]) {
        None => return,
        Some(id) => id,
    };
    if !eq_vec(&p[3], &chars_of(":")) {
        return;
    }
    let mk = match db.get_msg_key_by_id(&id) {
        None => return,
        Some(mk) => mk,
    };
    let sk = match db.get_message_by_key(mk) {
        None => return,
        Some(m) => signal_named_in_exec(db, &m.signals, &p[2], true),
    };
    proof {
        lemma_signal_named_in(db@, db@.messages[mk].signals, p@[2]@, true);
    }
    match sk {
        None => {},
        Some(sk) => {
            if eq_vec(&p[4], &chars_of("2")) {
                db.set_signal_encoding(sk, Signess::IeeeDouble, 64);
            } else if eq_vec(&p[4], &chars_of("1")) {
                db.set_signal_encoding(sk, Signess::IeeeFloat, 32);
            }
        },
    }
}

} // verus!
