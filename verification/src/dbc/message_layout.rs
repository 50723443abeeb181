//! Frame layout check with the frame size given as a CAN FD DLC code.
use vstd::prelude::*;
use crate::dbc::types::errors::MessageLayoutError;
use crate::dbc::types::signal::Endianness;
use crate::message_layout::{check_layout, layout_result};
use crate::text::{dec_string, extend_chars, fmt_dec, fmt_signed, signed_dec_string, string_of, chars_of};

verus! {

/// Payload size in bytes of a CAN / CAN FD DLC code (`None` above 15).
pub open spec fn dlc_to_bytes(dlc: u16) -> Option<nat> {
    if dlc <= 8 {
        Some(dlc as nat)
    } else if dlc == 9 {
        Some(12)
    } else if dlc == 10 {
        Some(16)
    } else if dlc == 11 {
        Some(20)
    } else if dlc == 12 {
        Some(24)
    } else if dlc == 13 {
        Some(32)
    } else if dlc == 14 {
        Some(48)
    } else if dlc == 15 {
        Some(64)
    } else {
        None
    }
}

/// The text reported for a layout error.
pub open spec fn layout_message(e: MessageLayoutError, bytes: nat) -> Seq<char> {
    match e {
        MessageLayoutError::ZeroBitLength => "bit_length cannot be 0."@,
        MessageLayoutError::IntelOutOfBounds { end, total_bits, dlc } => "Out of bounds (Intel): end="@
            + dec_string(end as nat) + " \u{2265} total_bits="@ + dec_string(total_bits as nat)
            + " (bytes="@ + dec_string(bytes) + ", dlc="@ + dec_string(dlc as nat) + ")."@,
        MessageLayoutError::MotorolaStartOutOfBounds { start, total_bits, dlc } =>
            "Out of bounds (Motorola): lin_start="@ + dec_string(start as nat)
            + " \u{2265} total_bits="@ + dec_string(total_bits as nat) + " (bytes="@ + dec_string(
            bytes,
        ) + ", dlc="@ + dec_string(dlc as nat) + ")."@,
        MessageLayoutError::MotorolaEndOutOfBounds { end, dlc } => "Out of bounds (Motorola): lin_end="@
            + signed_dec_string(end as int) + " < 0 (bytes="@ + dec_string(bytes) + ", dlc="@
            + dec_string(dlc as nat) + ")."@,
    }
}

/// The text of the error a layout check reports, `None` when the signal fits.
pub open spec fn fit_error(dlc: u16, bit_start: u16, bit_length: u16, endianness: Endianness) -> Option<Seq<char>> {
    match dlc_to_bytes(dlc) {
        None => Some("Invalid DLC"@),
        Some(bytes) => match layout_result(bytes, dlc, bit_start, bit_length, endianness) {
            Ok(()) => None,
            Err(e) => Some(layout_message(e, bytes)),
        },
    }
}

fn push_str(v: &mut Vec<char>, s: &str)
    ensures
        final(v)@ == old(v)@ + s@,
{
    let w: Vec<char> = chars_of(s);
    extend_chars(v, &w);
}

fn push_dec(v: &mut Vec<char>, n: u64)
    ensures
        final(v)@ == old(v)@ + dec_string(n as nat),
{
    let w: Vec<char> = fmt_dec(n);
    extend_chars(v, &w);
}

fn message_of(e: MessageLayoutError, bytes: usize) -> (r: String)
    ensures
        r@ == layout_message(e, bytes as nat),
{
    let mut v: Vec<char> = Vec::new();
    match e {
        MessageLayoutError::ZeroBitLength => {
            push_str(&mut v, "bit_length cannot be 0.");
        },
        MessageLayoutError::IntelOutOfBounds { end, total_bits, dlc } => {
            push_str(&mut v, "Out of bounds (Intel): end=");
            push_dec(&mut v, end as u64);
            push_str(&mut v, " \u{2265} total_bits=");
            push_dec(&mut v, total_bits as u64);
            push_str(&mut v, " (bytes=");
            push_dec(&mut v, bytes as u64);
            push_str(&mut v, ", dlc=");
            push_dec(&mut v, dlc as u64);
            push_str(&mut v, ").");
        },
        MessageLayoutError::MotorolaStartOutOfBounds { start, total_bits, dlc } => {
            push_str(&mut v, "Out of bounds (Motorola): lin_start=");
            push_dec(&mut v, start as u64);
            push_str(&mut v, " \u{2265} total_bits=");
            push_dec(&mut v, total_bits as u64);
            push_str(&mut v, " (bytes=");
            push_dec(&mut v, bytes as u64);
            push_str(&mut v, ", dlc=");
            push_dec(&mut v, dlc as u64);
            push_str(&mut v, ").");
        },
        MessageLayoutError::MotorolaEndOutOfBounds { end, dlc } => {
            push_str(&mut v, "Out of bounds (Motorola): lin_end=");
            let w: Vec<char> = fmt_signed(end as i64);
            extend_chars(&mut v, &w);
            push_str(&mut v, " < 0 (bytes=");
            push_dec(&mut v, bytes as u64);
            push_str(&mut v, ", dlc=");
            push_dec(&mut v, dlc as u64);
            push_str(&mut v, ").");
        },
    }
    string_of(&v)
}

/// Verify that (bit_start, bit_length) fits within the frame defined by DLC.
///
/// Returns `Ok(())` if the signal fits; `Err` with the reason otherwise.
/// The DLC is a CAN FD code: 0..=8 bytes, then 12, 16, 20, 24, 32, 48, 64.
pub fn check_signal_fits(dlc: u16, bit_start: u16, bit_length: u16, endianness: Endianness) -> (r: Result<
    (),
    String,
>)
    ensures
        fit_error(dlc, bit_start, bit_length, endianness) is None ==> r is Ok,
        fit_error(dlc, bit_start, bit_length, endianness) matches Some(t) ==> (r matches Err(m) && m@ == t),
        dlc_to_bytes(dlc) is None ==> (r matches Err(m) && m@ == "Invalid DLC"@),
        dlc_to_bytes(dlc) matches Some(bytes) ==> match layout_result(bytes, dlc, bit_start, bit_length, endianness) {
            Ok(()) => r is Ok,
            Err(e) => (r matches Err(m) && m@ == layout_message(e, bytes)),
        },
{
    let bytes: usize = if dlc <= 8 {
        dlc as usize
    } else if dlc == 9 {
        12
    } else if dlc == 10 {
        16
    } else if dlc == 11 {
        20
    } else if dlc == 12 {
        24
    } else if dlc == 13 {
        32
    } else if dlc == 14 {
        48
    } else if dlc == 15 {
        64
    } else {
        let m: Vec<char> = chars_of("Invalid DLC");
        return Err(string_of(&m));
    };
    match check_layout(bytes, dlc, bit_start, bit_length, endianness) {
        Ok(()) => Ok(()),
        Err(e) => Err(message_of(e, bytes)),
    }
}

} // verus!
