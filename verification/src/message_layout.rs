//! Frame layout check with the frame size given in bytes.
use vstd::prelude::*;
use crate::dbc::types::errors::MessageLayoutError;
use crate::dbc::types::signal::Endianness;

verus! {

/// Maps a DBC Motorola start bit (MSB-first inside each byte) to the linear
/// LSB-first bit index: `(start & !7) + (7 - (start & 7))`.
pub open spec fn motorola_linear_start(start: nat) -> nat {
    ((start - start % 8) + (7 - start % 8)) as nat
}

/// The outcome of placing a signal of `bit_length` bits at `bit_start` in a
/// frame of `bytes` bytes; `dlc` is only reported back in the error.
///
/// - Intel: the field occupies bits `start ..= start + len - 1`.
/// - Motorola: the field runs backwards from the linearized start,
///   `lin - (len - 1) ..= lin`.
pub open spec fn layout_result(bytes: nat, dlc: u16, bit_start: u16, bit_length: u16, endianness: Endianness) -> Result<
    (),
    MessageLayoutError,
> {
    let total_bits = bytes * 8;
    if bit_length == 0 {
        Err(MessageLayoutError::ZeroBitLength)
    } else {
        match endianness {
            Endianness::Intel => {
                let end = bit_start + bit_length - 1;
                if end < total_bits {
                    Ok(())
                } else {
                    Err(MessageLayoutError::IntelOutOfBounds { end: end as usize, total_bits: total_bits as usize, dlc })
                }
            },
            Endianness::Motorola => {
                let lin = motorola_linear_start(bit_start as nat);
                let lin_end = lin - (bit_length - 1);
                if lin >= total_bits {
                    Err(
                        MessageLayoutError::MotorolaStartOutOfBounds {
                            start: lin as usize,
                            total_bits: total_bits as usize,
                            dlc,
                        },
                    )
                } else if lin_end < 0 {
                    Err(MessageLayoutError::MotorolaEndOutOfBounds { end: lin_end as isize, dlc })
                } else {
                    Ok(())
                }
            },
        }
    }
}

/// Computes the layout check for a frame of `bytes` bytes.
pub fn check_layout(bytes: usize, dlc: u16, bit_start: u16, bit_length: u16, endianness: Endianness) -> (r: Result<
    (),
    MessageLayoutError,
>)
    requires
        bytes <= 64,
    ensures
        r == layout_result(bytes as nat, dlc, bit_start, bit_length, endianness),
{
    if bit_length == 0 {
        return Err(MessageLayoutError::ZeroBitLength);
    }
    let total_bits: usize = bytes * 8;
    match endianness {
        Endianness::Intel => {
            let start: usize = bit_start as usize;
            let end: usize = start + (bit_length as usize) - 1;
            if end < total_bits {
                Ok(())
            } else {
                Err(MessageLayoutError::IntelOutOfBounds { end, total_bits, dlc })
            }
        },
        Endianness::Motorola => {
            let s: usize = bit_start as usize;
            let linearized_start: usize = (s - s % 8) + (7 - s % 8);
            let linearized_end: isize = linearized_start as isize - (bit_length as isize - 1);
            if linearized_start >= total_bits {
                return Err(
                    MessageLayoutError::MotorolaStartOutOfBounds {
                        start: linearized_start,
                        total_bits,
                        dlc,
                    },
                );
            }
            if linearized_end < 0 {
                return Err(MessageLayoutError::MotorolaEndOutOfBounds { end: linearized_end, dlc });
            }
            Ok(())
        },
    }
}

/// Verifies that `(bit_start, bit_length)` fits within a frame of `dlc` bytes.
///
/// Returns `Ok(())` if the signal fits and the reason otherwise.
pub fn check_signal_fits(dlc: u16, bit_start: u16, bit_length: u16, endianness: Endianness) -> (r: Result<
    (),
    MessageLayoutError,
>)
    ensures
        r == layout_result(dlc as nat, dlc, bit_start, bit_length, endianness),
{
    if bit_length == 0 {
        return Err(MessageLayoutError::ZeroBitLength);
    }
    let total_bits: usize = (dlc as usize) * 8;
    match endianness {
        Endianness::Intel => {
            let start: usize = bit_start as usize;
            let end: usize = start + (bit_length as usize) - 1;
            if end < total_bits {
                Ok(())
            } else {
                Err(MessageLayoutError::IntelOutOfBounds { end, total_bits, dlc })
            }
        },
        Endianness::Motorola => {
            let s: usize = bit_start as usize;
            let linearized_start: usize = (s - s % 8) + (7 - s % 8);
            let linearized_end: isize = linearized_start as isize - (bit_length as isize - 1);
            if linearized_start >= total_bits {
                return Err(
                    MessageLayoutError::MotorolaStartOutOfBounds {
                        start: linearized_start,
                        total_bits,
                        dlc,
                    },
                );
            }
            if linearized_end < 0 {
                return Err(MessageLayoutError::MotorolaEndOutOfBounds { end: linearized_end, dlc });
            }
            Ok(())
        },
    }
}

/// Where a Motorola field fits, stated by bytes: the start bit `s` lies in
/// byte `s / 8` at bit `s % 8` counted from that byte's most significant end
/// (so linear bit `8 * (s / 8) + 7 - s % 8`), and the field runs down from
/// there. It fits exactly when that byte is in the frame and the field has
/// no more bits than there are from its start down to bit 0 of the frame;
/// otherwise the error names the linear start, or how far below bit 0 the
/// field would end. For instance an 8-bit field at start 0 (linear bit 7)
/// fills byte 0.
pub proof fn law_motorola_fit(bytes: nat, dlc: u16, s: u16, len: u16)
    requires
        len > 0,
    ensures
        s / 8 >= bytes ==> layout_result(bytes, dlc, s, len, Endianness::Motorola) == Err::<(), MessageLayoutError>(
            MessageLayoutError::MotorolaStartOutOfBounds {
                start: (8 * (s / 8) + 7 - s % 8) as usize,
                total_bits: (bytes * 8) as usize,
                dlc,
            },
        ),
        s / 8 < bytes && len > 8 * (s / 8) + 8 - s % 8 ==> layout_result(bytes, dlc, s, len, Endianness::Motorola)
            == Err::<(), MessageLayoutError>(
            MessageLayoutError::MotorolaEndOutOfBounds { end: (8 * (s / 8) + 8 - s % 8 - len) as isize, dlc },
        ),
        s / 8 < bytes && len <= 8 * (s / 8) + 8 - s % 8 ==> layout_result(bytes, dlc, s, len, Endianness::Motorola)
            is Ok,
{
    assert(s - s % 8 == 8 * (s / 8));
}

/// The Intel counterpart: a field of `len` bits from bit `s` upwards fits
/// exactly when it ends within the frame's `8 * bytes` bits; otherwise the
/// error names its last bit `s + len - 1`. A field of no bits never fits,
/// whatever its byte order.
pub proof fn law_intel_fit(bytes: nat, dlc: u16, s: u16, len: u16, e: Endianness)
    ensures
        len == 0 ==> layout_result(bytes, dlc, s, len, e) == Err::<(), MessageLayoutError>(MessageLayoutError::ZeroBitLength),
        len > 0 ==> ((layout_result(bytes, dlc, s, len, Endianness::Intel) is Ok) <==> s + len <= 8 * bytes),
        len > 0 && s + len > 8 * bytes ==> layout_result(bytes, dlc, s, len, Endianness::Intel) == Err::<(), MessageLayoutError>(
            MessageLayoutError::IntelOutOfBounds { end: (s + len - 1) as usize, total_bits: (8 * bytes) as usize, dlc },
        ),
{
}

} // verus!
