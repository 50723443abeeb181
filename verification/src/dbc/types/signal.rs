//! Signal encoding enums.
use vstd::prelude::*;

verus! {

/// Byte order of a signal inside the frame payload.
#[derive(Clone, Copy, Debug, PartialEq, Eq, Structural)]
pub enum Endianness {
    /// Little endian (`@1` in DBC).
    Intel,
    /// Big endian (`@0` in DBC).
    Motorola,
}

/// Value encoding of a signal.
#[derive(Clone, Copy, Debug, PartialEq, Eq, Structural)]
pub enum Signess {
    /// Unsigned integer (`+`).
    Unsigned,
    /// Two's complement integer (`-`).
    Signed,
    /// IEEE 754 single precision (`SIG_VALTYPE_ ... : 1`).
    IeeeFloat,
    /// IEEE 754 double precision (`SIG_VALTYPE_ ... : 2`).
    IeeeDouble,
}

} // verus!
