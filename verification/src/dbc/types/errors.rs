//! Error types of the database model.
use vstd::prelude::*;
use crate::dbc::types::keys::{MessageKey, NodeKey, SignalKey};

verus! {

/// Why a signal does not fit in its frame.
#[allow(inconsistent_fields)]
#[derive(Clone, Copy, Debug, PartialEq, Eq, Structural)]
pub enum MessageLayoutError {
    /// A signal of zero bits.
    ZeroBitLength,
    /// Intel layout: the last bit lies past the frame.
    IntelOutOfBounds { end: usize, total_bits: usize, dlc: u16 },
    /// Motorola layout: the linearized start bit lies past the frame.
    MotorolaStartOutOfBounds { start: usize, total_bits: usize, dlc: u16 },
    /// Motorola layout: the signal runs below bit 0.
    MotorolaEndOutOfBounds { end: isize, dlc: u16 },
}

/// Why a database operation was refused.
#[derive(Debug)]
pub enum DatabaseError {
    /// A node with that name (ignoring case) exists already.
    NodeAlreadyExists { name: String },
    /// No node has that key.
    NodeMissing { node_key: NodeKey },
    /// A message with that name (ignoring case) exists already.
    MessageAlreadyExists { name: String },
    /// A message with that identifier exists already.
    MessageIdAlreadyAssigned { id_hex: String },
    /// No message has that key.
    MessageMissing { message_key: MessageKey },
    /// No signal has that key.
    SignalMissing { signal_key: SignalKey },
    /// The signal is bound to another message.
    SignalAlreadyAssociated { signal: String, associated_with: String },
    /// The signal does not fit in the message's payload.
    Layout { reason: String },
    /// The database contradicts itself.
    InconsistentState { details: String },
    /// The message disappeared while its multiplexing was being updated.
    MessageMissingDuringMultiplexing,
}

/// Why a DBC text could not be parsed.
#[derive(Debug)]
pub enum DbcParseError {
    /// The path does not end in `.dbc`.
    InvalidExtension { path: String },
}

/// Why a new database could not be created.
#[derive(Clone, Copy, Debug, PartialEq, Eq, Structural)]
pub enum DbcCreateError {
    /// The name is empty or blank.
    EmptyDatabaseName,
    /// The version is empty or blank.
    EmptyDatabaseVersion,
}

/// Why a database could not be written.
#[derive(Debug)]
pub enum DbcSaveError {
    /// The path does not end in `.dbc` (ignoring ASCII case).
    InvalidExtension { path: String },
}

/// Why an ARXML file could not be converted.
#[derive(Debug)]
pub enum ArxmlConvertError {
    /// The path does not end in `.arxml`.
    InvalidExtension { path: String },
}

} // verus!
