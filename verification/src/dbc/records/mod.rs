//! Decoders of the DBC records that fill the keyed database.
pub mod attributes;
pub mod bo_;
pub mod bo_tx_bu_;
pub mod bu_;
pub mod comments;
pub mod sg_;
pub mod sig_valtype_;
pub mod val_;
pub mod version;
