//! DBC CAN database files: model, line decoders, parser and writer.
pub mod records;
pub mod create;
pub mod legacy;
pub mod support;
pub mod message_layout;
pub mod parse;
pub mod save;
pub mod types;
