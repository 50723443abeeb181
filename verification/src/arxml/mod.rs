//! AUTOSAR ARXML databases.
pub mod convert;
pub mod reader;
pub mod types;
