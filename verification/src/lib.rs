//! Parsing and modelling of CAN databases (DBC, ARXML) and CAN traces (ASC).
pub mod arxml;
pub mod asc;
pub mod dbc;
pub mod message_layout;
pub mod strings;
pub mod text;
