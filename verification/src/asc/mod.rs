//! Vector ASC CAN traces.
pub mod frame;
pub mod message_log;
pub mod time;
