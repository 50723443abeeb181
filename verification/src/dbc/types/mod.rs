//! The keyed DBC database model.
pub mod arena;
pub mod attributes;
pub mod database;
pub mod entities;
pub mod errors;
pub mod index;
pub mod keys;
pub mod relations;
pub mod signal;
pub mod sorting;
