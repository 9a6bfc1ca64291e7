//! A directory-scoped key-value store: values are attached to directories,
//! and a lookup made from a directory sees the values of all its ancestors,
//! the closest definition winning.

pub mod assoc;
pub mod config;
pub mod data;
pub mod laws;
pub mod path;
pub mod projector;
pub mod resolve;
pub mod table;
