//! Verified core of the campaign server: the decision logic of its actors,
//! written as plain state machines and pure functions over plain values.

pub mod config;
pub mod database_writer;
pub mod ids;
pub mod page_room;
pub mod persist;
pub mod platform;
pub mod registry;
pub mod relationship;
pub mod supervisor;
pub mod text;
pub mod toc;
pub mod toc_room;
