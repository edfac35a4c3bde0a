//! Succession over a family graph: who inherits next.

pub mod data;
pub mod logic;
pub mod names;
pub mod order;
pub mod select;
pub mod server;
pub mod snapshot;
