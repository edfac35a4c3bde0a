//! What stands between the resolver and the outside: stored characters,
//! settings, and the answers given to requests.

pub mod db;
pub mod env;
pub mod handler;
