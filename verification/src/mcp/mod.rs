//! The tools that the server offers, and the protocol in which it is asked.

pub mod graph_tools;
pub mod reply;
pub mod server;
pub mod sessions;
pub mod symbols;
pub mod thinking;
pub mod tools;
