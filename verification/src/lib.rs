//! A RESP key-value server core with single-master replication, verified with Verus.

pub mod client;
pub mod network;
pub mod parser;
pub mod replication;
pub mod server;
pub mod state;
pub mod text;
