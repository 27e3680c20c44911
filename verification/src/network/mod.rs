//! What a connection has read and not yet used.

pub mod connection;
