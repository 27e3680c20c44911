//! Replication: the registry of replicas on a master, the snapshot that starts a
//! replica off, and the handshake by which a replica joins.

pub mod handshake;
pub mod joining;
pub mod rdb;
pub mod replica_manager;
