//! What a server knows of itself from the start: its port and its role.

use vstd::prelude::*;
use vstd::utf8::encode_utf8;
use crate::parser::number::{decimal_digits, push_unsigned};
use crate::parser::resp::{append_bytes, copy_bytes};
use crate::server::config::{names_master, Config};

verus! {

/// What a master knows of itself.
#[derive(Debug)]
pub struct MasterInfo {
    /// The forty hexadecimal digits by which replicas know this master.
    pub replication_id: String,
}

/// What a replica knows of its master.
#[derive(Debug)]
pub struct SlaveInfo {
    pub master_host: String,
    pub master_port: u16,
}

/// The role of a server.
#[derive(Debug)]
pub enum ReplicaInfo {
    Master(MasterInfo),
    Slave(SlaveInfo),
}

/// Where a snapshot would be kept.
#[derive(Debug)]
pub struct RdbConfig {
    pub dir: String,
    pub dbfilename: String,
}

/// What a server knows of itself from the start.
#[derive(Debug)]
pub struct ServerMetadata {
    pub listening_port: u16,
    pub replica_info: ReplicaInfo,
    pub rdb_config: Option<RdbConfig>,
}

/// The replication id that every master takes at start.
pub open spec fn replication_id() -> Seq<char> {
    "8371b4fb1155b71f4a04d3e1bc3e18c4a990aeeb"@
}

/// The answer to `INFO replication` of a server in the role `info`, where a master has
/// sent `offset` bytes of replicated commands.
pub open spec fn spec_replica_info(info: ReplicaInfo, offset: u64) -> Seq<u8> {
    match info {
        ReplicaInfo::Master(master) => encode_utf8("role:master\r\nmaster_replid:"@) + encode_utf8(
            master.replication_id@,
        ) + encode_utf8("\r\nmaster_repl_offset:"@) + decimal_digits(offset as nat),
        ReplicaInfo::Slave(_) => encode_utf8("role:slave"@),
    }
}

impl ServerMetadata {
    /// What a server started with `config` knows of itself: it is a replica where
    /// `config` names a master, and a master where it does not.
    pub fn generate(config: &Config) -> (r: ServerMetadata)
        ensures
            r.listening_port == config.port(),
            match r.replica_info {
                ReplicaInfo::Master(master) => master.replication_id@ == replication_id() && (
                config.replicaof() matches Some(text) ==> forall|host: Seq<char>, port: u16|
                    !names_master(encode_utf8(text@), host, port)),
                ReplicaInfo::Slave(slave) => config.replicaof() matches Some(text) && names_master(
                    encode_utf8(text@),
                    slave.master_host@,
                    slave.master_port,
                ),
            },
            match r.rdb_config {
                Some(rdb) => config.dir() matches Some(dir) && config.dbfilename() matches Some(
                    name,
                ) && rdb.dir@ == dir@ && rdb.dbfilename@ == name@,
                None => config.dir() is None || config.dbfilename() is None,
            },
    {
        let replica_info = match config.master_address() {
            Some((master_host, master_port)) => ReplicaInfo::Slave(
                SlaveInfo { master_host, master_port },
            ),
            None => ReplicaInfo::Master(
                MasterInfo { replication_id: "8371b4fb1155b71f4a04d3e1bc3e18c4a990aeeb".to_owned() },
            ),
        };
        let rdb_config = match (config.get_data_dir(), config.get_dbfilename()) {
            (Some(dir), Some(dbfilename)) => Some(
                RdbConfig { dir: dir.to_owned(), dbfilename: dbfilename.to_owned() },
            ),
            _ => None,
        };
        ServerMetadata { listening_port: config.get_listening_port(), replica_info, rdb_config }
    }

    /// The answer to `INFO replication`, where a master has sent `replication_offset`
    /// bytes of replicated commands.
    pub fn get_replica_info(&self, replication_offset: u64) -> (r: Vec<u8>)
        ensures
            r@ == spec_replica_info(self.replica_info, replication_offset),
    {
        match &self.replica_info {
            ReplicaInfo::Master(master) => {
                let mut out = copy_bytes("role:master\r\nmaster_replid:".as_bytes());
                append_bytes(&mut out, master.replication_id.as_str().as_bytes());
                append_bytes(&mut out, "\r\nmaster_repl_offset:".as_bytes());
                push_unsigned(&mut out, replication_offset);
                out
            },
            ReplicaInfo::Slave(_) => copy_bytes("role:slave".as_bytes()),
        }
    }
}

} // verus!
