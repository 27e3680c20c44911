//! The state of a server: what it knows of itself, what changes while it runs,
//! and the store.

use vstd::prelude::*;
use crate::replication::replica_manager::{
    spec_up_to_date, spec_update_offset, PeerAddr, Replica, ReplicaManager, ReplicaModel,
};
use crate::server::metadata::{ReplicaInfo, ServerMetadata};
use crate::state::{
    spec_after_get, spec_expired_keys, spec_get, spec_set, spec_sweep, ExpiringHashMap, StoreModel,
};

verus! {

/// What changes on a master while it runs.
pub struct MasterLiveData {
    /// The number of bytes of replicated commands that the master has sent out.
    pub replication_offset: u64,
    /// The replicas that have joined.
    pub replica_manager: ReplicaManager,
}

/// What changes on a replica while it runs.
pub struct SlaveLiveData {
    /// The number of bytes of replicated commands that the replica has applied.
    pub offset: u64,
    /// The instant at which the master was last heard of.
    pub heartbeat_recv_time: Option<u64>,
}

/// What changes on a server while it runs, by its role.
pub enum LiveData {
    Master(MasterLiveData),
    Slave(SlaveLiveData),
}

/// The mathematical model of a server in its role.
pub enum RoleModel {
    Master { replication_id: Seq<char>, replication_offset: u64, replicas: ReplicaModel },
    Replica {
        master_host: Seq<char>,
        master_port: u16,
        processed_offset: u64,
        last_heartbeat: Option<u64>,
    },
}

/// The mathematical model of a server.
pub struct ServerModel {
    pub listening_port: u16,
    pub role: RoleModel,
    pub store: StoreModel,
}

/// The offset `offset` moved on by `len` bytes; `None` where that is more than the
/// 64 bits of an offset can count.
pub open spec fn spec_advance(offset: u64, len: nat) -> Option<u64> {
    if offset + len <= u64::MAX {
        Some((offset + len) as u64)
    } else {
        None
    }
}

/// The role of a server that has just started with `info`.
pub open spec fn spec_initial_role(info: ReplicaInfo) -> RoleModel {
    match info {
        ReplicaInfo::Master(master) => RoleModel::Master {
            replication_id: master.replication_id@,
            replication_offset: 0,
            replicas: Map::empty(),
        },
        ReplicaInfo::Slave(slave) => RoleModel::Replica {
            master_host: slave.master_host@,
            master_port: slave.master_port,
            processed_offset: 0,
            last_heartbeat: None,
        },
    }
}

impl ServerModel {
    /// Whether the server is a master.
    pub open spec fn is_master(self) -> bool {
        self.role is Master
    }

    /// The replicas that are registered: none on a replica.
    pub open spec fn replicas(self) -> ReplicaModel {
        match self.role {
            RoleModel::Master { replicas, .. } => replicas,
            RoleModel::Replica { .. } => Map::empty(),
        }
    }

    /// The offset in the replicated stream: what a master has sent out, what a
    /// replica has applied.
    pub open spec fn offset(self) -> u64 {
        match self.role {
            RoleModel::Master { replication_offset, .. } => replication_offset,
            RoleModel::Replica { processed_offset, .. } => processed_offset,
        }
    }

    /// The server with another store.
    pub open spec fn with_store(self, store: StoreModel) -> ServerModel {
        ServerModel { store, ..self }
    }

    /// The server with other replicas; a replica has none and stays as it is.
    pub open spec fn with_replicas(self, replicas: ReplicaModel) -> ServerModel {
        match self.role {
            RoleModel::Master { replication_id, replication_offset, .. } => ServerModel {
                role: RoleModel::Master { replication_id, replication_offset, replicas },
                ..self
            },
            RoleModel::Replica { .. } => self,
        }
    }

    /// Whether the offset of the server can move on by `len` bytes: an offset is
    /// counted in 64 bits.
    pub open spec fn can_advance(self, len: nat) -> bool {
        self.offset() + len <= u64::MAX
    }

    /// The server with another offset.
    pub open spec fn with_offset(self, offset: u64) -> ServerModel {
        match self.role {
            RoleModel::Master { replication_id, replicas, .. } => ServerModel {
                role: RoleModel::Master { replication_id, replication_offset: offset, replicas },
                ..self
            },
            RoleModel::Replica { master_host, master_port, last_heartbeat, .. } => ServerModel {
                role: RoleModel::Replica {
                    master_host,
                    master_port,
                    processed_offset: offset,
                    last_heartbeat,
                },
                ..self
            },
        }
    }

    /// The server with its offset moved on by `len` bytes; the server as it is where
    /// the offset cannot move on so far.
    pub open spec fn advanced(self, len: nat) -> ServerModel {
        match spec_advance(self.offset(), len) {
            Some(offset) => self.with_offset(offset),
            None => self,
        }
    }

    /// The server after its master was heard of at `now`; a master stays as it is.
    pub open spec fn heard_master(self, now: u64) -> ServerModel {
        match self.role {
            RoleModel::Master { .. } => self,
            RoleModel::Replica { master_host, master_port, processed_offset, .. } => ServerModel {
                role: RoleModel::Replica {
                    master_host,
                    master_port,
                    processed_offset,
                    last_heartbeat: Some(now),
                },
                ..self
            },
        }
    }
}

impl LiveData {
    /// What a server in the role `info` starts with: offsets at zero, no replica,
    /// nothing heard of the master.
    pub fn new(info: &ReplicaInfo) -> (r: LiveData)
        ensures
            roles_agree(*info, r),
            role_model(*info, r) == spec_initial_role(*info),
    {
        match info {
            ReplicaInfo::Master(_) => LiveData::Master(
                MasterLiveData { replication_offset: 0, replica_manager: ReplicaManager::new() },
            ),
            ReplicaInfo::Slave(_) => LiveData::Slave(
                SlaveLiveData { offset: 0, heartbeat_recv_time: None },
            ),
        }
    }
}

/// Whether `live` is what a server in the role `info` holds.
pub open spec fn roles_agree(info: ReplicaInfo, live: LiveData) -> bool {
    (info is Master) == (live is Master)
}

/// The model of a server that is in the role `info` and holds `live`.
pub open spec fn role_model(info: ReplicaInfo, live: LiveData) -> RoleModel {
    match info {
        ReplicaInfo::Master(master) => RoleModel::Master {
            replication_id: master.replication_id@,
            replication_offset: match live {
                LiveData::Master(data) => data.replication_offset,
                LiveData::Slave(_) => 0,
            },
            replicas: match live {
                LiveData::Master(data) => data.replica_manager@,
                LiveData::Slave(_) => Map::empty(),
            },
        },
        ReplicaInfo::Slave(slave) => RoleModel::Replica {
            master_host: slave.master_host@,
            master_port: slave.master_port,
            processed_offset: match live {
                LiveData::Slave(data) => data.offset,
                LiveData::Master(_) => 0,
            },
            last_heartbeat: match live {
                LiveData::Slave(data) => data.heartbeat_recv_time,
                LiveData::Master(_) => None,
            },
        },
    }
}

/// A server: what it knows of itself, what changes while it runs, and the store.
pub struct Server {
    metadata: ServerMetadata,
    live_data: LiveData,
    store: ExpiringHashMap,
}

impl View for Server {
    type V = ServerModel;

    closed spec fn view(&self) -> ServerModel {
        ServerModel {
            listening_port: self.metadata.listening_port,
            role: role_model(self.metadata.replica_info, self.live_data),
            store: self.store@,
        }
    }
}

impl Server {
    #[verifier::type_invariant]
    spec fn live_data_fits_role(self) -> bool {
        roles_agree(self.metadata.replica_info, self.live_data)
    }

    /// What the server knows of itself from the start. It never changes.
    pub closed spec fn spec_metadata(&self) -> ServerMetadata {
        self.metadata
    }

    /// A server that has just started: offsets at zero, no replica, an empty store.
    pub fn new(metadata: ServerMetadata) -> (r: Server)
        ensures
            r.spec_metadata() == metadata,
            r@ == (ServerModel {
                listening_port: metadata.listening_port,
                role: spec_initial_role(metadata.replica_info),
                store: Map::empty(),
            }),
    {
        let live_data = LiveData::new(&metadata.replica_info);
        Server { metadata, live_data, store: ExpiringHashMap::new() }
    }

    /// What the server knows of itself from the start.
    pub fn metadata(&self) -> (r: &ServerMetadata)
        ensures
            *r == self.spec_metadata(),
            r.listening_port == self@.listening_port,
            match r.replica_info {
                ReplicaInfo::Master(master) => self@.role matches RoleModel::Master {
                    replication_id,
                    ..
                } && replication_id == master.replication_id@,
                ReplicaInfo::Slave(slave) => self@.role matches RoleModel::Replica {
                    master_host,
                    master_port,
                    ..
                } && master_host == slave.master_host@ && master_port == slave.master_port,
            },
    {
        &self.metadata
    }

    /// Whether the server is a master.
    pub fn is_master(&self) -> (r: bool)
        ensures
            r == self@.is_master(),
    {
        match &self.metadata.replica_info {
            ReplicaInfo::Master(_) => true,
            ReplicaInfo::Slave(_) => false,
        }
    }

    /// The offset in the replicated stream: what a master has sent out, what a
    /// replica has applied.
    pub fn get_offset(&self) -> (r: u64)
        ensures
            r == self@.offset(),
    {
        proof {
            use_type_invariant(self);
        }
        match &self.live_data {
            LiveData::Master(data) => data.replication_offset,
            LiveData::Slave(data) => data.offset,
        }
    }

    /// The instant at which a replica last heard of its master.
    pub fn get_heartbeat(&self) -> (r: Option<u64>)
        ensures
            match self@.role {
                RoleModel::Master { .. } => r is None,
                RoleModel::Replica { last_heartbeat, .. } => r == last_heartbeat,
            },
    {
        proof {
            use_type_invariant(self);
        }
        match &self.live_data {
            LiveData::Master(_) => None,
            LiveData::Slave(data) => data.heartbeat_recv_time,
        }
    }

    /// Sets `value` under `key` at the instant `now`, to live for `expiry`
    /// milliseconds or, without one, for ever.
    pub fn set(&mut self, key: &[u8], value: &[u8], expiry: Option<u64>, now: u64)
        ensures
            final(self).spec_metadata() == old(self).spec_metadata(),
            final(self)@ == old(self)@.with_store(spec_set(old(self)@.store, key@, value@, expiry, now)),
    {
        proof {
            use_type_invariant(&*self);
        }
        let mut store = ExpiringHashMap::new();
        core::mem::swap(&mut self.store, &mut store);
        store.set(key, value, expiry, now);
        core::mem::swap(&mut self.store, &mut store);
    }

    /// Reads the value under `key` at the instant `now`. An entry whose deadline has
    /// passed gives nothing and is removed.
    pub fn get(&mut self, key: &[u8], now: u64) -> (r: Option<Vec<u8>>)
        ensures
            final(self).spec_metadata() == old(self).spec_metadata(),
            match spec_get(old(self)@.store, key@, now) {
                Some(value) => r matches Some(bytes) && bytes@ == value,
                None => r is None,
            },
            final(self)@ == old(self)@.with_store(spec_after_get(old(self)@.store, key@, now)),
    {
        proof {
            use_type_invariant(&*self);
        }
        let mut store = ExpiringHashMap::new();
        core::mem::swap(&mut self.store, &mut store);
        let found = store.get(key, now);
        core::mem::swap(&mut self.store, &mut store);
        found
    }

    /// Removes every entry of the store whose deadline has passed at the instant
    /// `now`, and says how many there were.
    pub fn cleanup_expired_keys(&mut self, now: u64) -> (r: usize)
        ensures
            final(self).spec_metadata() == old(self).spec_metadata(),
            final(self)@ == old(self)@.with_store(spec_sweep(old(self)@.store, now)),
            r == spec_expired_keys(old(self)@.store, now).len(),
    {
        proof {
            use_type_invariant(&*self);
        }
        let mut store = ExpiringHashMap::new();
        core::mem::swap(&mut self.store, &mut store);
        let removed = store.cleanup_expired_keys(now);
        core::mem::swap(&mut self.store, &mut store);
        removed
    }

    /// Takes what changes out of the server, and leaves what a server starts with.
    fn take_live_data(&mut self) -> (r: LiveData)
        ensures
            r == old(self).live_data,
            final(self).metadata == old(self).metadata,
            final(self).store == old(self).store,
            roles_agree(old(self).metadata.replica_info, r),
    {
        proof {
            use_type_invariant(&*self);
        }
        let mut live_data = LiveData::new(&self.metadata.replica_info);
        core::mem::swap(&mut self.live_data, &mut live_data);
        live_data
    }

    /// Puts what changes back into the server.
    fn put_live_data(&mut self, live_data: LiveData)
        requires
            roles_agree(old(self).metadata.replica_info, live_data),
        ensures
            final(self).live_data == live_data,
            final(self).metadata == old(self).metadata,
            final(self).store == old(self).store,
    {
        let mut live_data = live_data;
        core::mem::swap(&mut self.live_data, &mut live_data);
    }

    /// Moves the offset on by `len` bytes: on a master, what it has sent out; on a
    /// replica, what it has applied. Where the offset cannot move on so far, nothing
    /// changes and the answer is `false`.
    pub fn advance_offset(&mut self, len: usize) -> (r: bool)
        ensures
            final(self).spec_metadata() == old(self).spec_metadata(),
            r == old(self)@.can_advance(len as nat),
            final(self)@ == old(self)@.advanced(len as nat),
    {
        let mut live_data = self.take_live_data();
        let moved = match &mut live_data {
            LiveData::Master(data) => match advance(data.replication_offset, len) {
                Some(offset) => {
                    data.replication_offset = offset;
                    true
                },
                None => false,
            },
            LiveData::Slave(data) => match advance(data.offset, len) {
                Some(offset) => {
                    data.offset = offset;
                    true
                },
                None => false,
            },
        };
        self.put_live_data(live_data);
        moved
    }

    /// Records on a replica that its master was heard of at the instant `now`.
    pub fn record_heartbeat(&mut self, now: u64)
        ensures
            final(self).spec_metadata() == old(self).spec_metadata(),
            final(self)@ == old(self)@.heard_master(now),
    {
        let mut live_data = self.take_live_data();
        match &mut live_data {
            LiveData::Master(_) => {},
            LiveData::Slave(data) => {
                data.heartbeat_recv_time = Some(now);
            },
        }
        self.put_live_data(live_data);
    }

    /// Registers on a master the replica that has joined from `addr`, with nothing
    /// acknowledged. A replica that was registered under that address gives way.
    pub fn add_replica(&mut self, addr: PeerAddr)
        ensures
            final(self).spec_metadata() == old(self).spec_metadata(),
            final(self)@ == old(self)@.with_replicas(old(self)@.replicas().insert(addr, 0)),
    {
        let mut live_data = self.take_live_data();
        match &mut live_data {
            LiveData::Master(data) => {
                data.replica_manager.add_replica(Replica::new(addr));
            },
            LiveData::Slave(_) => {},
        }
        self.put_live_data(live_data);
    }

    /// Forgets on a master the replica at `addr`, now that its connection is gone.
    /// Nothing changes where no replica was registered under that address.
    pub fn handle_disconnect(&mut self, addr: PeerAddr)
        ensures
            final(self).spec_metadata() == old(self).spec_metadata(),
            final(self)@ == old(self)@.with_replicas(old(self)@.replicas().remove(addr)),
    {
        let mut live_data = self.take_live_data();
        match &mut live_data {
            LiveData::Master(data) => {
                data.replica_manager.remove_replica(addr);
            },
            LiveData::Slave(_) => {
                assert(Map::<PeerAddr, u64>::empty().remove(addr) =~= Map::<PeerAddr, u64>::empty());
            },
        }
        self.put_live_data(live_data);
    }

    /// The addresses to which a message for the replicas is to be written: each
    /// registered replica once.
    pub fn propagate_message(&self) -> (r: Vec<PeerAddr>)
        ensures
            r@.no_duplicates(),
            r@.to_set() == self@.replicas().dom(),
    {
        proof {
            use_type_invariant(self);
        }
        match &self.live_data {
            LiveData::Master(data) => data.replica_manager.propagate_message_to_replicas(),
            LiveData::Slave(_) => {
                let none: Vec<PeerAddr> = Vec::new();
                assert(none@.to_set() =~= Set::<PeerAddr>::empty());
                assert(Map::<PeerAddr, u64>::empty().dom() =~= Set::<PeerAddr>::empty());
                none
            },
        }
    }

    /// Records on a master that the replica at `addr` has acknowledged `offset`.
    pub fn update_replica_offset(&mut self, addr: PeerAddr, offset: u64)
        ensures
            final(self).spec_metadata() == old(self).spec_metadata(),
            final(self)@ == old(self)@.with_replicas(
                spec_update_offset(old(self)@.replicas(), addr, offset),
            ),
    {
        let mut live_data = self.take_live_data();
        match &mut live_data {
            LiveData::Master(data) => {
                data.replica_manager.update_replica_offset(addr, offset);
            },
            LiveData::Slave(_) => {},
        }
        self.put_live_data(live_data);
    }

    /// The number of replicas that are registered.
    pub fn get_replica_count(&self) -> (r: usize)
        ensures
            self@.replicas().dom().finite(),
            r == self@.replicas().len(),
    {
        proof {
            use_type_invariant(self);
        }
        match &self.live_data {
            LiveData::Master(data) => data.replica_manager.get_connected_replica_count(),
            LiveData::Slave(_) => {
                assert(Map::<PeerAddr, u64>::empty().dom() =~= Set::<PeerAddr>::empty());
                0
            },
        }
    }

    /// The number of replicas that have acknowledged `offset` or more.
    pub fn get_up_to_date_replicas_count(&self, offset: u64) -> (r: usize)
        ensures
            spec_up_to_date(self@.replicas(), offset).finite(),
            r == spec_up_to_date(self@.replicas(), offset).len(),
    {
        proof {
            use_type_invariant(self);
        }
        match &self.live_data {
            LiveData::Master(data) => data.replica_manager.get_up_to_date_replicas_count(offset),
            LiveData::Slave(_) => {
                assert(spec_up_to_date(Map::<PeerAddr, u64>::empty(), offset) =~= Set::<
                    PeerAddr,
                >::empty());
                0
            },
        }
    }
}

/// `offset` moved on by `len` bytes; `None` where that is more than an offset can count.
pub fn advance(offset: u64, len: usize) -> (r: Option<u64>)
    ensures
        r == spec_advance(offset, len as nat),
{
    if len as u64 > u64::MAX - offset {
        None
    } else {
        Some(offset + len as u64)
    }
}

} // verus!
