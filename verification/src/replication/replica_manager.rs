//! The replicas of a master, each known by the address of its connection, with the
//! offset that it has acknowledged.

use vstd::prelude::*;

verus! {

/// The address of the far end of a connection. An IPv4 address is held in its
/// IPv6-mapped form.
#[derive(Debug, Clone, Copy, PartialEq, Eq, Hash, Structural)]
pub struct PeerAddr {
    pub ip: u128,
    pub port: u16,
}

/// A replica as its master sees it.
#[derive(Debug, Clone, Copy, PartialEq, Eq, Structural)]
pub struct Replica {
    /// The address from which the replica connected.
    pub addr: PeerAddr,
    /// The offset in the replicated stream that the replica has acknowledged.
    pub replica_offset: u64,
}

/// The mathematical model of the registry: the acknowledged offset of each replica.
pub type ReplicaModel = Map<PeerAddr, u64>;

/// The replicas of `replicas` that have acknowledged `target` or more.
pub open spec fn spec_up_to_date(replicas: ReplicaModel, target: u64) -> Set<PeerAddr> {
    Set::new(|addr: PeerAddr| replicas.contains_key(addr) && replicas[addr] >= target)
}

/// The registry after the replica at `addr` has acknowledged `offset`: an
/// acknowledged offset never goes back, and an unknown address changes nothing.
pub open spec fn spec_update_offset(replicas: ReplicaModel, addr: PeerAddr, offset: u64)
    -> ReplicaModel {
    if replicas.contains_key(addr) {
        replicas.insert(
            addr,
            if replicas[addr] >= offset {
                replicas[addr]
            } else {
                offset
            },
        )
    } else {
        replicas
    }
}

/// What a replica has acknowledged never goes back, an acknowledgement is
/// recorded in full where it goes forward, and it touches no other replica.
pub proof fn lemma_acknowledged_offset_never_goes_back(
    replicas: ReplicaModel,
    addr: PeerAddr,
    offset: u64,
)
    ensures
        spec_update_offset(replicas, addr, offset).dom() == replicas.dom(),
        replicas.contains_key(addr) ==> spec_update_offset(replicas, addr, offset)[addr]
            >= replicas[addr] && spec_update_offset(replicas, addr, offset)[addr] >= offset,
        forall|other: PeerAddr|
            other != addr && replicas.contains_key(other) ==> #[trigger] spec_update_offset(
                replicas,
                addr,
                offset,
            )[other] == replicas[other],
        forall|target: u64|
            #[trigger] spec_up_to_date(replicas, target).subset_of(
                spec_up_to_date(spec_update_offset(replicas, addr, offset), target),
            ),
{
    assert(spec_update_offset(replicas, addr, offset).dom() =~= replicas.dom());
}

impl Replica {
    /// A replica that has just connected from `addr` and has acknowledged nothing.
    pub fn new(addr: PeerAddr) -> (r: Replica)
        ensures
            r == (Replica { addr, replica_offset: 0 }),
    {
        Replica { addr, replica_offset: 0 }
    }
}

/// The registry of the replicas of a master.
pub struct ReplicaManager {
    replicas: Vec<Replica>,
}

/// Whether no two of `replicas` have the same address.
spec fn distinct_addrs(replicas: Seq<Replica>) -> bool {
    forall|i: int, j: int|
        0 <= i < replicas.len() && 0 <= j < replicas.len() && i != j ==> (
        #[trigger] replicas[i]).addr != (#[trigger] replicas[j]).addr
}

/// Whether one of `replicas` has the address `addr`.
spec fn holds_addr(replicas: Seq<Replica>, addr: PeerAddr) -> bool {
    exists|i: int| 0 <= i < replicas.len() && (#[trigger] replicas[i]).addr == addr
}

/// The index of the replica with the address `addr`.
spec fn index_of_addr(replicas: Seq<Replica>, addr: PeerAddr) -> int {
    choose|i: int| 0 <= i < replicas.len() && (#[trigger] replicas[i]).addr == addr
}

/// The model of a sequence of replicas with distinct addresses.
spec fn model_of(replicas: Seq<Replica>) -> ReplicaModel {
    Map::new(
        |addr: PeerAddr| holds_addr(replicas, addr),
        |addr: PeerAddr| replicas[index_of_addr(replicas, addr)].replica_offset,
    )
}

/// The model holds each replica under its address.
proof fn lemma_model_at(replicas: Seq<Replica>, i: int)
    requires
        distinct_addrs(replicas),
        0 <= i < replicas.len(),
    ensures
        model_of(replicas).contains_key(replicas[i].addr),
        model_of(replicas)[replicas[i].addr] == replicas[i].replica_offset,
{
    let addr = replicas[i].addr;
    assert(holds_addr(replicas, addr));
    let j = index_of_addr(replicas, addr);
    assert(0 <= j < replicas.len() && replicas[j].addr == addr);
    assert(i == j);
}

/// Replacing the replica at `i` by one with the same address sets its offset.
proof fn lemma_model_update(before: Seq<Replica>, i: int, replica: Replica)
    requires
        distinct_addrs(before),
        0 <= i < before.len(),
        replica.addr == before[i].addr,
    ensures
        distinct_addrs(before.update(i, replica)),
        model_of(before.update(i, replica)) == model_of(before).insert(
            replica.addr,
            replica.replica_offset,
        ),
{
    let after = before.update(i, replica);
    let target = model_of(before).insert(replica.addr, replica.replica_offset);
    assert forall|a: int, b: int|
        0 <= a < after.len() && 0 <= b < after.len() && a != b implies (#[trigger] after[a]).addr
        != (#[trigger] after[b]).addr by {
        assert(after[a].addr == before[a].addr);
        assert(after[b].addr == before[b].addr);
    }
    assert forall|addr: PeerAddr| model_of(after).contains_key(addr) <==> target.contains_key(
        addr,
    ) by {
        if holds_addr(after, addr) {
            let j = index_of_addr(after, addr);
            assert(after[j].addr == before[j].addr);
        }
        if holds_addr(before, addr) {
            let j = index_of_addr(before, addr);
            assert(after[j].addr == before[j].addr);
        }
        if addr == replica.addr {
            assert(after[i].addr == addr);
        }
    }
    assert forall|addr: PeerAddr| model_of(after).contains_key(addr) implies model_of(after)[addr]
        == target[addr] by {
        let j = index_of_addr(after, addr);
        assert(0 <= j < after.len() && after[j].addr == addr);
        lemma_model_at(after, j);
        if j != i {
            assert(after[j] == before[j]);
            lemma_model_at(before, j);
        }
    }
    assert(model_of(after) =~= target);
}

/// Adding a replica with a new address sets its offset.
proof fn lemma_model_push(before: Seq<Replica>, replica: Replica)
    requires
        distinct_addrs(before),
        !holds_addr(before, replica.addr),
    ensures
        distinct_addrs(before.push(replica)),
        model_of(before.push(replica)) == model_of(before).insert(
            replica.addr,
            replica.replica_offset,
        ),
{
    let after = before.push(replica);
    let target = model_of(before).insert(replica.addr, replica.replica_offset);
    assert forall|a: int, b: int|
        0 <= a < after.len() && 0 <= b < after.len() && a != b implies (#[trigger] after[a]).addr
        != (#[trigger] after[b]).addr by {
        if a < before.len() {
            assert(after[a] == before[a]);
        }
        if b < before.len() {
            assert(after[b] == before[b]);
        }
    }
    assert forall|addr: PeerAddr| model_of(after).contains_key(addr) <==> target.contains_key(
        addr,
    ) by {
        if holds_addr(after, addr) {
            let j = index_of_addr(after, addr);
            if j < before.len() {
                assert(before[j].addr == addr);
            }
        }
        if holds_addr(before, addr) {
            let j = index_of_addr(before, addr);
            assert(after[j].addr == addr);
        }
        if addr == replica.addr {
            assert(after[after.len() - 1].addr == addr);
        }
    }
    assert forall|addr: PeerAddr| model_of(after).contains_key(addr) implies model_of(after)[addr]
        == target[addr] by {
        let j = index_of_addr(after, addr);
        assert(0 <= j < after.len() && after[j].addr == addr);
        lemma_model_at(after, j);
        if j < before.len() {
            assert(after[j] == before[j]);
            lemma_model_at(before, j);
        }
    }
    assert(model_of(after) =~= target);
}

/// Removing the replica at `i`, with the last one taking its place, removes its address.
proof fn lemma_model_swap_remove(before: Seq<Replica>, i: int)
    requires
        distinct_addrs(before),
        0 <= i < before.len(),
    ensures
        distinct_addrs(before.update(i, before.last()).drop_last()),
        model_of(before.update(i, before.last()).drop_last()) == model_of(before).remove(
            before[i].addr,
        ),
{
    let after = before.update(i, before.last()).drop_last();
    let target = model_of(before).remove(before[i].addr);
    assert forall|j: int| 0 <= j < after.len() implies #[trigger] after[j] == (if j == i {
        before.last()
    } else {
        before[j]
    }) by {}
    assert forall|a: int, b: int|
        0 <= a < after.len() && 0 <= b < after.len() && a != b implies (#[trigger] after[a]).addr
        != (#[trigger] after[b]).addr by {
        let origin_a = if a == i {
            before.len() - 1
        } else {
            a
        };
        let origin_b = if b == i {
            before.len() - 1
        } else {
            b
        };
        assert(after[a] == before[origin_a]);
        assert(after[b] == before[origin_b]);
    }
    assert forall|addr: PeerAddr| model_of(after).contains_key(addr) <==> target.contains_key(
        addr,
    ) by {
        if holds_addr(after, addr) {
            let j = index_of_addr(after, addr);
            let origin = if j == i {
                before.len() - 1
            } else {
                j
            };
            assert(after[j] == before[origin]);
            assert(before[origin].addr == addr);
        }
        if holds_addr(before, addr) && addr != before[i].addr {
            let j = index_of_addr(before, addr);
            assert(j != i);
            if j == before.len() - 1 {
                assert(after[i] == before[j]);
            } else {
                assert(after[j] == before[j]);
            }
        }
    }
    assert forall|addr: PeerAddr| model_of(after).contains_key(addr) implies model_of(after)[addr]
        == target[addr] by {
        let j = index_of_addr(after, addr);
        assert(0 <= j < after.len() && after[j].addr == addr);
        lemma_model_at(after, j);
        let origin = if j == i {
            before.len() - 1
        } else {
            j
        };
        assert(after[j] == before[origin]);
        lemma_model_at(before, origin);
    }
    assert(model_of(after) =~= target);
}

/// The first `n` of replicas with distinct addresses make a finite registry of `n`
/// addresses, of which those up to date with `target` can be counted one by one.
proof fn lemma_model_prefix(replicas: Seq<Replica>, n: int, target: u64)
    requires
        distinct_addrs(replicas),
        0 <= n <= replicas.len(),
    ensures
        distinct_addrs(replicas.take(n)),
        model_of(replicas.take(n)).dom().finite(),
        model_of(replicas.take(n)).len() == n,
        spec_up_to_date(model_of(replicas.take(n)), target).finite(),
        n < replicas.len() ==> spec_up_to_date(model_of(replicas.take(n + 1)), target).len()
            == spec_up_to_date(model_of(replicas.take(n)), target).len() + (if replicas[n].replica_offset
            >= target {
            1int
        } else {
            0int
        }),
    decreases n,
{
    let prefix = replicas.take(n);
    assert forall|a: int, b: int|
        0 <= a < prefix.len() && 0 <= b < prefix.len() && a != b implies (#[trigger] prefix[a]).addr
        != (#[trigger] prefix[b]).addr by {
        assert(prefix[a] == replicas[a]);
        assert(prefix[b] == replicas[b]);
    }
    if n == 0 {
        assert(model_of(prefix).dom() =~= Set::<PeerAddr>::empty());
    } else {
        lemma_model_prefix(replicas, n - 1, target);
        lemma_prefix_step(replicas, n - 1);
    }
    assert(spec_up_to_date(model_of(prefix), target).subset_of(model_of(prefix).dom()));
    vstd::set_lib::lemma_len_subset(
        spec_up_to_date(model_of(prefix), target),
        model_of(prefix).dom(),
    );
    if n < replicas.len() {
        lemma_prefix_step(replicas, n);
        let longer = replicas.take(n + 1);
        let replica = replicas[n];
        let small = spec_up_to_date(model_of(prefix), target);
        let large = spec_up_to_date(model_of(longer), target);
        if replica.replica_offset >= target {
            assert(large =~= small.insert(replica.addr));
        } else {
            assert(large =~= small);
        }
    }
}

/// One more replica in a prefix adds its address to the registry.
proof fn lemma_prefix_step(replicas: Seq<Replica>, n: int)
    requires
        distinct_addrs(replicas),
        0 <= n < replicas.len(),
        distinct_addrs(replicas.take(n)),
    ensures
        !holds_addr(replicas.take(n), replicas[n].addr),
        model_of(replicas.take(n + 1)) == model_of(replicas.take(n)).insert(
            replicas[n].addr,
            replicas[n].replica_offset,
        ),
{
    let prefix = replicas.take(n);
    if holds_addr(prefix, replicas[n].addr) {
        let j = index_of_addr(prefix, replicas[n].addr);
        assert(prefix[j] == replicas[j]);
        assert(replicas[j].addr == replicas[n].addr);
    }
    assert(replicas.take(n + 1) =~= prefix.push(replicas[n]));
    lemma_model_push(prefix, replicas[n]);
}

/// The index of the replica with the address `addr`, if there is one.
fn find_replica(replicas: &Vec<Replica>, addr: PeerAddr) -> (r: Option<usize>)
    ensures
        match r {
            Some(i) => i < replicas@.len() && replicas@[i as int].addr == addr,
            None => !holds_addr(replicas@, addr),
        },
{
    let mut i: usize = 0;
    while i < replicas.len()
        invariant
            0 <= i <= replicas@.len(),
            forall|j: int| 0 <= j < i ==> (#[trigger] replicas@[j]).addr != addr,
        decreases replicas@.len() - i,
    {
        if replicas[i].addr == addr {
            return Some(i);
        }
        i += 1;
    }
    None
}

/// Puts `replica` among `replicas`, in the place of the one with its address if
/// there is one, which is handed back.
fn put_replica(replicas: &mut Vec<Replica>, replica: Replica) -> (r: Option<Replica>)
    requires
        distinct_addrs(old(replicas)@),
    ensures
        distinct_addrs(final(replicas)@),
        model_of(final(replicas)@) == model_of(old(replicas)@).insert(
            replica.addr,
            replica.replica_offset,
        ),
        match r {
            Some(previous) => previous.addr == replica.addr && model_of(
                old(replicas)@,
            ).contains_key(replica.addr) && model_of(old(replicas)@)[replica.addr]
                == previous.replica_offset,
            None => !model_of(old(replicas)@).contains_key(replica.addr),
        },
{
    match find_replica(replicas, replica.addr) {
        Some(i) => {
            let previous = replicas[i];
            proof {
                lemma_model_at(replicas@, i as int);
                lemma_model_update(replicas@, i as int, replica);
            }
            replicas.set(i, replica);
            Some(previous)
        },
        None => {
            proof {
                lemma_model_push(replicas@, replica);
            }
            replicas.push(replica);
            None
        },
    }
}

/// Takes the replica with the address `addr` out of `replicas`, if there is one.
fn take_replica(replicas: &mut Vec<Replica>, addr: PeerAddr) -> (r: Option<Replica>)
    requires
        distinct_addrs(old(replicas)@),
    ensures
        distinct_addrs(final(replicas)@),
        model_of(final(replicas)@) == model_of(old(replicas)@).remove(addr),
        match r {
            Some(removed) => removed.addr == addr && model_of(old(replicas)@).contains_key(addr)
                && model_of(old(replicas)@)[addr] == removed.replica_offset,
            None => !model_of(old(replicas)@).contains_key(addr),
        },
{
    match find_replica(replicas, addr) {
        Some(i) => {
            proof {
                lemma_model_at(replicas@, i as int);
                lemma_model_swap_remove(replicas@, i as int);
            }
            let removed = replicas.swap_remove(i);
            Some(removed)
        },
        None => {
            assert(model_of(replicas@).remove(addr) =~= model_of(replicas@));
            None
        },
    }
}

impl View for ReplicaManager {
    type V = ReplicaModel;

    closed spec fn view(&self) -> ReplicaModel {
        model_of(self.replicas@)
    }
}

impl ReplicaManager {
    #[verifier::type_invariant]
    spec fn addrs_are_distinct(self) -> bool {
        distinct_addrs(self.replicas@)
    }

    /// A registry without replicas.
    pub fn new() -> (r: ReplicaManager)
        ensures
            r@ == Map::<PeerAddr, u64>::empty(),
    {
        let manager = ReplicaManager { replicas: Vec::new() };
        assert(model_of(manager.replicas@) =~= Map::<PeerAddr, u64>::empty());
        manager
    }

    /// Registers `replica`. A replica that was registered under the same address
    /// gives way and is handed back.
    pub fn add_replica(&mut self, replica: Replica) -> (r: Option<Replica>)
        ensures
            final(self)@ == old(self)@.insert(replica.addr, replica.replica_offset),
            match r {
                Some(previous) => previous.addr == replica.addr && old(self)@.contains_key(
                    replica.addr,
                ) && old(self)@[replica.addr] == previous.replica_offset,
                None => !old(self)@.contains_key(replica.addr),
            },
    {
        proof {
            use_type_invariant(&*self);
        }
        let mut replicas: Vec<Replica> = Vec::new();
        core::mem::swap(&mut self.replicas, &mut replicas);
        let previous = put_replica(&mut replicas, replica);
        core::mem::swap(&mut self.replicas, &mut replicas);
        previous
    }

    /// Removes the replica at `addr` and hands it back; `None` where there was none.
    pub fn remove_replica(&mut self, addr: PeerAddr) -> (r: Option<Replica>)
        ensures
            final(self)@ == old(self)@.remove(addr),
            match r {
                Some(removed) => removed.addr == addr && old(self)@.contains_key(addr) && old(
                    self,
                )@[addr] == removed.replica_offset,
                None => !old(self)@.contains_key(addr),
            },
    {
        proof {
            use_type_invariant(&*self);
        }
        let mut replicas: Vec<Replica> = Vec::new();
        core::mem::swap(&mut self.replicas, &mut replicas);
        let removed = take_replica(&mut replicas, addr);
        core::mem::swap(&mut self.replicas, &mut replicas);
        removed
    }

    /// The number of replicas that are registered.
    pub fn get_connected_replica_count(&self) -> (r: usize)
        ensures
            self@.dom().finite(),
            r == self@.len(),
    {
        proof {
            use_type_invariant(self);
            lemma_model_prefix(self.replicas@, self.replicas@.len() as int, 0);
            assert(self.replicas@.take(self.replicas@.len() as int) =~= self.replicas@);
        }
        self.replicas.len()
    }

    /// The addresses to which a message for the replicas is to be written: each
    /// registered replica once.
    pub fn propagate_message_to_replicas(&self) -> (r: Vec<PeerAddr>)
        ensures
            r@.no_duplicates(),
            r@.to_set() == self@.dom(),
    {
        proof {
            use_type_invariant(self);
        }
        let mut targets: Vec<PeerAddr> = Vec::new();
        let mut i: usize = 0;
        while i < self.replicas.len()
            invariant
                0 <= i <= self.replicas@.len(),
                targets@.len() == i,
                forall|j: int| 0 <= j < i ==> targets@[j] == (#[trigger] self.replicas@[j]).addr,
            decreases self.replicas@.len() - i,
        {
            targets.push(self.replicas[i].addr);
            i += 1;
        }
        proof {
            let replicas = self.replicas@;
            assert forall|a: int, b: int|
                0 <= a < targets@.len() && 0 <= b < targets@.len() && a != b implies targets@[a]
                != targets@[b] by {
                assert(targets@[a] == replicas[a].addr);
                assert(targets@[b] == replicas[b].addr);
            }
            assert forall|addr: PeerAddr| targets@.to_set().contains(addr) <==> self@.dom().contains(
                addr,
            ) by {
                if targets@.contains(addr) {
                    let j = choose|j: int| 0 <= j < targets@.len() && targets@[j] == addr;
                    assert(replicas[j].addr == addr);
                }
                if holds_addr(replicas, addr) {
                    let j = index_of_addr(replicas, addr);
                    assert(targets@[j] == addr);
                }
            }
            assert(targets@.to_set() =~= self@.dom());
        }
        targets
    }

    /// Records that the replica at `addr` has acknowledged `offset`. An offset below
    /// the one on record changes nothing, and neither does an unknown address.
    pub fn update_replica_offset(&mut self, addr: PeerAddr, offset: u64)
        ensures
            final(self)@ == spec_update_offset(old(self)@, addr, offset),
    {
        proof {
            use_type_invariant(&*self);
        }
        let mut replicas: Vec<Replica> = Vec::new();
        core::mem::swap(&mut self.replicas, &mut replicas);
        match find_replica(&replicas, addr) {
            Some(i) => {
                let current: u64 = replicas[i].replica_offset;
                let newest: u64 = if current >= offset {
                    current
                } else {
                    offset
                };
                let replica = Replica { addr, replica_offset: newest };
                proof {
                    lemma_model_at(replicas@, i as int);
                    lemma_model_update(replicas@, i as int, replica);
                }
                replicas.set(i, replica);
            },
            None => {},
        }
        core::mem::swap(&mut self.replicas, &mut replicas);
    }

    /// The number of replicas that have acknowledged `offset` or more.
    pub fn get_up_to_date_replicas_count(&self, offset: u64) -> (r: usize)
        ensures
            spec_up_to_date(self@, offset).finite(),
            r == spec_up_to_date(self@, offset).len(),
    {
        proof {
            use_type_invariant(self);
        }
        let mut count: usize = 0;
        let mut i: usize = 0;
        proof {
            lemma_model_prefix(self.replicas@, 0, offset);
            assert(spec_up_to_date(model_of(self.replicas@.take(0)), offset) =~= Set::<
                PeerAddr,
            >::empty());
        }
        while i < self.replicas.len()
            invariant
                0 <= i <= self.replicas@.len(),
                distinct_addrs(self.replicas@),
                count <= i,
                count == spec_up_to_date(model_of(self.replicas@.take(i as int)), offset).len(),
            decreases self.replicas@.len() - i,
        {
            proof {
                lemma_model_prefix(self.replicas@, i as int, offset);
            }
            if self.replicas[i].replica_offset >= offset {
                count += 1;
            }
            i += 1;
        }
        proof {
            lemma_model_prefix(self.replicas@, i as int, offset);
            assert(self.replicas@.take(i as int) =~= self.replicas@);
        }
        count
    }
}

impl Default for ReplicaManager {
    fn default() -> (r: ReplicaManager)
        ensures
            r@ == Map::<PeerAddr, u64>::empty(),
    {
        ReplicaManager::new()
    }
}

} // verus!
