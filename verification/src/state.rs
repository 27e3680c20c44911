//! The store: byte-string keys and values, each value with an optional deadline
//! after which it is gone.
//!
//! Time is a count of milliseconds on a clock that never runs backwards; the
//! caller reads the clock and hands the reading in.

use vstd::prelude::*;
use crate::parser::resp::copy_bytes;
use crate::text::same_bytes;

verus! {

/// What the store holds under a key: the value and, maybe, the instant from which
/// on it is gone.
pub struct StoredValue {
    pub value: Seq<u8>,
    pub expiry: Option<u64>,
}

/// The mathematical model of the store.
pub type StoreModel = Map<Seq<u8>, StoredValue>;

/// The instant at which a value set at `now` with the time to live `duration` is
/// gone. A deadline beyond the end of the clock is no deadline.
pub open spec fn spec_deadline(duration: Option<u64>, now: u64) -> Option<u64> {
    match duration {
        Some(d) => if now + d <= u64::MAX {
            Some((now + d) as u64)
        } else {
            None
        },
        None => None,
    }
}

/// Whether a value with the deadline `expiry` is gone at `now`.
pub open spec fn is_expired(expiry: Option<u64>, now: u64) -> bool {
    expiry matches Some(deadline) && deadline <= now
}

/// The store after `value` is set under `key` at `now`, to live for `duration`.
pub open spec fn spec_set(
    store: StoreModel,
    key: Seq<u8>,
    value: Seq<u8>,
    duration: Option<u64>,
    now: u64,
) -> StoreModel {
    store.insert(key, StoredValue { value, expiry: spec_deadline(duration, now) })
}

/// What reading `key` at `now` gives.
pub open spec fn spec_get(store: StoreModel, key: Seq<u8>, now: u64) -> Option<Seq<u8>> {
    if store.contains_key(key) && !is_expired(store[key].expiry, now) {
        Some(store[key].value)
    } else {
        None
    }
}

/// The store after `key` is read at `now`: an entry that is found expired is removed.
pub open spec fn spec_after_get(store: StoreModel, key: Seq<u8>, now: u64) -> StoreModel {
    if store.contains_key(key) && is_expired(store[key].expiry, now) {
        store.remove(key)
    } else {
        store
    }
}

/// The store after a sweep at `now`: every entry that is expired is removed.
pub open spec fn spec_sweep(store: StoreModel, now: u64) -> StoreModel {
    Map::new(
        |key: Seq<u8>| store.contains_key(key) && !is_expired(store[key].expiry, now),
        |key: Seq<u8>| store[key],
    )
}

/// The keys that a sweep at `now` removes.
pub open spec fn spec_expired_keys(store: StoreModel, now: u64) -> Set<Seq<u8>> {
    Set::new(|key: Seq<u8>| store.contains_key(key) && is_expired(store[key].expiry, now))
}

/// A value set without a time to live is read back at any later time.
pub proof fn lemma_get_after_set_forever(
    store: StoreModel,
    key: Seq<u8>,
    value: Seq<u8>,
    now: u64,
    later: u64,
)
    ensures
        spec_get(spec_set(store, key, value, None, now), key, later) == Some(value),
        spec_after_get(spec_set(store, key, value, None, now), key, later) == spec_set(
            store,
            key,
            value,
            None,
            now,
        ),
{
}

/// A value set with a time to live is read back until the time has passed; from
/// then on a read gives nothing and removes the key, and so does a sweep.
pub proof fn lemma_get_after_set_with_expiry(
    store: StoreModel,
    key: Seq<u8>,
    value: Seq<u8>,
    duration: u64,
    now: u64,
    later: u64,
)
    ensures
        later < now + duration ==> spec_get(
            spec_set(store, key, value, Some(duration), now),
            key,
            later,
        ) == Some(value),
        later >= now + duration ==> spec_get(
            spec_set(store, key, value, Some(duration), now),
            key,
            later,
        ) is None,
        later >= now + duration ==> !spec_after_get(
            spec_set(store, key, value, Some(duration), now),
            key,
            later,
        ).contains_key(key),
        later >= now + duration ==> !spec_sweep(
            spec_set(store, key, value, Some(duration), now),
            later,
        ).contains_key(key),
{
}

/// A read never gives a value whose deadline has passed, and after it the store
/// holds no such value under the key; a sweep leaves no such value at all.
pub proof fn lemma_no_expired_value_is_read(store: StoreModel, key: Seq<u8>, now: u64)
    ensures
        spec_get(store, key, now) matches Some(value) ==> store.contains_key(key) && store[key].value
            == value && !is_expired(store[key].expiry, now),
        spec_after_get(store, key, now).contains_key(key) ==> !is_expired(
            spec_after_get(store, key, now)[key].expiry,
            now,
        ),
        forall|other: Seq<u8>| #[trigger]
            spec_sweep(store, now).contains_key(other) ==> !is_expired(
                spec_sweep(store, now)[other].expiry,
                now,
            ),
{
}

/// Neither a read nor a sweep brings a key back or moves a deadline: what is left
/// is what was there.
pub proof fn lemma_reads_only_remove(store: StoreModel, key: Seq<u8>, now: u64)
    ensures
        forall|other: Seq<u8>| #[trigger]
            spec_after_get(store, key, now).contains_key(other) ==> store.contains_key(other)
                && spec_after_get(store, key, now)[other] == store[other],
        forall|other: Seq<u8>| #[trigger]
            spec_sweep(store, now).contains_key(other) ==> store.contains_key(other) && spec_sweep(
                store,
                now,
            )[other] == store[other],
{
}

/// The last write wins: of two values set under one key, the store holds the second
/// and nothing of the first, and every other key is as it was.
pub proof fn lemma_last_write_wins(
    store: StoreModel,
    key: Seq<u8>,
    first: Seq<u8>,
    first_duration: Option<u64>,
    first_now: u64,
    second: Seq<u8>,
    second_duration: Option<u64>,
    second_now: u64,
)
    ensures
        spec_set(
            spec_set(store, key, first, first_duration, first_now),
            key,
            second,
            second_duration,
            second_now,
        ) == spec_set(store, key, second, second_duration, second_now),
        forall|other: Seq<u8>|
            other != key ==> (#[trigger] spec_set(
                store,
                key,
                second,
                second_duration,
                second_now,
            ).contains_key(other) == store.contains_key(other)),
        forall|other: Seq<u8>|
            other != key && store.contains_key(other) ==> #[trigger] spec_set(
                store,
                key,
                second,
                second_duration,
                second_now,
            )[other] == store[other],
{
    assert(spec_set(
        spec_set(store, key, first, first_duration, first_now),
        key,
        second,
        second_duration,
        second_now,
    ) =~= spec_set(store, key, second, second_duration, second_now));
}

/// One key of the store with its value and deadline.
struct Entry {
    key: Vec<u8>,
    value: Vec<u8>,
    expiry: Option<u64>,
}

/// A store of byte-string values under byte-string keys, each with an optional deadline.
pub struct ExpiringHashMap {
    entries: Vec<Entry>,
}

/// Whether no two of `entries` have the same key.
spec fn distinct_keys(entries: Seq<Entry>) -> bool {
    forall|i: int, j: int|
        0 <= i < entries.len() && 0 <= j < entries.len() && i != j ==> (#[trigger] entries[i]).key@
            != (#[trigger] entries[j]).key@
}

/// Whether one of `entries` has the key `key`.
spec fn holds_key(entries: Seq<Entry>, key: Seq<u8>) -> bool {
    exists|i: int| 0 <= i < entries.len() && (#[trigger] entries[i]).key@ == key
}

/// The index of the entry with the key `key`.
spec fn index_of_key(entries: Seq<Entry>, key: Seq<u8>) -> int {
    choose|i: int| 0 <= i < entries.len() && (#[trigger] entries[i]).key@ == key
}

/// The model of a sequence of entries with distinct keys.
spec fn model_of(entries: Seq<Entry>) -> StoreModel {
    Map::new(
        |key: Seq<u8>| holds_key(entries, key),
        |key: Seq<u8>|
            StoredValue {
                value: entries[index_of_key(entries, key)].value@,
                expiry: entries[index_of_key(entries, key)].expiry,
            },
    )
}

/// The model holds each entry under its key.
proof fn lemma_model_at(entries: Seq<Entry>, i: int)
    requires
        distinct_keys(entries),
        0 <= i < entries.len(),
    ensures
        model_of(entries).contains_key(entries[i].key@),
        model_of(entries)[entries[i].key@] == (StoredValue {
            value: entries[i].value@,
            expiry: entries[i].expiry,
        }),
{
    let key = entries[i].key@;
    assert(holds_key(entries, key));
    let j = index_of_key(entries, key);
    assert(0 <= j < entries.len() && entries[j].key@ == key);
    assert(i == j);
}

/// The index of the entry with the key `key`, if there is one.
fn find_entry(entries: &Vec<Entry>, key: &[u8]) -> (r: Option<usize>)
    ensures
        match r {
            Some(i) => i < entries@.len() && entries@[i as int].key@ == key@,
            None => !holds_key(entries@, key@),
        },
{
    let mut i: usize = 0;
    while i < entries.len()
        invariant
            0 <= i <= entries@.len(),
            forall|j: int| 0 <= j < i ==> (#[trigger] entries@[j]).key@ != key@,
        decreases entries@.len() - i,
    {
        if same_bytes(entries[i].key.as_slice(), key) {
            return Some(i);
        }
        i += 1;
    }
    None
}

/// Sets `entry` among `entries`: in the place of the one with its key, or at the end.
fn put_entry(entries: &mut Vec<Entry>, entry: Entry)
    requires
        distinct_keys(old(entries)@),
    ensures
        distinct_keys(final(entries)@),
        model_of(final(entries)@) == model_of(old(entries)@).insert(
            entry.key@,
            StoredValue { value: entry.value@, expiry: entry.expiry },
        ),
{
    let ghost before = entries@;
    match find_entry(entries, entry.key.as_slice()) {
        Some(i) => {
            entries.set(i, entry);
            proof {
                let after = entries@;
                assert forall|a: int, b: int|
                    0 <= a < after.len() && 0 <= b < after.len() && a != b implies (
                #[trigger] after[a]).key@ != (#[trigger] after[b]).key@ by {
                    assert(after[a].key@ == before[a].key@);
                    assert(after[b].key@ == before[b].key@);
                }
                lemma_model_update(before, after, i as int);
            }
        },
        None => {
            entries.push(entry);
            proof {
                let after = entries@;
                assert(after.drop_last() =~= before);
                assert forall|a: int, b: int|
                    0 <= a < after.len() && 0 <= b < after.len() && a != b implies (
                #[trigger] after[a]).key@ != (#[trigger] after[b]).key@ by {
                    if a < before.len() {
                        assert(after[a] == before[a]);
                    }
                    if b < before.len() {
                        assert(after[b] == before[b]);
                    }
                }
                lemma_model_push(before, after);
            }
        },
    }
}

/// Reads the value under `key` among `entries` at `now`, and removes it if its
/// deadline has passed.
fn read_entry(entries: &mut Vec<Entry>, key: &[u8], now: u64) -> (r: Option<Vec<u8>>)
    requires
        distinct_keys(old(entries)@),
    ensures
        distinct_keys(final(entries)@),
        match spec_get(model_of(old(entries)@), key@, now) {
            Some(value) => r matches Some(bytes) && bytes@ == value,
            None => r is None,
        },
        model_of(final(entries)@) == spec_after_get(model_of(old(entries)@), key@, now),
{
    let ghost before = entries@;
    match find_entry(entries, key) {
        Some(i) => {
            proof {
                lemma_model_at(before, i as int);
            }
            let expired = match entries[i].expiry {
                Some(deadline) => deadline <= now,
                None => false,
            };
            if expired {
                entries.swap_remove(i);
                proof {
                    lemma_model_swap_remove(before, entries@, i as int);
                }
                None
            } else {
                Some(copy_bytes(entries[i].value.as_slice()))
            }
        },
        None => None,
    }
}

/// Removes each of `entries` whose deadline has passed at `now`, and says how many
/// there were.
fn sweep_entries(entries: &mut Vec<Entry>, now: u64) -> (r: usize)
    requires
        distinct_keys(old(entries)@),
    ensures
        distinct_keys(final(entries)@),
        model_of(final(entries)@) == spec_sweep(model_of(old(entries)@), now),
        r + final(entries)@.len() == old(entries)@.len(),
{
    let ghost before = entries@;
    assert(before.len() <= usize::MAX) by {
        assert(entries.len() <= usize::MAX);
    }
    let mut removed: usize = 0;
    let mut i: usize = 0;
    proof {
        assert forall|j: int| 0 <= j < entries@.len() implies holds_key(
            before,
            (#[trigger] entries@[j]).key@,
        ) && model_of(before)[entries@[j].key@] == (StoredValue {
            value: entries@[j].value@,
            expiry: entries@[j].expiry,
        }) by {
            lemma_model_at(before, j);
        }
    }
    while i < entries.len()
        invariant
            0 <= i <= entries@.len(),
            distinct_keys(entries@),
            distinct_keys(before),
            removed + entries@.len() == before.len(),
            before.len() <= usize::MAX,
            forall|j: int| 0 <= j < i ==> !is_expired((#[trigger] entries@[j]).expiry, now),
            forall|j: int|
                0 <= j < entries@.len() ==> holds_key(before, (#[trigger] entries@[j]).key@)
                    && model_of(before)[entries@[j].key@] == (StoredValue {
                    value: entries@[j].value@,
                    expiry: entries@[j].expiry,
                }),
            forall|key: Seq<u8>|
                holds_key(before, key) && !is_expired(model_of(before)[key].expiry, now)
                    ==> holds_key(entries@, key),
        decreases entries@.len() - i,
    {
        let expired = match entries[i].expiry {
            Some(deadline) => deadline <= now,
            None => false,
        };
        if expired {
            let ghost current = entries@;
            entries.swap_remove(i);
            removed += 1;
            proof {
                let after = entries@;
                lemma_swap_remove_entries(current, after, i as int);
                assert forall|key: Seq<u8>|
                    holds_key(before, key) && !is_expired(
                        model_of(before)[key].expiry,
                        now,
                    ) implies holds_key(after, key) by {
                    assert(holds_key(current, key));
                    let j = index_of_key(current, key);
                    assert(current[j].key@ == key);
                    assert(j != i);
                    if j == current.len() - 1 {
                        assert(after[i as int] == current[j]);
                    } else {
                        assert(after[j] == current[j]);
                    }
                }
            }
        } else {
            i += 1;
        }
    }
    proof {
        let after = entries@;
        let target = spec_sweep(model_of(before), now);
        assert forall|key: Seq<u8>| model_of(after).contains_key(key) implies target.contains_key(
            key,
        ) && model_of(after)[key] == target[key] by {
            let j = index_of_key(after, key);
            assert(0 <= j < after.len() && after[j].key@ == key);
            lemma_model_at(after, j);
        }
        assert(model_of(after) =~= target);
    }
    removed
}

impl ExpiringHashMap {
    #[verifier::type_invariant]
    spec fn keys_are_distinct(self) -> bool {
        distinct_keys(self.entries@)
    }

    /// An empty store.
    pub fn new() -> (r: ExpiringHashMap)
        ensures
            r@ == Map::<Seq<u8>, StoredValue>::empty(),
    {
        let store = ExpiringHashMap { entries: Vec::new() };
        assert(model_of(store.entries@) =~= Map::<Seq<u8>, StoredValue>::empty());
        store
    }

    /// The number of keys in the store, expired ones that no read or sweep has
    /// removed yet among them.
    pub fn len(&self) -> (r: usize)
        ensures
            r == self@.len(),
            self@.dom().finite(),
    {
        proof {
            use_type_invariant(self);
            lemma_model_size(self.entries@);
        }
        self.entries.len()
    }

    /// The instant at which a value set at `now` with the time to live `duration` is gone.
    pub fn calculate_ttl(duration: Option<u64>, now: u64) -> (r: Option<u64>)
        ensures
            r == spec_deadline(duration, now),
    {
        match duration {
            Some(d) => if d <= u64::MAX - now {
                Some(now + d)
            } else {
                None
            },
            None => None,
        }
    }

    /// Sets `value` under `key` at the instant `now`, to live for `duration`
    /// milliseconds or, without one, for ever. What was under `key` is replaced.
    pub fn set(&mut self, key: &[u8], value: &[u8], duration: Option<u64>, now: u64)
        ensures
            final(self)@ == spec_set(old(self)@, key@, value@, duration, now),
    {
        proof {
            use_type_invariant(&*self);
        }
        let expiry = Self::calculate_ttl(duration, now);
        let entry = Entry { key: copy_bytes(key), value: copy_bytes(value), expiry };
        let mut entries: Vec<Entry> = Vec::new();
        core::mem::swap(&mut self.entries, &mut entries);
        put_entry(&mut entries, entry);
        core::mem::swap(&mut self.entries, &mut entries);
    }

    /// Reads the value under `key` at the instant `now`. An entry whose deadline has
    /// passed gives nothing and is removed.
    pub fn get(&mut self, key: &[u8], now: u64) -> (r: Option<Vec<u8>>)
        ensures
            match spec_get(old(self)@, key@, now) {
                Some(value) => r matches Some(bytes) && bytes@ == value,
                None => r is None,
            },
            final(self)@ == spec_after_get(old(self)@, key@, now),
    {
        proof {
            use_type_invariant(&*self);
        }
        let mut entries: Vec<Entry> = Vec::new();
        core::mem::swap(&mut self.entries, &mut entries);
        let found = read_entry(&mut entries, key, now);
        core::mem::swap(&mut self.entries, &mut entries);
        found
    }

    /// Removes every entry whose deadline has passed at the instant `now`, and says
    /// how many there were.
    pub fn cleanup_expired_keys(&mut self, now: u64) -> (r: usize)
        ensures
            final(self)@ == spec_sweep(old(self)@, now),
            r == spec_expired_keys(old(self)@, now).len(),
    {
        proof {
            use_type_invariant(&*self);
            lemma_model_size(self.entries@);
            lemma_sweep_count(model_of(self.entries@), now);
        }
        let mut entries: Vec<Entry> = Vec::new();
        core::mem::swap(&mut self.entries, &mut entries);
        let removed = sweep_entries(&mut entries, now);
        proof {
            lemma_model_size(entries@);
        }
        core::mem::swap(&mut self.entries, &mut entries);
        removed
    }
}

/// A store of `n` entries with distinct keys has `n` keys.
proof fn lemma_model_size(entries: Seq<Entry>)
    requires
        distinct_keys(entries),
    ensures
        model_of(entries).dom().finite(),
        model_of(entries).len() == entries.len(),
    decreases entries.len(),
{
    if entries.len() == 0 {
        assert(model_of(entries).dom() =~= Set::<Seq<u8>>::empty());
    } else {
        let shorter = entries.drop_last();
        let last = entries.last();
        assert(distinct_keys(shorter)) by {
            assert forall|a: int, b: int|
                0 <= a < shorter.len() && 0 <= b < shorter.len() && a != b implies (
            #[trigger] shorter[a]).key@ != (#[trigger] shorter[b]).key@ by {
                assert(shorter[a] == entries[a]);
                assert(shorter[b] == entries[b]);
            }
        }
        lemma_model_size(shorter);
        assert(!holds_key(shorter, last.key@)) by {
            if holds_key(shorter, last.key@) {
                let j = index_of_key(shorter, last.key@);
                assert(shorter[j] == entries[j]);
                assert(entries[j].key@ == entries[entries.len() - 1].key@);
            }
        }
        assert(model_of(entries).dom() =~= model_of(shorter).dom().insert(last.key@)) by {
            assert forall|key: Seq<u8>| holds_key(entries, key) implies holds_key(shorter, key)
                || key == last.key@ by {
                let j = index_of_key(entries, key);
                if j < shorter.len() {
                    assert(shorter[j] == entries[j]);
                }
            }
            assert forall|key: Seq<u8>| holds_key(shorter, key) implies holds_key(entries, key) by {
                let j = index_of_key(shorter, key);
                assert(shorter[j] == entries[j]);
            }
            assert(holds_key(entries, last.key@)) by {
                assert(entries[entries.len() - 1].key@ == last.key@);
            }
        }
    }
}

/// Replacing the entry at `i` by one with the same key sets the value under that key.
proof fn lemma_model_update(before: Seq<Entry>, after: Seq<Entry>, i: int)
    requires
        distinct_keys(before),
        distinct_keys(after),
        0 <= i < before.len(),
        after == before.update(i, after[i]),
        after[i].key@ == before[i].key@,
    ensures
        model_of(after) == model_of(before).insert(
            after[i].key@,
            StoredValue { value: after[i].value@, expiry: after[i].expiry },
        ),
{
    let target = model_of(before).insert(
        after[i].key@,
        StoredValue { value: after[i].value@, expiry: after[i].expiry },
    );
    assert forall|key: Seq<u8>| model_of(after).contains_key(key) <==> target.contains_key(key) by {
        if holds_key(after, key) {
            let j = index_of_key(after, key);
            assert(after[j].key@ == before[j].key@);
        }
        if holds_key(before, key) {
            let j = index_of_key(before, key);
            assert(after[j].key@ == before[j].key@);
        }
        if key == after[i].key@ {
            assert(after[i].key@ == key);
        }
    }
    assert forall|key: Seq<u8>| model_of(after).contains_key(key) implies model_of(after)[key]
        == target[key] by {
        let j = index_of_key(after, key);
        assert(0 <= j < after.len() && after[j].key@ == key);
        lemma_model_at(after, j);
        if j != i {
            assert(after[j] == before[j]);
            lemma_model_at(before, j);
        }
    }
    assert(model_of(after) =~= target);
}

/// Adding an entry with a new key sets the value under that key.
proof fn lemma_model_push(before: Seq<Entry>, after: Seq<Entry>)
    requires
        distinct_keys(before),
        distinct_keys(after),
        after.len() == before.len() + 1,
        after.drop_last() == before,
    ensures
        model_of(after) == model_of(before).insert(
            after.last().key@,
            StoredValue { value: after.last().value@, expiry: after.last().expiry },
        ),
{
    let last = after.last();
    let target = model_of(before).insert(
        last.key@,
        StoredValue { value: last.value@, expiry: last.expiry },
    );
    assert forall|j: int| 0 <= j < before.len() implies before[j] == after[j] by {
        assert(after.drop_last()[j] == after[j]);
    }
    assert forall|key: Seq<u8>| model_of(after).contains_key(key) <==> target.contains_key(key) by {
        if holds_key(after, key) {
            let j = index_of_key(after, key);
            if j < before.len() {
                assert(before[j].key@ == key);
            }
        }
        if holds_key(before, key) {
            let j = index_of_key(before, key);
            assert(after[j].key@ == key);
        }
        if key == last.key@ {
            assert(after[after.len() - 1].key@ == key);
        }
    }
    assert forall|key: Seq<u8>| model_of(after).contains_key(key) implies model_of(after)[key]
        == target[key] by {
        let j = index_of_key(after, key);
        assert(0 <= j < after.len() && after[j].key@ == key);
        lemma_model_at(after, j);
        if j < before.len() {
            lemma_model_at(before, j);
        }
    }
    assert(model_of(after) =~= target);
}

/// What is left of entries with distinct keys after the one at `i` has given its
/// place to the last: the others, with distinct keys still.
proof fn lemma_swap_remove_entries(before: Seq<Entry>, after: Seq<Entry>, i: int)
    requires
        distinct_keys(before),
        0 <= i < before.len(),
        after == before.update(i, before.last()).drop_last(),
    ensures
        distinct_keys(after),
        after.len() == before.len() - 1,
        forall|j: int| 0 <= j < after.len() && j != i ==> #[trigger] after[j] == before[j],
        i < after.len() ==> after[i] == before.last(),
        !holds_key(after, before[i].key@),
{
    assert forall|j: int| 0 <= j < after.len() implies #[trigger] after[j] == (if j == i {
        before.last()
    } else {
        before[j]
    }) by {}
    assert forall|a: int, b: int|
        0 <= a < after.len() && 0 <= b < after.len() && a != b implies (#[trigger] after[a]).key@
        != (#[trigger] after[b]).key@ by {
        let origin_a = if a == i {
            before.len() - 1
        } else {
            a
        };
        let origin_b = if b == i {
            before.len() - 1
        } else {
            b
        };
        assert(after[a] == before[origin_a]);
        assert(after[b] == before[origin_b]);
    }
    if holds_key(after, before[i].key@) {
        let j = index_of_key(after, before[i].key@);
        let origin = if j == i {
            before.len() - 1
        } else {
            j
        };
        assert(after[j] == before[origin]);
        assert(before[origin].key@ == before[i].key@);
    }
}

/// Removing the entry at `i` removes its key from the model.
proof fn lemma_model_swap_remove(before: Seq<Entry>, after: Seq<Entry>, i: int)
    requires
        distinct_keys(before),
        0 <= i < before.len(),
        after == before.update(i, before.last()).drop_last(),
    ensures
        distinct_keys(after),
        model_of(after) == model_of(before).remove(before[i].key@),
{
    lemma_swap_remove_entries(before, after, i);
    let target = model_of(before).remove(before[i].key@);
    assert forall|key: Seq<u8>| model_of(after).contains_key(key) <==> target.contains_key(key) by {
        if holds_key(after, key) {
            let j = index_of_key(after, key);
            let origin = if j == i {
                before.len() - 1
            } else {
                j
            };
            assert(after[j] == before[origin]);
            assert(before[origin].key@ == key);
        }
        if holds_key(before, key) && key != before[i].key@ {
            let j = index_of_key(before, key);
            assert(j != i);
            if j == before.len() - 1 {
                assert(after[i] == before[j]);
            } else {
                assert(after[j] == before[j]);
            }
        }
    }
    assert forall|key: Seq<u8>| model_of(after).contains_key(key) implies model_of(after)[key]
        == target[key] by {
        let j = index_of_key(after, key);
        assert(0 <= j < after.len() && after[j].key@ == key);
        lemma_model_at(after, j);
        let origin = if j == i {
            before.len() - 1
        } else {
            j
        };
        assert(after[j] == before[origin]);
        lemma_model_at(before, origin);
    }
    assert(model_of(after) =~= target);
}

/// A sweep splits a finite store into what it removes and what it leaves.
proof fn lemma_sweep_count(store: StoreModel, now: u64)
    requires
        store.dom().finite(),
    ensures
        spec_expired_keys(store, now).finite(),
        spec_sweep(store, now).dom().finite(),
        spec_expired_keys(store, now).len() + spec_sweep(store, now).len() == store.len(),
{
    let gone = spec_expired_keys(store, now);
    let left = spec_sweep(store, now).dom();
    assert(gone.subset_of(store.dom()));
    assert(left.subset_of(store.dom()));
    vstd::set_lib::lemma_len_subset(gone, store.dom());
    vstd::set_lib::lemma_len_subset(left, store.dom());
    assert(gone.disjoint(left));
    assert(gone.union(left) =~= store.dom());
    vstd::set_lib::lemma_set_disjoint_lens(gone, left);
}

impl View for ExpiringHashMap {
    type V = StoreModel;

    closed spec fn view(&self) -> StoreModel {
        model_of(self.entries@)
    }
}

impl Default for ExpiringHashMap {
    fn default() -> (r: ExpiringHashMap)
        ensures
            r@ == Map::<Seq<u8>, StoredValue>::empty(),
    {
        ExpiringHashMap::new()
    }
}

} // verus!
