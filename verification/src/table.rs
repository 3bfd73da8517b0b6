//! The ordered map store: the canonical, durable mapping from identifier to
//! record, persisted in its own region. Every stored value is exactly the
//! encoding of a record that carries its own key; every mutating call is
//! durable before it returns.

use crate::codec::{decode, decoded, encode, encoded, fits, lemma_encoded_round, Service, ServiceData};
use crate::region::RegionHandle;
use crate::MAX_RECORD_BYTES;
use ic_stable_structures::memory_manager::VirtualMemory;
use ic_stable_structures::{DefaultMemoryImpl, StableBTreeMap};
use vstd::pervasive::unreached;
use vstd::prelude::*;

verus! {

/// The persisted ordered map from id to encoded record bytes.
#[verifier::external_body]
pub struct ByteTable {
    map: StableBTreeMap<u64, Vec<u8>, VirtualMemory<DefaultMemoryImpl>>,
}

/// The entries the table holds: each id with its stored bytes.
pub uninterp spec fn table_bytes(t: ByteTable) -> Map<u64, Seq<u8>>;

/// Relies on `StableBTreeMap::init`: loads the map persisted in the region,
/// or creates an empty one when the region is still untouched. A real map
/// holds finitely many entries.
#[verifier::external_body]
fn table_init(region: RegionHandle) -> (t: ByteTable)
    ensures
        table_bytes(t).dom().finite(),
{
    ByteTable { map: StableBTreeMap::init(region.memory) }
}

/// Relies on `StableBTreeMap::get`: a copy of the value stored under the
/// key, if one is there.
#[verifier::external_body]
fn table_get(t: &ByteTable, key: u64) -> (r: Option<Vec<u8>>)
    ensures
        r is Some <==> table_bytes(*t).dom().contains(key),
        r matches Some(v) ==> v@ == table_bytes(*t)[key],
{
    t.map.get(&key)
}

/// Relies on `StableBTreeMap::insert`: durably stores the value under the
/// key before returning, and returns the value previously stored there.
#[verifier::external_body]
fn table_insert(t: &mut ByteTable, key: u64, value: Vec<u8>) -> (prev: Option<Vec<u8>>)
    ensures
        table_bytes(*final(t)) == table_bytes(*old(t)).insert(key, value@),
        prev is Some <==> table_bytes(*old(t)).dom().contains(key),
        prev matches Some(v) ==> v@ == table_bytes(*old(t))[key],
{
    t.map.insert(key, value)
}

/// Relies on `StableBTreeMap::remove`: durably evicts the key before
/// returning, and returns the value previously stored there.
#[verifier::external_body]
fn table_remove(t: &mut ByteTable, key: u64) -> (prev: Option<Vec<u8>>)
    ensures
        table_bytes(*final(t)) == table_bytes(*old(t)).remove(key),
        prev is Some <==> table_bytes(*old(t)).dom().contains(key),
        prev matches Some(v) ==> v@ == table_bytes(*old(t))[key],
{
    t.map.remove(&key)
}

/// Relies on `StableBTreeMap::len`: the number of stored entries.
#[verifier::external_body]
fn table_len(t: &ByteTable) -> (n: u64)
    ensures
        n == table_bytes(*t).dom().len(),
{
    t.map.len()
}

/// Relies on `StableBTreeMap::iter` and `LazyEntry::into_pair`: every stored
/// entry, in ascending key order.
#[verifier::external_body]
fn table_entries(t: &ByteTable) -> (r: Vec<(u64, Vec<u8>)>)
    ensures
        forall|i: int|
            0 <= i < r@.len() ==> table_bytes(*t).contains_pair((#[trigger] r@[i]).0, r@[i].1@),
        forall|i: int, j: int| 0 <= i < j < r@.len() ==> r@[i].0 < r@[j].0,
        forall|k: u64|
            #[trigger] table_bytes(*t).dom().contains(k) ==> exists|i: int|
                0 <= i < r@.len() && (#[trigger] r@[i]).0 == k,
{
    let mut out = Vec::new();
    for entry in t.map.iter() {
        out.push(entry.into_pair());
    }
    out
}

/// Bytes read back from storage that do not parse as a record, or that
/// disagree with the key or counter they were stored under: corruption of
/// the persistent space, an unrecoverable startup failure.
#[derive(Debug, Clone, PartialEq, Eq)]
pub struct Corruption {}

/// One read-back entry is sound: its value parses as a record carrying its
/// own key, the key does not run past the id counter, and the value stays
/// within the record size bound.
pub open spec fn entry_ok(e: (u64, Vec<u8>), last_id: u64) -> bool {
    &&& decoded(e.1@) is Some
    &&& decoded(e.1@).unwrap().id == e.0
    &&& e.0 <= last_id
    &&& e.1@.len() <= MAX_RECORD_BYTES
}

/// What well-formed persisted content looks like when read back entry by
/// entry: every entry is sound.
pub open spec fn entries_ok(entries: Seq<(u64, Vec<u8>)>, last_id: u64) -> bool {
    forall|j: int| 0 <= j < entries.len() ==> entry_ok(#[trigger] entries[j], last_id)
}

/// The startup decision on read-back content: answers exactly whether every
/// entry is sound; anything less is corruption.
pub fn check_entries(entries: &Vec<(u64, Vec<u8>)>, last_id: u64) -> (ok: bool)
    ensures
        ok == entries_ok(entries@, last_id),
{
    let n = entries.len();
    let mut i: usize = 0;
    while i < n
        invariant
            n == entries@.len(),
            i <= n,
            forall|j: int| 0 <= j < i ==> entry_ok(#[trigger] entries@[j], last_id),
        decreases n - i,
    {
        let key = entries[i].0;
        let vlen = entries[i].1.len() as u64;
        if vlen > MAX_RECORD_BYTES {
            proof {
                assert(!entry_ok(entries@[i as int], last_id));
            }
            return false;
        }
        match decode(&entries[i].1) {
            None => {
                proof {
                    assert(!entry_ok(entries@[i as int], last_id));
                }
                return false;
            },
            Some(s) => {
                if s.id != key || key > last_id {
                    proof {
                        assert(!entry_ok(entries@[i as int], last_id));
                    }
                    return false;
                }
            },
        }
        proof {
            assert(entry_ok(entries@[i as int], last_id));
        }
        i = i + 1;
    }
    true
}

/// The ordered map store; `services` is the canonical id-to-record mapping.
pub struct ServiceTable {
    table: ByteTable,
}

impl ServiceTable {
    /// The stored bytes under each id.
    pub closed spec fn raw(self) -> Map<u64, Seq<u8>> {
        table_bytes(self.table)
    }

    /// Every stored value is exactly the encoding of a record carrying the
    /// id it is stored under, and stays within the record size bound.
    pub open spec fn wf(self) -> bool {
        &&& self.raw().dom().finite()
        &&& forall|k: u64| #[trigger]
            self.raw().dom().contains(k) ==> decoded(self.raw()[k]) is Some && decoded(
                self.raw()[k],
            ).unwrap().id == k && self.raw()[k].len() <= MAX_RECORD_BYTES
    }

    /// The records the table holds.
    pub open spec fn services(self) -> Map<u64, ServiceData> {
        self.raw().map_values(|b: Seq<u8>| decoded(b).unwrap())
    }

    /// Attaches to the table region and holds every stored entry to
    /// `entries_ok`. Anything else is corruption, an unrecoverable startup
    /// failure: the call returns `Err(Corruption)` exactly when
    /// `check_entries` answers false on what was read back.
    pub fn attach(region: RegionHandle, last_id: u64) -> (r: Result<ServiceTable, Corruption>)
        ensures
            r matches Ok(t) ==> t.wf() && forall|k: u64| #[trigger]
                t.services().dom().contains(k) ==> k <= last_id,
    {
        let table = table_init(region);
        let entries = table_entries(&table);
        let t = ServiceTable { table };
        if !check_entries(&entries, last_id) {
            return Err(Corruption {});
        }
        proof {
            assert forall|k: u64| #[trigger] t.raw().dom().contains(k) implies decoded(
                t.raw()[k],
            ) is Some && decoded(t.raw()[k]).unwrap().id == k && t.raw()[k].len()
                <= MAX_RECORD_BYTES && k <= last_id by {
                let j = choose|j: int| 0 <= j < entries@.len() && (#[trigger] entries@[j]).0 == k;
                assert(t.raw().contains_pair(entries@[j].0, entries@[j].1@));
            }
        }
        Ok(t)
    }

    /// Reads the record stored under `id`, if any.
    pub fn get(&self, id: u64) -> (r: Option<Service>)
        requires
            self.wf(),
        ensures
            r is Some <==> self.services().dom().contains(id),
            r matches Some(s) ==> s@ == self.services()[id],
    {
        match table_get(&self.table, id) {
            None => None,
            Some(v) => match decode(&v) {
                Some(s) => Some(s),
                None => unreached(),
            },
        }
    }

    /// Upserts a record under its own id, durably; returns the prior record
    /// stored there, if any.
    pub fn insert(&mut self, s: &Service) -> (prev: Option<Service>)
        requires
            old(self).wf(),
            fits(s@),
        ensures
            final(self).wf(),
            final(self).raw() == old(self).raw().insert(s.id, encoded(s@)),
            final(self).services() == old(self).services().insert(s.id, s@),
            prev is Some <==> old(self).services().dom().contains(s.id),
            prev matches Some(p) ==> p@ == old(self).services()[s.id],
    {
        proof {
            lemma_encoded_round(s@);
        }
        let bytes = match encode(s) {
            Ok(v) => v,
            Err(_) => unreached(),
        };
        let prior = table_insert(&mut self.table, s.id, bytes);
        proof {
            assert(final(self).services() =~= old(self).services().insert(s.id, s@));
        }
        match prior {
            None => None,
            Some(v) => match decode(&v) {
                Some(p) => Some(p),
                None => unreached(),
            },
        }
    }

    /// Evicts the record stored under `id`, durably; returns it if it was
    /// there.
    pub fn remove(&mut self, id: u64) -> (prev: Option<Service>)
        requires
            old(self).wf(),
        ensures
            final(self).wf(),
            final(self).raw() == old(self).raw().remove(id),
            final(self).services() == old(self).services().remove(id),
            prev is Some <==> old(self).services().dom().contains(id),
            prev matches Some(p) ==> p@ == old(self).services()[id],
    {
        let prior = table_remove(&mut self.table, id);
        proof {
            assert(final(self).services() =~= old(self).services().remove(id));
        }
        match prior {
            None => None,
            Some(v) => match decode(&v) {
                Some(p) => Some(p),
                None => unreached(),
            },
        }
    }

    /// The number of stored records.
    pub fn len(&self) -> (n: u64)
        ensures
            n == self.services().dom().len(),
    {
        proof {
            assert(self.services().dom() =~= self.raw().dom());
        }
        table_len(&self.table)
    }
}

} // verus!
