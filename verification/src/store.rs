//! CRUD orchestration: one `Store` owning the id generator and the ordered
//! map store, attached to its regions by an explicit startup step. Per
//! identifier the store moves between two states, absent and present: create
//! is the only way in, delete is terminal, and a deleted id is never minted
//! again because the counter only grows.

use crate::codec::{
    created_record, decoded, fits, lemma_created_record_len, lemma_updated_record_len,
    payload_block_len, updated_record, PayloadData, Service, ServiceData, ServicePayload,
};
use crate::idgen::IdGen;
use crate::region::{region, RegionPurpose, RegionSpace};
use crate::table::{Corruption, ServiceTable};
use crate::MAX_RECORD_BYTES;
use vstd::prelude::*;

verus! {

/// The one recoverable, caller-visible error: no record is stored under the
/// requested identifier.
#[derive(Debug, Clone, PartialEq, Eq)]
pub struct NotFoundError {
    pub id: u64,
}

/// The durable record store: the id counter and the id-to-record table.
pub struct Store {
    ids: IdGen,
    table: ServiceTable,
}

impl Store {
    /// The last minted identifier; 0 before the first mint ever.
    pub closed spec fn counter(self) -> u64 {
        self.ids.value()
    }

    /// The canonical mapping from identifier to stored record.
    pub closed spec fn services(self) -> Map<u64, ServiceData> {
        self.table.services()
    }

    /// The store's invariant: the table is well formed and no stored id is
    /// beyond the counter, so every future mint is fresh.
    pub closed spec fn wf(self) -> bool {
        &&& self.table.wf()
        &&& forall|k: u64| #[trigger] self.services().dom().contains(k) ==> k <= self.counter()
    }

    /// One-time startup: attaches the counter and the table to their regions
    /// and checks the persisted content against the invariant. A failed check
    /// is corruption of the persistent space, not a runtime condition.
    pub fn init(space: &RegionSpace) -> (r: Result<Store, Corruption>)
        ensures
            r matches Ok(st) ==> st.wf(),
    {
        let ids = IdGen::attach(region(space, RegionPurpose::IdCounter.index()));
        let last = ids.current();
        match ServiceTable::attach(region(space, RegionPurpose::ServiceTable.index()), last) {
            Ok(table) => Ok(Store { ids, table }),
            Err(e) => Err(e),
        }
    }

    /// The last minted identifier; what `add_service` mints next is one more.
    pub fn last_id(&self) -> (v: u64)
        ensures
            v == self.counter(),
    {
        self.ids.current()
    }

    /// The number of stored records.
    pub fn len(&self) -> (n: u64)
        ensures
            n == self.services().dom().len(),
    {
        self.table.len()
    }

    /// Reads the record stored under `id`, if any.
    pub fn _get_service(&self, id: &u64) -> (r: Option<Service>)
        requires
            self.wf(),
        ensures
            r is Some <==> self.services().dom().contains(*id),
            r matches Some(s) ==> s@ == self.services()[*id],
    {
        self.table.get(*id)
    }

    /// Reads a record: the stored record under `id`, or `NotFoundError` when
    /// the identifier is absent.
    pub fn get_service(&self, id: u64) -> (r: Result<Service, NotFoundError>)
        requires
            self.wf(),
        ensures
            self.services().dom().contains(id) ==> (r matches Ok(s) && s@ == self.services()[id]),
            !self.services().dom().contains(id) ==> (r matches Err(e) && e.id == id),
    {
        match self._get_service(&id) {
            Some(service) => Ok(service),
            None => Err(NotFoundError { id }),
        }
    }

    /// Durably upserts a record under its own id, which must not run ahead
    /// of the counter.
    pub fn do_insert(&mut self, service: &Service)
        requires
            old(self).wf(),
            fits(service@),
            service@.id <= old(self).counter(),
        ensures
            final(self).wf(),
            final(self).counter() == old(self).counter(),
            final(self).services() == old(self).services().insert(service.id, service@),
    {
        let _prev = self.table.insert(service);
        proof {
            assert forall|k: u64| #[trigger]
                self.services().dom().contains(k) implies k <= self.counter() by {
                if k != service.id {
                    assert(old(self).services().dom().contains(k));
                }
            }
        }
    }

    /// Creates a record: mints a fresh id, stamps the creation time, stores
    /// the record, and returns it. The fresh id is strictly greater than
    /// every id ever stored before, deleted ones included.
    pub fn add_service(&mut self, payload: ServicePayload, now: u64) -> (s: Service)
        requires
            old(self).wf(),
            old(self).counter() < u64::MAX,
            17 + payload_block_len(payload@) <= MAX_RECORD_BYTES,
        ensures
            final(self).wf(),
            s.id == old(self).counter() + 1,
            final(self).counter() == s.id,
            s@ == created_record(payload@, s.id, now),
            !old(self).services().dom().contains(s.id),
            forall|k: u64| #[trigger] old(self).services().dom().contains(k) ==> k < s.id,
            final(self).services() == old(self).services().insert(s.id, s@),
    {
        let id = self.ids.next();
        let service = Service {
            id,
            customer_name: payload.customer_name,
            device_model: payload.device_model,
            issue_description: payload.issue_description,
            status: payload.status,
            created_at: now,
            updated_at: None,
        };
        proof {
            lemma_created_record_len(payload@, id, now);
            assert forall|k: u64| #[trigger]
                self.services().dom().contains(k) implies k <= self.counter() by {
                assert(old(self).services().dom().contains(k));
            }
        }
        self.do_insert(&service);
        service
    }

    /// Updates a record in place: keeps its identity and creation time,
    /// replaces the four mutable fields from the payload, and stamps the
    /// update time. An absent id is reported as `NotFoundError` and leaves
    /// every stored record untouched, whatever the payload's size; only a
    /// present id goes on to encode, so only then must the payload fit.
    pub fn update_service(&mut self, id: u64, payload: ServicePayload, now: u64) -> (r: Result<
        Service,
        NotFoundError,
    >)
        requires
            old(self).wf(),
            old(self).services().dom().contains(id) ==> 25 + payload_block_len(payload@)
                <= MAX_RECORD_BYTES,
        ensures
            final(self).wf(),
            final(self).counter() == old(self).counter(),
            old(self).services().dom().contains(id) ==> (r matches Ok(s) && s@ == updated_record(
                old(self).services()[id],
                payload@,
                now,
            ) && final(self).services() == old(self).services().insert(id, s@)),
            !old(self).services().dom().contains(id) ==> (r matches Err(e) && e.id == id
                && final(self).services() == old(self).services()),
    {
        match self.table.get(id) {
            Some(prior) => {
                let service = Service {
                    id: prior.id,
                    customer_name: payload.customer_name,
                    device_model: payload.device_model,
                    issue_description: payload.issue_description,
                    status: payload.status,
                    created_at: prior.created_at,
                    updated_at: Some(now),
                };
                proof {
                    lemma_updated_record_len(old(self).services()[id], payload@, now);
                }
                self.do_insert(&service);
                Ok(service)
            },
            None => Err(NotFoundError { id }),
        }
    }

    /// Deletes a record: evicts it and returns it, or reports
    /// `NotFoundError` when the identifier is absent. The state change is
    /// terminal for that id: the counter is untouched, so the id can never
    /// be minted again.
    pub fn delete_service(&mut self, id: u64) -> (r: Result<Service, NotFoundError>)
        requires
            old(self).wf(),
        ensures
            final(self).wf(),
            final(self).counter() == old(self).counter(),
            old(self).services().dom().contains(id) ==> (r matches Ok(s) && s@ == old(
                self,
            ).services()[id] && final(self).services() == old(self).services().remove(id)),
            !old(self).services().dom().contains(id) ==> (r matches Err(e) && e.id == id
                && final(self).services() == old(self).services()),
    {
        let removed = self.table.remove(id);
        proof {
            assert forall|k: u64| #[trigger]
                self.services().dom().contains(k) implies k <= self.counter() by {
                assert(old(self).services().dom().contains(k));
            }
        }
        match removed {
            Some(service) => Ok(service),
            None => Err(NotFoundError { id }),
        }
    }
}

/// What the store invariant gives callers: every stored record carries the
/// identifier it is stored under, and no stored identifier runs past the
/// counter.
pub proof fn lemma_wf_records(st: Store)
    requires
        st.wf(),
    ensures
        forall|k: u64| #[trigger]
            st.services().dom().contains(k) ==> st.services()[k].id == k && k <= st.counter(),
{
    assert forall|k: u64| #[trigger]
        st.services().dom().contains(k) implies st.services()[k].id == k && k <= st.counter() by {
        assert(st.services()[k] == decoded(st.table.raw()[k]).unwrap());
    }
}

/// A record just created reads back identically: creation stores the record
/// under its fresh id, so a read of that id returns exactly it.
pub proof fn law_created_record_reads_back(before: Map<u64, ServiceData>, s: ServiceData)
    ensures
        before.insert(s.id, s).dom().contains(s.id),
        before.insert(s.id, s)[s.id] == s,
{
}

/// A record just deleted reads back as absent: deletion evicts the id, so a
/// read of that id reports it missing.
pub proof fn law_deleted_record_is_absent(before: Map<u64, ServiceData>, id: u64)
    ensures
        !before.remove(id).dom().contains(id),
{
}

/// Identifiers minted by two creations strictly increase, whatever
/// deletions or updates ran in between: a minted id never exceeds the
/// counter of the store that minted it, no operation lowers the counter,
/// and a later creation mints one more than the counter it finds.
pub proof fn law_minted_ids_increase(first: Store, later: Store, id1: u64)
    requires
        id1 <= first.counter(),
        first.counter() <= later.counter(),
        later.counter() < u64::MAX,
    ensures
        later.counter() + 1 > id1,
{
}

/// A deleted identifier is never minted again: once stored, an id is at
/// most the counter (the store invariant), no later operation lowers the
/// counter, and every later creation mints strictly more than the counter
/// it finds.
pub proof fn law_deleted_id_never_reminted(at_delete: Store, later: Store, id: u64)
    requires
        at_delete.wf(),
        at_delete.services().dom().contains(id),
        at_delete.counter() <= later.counter(),
        later.counter() < u64::MAX,
    ensures
        later.counter() + 1 > id,
{
}

/// An update stamps the supplied time into `updated_at`; whenever time is
/// read monotonically, that stamp is not earlier than the record's previous
/// update time, nor than its creation time.
pub proof fn law_update_time_monotone(prior: ServiceData, p: PayloadData, now: u64)
    requires
        now >= prior.created_at,
        prior.updated_at matches Some(t) ==> now >= t,
    ensures
        updated_record(prior, p, now).updated_at matches Some(t2) && t2 >= prior.created_at,
        prior.updated_at matches Some(t) ==> updated_record(prior, p, now).updated_at.unwrap()
            >= t,
{
}

} // verus!
