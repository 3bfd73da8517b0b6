use service_store::codec::{encode, payload_fits_create, payload_fits_update, ServicePayload};
use service_store::region::{backing_memory, region_space, RegionSpace};
use service_store::store::{NotFoundError, Store};
use service_store::table::check_entries;

fn payload(customer: &str, device: &str, issue: &str, status: &str) -> ServicePayload {
    ServicePayload {
        customer_name: customer.to_string(),
        device_model: device.to_string(),
        issue_description: issue.to_string(),
        status: status.to_string(),
    }
}

fn fresh_space() -> RegionSpace {
    region_space(backing_memory())
}

fn fresh_store(space: &RegionSpace) -> Store {
    match Store::init(space) {
        Ok(store) => store,
        Err(_) => panic!("fresh regions must attach cleanly"),
    }
}

#[test]
fn end_to_end_scenario() {
    let space = fresh_space();
    let mut store = fresh_store(&space);
    let p = payload("Alice", "Model-X", "Screen cracked", "open");
    assert!(payload_fits_create(&p));

    let t = 1_000u64;
    let created = store.add_service(p.clone(), t);
    assert_eq!(created.id, 1);
    assert_eq!(created.customer_name, "Alice");
    assert_eq!(created.device_model, "Model-X");
    assert_eq!(created.issue_description, "Screen cracked");
    assert_eq!(created.status, "open");
    assert_eq!(created.created_at, t);
    assert_eq!(created.updated_at, None);
    assert_eq!(store.get_service(1), Ok(created.clone()));

    let p2 = payload("Alice", "Model-X", "Screen cracked", "closed");
    assert!(payload_fits_update(&p2));
    let t2 = 2_000u64;
    let updated = match store.update_service(1, p2, t2) {
        Ok(s) => s,
        Err(_) => panic!("record 1 exists"),
    };
    assert_eq!(updated.id, 1);
    assert_eq!(updated.status, "closed");
    assert_eq!(updated.created_at, t);
    assert_eq!(updated.updated_at, Some(t2));
    assert!(t2 >= t);
    assert_eq!(store.get_service(1), Ok(updated.clone()));

    assert_eq!(store.delete_service(1), Ok(updated));
    assert_eq!(store.get_service(1), Err(NotFoundError { id: 1 }));
}

#[test]
fn fresh_ids_strictly_increase() {
    let space = fresh_space();
    let mut store = fresh_store(&space);
    let p = payload("a", "b", "c", "open");
    let id1 = store.add_service(p.clone(), 1).id;
    let id2 = store.add_service(p.clone(), 2).id;
    assert!(id2 > id1);
    assert_eq!(store.delete_service(id1).is_ok(), true);
    assert_eq!(store.delete_service(id2).is_ok(), true);
    let id3 = store.add_service(p, 3).id;
    assert!(id3 > id2);
    assert_eq!((id1, id2, id3), (1, 2, 3));
}

#[test]
fn deleted_id_is_never_minted_again() {
    let space = fresh_space();
    let mut store = fresh_store(&space);
    let p = payload("a", "b", "c", "open");
    let id = store.add_service(p.clone(), 1).id;
    assert!(store.delete_service(id).is_ok());
    assert_eq!(store.get_service(id), Err(NotFoundError { id }));
    for t in 0..10u64 {
        let fresh = store.add_service(p.clone(), t).id;
        assert!(fresh > id);
    }
}

#[test]
fn update_missing_id_changes_nothing() {
    let space = fresh_space();
    let mut store = fresh_store(&space);
    let p = payload("a", "b", "c", "open");
    let one = store.add_service(p.clone(), 1);
    let two = store.add_service(p.clone(), 2);
    let before = store.len();
    let r = store.update_service(99, payload("x", "y", "z", "closed"), 3);
    assert_eq!(r, Err(NotFoundError { id: 99 }));
    assert_eq!(store.len(), before);
    assert_eq!(store.get_service(one.id), Ok(one));
    assert_eq!(store.get_service(two.id), Ok(two));
}

#[test]
fn update_replaces_fields_and_keeps_identity() {
    let space = fresh_space();
    let mut store = fresh_store(&space);
    let created = store.add_service(payload("a", "b", "c", "open"), 10);
    let updated = store
        .update_service(created.id, payload("a2", "b2", "c2", "closed"), 20)
        .expect("record exists");
    assert_eq!(updated.id, created.id);
    assert_eq!(updated.created_at, created.created_at);
    assert_eq!(updated.customer_name, "a2");
    assert_eq!(updated.device_model, "b2");
    assert_eq!(updated.issue_description, "c2");
    assert_eq!(updated.status, "closed");
    assert_eq!(updated.updated_at, Some(20));
    let again = store
        .update_service(created.id, payload("a3", "b3", "c3", "open"), 30)
        .expect("record exists");
    assert_eq!(again.updated_at, Some(30));
    assert!(again.updated_at.unwrap() >= updated.updated_at.unwrap());
}

#[test]
fn empty_store_reports_not_found() {
    let space = fresh_space();
    let mut store = fresh_store(&space);
    assert_eq!(store.len(), 0);
    assert_eq!(store.last_id(), 0);
    assert_eq!(store.get_service(1), Err(NotFoundError { id: 1 }));
    assert_eq!(store.delete_service(1), Err(NotFoundError { id: 1 }));
    let r = store.update_service(1, payload("a", "b", "c", "open"), 5);
    assert_eq!(r, Err(NotFoundError { id: 1 }));
}

#[test]
fn reattach_preserves_records_and_counter() {
    let space = fresh_space();
    let survivor;
    {
        let mut store = fresh_store(&space);
        survivor = store.add_service(payload("a", "b", "c", "open"), 7);
        let second = store.add_service(payload("d", "e", "f", "open"), 8);
        assert!(store.delete_service(second.id).is_ok());
    }
    let mut store = fresh_store(&space);
    assert_eq!(store.len(), 1);
    assert_eq!(store.last_id(), 2);
    assert_eq!(store.get_service(survivor.id), Ok(survivor));
    let fresh = store.add_service(payload("g", "h", "i", "open"), 9);
    assert_eq!(fresh.id, 3);
}

#[test]
fn do_insert_upserts_under_an_existing_id() {
    let space = fresh_space();
    let mut store = fresh_store(&space);
    let mut record = store.add_service(payload("a", "b", "c", "open"), 1);
    record.status = "closed".to_string();
    store.do_insert(&record);
    assert_eq!(store.len(), 1);
    assert_eq!(store._get_service(&record.id), Some(record.clone()));
    assert_eq!(store._get_service(&99), None);
    assert_eq!(store.get_service(record.id), Ok(record));
}

#[test]
fn oversize_payload_is_rejected_before_any_write() {
    let space = fresh_space();
    let mut store = fresh_store(&space);
    let big = "x".repeat(2_000);
    let p = payload(&big, "b", "c", "open");
    assert!(!payload_fits_create(&p));
    assert!(!payload_fits_update(&p));
    store.add_service(payload("a", "b", "c", "open"), 1);
    assert_eq!(store.len(), 1);
}

#[test]
fn update_missing_id_with_oversize_payload_is_still_not_found() {
    let space = fresh_space();
    let mut store = fresh_store(&space);
    let big = payload(&"x".repeat(2_000), "b", "c", "open");
    assert!(!payload_fits_update(&big));
    assert_eq!(store.update_service(5, big, 1), Err(NotFoundError { id: 5 }));
    assert_eq!(store.len(), 0);
}

#[test]
fn startup_check_accepts_exactly_sound_entries() {
    let record = service_store::codec::Service {
        id: 3,
        customer_name: "a".to_string(),
        device_model: "b".to_string(),
        issue_description: "c".to_string(),
        status: "open".to_string(),
        created_at: 1,
        updated_at: None,
    };
    let bytes = encode(&record).expect("small record fits");
    assert!(check_entries(&vec![(3, bytes.clone())], 3));
    // A stored key beyond the counter is corruption.
    assert!(!check_entries(&vec![(3, bytes.clone())], 2));
    // A value stored under a key other than its own id is corruption.
    assert!(!check_entries(&vec![(4, bytes.clone())], 10));
    // Bytes that do not parse as a record are corruption.
    assert!(!check_entries(&vec![(1, vec![0u8; 5])], 10));
    assert!(check_entries(&vec![], 0));
}

#[test]
fn startup_check_refuses_a_record_over_the_size_bound() {
    // A hand-built value that parses as a record but overruns the bound:
    // 17 header bytes, one 1500-byte field, three empty fields.
    let mut bytes: Vec<u8> = Vec::new();
    bytes.extend_from_slice(&7u64.to_le_bytes());
    bytes.extend_from_slice(&1u64.to_le_bytes());
    bytes.push(0);
    bytes.extend_from_slice(&1500u16.to_le_bytes());
    bytes.extend(std::iter::repeat(b'x').take(1500));
    for _ in 0..3 {
        bytes.extend_from_slice(&[0, 0]);
    }
    assert!(bytes.len() > 1024);
    assert!(!check_entries(&vec![(7, bytes)], 10));
}

#[test]
fn size_bound_is_exact_at_the_edge() {
    // 17 fixed bytes + 8 prefix bytes + 999 field bytes == 1024 exactly.
    let exact = "x".repeat(999);
    let p = payload(&exact, "", "", "");
    assert!(payload_fits_create(&p));
    // An update carries the 8-byte update timestamp too, so the same payload
    // no longer fits.
    assert!(!payload_fits_update(&p));
    let over = "x".repeat(1_000);
    assert!(!payload_fits_create(&payload(&over, "", "", "")));

    let space = fresh_space();
    let mut store = fresh_store(&space);
    let created = store.add_service(p, 1);
    assert_eq!(store.get_service(created.id), Ok(created));
}
