use network_semaphore::client::{NetworkSemaphoreClient, RemoveOutcome};
use network_semaphore::collections::Endpoint;

const A: Endpoint = (false, 0x7f00_0001, 9000, 0, 0);
const B: Endpoint = (true, 1, 9001, 0, 0);

fn sorted(mut v: Vec<u128>) -> Vec<u128> {
    v.sort();
    v
}

#[test]
fn new_client_has_no_locks() {
    let mut c = NetworkSemaphoreClient::new();
    assert!(c.needs_server_lock(A));
    assert!(c.endpoints().is_empty());
    assert!(c.entries().is_empty());
    assert_eq!(c.server_lock_id(A), None);
}

#[test]
fn first_holder_records_the_server_lock() {
    let mut c = NetworkSemaphoreClient::new();
    let id = c.add_first_holder(A, 77);
    assert!(!c.needs_server_lock(A));
    assert_eq!(c.server_lock_id(A), Some(77));
    assert!(c.holds(A, id));
    assert_eq!(c.holders_of(A), vec![id]);
    assert!(c.needs_server_lock(B));
}

#[test]
fn add_holder_needs_a_lock() {
    let mut c = NetworkSemaphoreClient::new();
    assert_eq!(c.add_holder(A), None);
    let first = c.add_first_holder(A, 1);
    let second = c.add_holder(A).unwrap();
    assert!(c.holds(A, first) && c.holds(A, second));
    assert_eq!(sorted(c.holders_of(A)), sorted(vec![first, second]));
}

#[test]
fn last_holder_releases_the_server_lock() {
    let mut c = NetworkSemaphoreClient::new();
    let first = c.add_first_holder(A, 9);
    let second = c.add_holder(A).unwrap();
    assert_eq!(c.remove_holder(A, first), RemoveOutcome::StillShared);
    assert!(!c.holds(A, first));
    assert_eq!(c.remove_holder(A, first), RemoveOutcome::NotHeld);
    assert_eq!(c.remove_holder(A, second), RemoveOutcome::LastHolder(9));
    assert_eq!(c.server_lock_id(A), Some(9));
    assert!(c.holders_of(A).is_empty());
    assert_eq!(c.remove_holder(B, second), RemoveOutcome::NoSemaphore);
}

#[test]
fn denied_lock_is_forgotten() {
    let mut c = NetworkSemaphoreClient::new();
    c.add_first_holder(A, 1);
    c.add_first_holder(B, 2);
    c.record_server_check(A, true);
    assert_eq!(c.server_lock_id(A), Some(1));
    c.record_server_check(A, false);
    assert_eq!(c.server_lock_id(A), None);
    assert_eq!(c.server_lock_id(B), Some(2));
}

#[test]
fn verification_keeps_confirmed_locks() {
    let mut c = NetworkSemaphoreClient::new();
    let id = c.add_first_holder(A, 1);
    c.add_first_holder(B, 2);
    c.settle_verification(A, None);
    assert!(c.holds(A, id));
    c.settle_verification(A, Some(true));
    assert_eq!(c.server_lock_id(A), Some(1));
    assert!(c.holds(A, id));
    c.settle_verification(A, Some(false));
    assert_eq!(c.server_lock_id(A), None);
    assert_eq!(c.server_lock_id(B), Some(2));
    c.settle_verification(A, Some(false));
    assert_eq!(c.server_lock_id(A), None);
}

#[test]
fn verification_keeps_a_denied_lock_without_holders() {
    let mut c = NetworkSemaphoreClient::new();
    let id = c.add_first_holder(A, 3);
    assert_eq!(c.remove_holder(A, id), RemoveOutcome::LastHolder(3));
    c.settle_verification(A, Some(false));
    assert_eq!(c.server_lock_id(A), Some(3));
    assert!(c.holders_of(A).is_empty());
}

#[test]
fn restore_and_entries() {
    let mut c = NetworkSemaphoreClient::new();
    c.restore(A, 5, &vec![1, 2, 2]);
    c.restore(B, 6, &vec![]);
    let mut entries = c.entries();
    entries.sort_by_key(|e| e.0);
    assert_eq!(entries.len(), 2);
    assert_eq!(entries[0].0, A);
    assert_eq!(entries[0].1, 5);
    assert_eq!(sorted(entries[0].2.clone()), vec![1, 2]);
    assert_eq!(entries[1], (B, 6, vec![]));
    let mut eps = c.endpoints();
    eps.sort();
    assert_eq!(eps, vec![A, B]);
}
