//! The concurrent collections of the `dashmap` crate that the registries keep
//! their holders in, with what their methods do to what they hold.
//!
//! The methods of `DashSet` and `DashMap` take `&self` and lock inside; the
//! wrappers here take `&mut` so that a change shows in the contract.

use vstd::prelude::*;
use dashmap::{DashMap, DashSet};

verus! {

/// A server address: whether it is IPv6, the IP address's bits (an IPv4
/// address in the low 32), the port, and, for IPv6, the flow label and scope id.
pub type Endpoint = (bool, u128, u16, u32, u32);

/// A client's record of its lock on one server: the server's identifier of
/// the lock, and the identifiers of the local holders sharing it.
pub type LockEntry = (u128, DashSet<u128>);

/// A client's locks, by server address.
pub type LockTable = DashMap<Endpoint, LockEntry>;

#[verifier::external_type_specification]
#[verifier::external_body]
#[verifier::reject_recursive_types(K)]
#[verifier::reject_recursive_types(S)]
pub struct ExDashSet<K, S>(DashSet<K, S>);

#[verifier::external_type_specification]
#[verifier::external_body]
#[verifier::reject_recursive_types(K)]
#[verifier::reject_recursive_types(V)]
#[verifier::reject_recursive_types(S)]
pub struct ExDashMap<K, V, S>(DashMap<K, V, S>);

/// The identifiers a set of identifiers holds.
pub uninterp spec fn set_items(s: DashSet<u128>) -> Set<u128>;

/// The entries a lock table holds: for each server address, the server's
/// identifier of the lock and the set of local holders.
pub uninterp spec fn table_entries(
    t: LockTable,
) -> Map<Endpoint, LockEntry>;

/// `DashSet::new`. Claimed: the set is empty.
#[verifier::external_body]
pub(crate) fn id_set_new() -> (r: DashSet<u128>)
    ensures
        set_items(r) == Set::<u128>::empty(),
{
    DashSet::new()
}

/// `DashSet::insert`. Claimed: the identifier is in the set afterwards and
/// nothing else changed; the result says whether it was absent before.
#[verifier::external_body]
pub(crate) fn id_set_insert(s: &mut DashSet<u128>, id: u128) -> (r: bool)
    ensures
        set_items(*final(s)) == set_items(*old(s)).insert(id),
        r == !set_items(*old(s)).contains(id),
{
    s.insert(id)
}

/// `DashSet::remove`, taken as whether it found the identifier.
/// Claimed: the identifier is gone afterwards and nothing else changed; the
/// result says whether it was there before.
#[verifier::external_body]
pub(crate) fn id_set_remove(s: &mut DashSet<u128>, id: u128) -> (r: bool)
    ensures
        set_items(*final(s)) == set_items(*old(s)).remove(id),
        r == set_items(*old(s)).contains(id),
{
    s.remove(&id).is_some()
}

/// `DashSet::contains`. Claimed: whether the identifier is in the set.
#[verifier::external_body]
pub(crate) fn id_set_contains(s: &DashSet<u128>, id: u128) -> (r: bool)
    ensures
        r == set_items(*s).contains(id),
{
    s.contains(&id)
}

/// `DashSet::is_empty`. Claimed: whether the set holds nothing.
#[verifier::external_body]
pub(crate) fn id_set_is_empty(s: &DashSet<u128>) -> (r: bool)
    ensures
        r == (set_items(*s) == Set::<u128>::empty()),
{
    s.is_empty()
}

/// `DashSet::iter`, each item taken by value and collected.
/// Claimed: every identifier in the set, each once, in an order the source
/// leaves open (the order in which the shards are walked).
#[verifier::external_body]
pub(crate) fn id_set_items(s: &DashSet<u128>) -> (r: Vec<u128>)
    ensures
        r@.to_set() == set_items(*s),
        r@.no_duplicates(),
{
    s.iter().map(|item| *item.key()).collect()
}

/// `DashMap::new`. Claimed: the table is empty.
#[verifier::external_body]
pub(crate) fn table_new() -> (r: LockTable)
    ensures
        table_entries(r) =~= Map::empty(),
{
    DashMap::new()
}

/// `DashMap::insert`. Claimed: the address maps to the entry afterwards and
/// nothing else changed; the result is the entry it replaced, if any.
#[verifier::external_body]
pub(crate) fn table_insert(
    t: &mut LockTable,
    addr: Endpoint,
    entry: LockEntry,
) -> (r: Option<LockEntry>)
    ensures
        table_entries(*final(t)) == table_entries(*old(t)).insert(addr, entry),
        r == (if table_entries(*old(t)).dom().contains(addr) {
            Some(table_entries(*old(t))[addr])
        } else {
            None
        }),
{
    t.insert(addr, entry)
}

/// `DashMap::remove`, taken as the removed entry. Claimed: the address is gone
/// afterwards and nothing else changed; the result is its entry, if it had one.
#[verifier::external_body]
pub(crate) fn table_remove(
    t: &mut LockTable,
    addr: Endpoint,
) -> (r: Option<LockEntry>)
    ensures
        table_entries(*final(t)) == table_entries(*old(t)).remove(addr),
        r == (if table_entries(*old(t)).dom().contains(addr) {
            Some(table_entries(*old(t))[addr])
        } else {
            None
        }),
{
    t.remove(&addr).map(|(_, entry)| entry)
}

/// `DashMap::contains_key`. Claimed: whether the address has an entry.
#[verifier::external_body]
pub(crate) fn table_contains(t: &LockTable, addr: Endpoint) -> (r:
    bool)
    ensures
        r == table_entries(*t).dom().contains(addr),
{
    t.contains_key(&addr)
}

/// `DashMap::get`, taken as the server's identifier of the lock.
/// Claimed: the identifier stored for the address, if it has an entry.
#[verifier::external_body]
pub(crate) fn table_lock_id(t: &LockTable, addr: Endpoint) -> (r:
    Option<u128>)
    ensures
        r == (if table_entries(*t).dom().contains(addr) {
            Some(table_entries(*t)[addr].0)
        } else {
            None
        }),
{
    t.get(&addr).map(|entry| entry.value().0)
}

/// `DashMap::iter`, each key taken by value and collected.
/// Claimed: every address that has an entry, each once, in an order the
/// source leaves open (the order in which the shards are walked).
#[verifier::external_body]
pub(crate) fn table_addresses(t: &LockTable) -> (r: Vec<Endpoint>)
    ensures
        r@.to_set() == table_entries(*t).dom(),
        r@.no_duplicates(),
{
    t.iter().map(|entry| *entry.key()).collect()
}

} // verus!
