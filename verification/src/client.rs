//! What a client decides: its table of locks, one per server, each shared by
//! the local holders it has handed out.
//!
//! Talking to the servers and saving the table happen around these steps:
//! a step says which server call is due, and the next takes its answer.

use vstd::prelude::*;
use dashmap::DashSet;
use crate::collections::{
    id_set_contains, id_set_insert, id_set_is_empty, id_set_items, id_set_new, id_set_remove,
    set_items, table_addresses, table_contains, table_entries, table_insert, table_lock_id,
    table_new, table_remove, Endpoint, LockEntry, LockTable,
};
use crate::ids::fresh_id;

verus! {

/// A client's locks, by server address.
pub struct NetworkSemaphoreClient {
    locks: LockTable,
}

/// A lock as a value: the server's identifier of it and its local holders.
pub open spec fn entry_view(e: LockEntry) -> (u128, Set<u128>) {
    (e.0, set_items(e.1))
}

/// How removing a local holder ended.
#[derive(Debug, Clone, Copy, PartialEq, Eq, Structural)]
pub enum RemoveOutcome {
    /// There is no lock on that server.
    NoSemaphore,
    /// The lock on that server has no such holder.
    NotHeld,
    /// The holder is gone and others still share the lock.
    StillShared,
    /// The holder was the last one: the server's lock, with this identifier,
    /// is due to be released.
    LastHolder(u128),
}

/// The locks after removing holder `id` from the lock on `addr`, with the outcome.
pub open spec fn remove_step(
    locks: Map<Endpoint, (u128, Set<u128>)>,
    addr: Endpoint,
    id: u128,
) -> (Map<Endpoint, (u128, Set<u128>)>, RemoveOutcome) {
    if !locks.contains_key(addr) {
        (locks, RemoveOutcome::NoSemaphore)
    } else if !locks[addr].1.contains(id) {
        (locks, RemoveOutcome::NotHeld)
    } else {
        let rest = locks[addr].1.remove(id);
        (
            locks.insert(addr, (locks[addr].0, rest)),
            if rest == Set::<u128>::empty() {
                RemoveOutcome::LastHolder(locks[addr].0)
            } else {
                RemoveOutcome::StillShared
            },
        )
    }
}

/// The locks after a check of the server's lock on `addr`: a lock the server
/// no longer holds is dropped.
pub open spec fn check_step(
    locks: Map<Endpoint, (u128, Set<u128>)>,
    addr: Endpoint,
    acquired: bool,
) -> Map<Endpoint, (u128, Set<u128>)> {
    if acquired {
        locks
    } else {
        locks.remove(addr)
    }
}

/// The locks after a verification round asked the server on `addr` whether it
/// still holds the lock: `answer` is its answer, `None` if none came. A lock
/// with holders that the server no longer holds is dropped. A lock the server
/// confirms is kept whatever its holders (only a denial drops a lock), and so
/// is one whose server did not answer, and one without holders.
pub open spec fn verify_step(
    locks: Map<Endpoint, (u128, Set<u128>)>,
    addr: Endpoint,
    answer: Option<bool>,
) -> Map<Endpoint, (u128, Set<u128>)> {
    if answer == Some(false) && locks.contains_key(addr) && locks[addr].1 != Set::<u128>::empty() {
        locks.remove(addr)
    } else {
        locks
    }
}

/// A verification round keeps every lock that its server confirms, and no
/// round ever adds a lock: after checking `addr`, every other lock is as it
/// was, the lock on `addr` is kept exactly unless the server denied it while
/// it had holders, and the addresses are a subset of those before.
pub proof fn lemma_verification_keeps_confirmed(
    locks: Map<Endpoint, (u128, Set<u128>)>,
    addr: Endpoint,
    answer: Option<bool>,
    other: Endpoint,
)
    ensures
        verify_step(locks, addr, answer).dom().subset_of(locks.dom()),
        answer != Some(false) ==> verify_step(locks, addr, answer) == locks,
        answer == Some(false) && locks.contains_key(addr) && locks[addr].1 != Set::<u128>::empty()
            ==> !verify_step(locks, addr, answer).contains_key(addr),
        !(locks.contains_key(addr) && locks[addr].1 != Set::<u128>::empty()) ==> verify_step(
            locks,
            addr,
            answer,
        ) == locks,
        other != addr ==> (verify_step(locks, addr, answer).contains_key(other)
            == locks.contains_key(other)),
        other != addr && locks.contains_key(other) ==> verify_step(locks, addr, answer)[other]
            == locks[other],
{
}

/// A holder added on an address is held there, beside the holders it
/// already had, and the client then has a lock there: a further holder needs
/// no new lock from the server.
pub proof fn lemma_added_holder_is_held(
    locks: Map<Endpoint, (u128, Set<u128>)>,
    addr: Endpoint,
    lock_id: u128,
    id: u128,
    other: u128,
)
    ensures
        ({
            let first = locks.insert(addr, (lock_id, set![id]));
            first.contains_key(addr) && first[addr].1.contains(id)
        }),
        locks.contains_key(addr) ==> ({
            let more = locks.insert(addr, (locks[addr].0, locks[addr].1.insert(id)));
            &&& more.contains_key(addr)
            &&& more[addr].1.contains(id)
            &&& more[addr].0 == locks[addr].0
            &&& (locks[addr].1.contains(other) ==> more[addr].1.contains(other))
        }),
{
}

/// A check the server answers "still held" leaves the client's locks exactly
/// as they were, holders included; a check it answers "not held" drops the
/// lock on that address and nothing else.
pub proof fn lemma_check_keeps_confirmed(locks: Map<Endpoint, (u128, Set<u128>)>, addr: Endpoint)
    ensures
        check_step(locks, addr, true) == locks,
        check_step(locks, addr, false) == locks.remove(addr),
{
}

/// Removing a holder never adds or drops a lock: the addresses stay the same.
/// Where there is no lock, nothing changes and the outcome says so; where
/// there is one, only that lock's holder set loses `id`, and the outcome says
/// whether `id` was there and whether it was the last.
pub proof fn lemma_remove_holder_effect(
    locks: Map<Endpoint, (u128, Set<u128>)>,
    addr: Endpoint,
    id: u128,
    other: Endpoint,
)
    ensures
        remove_step(locks, addr, id).0.dom() == locks.dom(),
        !locks.contains_key(addr) ==> remove_step(locks, addr, id) == (
            locks,
            RemoveOutcome::NoSemaphore,
        ),
        locks.contains_key(addr) ==> remove_step(locks, addr, id).0[addr] == (
            locks[addr].0,
            locks[addr].1.remove(id),
        ),
        locks.contains_key(addr) && !locks[addr].1.contains(id) ==> remove_step(locks, addr, id).1
            == RemoveOutcome::NotHeld,
        other != addr && locks.contains_key(other) ==> remove_step(locks, addr, id).0[other]
            == locks[other],
{
    if locks.contains_key(addr) {
        if !locks[addr].1.contains(id) {
            assert(locks[addr].1.remove(id) =~= locks[addr].1);
        }
        assert(remove_step(locks, addr, id).0.dom() =~= locks.dom());
    }
}

/// Removing a holder that was just added to a lock others share gives back
/// the locks as they were, and the server's lock stays.
pub proof fn lemma_remove_undoes_add(locks: Map<Endpoint, (u128, Set<u128>)>, addr: Endpoint, id: u128)
    requires
        locks.contains_key(addr),
        !locks[addr].1.contains(id),
        locks[addr].1 != Set::<u128>::empty(),
    ensures
        remove_step(locks.insert(addr, (locks[addr].0, locks[addr].1.insert(id))), addr, id) == (
            locks,
            RemoveOutcome::StillShared,
        ),
{
    let after = locks.insert(addr, (locks[addr].0, locks[addr].1.insert(id)));
    assert(after[addr].1.remove(id) =~= locks[addr].1);
    assert(after.insert(addr, (locks[addr].0, locks[addr].1)) =~= locks);
}

/// The only holder of a new lock is its last: removing it asks for the
/// server's lock to be released, and leaves the lock without holders.
pub proof fn lemma_first_holder_is_last(
    locks: Map<Endpoint, (u128, Set<u128>)>,
    addr: Endpoint,
    lock_id: u128,
    id: u128,
)
    ensures
        remove_step(locks.insert(addr, (lock_id, set![id])), addr, id) == (
            locks.insert(addr, (lock_id, Set::<u128>::empty())),
            RemoveOutcome::LastHolder(lock_id),
        ),
{
    assert(set![id].remove(id) =~= Set::<u128>::empty());
    assert(locks.insert(addr, (lock_id, set![id])).insert(addr, (lock_id, Set::<u128>::empty()))
        =~= locks.insert(addr, (lock_id, Set::<u128>::empty())));
}

/// The server's lock is released only when the last local holder goes: the
/// outcome `LastHolder` comes exactly when the removal leaves no holder, and
/// it names the server's identifier of the lock.
pub proof fn lemma_release_only_for_last_holder(
    locks: Map<Endpoint, (u128, Set<u128>)>,
    addr: Endpoint,
    id: u128,
)
    ensures
        remove_step(locks, addr, id).1 is LastHolder <==> (locks.contains_key(addr)
            && locks[addr].1 == set![id]),
        remove_step(locks, addr, id).1 matches RemoveOutcome::LastHolder(lock_id) ==> lock_id
            == locks[addr].0,
{
    if locks.contains_key(addr) && locks[addr].1.contains(id) {
        let rest = locks[addr].1.remove(id);
        if rest == Set::<u128>::empty() {
            assert(locks[addr].1 =~= set![id]);
        } else {
            if locks[addr].1 == set![id] {
                assert(rest =~= Set::<u128>::empty());
            }
        }
    }
}

/// A holder that was removed is not there any more: removing it again
/// changes nothing and says so.
pub proof fn lemma_remove_twice(locks: Map<Endpoint, (u128, Set<u128>)>, addr: Endpoint, id: u128)
    ensures
        ({
            let after = remove_step(locks, addr, id).0;
            let again = remove_step(after, addr, id);
            &&& again.0 == after
            &&& (again.1 is NotHeld || again.1 is NoSemaphore)
        }),
{
}

/// A lock that its server no longer holds is forgotten, and no other lock is
/// touched; one it still holds is kept as it is.
pub proof fn lemma_denied_lock_is_forgotten(
    locks: Map<Endpoint, (u128, Set<u128>)>,
    addr: Endpoint,
    acquired: bool,
    other: Endpoint,
)
    requires
        other != addr,
    ensures
        check_step(locks, addr, acquired).contains_key(addr) == (acquired && locks.contains_key(
            addr,
        )),
        check_step(locks, addr, acquired).contains_key(other) == locks.contains_key(other),
        check_step(locks, addr, acquired).contains_key(other) ==> check_step(
            locks,
            addr,
            acquired,
        )[other] == locks[other],
{
}

/// Adds to a holder set an identifier it does not have yet: a random one,
/// drawn again while the draw is already a holder; after `u64::MAX` such
/// draws, the first of `0, 1, 2, ...` that is not a holder (with `n` holders,
/// one of the first `n + 1` is free).
fn insert_new_holder(set: &mut DashSet<u128>) -> (id: u128)
    ensures
        !set_items(*old(set)).contains(id),
        set_items(*final(set)) == set_items(*old(set)).insert(id),
{
    let mut attempts: u64 = 0;
    while attempts < u64::MAX
        invariant
            set_items(*set) == set_items(*old(set)),
        decreases u64::MAX - attempts,
    {
        let candidate = fresh_id();
        if !id_set_contains(set, candidate) {
            id_set_insert(set, candidate);
            return candidate;
        }
        attempts = attempts + 1;
    }
    let ids = id_set_items(set);
    proof {
        ids@.unique_seq_to_set();
        vstd::seq_lib::seq_to_set_is_finite(ids@);
    }
    let n = ids.len();
    let mut c: u128 = 0;
    let ghost mut tried: Set<u128> = Set::empty();
    loop
        invariant
            set_items(*set) == set_items(*old(set)),
            set_items(*old(set)).finite(),
            set_items(*old(set)).len() == n,
            tried.finite(),
            tried.len() == c,
            forall|k: u128| #[trigger] tried.contains(k) <==> k < c,
            tried.subset_of(set_items(*old(set))),
            c <= n,
        decreases n - c,
    {
        if !id_set_contains(set, c) {
            id_set_insert(set, c);
            return c;
        }
        proof {
            assert(!tried.contains(c));
            tried = tried.insert(c);
            vstd::set_lib::lemma_len_subset(tried, set_items(*old(set)));
        }
        c = c + 1;
    }
}

impl View for NetworkSemaphoreClient {
    type V = Map<Endpoint, (u128, Set<u128>)>;

    closed spec fn view(&self) -> Map<Endpoint, (u128, Set<u128>)> {
        table_entries(self.locks).map_values(|e: LockEntry| entry_view(e))
    }
}

impl NetworkSemaphoreClient {
    /// A client without locks.
    pub fn new() -> (r: Self)
        ensures
            r@ == Map::<Endpoint, (u128, Set<u128>)>::empty(),
    {
        let r = NetworkSemaphoreClient { locks: table_new() };
        assert(r@ =~= Map::<Endpoint, (u128, Set<u128>)>::empty());
        r
    }

    proof fn lemma_view_insert(old_t: LockTable, new_t: LockTable, addr: Endpoint, e: LockEntry)
        requires
            table_entries(new_t) == table_entries(old_t).insert(addr, e),
        ensures
            table_entries(new_t).map_values(|e: LockEntry| entry_view(e))
                == table_entries(old_t).map_values(|e: LockEntry| entry_view(e)).insert(
                addr,
                entry_view(e),
            ),
    {
        assert(table_entries(new_t).map_values(|e: LockEntry| entry_view(e)) =~= table_entries(
            old_t,
        ).map_values(|e: LockEntry| entry_view(e)).insert(addr, entry_view(e)));
    }

    proof fn lemma_view_remove(old_t: LockTable, new_t: LockTable, addr: Endpoint)
        requires
            table_entries(new_t) == table_entries(old_t).remove(addr),
        ensures
            table_entries(new_t).map_values(|e: LockEntry| entry_view(e))
                == table_entries(old_t).map_values(|e: LockEntry| entry_view(e)).remove(addr),
    {
        assert(table_entries(new_t).map_values(|e: LockEntry| entry_view(e)) =~= table_entries(
            old_t,
        ).map_values(|e: LockEntry| entry_view(e)).remove(addr));
    }

    /// Takes the lock on `addr` out of the table, to be put back by `put_back`.
    fn take(&mut self, addr: Endpoint) -> (r: Option<LockEntry>)
        ensures
            table_entries(final(self).locks) == table_entries(old(self).locks).remove(addr),
            r == (if table_entries(old(self).locks).dom().contains(addr) {
                Some(table_entries(old(self).locks)[addr])
            } else {
                None
            }),
            final(self)@ == old(self)@.remove(addr),
    {
        let r = table_remove(&mut self.locks, addr);
        proof {
            Self::lemma_view_remove(old(self).locks, self.locks, addr);
        }
        r
    }

    fn put(&mut self, addr: Endpoint, e: LockEntry)
        ensures
            table_entries(final(self).locks) == table_entries(old(self).locks).insert(addr, e),
            final(self)@ == old(self)@.insert(addr, entry_view(e)),
    {
        let _ = table_insert(&mut self.locks, addr, e);
        proof {
            Self::lemma_view_insert(old(self).locks, self.locks, addr, e);
        }
    }

    /// Records a lock as it was saved: on `addr`, with the server's identifier
    /// `lock_id`, shared by `holders`.
    pub fn restore(&mut self, addr: Endpoint, lock_id: u128, holders: &Vec<u128>)
        ensures
            final(self)@ == old(self)@.insert(addr, (lock_id, holders@.to_set())),
    {
        let mut set = id_set_new();
        let mut i: usize = 0;
        while i < holders.len()
            invariant
                i <= holders.len(),
                set_items(set) == holders@.take(i as int).to_set(),
            decreases holders.len() - i,
        {
            id_set_insert(&mut set, holders[i]);
            proof {
                assert(holders@.take(i + 1) == holders@.take(i as int).push(holders@[i as int]));
                holders@.take(i as int).lemma_push_to_set_commute(holders@[i as int]);
            }
            i = i + 1;
        }
        assert(holders@.take(holders.len() as int) == holders@);
        self.put(addr, (lock_id, set));
    }

    /// Whether a new holder on `addr` needs the server's lock first (the client
    /// has no lock there yet).
    pub fn needs_server_lock(&self, addr: Endpoint) -> (r: bool)
        ensures
            r == !self@.contains_key(addr),
    {
        !table_contains(&self.locks, addr)
    }

    /// Records the lock that the server on `addr` granted under `lock_id`,
    /// with a new local holder as its only holder; gives the holder's identifier.
    pub fn add_first_holder(&mut self, addr: Endpoint, lock_id: u128) -> (id: u128)
        ensures
            final(self)@ == old(self)@.insert(addr, (lock_id, set![id])),
    {
        let id = fresh_id();
        let mut set = id_set_new();
        id_set_insert(&mut set, id);
        self.put(addr, (lock_id, set));
        assert(Set::<u128>::empty().insert(id) =~= set![id]);
        id
    }

    /// Adds a new local holder to the lock on `addr` and gives its identifier,
    /// which no holder of that lock had; gives `None`, and changes nothing,
    /// when there is no lock there.
    pub fn add_holder(&mut self, addr: Endpoint) -> (r: Option<u128>)
        ensures
            r matches Some(id) ==> !old(self)@[addr].1.contains(id),
            r matches Some(id) ==> final(self)@[addr].0 == old(self)@[addr].0
                && final(self)@[addr].1.contains(id) && final(self)@.dom() == old(self)@.dom(),
            match r {
                Some(id) => old(self)@.contains_key(addr) && final(self)@ == old(self)@.insert(
                    addr,
                    (old(self)@[addr].0, old(self)@[addr].1.insert(id)),
                ),
                None => !old(self)@.contains_key(addr) && final(self)@ == old(self)@,
            },
    {
        match self.take(addr) {
            None => {
                assert(self@ =~= old(self)@);
                None
            },
            Some((lock_id, mut set)) => {
                let id = insert_new_holder(&mut set);
                self.put(addr, (lock_id, set));
                assert(self@ =~= old(self)@.insert(
                    addr,
                    (old(self)@[addr].0, old(self)@[addr].1.insert(id)),
                ));
                Some(id)
            },
        }
    }

    /// Removes local holder `id` from the lock on `addr`. The lock stays in the
    /// table, also when no holder is left.
    pub fn remove_holder(&mut self, addr: Endpoint, id: u128) -> (r: RemoveOutcome)
        ensures
            (final(self)@, r) == remove_step(old(self)@, addr, id),
            final(self)@.dom() == old(self)@.dom(),
            !old(self)@.contains_key(addr) ==> final(self)@ == old(self)@ && r
                == RemoveOutcome::NoSemaphore,
            forall|k: Endpoint|
                k != addr && #[trigger] old(self)@.contains_key(k) ==> final(self)@[k] == old(self)@[k],
            old(self)@.contains_key(addr) ==> final(self)@[addr].0 == old(self)@[addr].0
                && final(self)@[addr].1 == old(self)@[addr].1.remove(id),
    {
        match self.take(addr) {
            None => {
                assert(self@ =~= old(self)@);
                RemoveOutcome::NoSemaphore
            },
            Some((lock_id, mut set)) => {
                let removed = id_set_remove(&mut set, id);
                let empty = id_set_is_empty(&set);
                self.put(addr, (lock_id, set));
                if !removed {
                    assert(set_items(set) =~= old(self)@[addr].1);
                    assert(self@ =~= old(self)@);
                    RemoveOutcome::NotHeld
                } else {
                    assert(self@ =~= remove_step(old(self)@, addr, id).0);
                    if empty {
                        RemoveOutcome::LastHolder(lock_id)
                    } else {
                        RemoveOutcome::StillShared
                    }
                }
            },
        }
    }

    /// The server's identifier of the lock on `addr`, if there is one.
    pub fn server_lock_id(&self, addr: Endpoint) -> (r: Option<u128>)
        ensures
            r == (if self@.contains_key(addr) {
                Some(self@[addr].0)
            } else {
                None
            }),
    {
        table_lock_id(&self.locks, addr)
    }

    /// Takes the server's answer to whether it still holds the lock on `addr`:
    /// if not, the lock is dropped.
    pub fn record_server_check(&mut self, addr: Endpoint, acquired: bool)
        ensures
            final(self)@ == check_step(old(self)@, addr, acquired),
            acquired ==> final(self)@ == old(self)@,
            !acquired ==> final(self)@ == old(self)@.remove(addr),
    {
        if !acquired {
            let _ = self.take(addr);
        }
    }

    /// Whether the lock on `addr` has local holder `id`.
    pub fn holds(&mut self, addr: Endpoint, id: u128) -> (r: bool)
        ensures
            r == (old(self)@.contains_key(addr) && old(self)@[addr].1.contains(id)),
            final(self)@ == old(self)@,
    {
        match self.take(addr) {
            None => {
                assert(self@ =~= old(self)@);
                false
            },
            Some((lock_id, set)) => {
                let r = id_set_contains(&set, id);
                self.put(addr, (lock_id, set));
                assert(self@ =~= old(self)@);
                r
            },
        }
    }

    /// The local holders of the lock on `addr` (none if there is no lock),
    /// each once, in no particular order.
    pub fn holders_of(&mut self, addr: Endpoint) -> (r: Vec<u128>)
        ensures
            r@.no_duplicates(),
            r@.to_set() == (if old(self)@.contains_key(addr) {
                old(self)@[addr].1
            } else {
                Set::<u128>::empty()
            }),
            final(self)@ == old(self)@,
    {
        match self.take(addr) {
            None => {
                assert(self@ =~= old(self)@);
                let r: Vec<u128> = Vec::new();
                assert(r@.to_set() =~= Set::<u128>::empty());
                r
            },
            Some((lock_id, set)) => {
                let r = id_set_items(&set);
                self.put(addr, (lock_id, set));
                assert(self@ =~= old(self)@);
                r
            },
        }
    }

    /// Takes the outcome of a verification round on `addr`: the server's
    /// answer to whether it still holds the lock, or `None` if none came.
    /// A lock with holders that the server no longer holds is dropped;
    /// otherwise nothing changes.
    pub fn settle_verification(&mut self, addr: Endpoint, answer: Option<bool>)
        ensures
            final(self)@ == verify_step(old(self)@, addr, answer),
    {
        if answer == Some(false) {
            match self.take(addr) {
                None => {
                    assert(self@ =~= old(self)@);
                },
                Some((lock_id, set)) => {
                    if id_set_is_empty(&set) {
                        self.put(addr, (lock_id, set));
                        assert(self@ =~= old(self)@);
                    }
                },
            }
        }
    }

    /// The addresses of all servers the client has a lock on, each once.
    pub fn endpoints(&self) -> (r: Vec<Endpoint>)
        ensures
            r@.no_duplicates(),
            r@.to_set() == self@.dom(),
    {
        table_addresses(&self.locks)
    }

    /// Every lock: its address, the server's identifier of it and its local
    /// holders (each once); one item per address, in no particular order.
    pub fn entries(&mut self) -> (r: Vec<(Endpoint, u128, Vec<u128>)>)
        ensures
            final(self)@ == old(self)@,
            forall|k: Endpoint| old(self)@.contains_key(k) ==> exists|j: int|
                0 <= j < r@.len() && #[trigger] r@[j].0 == k,
            forall|i: int, j: int|
                0 <= i < r@.len() && 0 <= j < r@.len() && i != j ==> #[trigger] r@[i].0
                    != #[trigger] r@[j].0,
            forall|j: int|
                0 <= j < r@.len() ==> {
                    &&& old(self)@.contains_key(#[trigger] r@[j].0)
                    &&& r@[j].1 == old(self)@[r@[j].0].0
                    &&& r@[j].2@.to_set() == old(self)@[r@[j].0].1
                    &&& r@[j].2@.no_duplicates()
                },
    {
        let addrs = self.endpoints();
        let mut r: Vec<(Endpoint, u128, Vec<u128>)> = Vec::new();
        let mut i: usize = 0;
        while i < addrs.len()
            invariant
                i <= addrs.len(),
                self@ == old(self)@,
                addrs@.no_duplicates(),
                addrs@.to_set() == old(self)@.dom(),
                r@.len() == i,
                forall|j: int| 0 <= j < i ==> #[trigger] r@[j].0 == addrs@[j],
                forall|j: int|
                    0 <= j < i ==> {
                        &&& old(self)@.contains_key(#[trigger] r@[j].0)
                        &&& r@[j].1 == old(self)@[r@[j].0].0
                        &&& r@[j].2@.to_set() == old(self)@[r@[j].0].1
                        &&& r@[j].2@.no_duplicates()
                    },
            decreases addrs.len() - i,
        {
            let addr = addrs[i];
            assert(addrs@.to_set().contains(addrs@[i as int]));
            let lock_id = match self.server_lock_id(addr) {
                Some(lock_id) => lock_id,
                None => 0,
            };
            let holders = self.holders_of(addr);
            r.push((addr, lock_id, holders));
            i = i + 1;
        }
        assert forall|k: Endpoint| old(self)@.contains_key(k) implies exists|j: int|
            0 <= j < r@.len() && #[trigger] r@[j].0 == k by {
            assert(addrs@.to_set().contains(k));
            let j = choose|j: int| 0 <= j < addrs@.len() && addrs@[j] == k;
            assert(r@[j].0 == k);
        }
        assert forall|i: int, j: int|
            0 <= i < r@.len() && 0 <= j < r@.len() && i != j implies #[trigger] r@[i].0
                != #[trigger] r@[j].0 by {
            assert(r@[i].0 == addrs@[i] && r@[j].0 == addrs@[j]);
        }
        r
    }
}

} // verus!
