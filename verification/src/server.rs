//! What a server decides: the set of holds it has granted, and how each
//! request changes that set and is answered.
//!
//! The server's loop (accepting connections, reading frames, saving the set,
//! the shutdown timers) performs the actions that `Handled` names.

use vstd::prelude::*;
use dashmap::DashSet;
use crate::collections::{
    id_set_contains, id_set_insert, id_set_is_empty, id_set_items, id_set_new, id_set_remove,
    set_items,
};
use crate::ids::fresh_id;
use crate::packet::{
    decode_request, encode_response, lemma_response_roundtrip, request_read, response_bytes,
    response_read, PacketError, RequestPacket, ResponsePacket,
};

verus! {

/// The holds a server has granted, by identifier.
pub struct HolderRegistry {
    holders: DashSet<u128>,
}

/// The answer to a request, and what the server does besides answering.
pub struct Handled {
    pub response: ResponsePacket,
    /// The bytes of `response`.
    pub reply: Vec<u8>,
    /// A pending shutdown is called off.
    pub cancel_shutdown: bool,
    /// The set of holds changed and is saved before the answer is sent.
    pub persist: bool,
    /// The last hold is gone: the delayed shutdown is started.
    pub shutdown_when_idle: bool,
}

/// How serving `req` takes the holds `before` to `after` with outcome `h`.
/// An acquisition is always granted, under an identifier that no hold has.
pub open spec fn serves(before: Set<u128>, req: RequestPacket, after: Set<u128>, h: Handled) -> bool {
    &&& h.reply@ == response_bytes(h.response)
    &&& match req {
        RequestPacket::Acquire => {
            &&& h.cancel_shutdown
            &&& !h.shutdown_when_idle
            &&& h.persist
            &&& h.response matches ResponsePacket::Success(id) && !before.contains(id) && after
                == before.insert(id)
        },
        RequestPacket::Release(id) => {
            &&& !h.cancel_shutdown
            &&& if before.contains(id) {
                &&& after == before.remove(id)
                &&& h.response == ResponsePacket::Success(id)
                &&& h.persist
                &&& h.shutdown_when_idle == (after == Set::<u128>::empty())
            } else {
                &&& after == before
                &&& h.response == ResponsePacket::Failure
                &&& !h.persist
                &&& !h.shutdown_when_idle
            }
        },
        RequestPacket::IsAcquired(id) => {
            &&& after == before
            &&& !h.cancel_shutdown
            &&& !h.persist
            &&& !h.shutdown_when_idle
            &&& h.response == if before.contains(id) {
                ResponsePacket::Success(id)
            } else {
                ResponsePacket::Failure
            }
        },
    }
}

/// A hold that an acquisition granted is reported as held when asked about next.
pub proof fn lemma_granted_hold_is_held(
    s0: Set<u128>,
    s1: Set<u128>,
    h1: Handled,
    id: u128,
    s2: Set<u128>,
    h2: Handled,
)
    requires
        serves(s0, RequestPacket::Acquire, s1, h1),
        h1.response == ResponsePacket::Success(id),
        serves(s1, RequestPacket::IsAcquired(id), s2, h2),
    ensures
        h2.response == ResponsePacket::Success(id),
        s2 == s1,
{
}

/// An acquisition is always granted, with a new hold under an identifier
/// that was not held, whatever holds there are.
pub proof fn lemma_acquire_always_granted(s0: Set<u128>, s1: Set<u128>, h: Handled)
    requires
        serves(s0, RequestPacket::Acquire, s1, h),
    ensures
        h.response matches ResponsePacket::Success(id) && !s0.contains(id) && s1 == s0.insert(id),
{
}

/// Releasing the hold an acquisition granted succeeds and undoes the
/// acquisition: the holds are as before it.
pub proof fn lemma_release_undoes_acquire(
    s0: Set<u128>,
    s1: Set<u128>,
    h1: Handled,
    id: u128,
    s2: Set<u128>,
    h2: Handled,
)
    requires
        serves(s0, RequestPacket::Acquire, s1, h1),
        h1.response == ResponsePacket::Success(id),
        serves(s1, RequestPacket::Release(id), s2, h2),
    ensures
        h2.response == ResponsePacket::Success(id),
        s2 == s0,
{
    assert(s0.insert(id).remove(id) =~= s0);
}

/// After any release of an identifier, that identifier is not held: asking
/// about it, or releasing it again, is answered `Failure`.
pub proof fn lemma_released_hold_is_gone(
    s0: Set<u128>,
    id: u128,
    s1: Set<u128>,
    h1: Handled,
    req: RequestPacket,
    s2: Set<u128>,
    h2: Handled,
)
    requires
        serves(s0, RequestPacket::Release(id), s1, h1),
        req == RequestPacket::IsAcquired(id) || req == RequestPacket::Release(id),
        serves(s1, req, s2, h2),
    ensures
        !s1.contains(id),
        h2.response == ResponsePacket::Failure,
        s2 == s1,
{
}

/// A request touches no hold but the one it names: the holds of other
/// identifiers are the same before and after it.
pub proof fn lemma_other_holds_unchanged(
    s0: Set<u128>,
    req: RequestPacket,
    s1: Set<u128>,
    h: Handled,
    other: u128,
)
    requires
        serves(s0, req, s1, h),
        h.response != ResponsePacket::Success(other),
        !(req == RequestPacket::Release(other)),
    ensures
        s1.contains(other) == s0.contains(other),
{
}

/// The shutdown timer is started only by a release that leaves no hold.
pub proof fn lemma_shutdown_only_when_idle(
    s0: Set<u128>,
    req: RequestPacket,
    s1: Set<u128>,
    h: Handled,
)
    requires
        serves(s0, req, s1, h),
        h.shutdown_when_idle,
    ensures
        req is Release,
        s1 == Set::<u128>::empty(),
{
}

/// The set of holds is saved exactly when a request changed it.
pub proof fn lemma_persist_iff_changed(s0: Set<u128>, req: RequestPacket, s1: Set<u128>, h: Handled)
    requires
        serves(s0, req, s1, h),
    ensures
        h.persist == (s1 != s0),
{
    match req {
        RequestPacket::Acquire => {
            if let ResponsePacket::Success(id) = h.response {
                assert(s1.contains(id) && !s0.contains(id));
            }
        },
        RequestPacket::Release(id) => {
            if s0.contains(id) {
                assert(!s1.contains(id));
            }
        },
        RequestPacket::IsAcquired(_) => {},
    }
}

/// What a server sends back reads back, on the client, as the answer it gave.
pub proof fn lemma_reply_reads_back(
    s0: Set<u128>,
    req: RequestPacket,
    s1: Set<u128>,
    h: Handled,
    rest: Seq<u8>,
)
    requires
        serves(s0, req, s1, h),
    ensures
        response_read(h.reply@ + rest) == Ok::<(ResponsePacket, nat), PacketError>(
            (h.response, h.reply@.len()),
        ),
{
    lemma_response_roundtrip(h.response, rest);
}

/// A run of requests served one after another: `states[i]` are the holds
/// before request `reqs[i]` and `states[i + 1]` those after it, with outcome `hs[i]`.
pub open spec fn serves_run(states: Seq<Set<u128>>, reqs: Seq<RequestPacket>, hs: Seq<Handled>) -> bool {
    &&& states.len() == reqs.len() + 1
    &&& hs.len() == reqs.len()
    &&& forall|i: int|
        0 <= i < reqs.len() ==> #[trigger] serves(states[i], reqs[i], states[i + 1], hs[i])
}

/// Request `i` of the run was an acquisition that granted `u`.
pub open spec fn granted_in(reqs: Seq<RequestPacket>, hs: Seq<Handled>, i: int, u: u128) -> bool {
    reqs[i] is Acquire && hs[i].response == ResponsePacket::Success(u)
}

/// No request from `from` up to (not including) `to` asked to release `u`.
pub open spec fn not_released_between(reqs: Seq<RequestPacket>, from: int, to: int, u: u128) -> bool {
    forall|j: int| from <= j < to ==> #[trigger] reqs[j] != RequestPacket::Release(u)
}

/// After the first `n` requests of a run from `start`, `u` is held exactly
/// when it was held at the start or granted by one of them, and no request
/// since asked to release it.
pub open spec fn held_after(
    start: Set<u128>,
    reqs: Seq<RequestPacket>,
    hs: Seq<Handled>,
    n: int,
    u: u128,
) -> bool {
    ||| start.contains(u) && not_released_between(reqs, 0, n, u)
    ||| exists|i: int|
        0 <= i < n && #[trigger] granted_in(reqs, hs, i, u) && not_released_between(reqs, i + 1, n, u)
}

/// Over any run of requests, an identifier is held exactly when it was held
/// at the start or granted since, and not released after that. (Each request's
/// own effect is `serves`: an acquisition adds one identifier not held before,
/// a release removes only the identifier it names, a check changes nothing.)
pub proof fn lemma_run_holds(
    states: Seq<Set<u128>>,
    reqs: Seq<RequestPacket>,
    hs: Seq<Handled>,
    n: int,
    u: u128,
)
    requires
        serves_run(states, reqs, hs),
        0 <= n <= reqs.len(),
    ensures
        states[n].contains(u) == held_after(states[0], reqs, hs, n, u),
    decreases n,
{
    if n > 0 {
        let k = n - 1;
        lemma_run_holds(states, reqs, hs, k, u);
        assert(serves(states[k], reqs[k], states[k + 1], hs[k]));
        let start = states[0];
        if reqs[k] == RequestPacket::Release(u) {
            assert(!states[n].contains(u));
            assert(!not_released_between(reqs, 0, n, u));
            assert forall|i: int| 0 <= i < n && #[trigger] granted_in(reqs, hs, i, u) implies !not_released_between(
                reqs,
                i + 1,
                n,
                u,
            ) by {
                assert(i < k);
                assert(reqs[k] == RequestPacket::Release(u));
            }
        } else if granted_in(reqs, hs, k, u) {
            assert(states[n].contains(u));
            assert(not_released_between(reqs, k + 1, n, u));
            assert(held_after(start, reqs, hs, n, u));
        } else {
            assert(states[n].contains(u) == states[k].contains(u));
            if held_after(start, reqs, hs, k, u) {
                if start.contains(u) && not_released_between(reqs, 0, k, u) {
                    assert(not_released_between(reqs, 0, n, u));
                } else {
                    let i = choose|i: int|
                        0 <= i < k && #[trigger] granted_in(reqs, hs, i, u) && not_released_between(
                            reqs,
                            i + 1,
                            k,
                            u,
                        );
                    assert(not_released_between(reqs, i + 1, n, u));
                }
                assert(held_after(start, reqs, hs, n, u));
            }
            if held_after(start, reqs, hs, n, u) {
                if start.contains(u) && not_released_between(reqs, 0, n, u) {
                    assert(not_released_between(reqs, 0, k, u));
                } else {
                    let i = choose|i: int|
                        0 <= i < n && #[trigger] granted_in(reqs, hs, i, u) && not_released_between(
                            reqs,
                            i + 1,
                            n,
                            u,
                        );
                    assert(i != k);
                    assert(not_released_between(reqs, i + 1, k, u));
                }
                assert(held_after(start, reqs, hs, k, u));
            }
        }
    } else {
        assert(not_released_between(reqs, 0, 0, u));
    }
}

/// In any run of requests, each acquisition is granted and adds exactly one
/// identifier that was not held; each release of `u` removes `u` and nothing
/// else; each check changes nothing.
pub proof fn lemma_run_steps(states: Seq<Set<u128>>, reqs: Seq<RequestPacket>, hs: Seq<Handled>, i: int)
    requires
        serves_run(states, reqs, hs),
        0 <= i < reqs.len(),
    ensures
        reqs[i] is Acquire ==> (hs[i].response matches ResponsePacket::Success(u) && !states[
            i].contains(u) && states[i + 1] == states[i].insert(u)),
        reqs[i] matches RequestPacket::Release(u) ==> states[i + 1] == states[i].remove(u),
        reqs[i] is IsAcquired ==> states[i + 1] == states[i],
{
    assert(serves(states[i], reqs[i], states[i + 1], hs[i]));
    if let RequestPacket::Release(u) = reqs[i] {
        if !states[i].contains(u) {
            assert(states[i].remove(u) =~= states[i]);
        }
    }
}

impl View for HolderRegistry {
    type V = Set<u128>;

    closed spec fn view(&self) -> Set<u128> {
        set_items(self.holders)
    }
}

impl HolderRegistry {
    /// A registry with no holds.
    pub fn new() -> (r: Self)
        ensures
            r@ == Set::<u128>::empty(),
    {
        HolderRegistry { holders: id_set_new() }
    }

    /// A registry holding the given identifiers (such as a saved set).
    pub fn from_ids(ids: &Vec<u128>) -> (r: Self)
        ensures
            r@ == ids@.to_set(),
    {
        let mut holders = id_set_new();
        let mut i: usize = 0;
        while i < ids.len()
            invariant
                i <= ids.len(),
                set_items(holders) == ids@.take(i as int).to_set(),
            decreases ids.len() - i,
        {
            id_set_insert(&mut holders, ids[i]);
            proof {
                assert(ids@.take(i + 1) == ids@.take(i as int).push(ids@[i as int]));
                ids@.take(i as int).lemma_push_to_set_commute(ids@[i as int]);
            }
            i = i + 1;
        }
        assert(ids@.take(ids.len() as int) == ids@);
        HolderRegistry { holders }
    }

    /// The identifiers of all holds, each once, in no particular order.
    pub fn ids(&self) -> (r: Vec<u128>)
        ensures
            r@.to_set() == self@,
            r@.no_duplicates(),
    {
        id_set_items(&self.holders)
    }

    /// Whether no hold is left.
    pub fn is_empty(&self) -> (r: bool)
        ensures
            r == (self@ == Set::<u128>::empty()),
    {
        id_set_is_empty(&self.holders)
    }

    /// Grants a hold under `candidate` if no hold has it yet; says whether it did.
    pub fn grant(&mut self, candidate: u128) -> (r: bool)
        ensures
            r == !old(self)@.contains(candidate),
            final(self)@ == old(self)@.insert(candidate),
    {
        id_set_insert(&mut self.holders, candidate)
    }

    /// Grants a hold under an identifier that no hold has, found by looking
    /// at `0, 1, 2, ...` in turn: with `n` holds, one of the first `n + 1` is free.
    fn grant_unused(&mut self) -> (id: u128)
        ensures
            !old(self)@.contains(id),
            final(self)@ == old(self)@.insert(id),
    {
        let ids = id_set_items(&self.holders);
        proof {
            ids@.unique_seq_to_set();
            vstd::seq_lib::seq_to_set_is_finite(ids@);
        }
        let n = ids.len();
        let mut c: u128 = 0;
        let ghost mut tried: Set<u128> = Set::empty();
        loop
            invariant
                self@ == old(self)@,
                old(self)@.finite(),
                old(self)@.len() == n,
                tried.finite(),
                tried.len() == c,
                forall|k: u128| #[trigger] tried.contains(k) <==> k < c,
                tried.subset_of(old(self)@),
                c <= n,
            decreases n - c,
        {
            if self.grant(c) {
                return c;
            }
            proof {
                assert(!tried.contains(c));
                tried = tried.insert(c);
                vstd::set_lib::lemma_len_subset(tried, old(self)@);
            }
            c = c + 1;
        }
    }

    /// Draws random identifiers until one is unused and grants a hold under
    /// it; after `u64::MAX` draws that all hit held identifiers, takes an
    /// unused one by `grant_unused`. Always grants.
    fn grant_fresh(&mut self) -> (id: u128)
        ensures
            !old(self)@.contains(id),
            final(self)@ == old(self)@.insert(id),
    {
        let mut attempts: u64 = 0;
        while attempts < u64::MAX
            invariant
                self@ == old(self)@,
            decreases u64::MAX - attempts,
        {
            let candidate = fresh_id();
            if self.grant(candidate) {
                return candidate;
            }
            assert(self@ =~= old(self)@);
            attempts = attempts + 1;
        }
        self.grant_unused()
    }

    fn outcome(
        response: ResponsePacket,
        cancel_shutdown: bool,
        persist: bool,
        shutdown_when_idle: bool,
    ) -> (h: Handled)
        ensures
            h.response == response,
            h.reply@ == response_bytes(response),
            h.cancel_shutdown == cancel_shutdown,
            h.persist == persist,
            h.shutdown_when_idle == shutdown_when_idle,
    {
        Handled {
            response,
            reply: encode_response(&response),
            cancel_shutdown,
            persist,
            shutdown_when_idle,
        }
    }

    /// Serves one request.
    pub fn handle_request(&mut self, req: RequestPacket) -> (h: Handled)
        ensures
            serves(old(self)@, req, final(self)@, h),
    {
        match req {
            RequestPacket::Acquire => {
                let id = self.grant_fresh();
                Self::outcome(ResponsePacket::Success(id), true, true, false)
            },
            RequestPacket::Release(id) => {
                if id_set_remove(&mut self.holders, id) {
                    let idle = id_set_is_empty(&self.holders);
                    Self::outcome(ResponsePacket::Success(id), false, true, idle)
                } else {
                    assert(self@ =~= old(self)@);
                    Self::outcome(ResponsePacket::Failure, false, false, false)
                }
            },
            RequestPacket::IsAcquired(id) => {
                if id_set_contains(&self.holders, id) {
                    Self::outcome(ResponsePacket::Success(id), false, false, false)
                } else {
                    Self::outcome(ResponsePacket::Failure, false, false, false)
                }
            },
        }
    }

    /// Serves the request at the start of a frame, or says why the frame
    /// holds none; then nothing changes.
    pub fn handle_frame(&mut self, frame: &[u8]) -> (r: Result<Handled, PacketError>)
        ensures
            match request_read(frame@) {
                Ok((req, _)) => r matches Ok(h) && serves(old(self)@, req, final(self)@, h),
                Err(e) => r == Err::<Handled, PacketError>(e) && final(self)@ == old(self)@,
            },
    {
        match decode_request(frame) {
            Ok((req, _)) => Ok(self.handle_request(req)),
            Err(e) => Err(e),
        }
    }
}

} // verus!
