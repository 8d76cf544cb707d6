//! The dispatch state of the gateway: which requests wait, which account serves
//! each of them, and how much capacity every account and session holds.
//!
//! The state is a plain value; the process that runs the gateway keeps it
//! behind a lock and wakes its waiters after each call that changes it.
use vstd::prelude::*;
use crate::access::GatewayKey;
use crate::accounts::{Account, accepts_spec, contains_id, in_group, supports_spec};
use crate::clients::ClientSource;
use crate::identity::{Binding, SessionKey, ThreadKey, session_view};
use crate::settings::RuntimeSettings;
use crate::types::{Error, ModelRef, Result, plain_error};

verus! {

/// Status, code and message of a plain error.
pub open spec fn fault_is(e: Error, f: (u16, Seq<char>, Seq<char>)) -> bool {
    plain_error(e, f.0, f.1, f.2)
}

pub open spec fn storage_fault() -> (u16, Seq<char>, Seq<char>) {
    (503, "storage_unavailable"@, "Persistent storage is unavailable"@)
}

/// A request waiting for capacity.
pub struct Waiter {
    pub source: ClientSource,
    pub id: u128,
    pub thread_id: String,
    pub group_id: u128,
    pub model: ModelRef,
    pub since_ms: u64,
}

/// The waiting requests of one session, oldest first.
pub struct SessionQueue {
    pub session: SessionKey,
    pub waiters: Vec<Waiter>,
}

/// A thread of a session that holds a dispatched request.
pub struct ThreadLease {
    pub thread_id: String,
    pub request_id: u128,
}

/// The dispatched requests of one session. A new binding must be persisted
/// before another thread of the session can use it.
pub struct SessionActivity {
    pub session: SessionKey,
    pub threads: Vec<ThreadLease>,
    pub binding_pending: Option<u128>,
}

/// An account with the requests it serves now and the sends it has made.
pub struct AccountSlot {
    pub account: Account,
    pub inflight: u32,
    pub served: u64,
}

/// The upstream sends a dispatched request has used.
pub struct LeaseCount {
    pub id: u128,
    pub attempts: u8,
}

/// Accounts, keys and bindings as the scheduler knows them, the queues of
/// waiting sessions in service order, and the capacity held by dispatched
/// requests.
pub struct Scheduler {
    pub accounts: Vec<AccountSlot>,
    pub keys: Vec<GatewayKey>,
    pub blocked_keys: Vec<u128>,
    pub blocked: Vec<u128>,
    pub bindings: Vec<Binding>,
    pub queues: Vec<SessionQueue>,
    pub active: Vec<SessionActivity>,
    pub leases: Vec<LeaseCount>,
    pub paused: bool,
}

pub open spec fn total_inflight(v: Seq<AccountSlot>) -> int
    decreases v.len(),
{
    if v.len() == 0 {
        0
    } else {
        total_inflight(v.drop_last()) + v.last().inflight
    }
}

pub open spec fn queued_count(v: Seq<SessionQueue>) -> int
    decreases v.len(),
{
    if v.len() == 0 {
        0
    } else {
        queued_count(v.drop_last()) + v.last().waiters@.len()
    }
}

pub open spec fn thread_ids_unique(t: Seq<ThreadLease>) -> bool {
    forall|i: int, j: int|
        #![trigger t[i], t[j]]
        0 <= i < t.len() && 0 <= j < t.len() && i != j ==> t[i].thread_id@ != t[j].thread_id@
}

pub open spec fn has_account(s: Scheduler, id: u128) -> bool {
    exists|i: int| 0 <= i < s.accounts@.len() && (#[trigger] s.accounts@[i]).account.id == id
}

pub open spec fn slot(s: Scheduler, id: u128) -> AccountSlot {
    s.accounts@[choose|i: int| 0 <= i < s.accounts@.len() && (#[trigger] s.accounts@[i]).account.id == id]
}

pub open spec fn inflight_of(s: Scheduler, id: u128) -> int {
    if has_account(s, id) {
        slot(s, id).inflight as int
    } else {
        0
    }
}

pub open spec fn has_key(s: Scheduler, id: u128) -> bool {
    exists|i: int| 0 <= i < s.keys@.len() && (#[trigger] s.keys@[i]).id == id
}

pub open spec fn key_of(s: Scheduler, id: u128) -> GatewayKey {
    s.keys@[choose|i: int| 0 <= i < s.keys@.len() && (#[trigger] s.keys@[i]).id == id]
}

pub open spec fn has_binding(s: Scheduler, k: (u128, Seq<char>)) -> bool {
    exists|i: int| 0 <= i < s.bindings@.len() && session_view((#[trigger] s.bindings@[i]).session) == k
}

pub open spec fn binding_of(s: Scheduler, k: (u128, Seq<char>)) -> Binding {
    s.bindings@[choose|i: int|
        0 <= i < s.bindings@.len() && session_view((#[trigger] s.bindings@[i]).session) == k]
}

pub open spec fn has_queue(s: Scheduler, k: (u128, Seq<char>)) -> bool {
    exists|i: int| 0 <= i < s.queues@.len() && session_view((#[trigger] s.queues@[i]).session) == k
}

pub open spec fn activity_of(s: Scheduler, k: (u128, Seq<char>)) -> Option<SessionActivity> {
    if exists|i: int| 0 <= i < s.active@.len() && session_view((#[trigger] s.active@[i]).session) == k {
        Some(
            s.active@[choose|i: int|
                0 <= i < s.active@.len() && session_view((#[trigger] s.active@[i]).session) == k],
        )
    } else {
        None
    }
}

pub open spec fn lease_of(s: Scheduler, id: u128) -> Option<u8> {
    if exists|i: int| 0 <= i < s.leases@.len() && (#[trigger] s.leases@[i]).id == id {
        Some(s.leases@[choose|i: int| 0 <= i < s.leases@.len() && (#[trigger] s.leases@[i]).id == id].attempts)
    } else {
        None
    }
}

impl Scheduler {
    /// Each account, key, binding, queue, session activity and lease appears
    /// once under its identifier; no queue is empty; a session lists each
    /// thread once; the capacity held in all fits the global counter; and every
    /// binding generation can still be followed by another.
    pub open spec fn wf(self) -> bool {
        &&& forall|i: int, j: int|
            #![trigger self.accounts@[i], self.accounts@[j]]
            0 <= i < self.accounts@.len() && 0 <= j < self.accounts@.len() && i != j
                ==> self.accounts@[i].account.id != self.accounts@[j].account.id
        &&& forall|i: int, j: int|
            #![trigger self.keys@[i], self.keys@[j]]
            0 <= i < self.keys@.len() && 0 <= j < self.keys@.len() && i != j ==> self.keys@[i].id
                != self.keys@[j].id
        &&& forall|i: int, j: int|
            #![trigger self.bindings@[i], self.bindings@[j]]
            0 <= i < self.bindings@.len() && 0 <= j < self.bindings@.len() && i != j
                ==> session_view(self.bindings@[i].session) != session_view(
                self.bindings@[j].session,
            )
        &&& forall|i: int, j: int|
            #![trigger self.queues@[i], self.queues@[j]]
            0 <= i < self.queues@.len() && 0 <= j < self.queues@.len() && i != j
                ==> session_view(self.queues@[i].session) != session_view(self.queues@[j].session)
        &&& forall|i: int, j: int|
            #![trigger self.active@[i], self.active@[j]]
            0 <= i < self.active@.len() && 0 <= j < self.active@.len() && i != j
                ==> session_view(self.active@[i].session) != session_view(self.active@[j].session)
        &&& forall|i: int, j: int|
            #![trigger self.leases@[i], self.leases@[j]]
            0 <= i < self.leases@.len() && 0 <= j < self.leases@.len() && i != j
                ==> self.leases@[i].id != self.leases@[j].id
        &&& forall|i: int|
            0 <= i < self.queues@.len() ==> (#[trigger] self.queues@[i]).waiters@.len() > 0
        &&& forall|i: int|
            0 <= i < self.active@.len() ==> thread_ids_unique((#[trigger] self.active@[i]).threads@)
        &&& total_inflight(self.accounts@) <= u32::MAX
        &&& forall|i: int|
            0 <= i < self.bindings@.len() ==> (#[trigger] self.bindings@[i]).generation < i64::MAX
    }
}

pub proof fn lemma_total_update(v: Seq<AccountSlot>, i: int, x: AccountSlot)
    requires
        0 <= i < v.len(),
    ensures
        total_inflight(v.update(i, x)) == total_inflight(v) - v[i].inflight + x.inflight,
    decreases v.len(),
{
    if i == v.len() - 1 {
        assert(v.update(i, x).drop_last() =~= v.drop_last());
    } else {
        lemma_total_update(v.drop_last(), i, x);
        assert(v.update(i, x).drop_last() =~= v.drop_last().update(i, x));
    }
}

pub proof fn lemma_total_bounds(v: Seq<AccountSlot>, i: int)
    requires
        0 <= i < v.len(),
    ensures
        v[i].inflight <= total_inflight(v),
        total_inflight(v) >= 0,
    decreases v.len(),
{
    lemma_total_nonneg(v.drop_last());
    if i < v.len() - 1 {
        lemma_total_bounds(v.drop_last(), i);
    }
}

pub proof fn lemma_total_nonneg(v: Seq<AccountSlot>)
    ensures
        total_inflight(v) >= 0,
    decreases v.len(),
{
    if v.len() > 0 {
        lemma_total_nonneg(v.drop_last());
    }
}

/// Whether `v` holds `id`; the result is the same for every list with the
/// same members.
fn holds(v: &Vec<u128>, id: u128) -> (r: bool)
    ensures
        r == v@.contains(id),
{
    contains_id(v, id)
}

/// `v` without `id`.
fn without(v: &Vec<u128>, id: u128) -> (r: Vec<u128>)
    ensures
        forall|x: u128| r@.contains(x) <==> (v@.contains(x) && x != id),
{
    let mut out: Vec<u128> = Vec::new();
    let mut i: usize = 0;
    while i < v.len()
        invariant
            i <= v@.len(),
            forall|x: u128| out@.contains(x) <==> (v@.take(i as int).contains(x) && x != id),
        decreases v@.len() - i,
    {
        proof {
            assert(v@.take(i + 1) =~= v@.take(i as int).push(v@[i as int]));
        }
        if v[i] != id {
            out.push(v[i]);
        }
        proof {
            broadcast use vstd::seq_lib::group_seq_properties;

        }
        i = i + 1;
    }
    proof {
        assert(v@.take(v@.len() as int) =~= v@);
    }
    out
}

impl Scheduler {
    proof fn lemma_slot(self, i: int)
        requires
            self.wf(),
            0 <= i < self.accounts@.len(),
        ensures
            has_account(self, self.accounts@[i].account.id),
            slot(self, self.accounts@[i].account.id) == self.accounts@[i],
    {
        assert(has_account(self, self.accounts@[i].account.id));
    }

    proof fn lemma_key(self, i: int)
        requires
            self.wf(),
            0 <= i < self.keys@.len(),
        ensures
            has_key(self, self.keys@[i].id),
            key_of(self, self.keys@[i].id) == self.keys@[i],
    {
        assert(has_key(self, self.keys@[i].id));
    }

    proof fn lemma_binding(self, i: int)
        requires
            self.wf(),
            0 <= i < self.bindings@.len(),
        ensures
            has_binding(self, session_view(self.bindings@[i].session)),
            binding_of(self, session_view(self.bindings@[i].session)) == self.bindings@[i],
    {
        assert(has_binding(self, session_view(self.bindings@[i].session)));
    }

    proof fn lemma_activity(self, i: int)
        requires
            self.wf(),
            0 <= i < self.active@.len(),
        ensures
            activity_of(self, session_view(self.active@[i].session)) == Some(self.active@[i]),
    {
        let k = session_view(self.active@[i].session);
        assert(exists|j: int|
            0 <= j < self.active@.len() && session_view((#[trigger] self.active@[j]).session) == k);
    }

    proof fn lemma_lease(self, i: int)
        requires
            self.wf(),
            0 <= i < self.leases@.len(),
        ensures
            lease_of(self, self.leases@[i].id) == Some(self.leases@[i].attempts),
    {
        let k = self.leases@[i].id;
        assert(exists|j: int| 0 <= j < self.leases@.len() && (#[trigger] self.leases@[j]).id == k);
    }

    fn find_account(&self, id: u128) -> (r: Option<usize>)
        requires
            self.wf(),
        ensures
            match r {
                Some(i) => i < self.accounts@.len() && self.accounts@[i as int].account.id == id
                    && has_account(*self, id) && slot(*self, id) == self.accounts@[i as int],
                None => !has_account(*self, id),
            },
    {
        let mut i: usize = 0;
        while i < self.accounts.len()
            invariant
                self.wf(),
                i <= self.accounts@.len(),
                forall|j: int| 0 <= j < i ==> (#[trigger] self.accounts@[j]).account.id != id,
            decreases self.accounts@.len() - i,
        {
            if self.accounts[i].account.id == id {
                proof {
                    self.lemma_slot(i as int);
                }
                return Some(i);
            }
            i = i + 1;
        }
        None
    }

    fn find_key(&self, id: u128) -> (r: Option<usize>)
        requires
            self.wf(),
        ensures
            match r {
                Some(i) => i < self.keys@.len() && self.keys@[i as int].id == id && has_key(*self, id)
                    && key_of(*self, id) == self.keys@[i as int],
                None => !has_key(*self, id),
            },
    {
        let mut i: usize = 0;
        while i < self.keys.len()
            invariant
                self.wf(),
                i <= self.keys@.len(),
                forall|j: int| 0 <= j < i ==> (#[trigger] self.keys@[j]).id != id,
            decreases self.keys@.len() - i,
        {
            if self.keys[i].id == id {
                proof {
                    self.lemma_key(i as int);
                }
                return Some(i);
            }
            i = i + 1;
        }
        None
    }

    fn find_binding(&self, session: &SessionKey) -> (r: Option<usize>)
        requires
            self.wf(),
        ensures
            match r {
                Some(i) => i < self.bindings@.len() && session_view(self.bindings@[i as int].session)
                    == session_view(*session) && has_binding(*self, session_view(*session))
                    && binding_of(*self, session_view(*session)) == self.bindings@[i as int],
                None => !has_binding(*self, session_view(*session)),
            },
    {
        let mut i: usize = 0;
        while i < self.bindings.len()
            invariant
                self.wf(),
                i <= self.bindings@.len(),
                forall|j: int|
                    0 <= j < i ==> session_view((#[trigger] self.bindings@[j]).session)
                        != session_view(*session),
            decreases self.bindings@.len() - i,
        {
            if self.bindings[i].session.same(session) {
                proof {
                    self.lemma_binding(i as int);
                }
                return Some(i);
            }
            i = i + 1;
        }
        None
    }

    fn find_queue(&self, session: &SessionKey) -> (r: Option<usize>)
        requires
            self.wf(),
        ensures
            match r {
                Some(i) => i < self.queues@.len() && session_view(self.queues@[i as int].session)
                    == session_view(*session) && has_queue(*self, session_view(*session)),
                None => !has_queue(*self, session_view(*session)),
            },
    {
        let mut i: usize = 0;
        while i < self.queues.len()
            invariant
                self.wf(),
                i <= self.queues@.len(),
                forall|j: int|
                    0 <= j < i ==> session_view((#[trigger] self.queues@[j]).session)
                        != session_view(*session),
            decreases self.queues@.len() - i,
        {
            if self.queues[i].session.same(session) {
                proof {
                    assert(session_view(self.queues@[i as int].session) == session_view(*session));
                }
                return Some(i);
            }
            i = i + 1;
        }
        None
    }

    fn find_active(&self, session: &SessionKey) -> (r: Option<usize>)
        requires
            self.wf(),
        ensures
            match r {
                Some(i) => i < self.active@.len() && session_view(self.active@[i as int].session)
                    == session_view(*session) && activity_of(*self, session_view(*session)) == Some(
                    self.active@[i as int],
                ),
                None => activity_of(*self, session_view(*session)) is None,
            },
    {
        let mut i: usize = 0;
        while i < self.active.len()
            invariant
                self.wf(),
                i <= self.active@.len(),
                forall|j: int|
                    0 <= j < i ==> session_view((#[trigger] self.active@[j]).session)
                        != session_view(*session),
            decreases self.active@.len() - i,
        {
            if self.active[i].session.same(session) {
                proof {
                    self.lemma_activity(i as int);
                }
                return Some(i);
            }
            i = i + 1;
        }
        None
    }

    fn find_lease(&self, id: u128) -> (r: Option<usize>)
        requires
            self.wf(),
        ensures
            match r {
                Some(i) => i < self.leases@.len() && self.leases@[i as int].id == id && lease_of(
                    *self,
                    id,
                ) == Some(self.leases@[i as int].attempts),
                None => lease_of(*self, id) is None,
            },
    {
        let mut i: usize = 0;
        while i < self.leases.len()
            invariant
                self.wf(),
                i <= self.leases@.len(),
                forall|j: int| 0 <= j < i ==> (#[trigger] self.leases@[j]).id != id,
            decreases self.leases@.len() - i,
        {
            if self.leases[i].id == id {
                proof {
                    self.lemma_lease(i as int);
                }
                return Some(i);
            }
            i = i + 1;
        }
        None
    }
}


/// Why a key cannot dispatch into a group now, checked in a fixed order.
pub open spec fn key_fault(s: Scheduler, key_id: u128, group: u128) -> Option<(u16, Seq<char>, Seq<char>)> {
    if s.paused {
        Some(storage_fault())
    } else if s.blocked_keys@.contains(key_id) {
        Some(
            (
                503,
                "key_updating"@,
                "The key is being updated; retry after the change completes"@,
            ),
        )
    } else if !has_key(s, key_id) || !key_of(s, key_id).enabled {
        Some((401, "invalid_api_key"@, "The gateway key is disabled or unavailable"@))
    } else if key_of(s, key_id).group_id != group {
        Some(
            (
                409,
                "key_group_changed"@,
                "The key's group changed before dispatch; submit a new request"@,
            ),
        )
    } else {
        None
    }
}

/// A bound account that still serves the group and the client source.
pub open spec fn usable(s: Scheduler, a: Account, group: u128, source: ClientSource) -> bool {
    a.enabled && in_group(a, group) && accepts_spec(a, source) && !s.blocked@.contains(a.id)
}

/// An account that may take a new session of the group for the model.
pub open spec fn eligible(s: Scheduler, a: Account, group: u128, model: ModelRef) -> bool {
    a.enabled && !s.blocked@.contains(a.id) && in_group(a, group) && supports_spec(a, model)
}

pub open spec fn some_eligible(s: Scheduler, group: u128, model: ModelRef) -> bool {
    exists|i: int|
        0 <= i < s.accounts@.len() && eligible(s, (#[trigger] s.accounts@[i]).account, group, model)
}

pub open spec fn some_eligible_for(
    s: Scheduler,
    group: u128,
    model: ModelRef,
    source: ClientSource,
) -> bool {
    exists|i: int|
        0 <= i < s.accounts@.len() && eligible(s, (#[trigger] s.accounts@[i]).account, group, model)
            && accepts_spec(s.accounts@[i].account, source)
}

/// Why a request of a session cannot be served at all (as opposed to not yet):
/// the key, then the session's binding, then the accounts of the group.
pub open spec fn eligibility_fault(
    s: Scheduler,
    session: (u128, Seq<char>),
    group: u128,
    model: ModelRef,
    source: ClientSource,
) -> Option<(u16, Seq<char>, Seq<char>)> {
    let b = binding_of(s, session);
    if key_fault(s, session.0, group) is Some {
        key_fault(s, session.0, group)
    } else if has_binding(s, session) && !(b.provider@ == model.provider@ && b.access_kind@
        == model.access_kind@) {
        Some(
            (
                409,
                "provider_mismatch"@,
                "A conversation cannot migrate across providers or access types"@,
            ),
        )
    } else if has_binding(s, session) && has_account(s, b.account_id) && usable(
        s,
        slot(s, b.account_id).account,
        group,
        source,
    ) {
        if supports_spec(slot(s, b.account_id).account, model) {
            None
        } else {
            Some(
                (
                    409,
                    "bound_account_model_unsupported"@,
                    "The bound account does not support this model"@,
                ),
            )
        }
    } else if some_eligible_for(s, group, model, source) {
        None
    } else if some_eligible(s, group, model) {
        Some(
            (
                403,
                "client_source_not_allowed"@,
                "No account in this key's group allows the detected client source"@,
            ),
        )
    } else {
        Some(
            (
                503,
                "no_available_account"@,
                "No enabled account in this key's group can serve the requested model"@,
            ),
        )
    }
}

impl Scheduler {
    fn check_key(&self, id: u128, group_id: u128) -> (r: Result<()>)
        requires
            self.wf(),
        ensures
            r is Ok <==> key_fault(*self, id, group_id) is None,
            r matches Err(e) ==> fault_is(e, key_fault(*self, id, group_id).unwrap()),
    {
        if self.paused {
            return Err(Error::storage());
        }
        if holds(&self.blocked_keys, id) {
            return Err(
                Error::new(
                    503,
                    "key_updating",
                    "The key is being updated; retry after the change completes",
                ),
            );
        }
        let k = match self.find_key(id) {
            Some(i) => {
                if !self.keys[i].enabled {
                    return Err(
                        Error::new(
                            401,
                            "invalid_api_key",
                            "The gateway key is disabled or unavailable",
                        ),
                    );
                }
                i
            },
            None => {
                return Err(
                    Error::new(401, "invalid_api_key", "The gateway key is disabled or unavailable"),
                );
            },
        };
        if self.keys[k].group_id != group_id {
            return Err(
                Error::new(
                    409,
                    "key_group_changed",
                    "The key's group changed before dispatch; submit a new request",
                ),
            );
        }
        Ok(())
    }

    fn is_eligible(&self, a: &Account, group_id: u128, model: &ModelRef) -> (r: bool)
        ensures
            r == eligible(*self, *a, group_id, *model),
    {
        a.enabled && !holds(&self.blocked, a.id) && a.in_group(group_id) && a.supports(model)
    }

    fn check_eligibility(
        &self,
        session: &SessionKey,
        group_id: u128,
        model: &ModelRef,
        source: ClientSource,
    ) -> (r: Result<()>)
        requires
            self.wf(),
        ensures
            r is Ok <==> eligibility_fault(*self, session_view(*session), group_id, *model, source)
                is None,
            r matches Err(e) ==> fault_is(
                e,
                eligibility_fault(*self, session_view(*session), group_id, *model, source).unwrap(),
            ),
    {
        self.check_key(session.key_id, group_id)?;
        if let Some(bi) = self.find_binding(session) {
            let b = &self.bindings[bi];
            if !b.compatible(model) {
                return Err(
                    Error::new(
                        409,
                        "provider_mismatch",
                        "A conversation cannot migrate across providers or access types",
                    ),
                );
            }
            if let Some(ai) = self.find_account(b.account_id) {
                let a = &self.accounts[ai].account;
                if a.enabled && a.in_group(group_id) && a.accepts(source) && !holds(
                    &self.blocked,
                    a.id,
                ) {
                    if !a.supports(model) {
                        return Err(
                            Error::new(
                                409,
                                "bound_account_model_unsupported",
                                "The bound account does not support this model",
                            ),
                        );
                    }
                    return Ok(());
                }
            }
        }
        let mut any_eligible = false;
        let mut any_accepting = false;
        let mut i: usize = 0;
        while i < self.accounts.len()
            invariant
                i <= self.accounts@.len(),
                any_eligible == exists|j: int|
                    0 <= j < i && eligible(*self, (#[trigger] self.accounts@[j]).account, group_id, *model),
                any_accepting == exists|j: int|
                    0 <= j < i && eligible(*self, (#[trigger] self.accounts@[j]).account, group_id, *model)
                        && accepts_spec(self.accounts@[j].account, source),
            decreases self.accounts@.len() - i,
        {
            let a = &self.accounts[i].account;
            if self.is_eligible(a, group_id, model) {
                any_eligible = true;
                if a.accepts(source) {
                    any_accepting = true;
                }
            }
            i = i + 1;
        }
        if !any_accepting {
            if any_eligible {
                return Err(
                    Error::new(
                        403,
                        "client_source_not_allowed",
                        "No account in this key's group allows the detected client source",
                    ),
                );
            }
            return Err(
                Error::new(
                    503,
                    "no_available_account",
                    "No enabled account in this key's group can serve the requested model",
                ),
            );
        }
        Ok(())
    }
}


/// The accounts after `a` replaces the account with its identifier, keeping
/// the capacity that account holds, or joins the end with none held.
pub open spec fn upsert_account(v: Seq<AccountSlot>, a: Account) -> Seq<AccountSlot> {
    if exists|i: int| 0 <= i < v.len() && (#[trigger] v[i]).account.id == a.id {
        let i = choose|i: int| 0 <= i < v.len() && (#[trigger] v[i]).account.id == a.id;
        v.update(i, AccountSlot { account: a, inflight: v[i].inflight, served: v[i].served })
    } else {
        v.push(AccountSlot { account: a, inflight: 0, served: 0 })
    }
}

/// The keys after `k` replaces the key with its identifier or joins the end.
pub open spec fn upsert_key(v: Seq<GatewayKey>, k: GatewayKey) -> Seq<GatewayKey> {
    if exists|i: int| 0 <= i < v.len() && (#[trigger] v[i]).id == k.id {
        v.update(choose|i: int| 0 <= i < v.len() && (#[trigger] v[i]).id == k.id, k)
    } else {
        v.push(k)
    }
}

/// The bindings after `b` replaces the binding of its session or joins the end.
pub open spec fn upsert_binding(v: Seq<Binding>, b: Binding) -> Seq<Binding> {
    if exists|i: int| 0 <= i < v.len() && session_view((#[trigger] v[i]).session) == session_view(b.session) {
        v.update(
            choose|i: int|
                0 <= i < v.len() && session_view((#[trigger] v[i]).session) == session_view(b.session),
            b,
        )
    } else {
        v.push(b)
    }
}

pub open spec fn upsert_accounts(v: Seq<AccountSlot>, list: Seq<Account>) -> Seq<AccountSlot>
    decreases list.len(),
{
    if list.len() == 0 {
        v
    } else {
        upsert_account(upsert_accounts(v, list.drop_last()), list.last())
    }
}

pub open spec fn upsert_keys(v: Seq<GatewayKey>, list: Seq<GatewayKey>) -> Seq<GatewayKey>
    decreases list.len(),
{
    if list.len() == 0 {
        v
    } else {
        upsert_key(upsert_keys(v, list.drop_last()), list.last())
    }
}

pub open spec fn upsert_bindings(v: Seq<Binding>, list: Seq<Binding>) -> Seq<Binding>
    decreases list.len(),
{
    if list.len() == 0 {
        v
    } else {
        upsert_binding(upsert_bindings(v, list.drop_last()), list.last())
    }
}

/// Everything but the accounts, keys, bindings and blocked lists is as before.
pub open spec fn same_runtime(a: Scheduler, b: Scheduler) -> bool {
    &&& a.queues == b.queues
    &&& a.active == b.active
    &&& a.leases == b.leases
    &&& a.paused == b.paused
}

impl Scheduler {
    /// A scheduler that knows these accounts, bindings and keys (a later entry
    /// with the same identifier or session replaces an earlier one), with no
    /// waiting or dispatched request.
    pub fn new(accounts: Vec<Account>, bindings: Vec<Binding>, keys: Vec<GatewayKey>) -> (r: Self)
        requires
            forall|i: int| 0 <= i < bindings@.len() ==> (#[trigger] bindings@[i]).generation < i64::MAX,
        ensures
            r.wf(),
            r.accounts@ == upsert_accounts(Seq::empty(), accounts@),
            r.keys@ == upsert_keys(Seq::empty(), keys@),
            r.bindings@ == upsert_bindings(Seq::empty(), bindings@),
            r.blocked_keys@.len() == 0,
            r.blocked@.len() == 0,
            r.queues@.len() == 0,
            r.active@.len() == 0,
            r.leases@.len() == 0,
            !r.paused,
    {
        let mut s = Scheduler {
            accounts: Vec::new(),
            keys: Vec::new(),
            blocked_keys: Vec::new(),
            blocked: Vec::new(),
            bindings: Vec::new(),
            queues: Vec::new(),
            active: Vec::new(),
            leases: Vec::new(),
            paused: false,
        };
        let ghost ia = accounts@;
        let mut rest = accounts;
        while rest.len() > 0
            invariant
                s.wf(),
                s.keys@.len() == 0,
                s.bindings@.len() == 0,
                s.blocked@.len() == 0,
                s.blocked_keys@.len() == 0,
                s.queues@.len() == 0,
                s.active@.len() == 0,
                s.leases@.len() == 0,
                !s.paused,
                rest@.len() <= ia.len(),
                rest@ =~= ia.skip(ia.len() - rest@.len()),
                s.accounts@ == upsert_accounts(Seq::empty(), ia.take(ia.len() - rest@.len())),
            decreases rest@.len(),
        {
            let ghost done = ia.len() - rest@.len();
            let a = rest.remove(0);
            proof {
                assert(ia.take(done + 1).drop_last() =~= ia.take(done));
                assert(ia.take(done + 1).last() == a);
            }
            s.put_account(a);
        }
        proof {
            assert(ia.take(ia.len() as int) =~= ia);
        }
        let ghost ib = bindings@;
        let mut rest = bindings;
        while rest.len() > 0
            invariant
                s.wf(),
                s.accounts@ == upsert_accounts(Seq::empty(), ia),
                s.keys@.len() == 0,
                s.blocked@.len() == 0,
                s.blocked_keys@.len() == 0,
                s.queues@.len() == 0,
                s.active@.len() == 0,
                s.leases@.len() == 0,
                !s.paused,
                forall|i: int| 0 <= i < ib.len() ==> (#[trigger] ib[i]).generation < i64::MAX,
                rest@.len() <= ib.len(),
                rest@ =~= ib.skip(ib.len() - rest@.len()),
                s.bindings@ == upsert_bindings(Seq::empty(), ib.take(ib.len() - rest@.len())),
            decreases rest@.len(),
        {
            let ghost done = ib.len() - rest@.len();
            let b = rest.remove(0);
            proof {
                assert(ib.take(done + 1).drop_last() =~= ib.take(done));
                assert(ib.take(done + 1).last() == b);
                assert(ib[done] == b);
            }
            s.put_binding(b);
        }
        proof {
            assert(ib.take(ib.len() as int) =~= ib);
        }
        let ghost ik = keys@;
        let mut rest = keys;
        while rest.len() > 0
            invariant
                s.wf(),
                s.accounts@ == upsert_accounts(Seq::empty(), ia),
                s.bindings@ == upsert_bindings(Seq::empty(), ib),
                s.blocked@.len() == 0,
                s.blocked_keys@.len() == 0,
                s.queues@.len() == 0,
                s.active@.len() == 0,
                s.leases@.len() == 0,
                !s.paused,
                rest@.len() <= ik.len(),
                rest@ =~= ik.skip(ik.len() - rest@.len()),
                s.keys@ == upsert_keys(Seq::empty(), ik.take(ik.len() - rest@.len())),
            decreases rest@.len(),
        {
            let ghost done = ik.len() - rest@.len();
            let k = rest.remove(0);
            proof {
                assert(ik.take(done + 1).drop_last() =~= ik.take(done));
                assert(ik.take(done + 1).last() == k);
            }
            s.put_key(k);
        }
        proof {
            assert(ik.take(ik.len() as int) =~= ik);
        }
        s
    }

    fn put_account(&mut self, account: Account)
        requires
            old(self).wf(),
        ensures
            final(self).wf(),
            final(self).accounts@ == upsert_account(old(self).accounts@, account),
            final(self).keys == old(self).keys,
            final(self).bindings == old(self).bindings,
            final(self).blocked == old(self).blocked,
            final(self).blocked_keys == old(self).blocked_keys,
            same_runtime(*final(self), *old(self)),
    {
        let id = account.id;
        match self.find_account(id) {
            Some(i) => {
                let inflight = self.accounts[i].inflight;
                let served = self.accounts[i].served;
                proof {
                    lemma_total_update(
                        self.accounts@,
                        i as int,
                        AccountSlot { account: account, inflight: inflight, served: served },
                    );
                }
                self.accounts.set(i, AccountSlot { account, inflight, served });
            },
            None => {
                let ghost before = self.accounts@;
                self.accounts.push(AccountSlot { account, inflight: 0, served: 0 });
                proof {
                    assert(self.accounts@.drop_last() =~= before);
                }
            },
        }
    }

    fn put_key(&mut self, key: GatewayKey)
        requires
            old(self).wf(),
        ensures
            final(self).wf(),
            final(self).keys@ == upsert_key(old(self).keys@, key),
            final(self).accounts == old(self).accounts,
            final(self).bindings == old(self).bindings,
            final(self).blocked == old(self).blocked,
            final(self).blocked_keys == old(self).blocked_keys,
            same_runtime(*final(self), *old(self)),
    {
        match self.find_key(key.id) {
            Some(i) => {
                self.keys.set(i, key);
            },
            None => {
                self.keys.push(key);
            },
        }
    }

    fn put_binding(&mut self, binding: Binding)
        requires
            old(self).wf(),
            binding.generation < i64::MAX,
        ensures
            final(self).wf(),
            final(self).bindings@ == upsert_binding(old(self).bindings@, binding),
            final(self).accounts == old(self).accounts,
            final(self).keys == old(self).keys,
            final(self).blocked == old(self).blocked,
            final(self).blocked_keys == old(self).blocked_keys,
            same_runtime(*final(self), *old(self)),
    {
        match self.find_binding(&binding.session) {
            Some(i) => {
                self.bindings.set(i, binding);
            },
            None => {
                self.bindings.push(binding);
            },
        }
    }
}

/// A ticket for a waiting request; the process drops it from the queue with
/// `remove_waiter` when the request stops waiting.
pub struct QueueTicket {
    pub id: u128,
    pub session: SessionKey,
    pub since_ms: u64,
}

/// The waiter that a request with these facts becomes.
pub open spec fn waiter_is(
    w: Waiter,
    id: u128,
    thread: ThreadKey,
    group: u128,
    model: ModelRef,
    source: ClientSource,
    since_ms: u64,
) -> bool {
    &&& w.id == id
    &&& w.thread_id@ == thread.client_thread_id@
    &&& w.group_id == group
    &&& w.model == model
    &&& w.source == source
    &&& w.since_ms == since_ms
}

/// `after` is `before` with one more waiter at the end of the session's queue;
/// a session that was not waiting joins the end of the service order.
pub open spec fn joined(
    before: Seq<SessionQueue>,
    after: Seq<SessionQueue>,
    thread: ThreadKey,
    id: u128,
    group: u128,
    model: ModelRef,
    source: ClientSource,
    since_ms: u64,
) -> bool {
    let k = session_view(thread.session);
    if exists|i: int| 0 <= i < before.len() && session_view((#[trigger] before[i]).session) == k {
        let i = choose|i: int| 0 <= i < before.len() && session_view((#[trigger] before[i]).session) == k;
        &&& after.len() == before.len()
        &&& forall|j: int| 0 <= j < before.len() && j != i ==> #[trigger] after[j] == before[j]
        &&& after[i].session == before[i].session
        &&& after[i].waiters@.drop_last() == before[i].waiters@
        &&& after[i].waiters@.len() > 0
        &&& waiter_is(after[i].waiters@.last(), id, thread, group, model, source, since_ms)
    } else {
        &&& after.len() == before.len() + 1
        &&& after.drop_last() == before
        &&& session_view(after.last().session) == k
        &&& after.last().waiters@.len() == 1
        &&& waiter_is(after.last().waiters@[0], id, thread, group, model, source, since_ms)
    }
}

pub proof fn lemma_queued_take(v: Seq<SessionQueue>, i: int)
    requires
        0 <= i < v.len(),
    ensures
        queued_count(v.take(i + 1)) == queued_count(v.take(i)) + v[i].waiters@.len(),
        queued_count(v.take(i)) <= queued_count(v),
{
    assert(v.take(i + 1).drop_last() =~= v.take(i));
    lemma_queued_prefix(v, i);
}

pub proof fn lemma_queued_prefix(v: Seq<SessionQueue>, i: int)
    requires
        0 <= i <= v.len(),
    ensures
        queued_count(v.take(i)) <= queued_count(v),
    decreases v.len(),
{
    if i < v.len() {
        assert(v.drop_last().take(i) =~= v.take(i));
        lemma_queued_prefix(v.drop_last(), i);
    } else {
        assert(v.take(i) =~= v);
    }
}

impl Scheduler {
    /// Installs a changed account; it is no longer blocked, and the capacity
    /// it holds is kept.
    pub fn update_account(&mut self, account: Account)
        requires
            old(self).wf(),
        ensures
            final(self).wf(),
            final(self).accounts@ == upsert_account(old(self).accounts@, account),
            forall|x: u128|
                final(self).blocked@.contains(x) <==> (old(self).blocked@.contains(x) && x
                    != account.id),
            final(self).keys == old(self).keys,
            final(self).bindings == old(self).bindings,
            final(self).blocked_keys == old(self).blocked_keys,
            same_runtime(*final(self), *old(self)),
    {
        self.blocked = without(&self.blocked, account.id);
        self.put_account(account);
    }

    /// Installs a changed key; it is no longer blocked.
    pub fn update_key(&mut self, key: GatewayKey)
        requires
            old(self).wf(),
        ensures
            final(self).wf(),
            final(self).keys@ == upsert_key(old(self).keys@, key),
            forall|x: u128|
                final(self).blocked_keys@.contains(x) <==> (old(self).blocked_keys@.contains(x) && x
                    != key.id),
            final(self).accounts == old(self).accounts,
            final(self).bindings == old(self).bindings,
            final(self).blocked == old(self).blocked,
            same_runtime(*final(self), *old(self)),
    {
        self.blocked_keys = without(&self.blocked_keys, key.id);
        self.put_key(key);
    }

    /// Stops a key from dispatching while it is being changed.
    pub fn block_key(&mut self, id: u128)
        requires
            old(self).wf(),
        ensures
            final(self).wf(),
            forall|x: u128|
                final(self).blocked_keys@.contains(x) <==> (old(self).blocked_keys@.contains(x) || x
                    == id),
            final(self).accounts == old(self).accounts,
            final(self).keys == old(self).keys,
            final(self).bindings == old(self).bindings,
            final(self).blocked == old(self).blocked,
            same_runtime(*final(self), *old(self)),
    {
        if !holds(&self.blocked_keys, id) {
            self.blocked_keys.push(id);
        }
        proof {
            broadcast use vstd::seq_lib::group_seq_properties;

        }
    }

    /// Stops an account from taking requests while it is being changed.
    pub fn block_account(&mut self, id: u128)
        requires
            old(self).wf(),
        ensures
            final(self).wf(),
            forall|x: u128|
                final(self).blocked@.contains(x) <==> (old(self).blocked@.contains(x) || x == id),
            final(self).accounts == old(self).accounts,
            final(self).keys == old(self).keys,
            final(self).bindings == old(self).bindings,
            final(self).blocked_keys == old(self).blocked_keys,
            same_runtime(*final(self), *old(self)),
    {
        if !holds(&self.blocked, id) {
            self.blocked.push(id);
        }
        proof {
            broadcast use vstd::seq_lib::group_seq_properties;

        }
    }

    /// While paused, nothing is queued or dispatched.
    pub fn set_paused(&mut self, value: bool)
        requires
            old(self).wf(),
        ensures
            final(self).wf(),
            final(self).paused == value,
            final(self).accounts == old(self).accounts,
            final(self).keys == old(self).keys,
            final(self).bindings == old(self).bindings,
            final(self).blocked == old(self).blocked,
            final(self).blocked_keys == old(self).blocked_keys,
            final(self).queues == old(self).queues,
            final(self).active == old(self).active,
            final(self).leases == old(self).leases,
    {
        self.paused = value;
    }

    pub fn account(&self, id: u128) -> (r: Option<Account>)
        requires
            self.wf(),
        ensures
            match r {
                Some(a) => has_account(*self, id) && crate::accounts::same_account(
                    a,
                    slot(*self, id).account,
                ),
                None => !has_account(*self, id),
            },
    {
        match self.find_account(id) {
            Some(i) => Some(self.accounts[i].account.duplicate()),
            None => None,
        }
    }

    pub fn accounts(&self) -> (r: Vec<Account>)
        ensures
            r@.len() == self.accounts@.len(),
            forall|i: int|
                0 <= i < r@.len() ==> crate::accounts::same_account(
                    #[trigger] r@[i],
                    self.accounts@[i].account,
                ),
    {
        let mut out: Vec<Account> = Vec::new();
        let mut i: usize = 0;
        while i < self.accounts.len()
            invariant
                i <= self.accounts@.len(),
                out@.len() == i,
                forall|j: int|
                    0 <= j < i ==> crate::accounts::same_account(
                        #[trigger] out@[j],
                        self.accounts@[j].account,
                    ),
            decreases self.accounts@.len() - i,
        {
            out.push(self.accounts[i].account.duplicate());
            i = i + 1;
        }
        out
    }

    /// Model visibility is scoped by key group, independent of temporary
    /// capacity: some account of the group serves the model for the source.
    pub fn supports_group_model(&self, group_id: u128, model: &ModelRef, source: ClientSource) -> (r:
        bool)
        ensures
            r == exists|i: int|
                0 <= i < self.accounts@.len() && in_group((#[trigger] self.accounts@[i]).account, group_id)
                    && supports_spec(self.accounts@[i].account, *model) && accepts_spec(
                    self.accounts@[i].account,
                    source,
                ),
    {
        let mut i: usize = 0;
        while i < self.accounts.len()
            invariant
                i <= self.accounts@.len(),
                forall|j: int|
                    0 <= j < i ==> !(in_group((#[trigger] self.accounts@[j]).account, group_id)
                        && supports_spec(self.accounts@[j].account, *model) && accepts_spec(
                        self.accounts@[j].account,
                        source,
                    )),
            decreases self.accounts@.len() - i,
        {
            let a = &self.accounts[i].account;
            if a.in_group(group_id) && a.supports(model) && a.accepts(source) {
                return true;
            }
            i = i + 1;
        }
        false
    }

    /// Whether the queues hold at least `capacity` waiting requests.
    fn queue_full(&self, capacity: usize) -> (r: bool)
        ensures
            r == (queued_count(self.queues@) >= capacity),
    {
        if capacity == 0 {
            proof {
                lemma_queued_nonneg(self.queues@);
            }
            return true;
        }
        let mut total: usize = 0;
        let mut i: usize = 0;
        while i < self.queues.len()
            invariant
                i <= self.queues@.len(),
                total == queued_count(self.queues@.take(i as int)),
                total < capacity,
            decreases self.queues@.len() - i,
        {
            proof {
                lemma_queued_take(self.queues@, i as int);
            }
            let n = self.queues[i].waiters.len();
            if n >= capacity - total {
                proof {
                    lemma_queued_prefix(self.queues@, i + 1);
                }
                return true;
            }
            total = total + n;
            i = i + 1;
        }
        proof {
            assert(self.queues@.take(self.queues@.len() as int) =~= self.queues@);
        }
        false
    }

    /// Puts a request in its session's queue after checking that it could be
    /// served at all and that the queues have room.
    pub fn enqueue(
        &mut self,
        cfg: &RuntimeSettings,
        id: u128,
        thread: ThreadKey,
        group_id: u128,
        model: ModelRef,
        source: ClientSource,
        since_ms: u64,
    ) -> (r: Result<QueueTicket>)
        requires
            old(self).wf(),
        ensures
            final(self).wf(),
            old(self).paused ==> (r matches Err(e) && fault_is(e, storage_fault())),
            !old(self).paused && eligibility_fault(
                *old(self),
                session_view(thread.session),
                group_id,
                model,
                source,
            ) is Some ==> (r matches Err(e) && fault_is(
                e,
                eligibility_fault(
                    *old(self),
                    session_view(thread.session),
                    group_id,
                    model,
                    source,
                ).unwrap(),
            )),
            !old(self).paused && eligibility_fault(
                *old(self),
                session_view(thread.session),
                group_id,
                model,
                source,
            ) is None && queued_count(old(self).queues@) >= cfg.queue_capacity ==> (r matches Err(
                e,
            ) && fault_is(
                e,
                (429, "queue_full"@, "The queue has reached its configured capacity"@),
            )),
            r is Err ==> *final(self) == *old(self),
            r matches Ok(t) ==> {
                &&& t.id == id
                &&& t.session == thread.session
                &&& t.since_ms == since_ms
                &&& joined(
                    old(self).queues@,
                    final(self).queues@,
                    thread,
                    id,
                    group_id,
                    model,
                    source,
                    since_ms,
                )
                &&& final(self).accounts == old(self).accounts
                &&& final(self).keys == old(self).keys
                &&& final(self).bindings == old(self).bindings
                &&& final(self).blocked == old(self).blocked
                &&& final(self).blocked_keys == old(self).blocked_keys
                &&& final(self).active == old(self).active
                &&& final(self).leases == old(self).leases
                &&& final(self).paused == old(self).paused
            },
    {
        if self.paused {
            return Err(Error::storage());
        }
        let session = thread.session;
        self.check_eligibility(&session, group_id, &model, source)?;
        if self.queue_full(cfg.queue_capacity) {
            return Err(Error::new(429, "queue_full", "The queue has reached its configured capacity"));
        }
        let ticket_session = session.duplicate();
        let waiter = Waiter {
            source,
            id,
            thread_id: thread.client_thread_id,
            group_id,
            model,
            since_ms,
        };
        match self.find_queue(&session) {
            Some(i) => {
                let ghost before = self.queues@;
                let mut q = self.queues.remove(i);
                q.waiters.push(waiter);
                self.queues.insert(i, q);
                proof {
                    assert(self.queues@ =~= before.update(i as int, self.queues@[i as int]));
                    let k = session_view(thread.session);
                    let c = choose|c: int|
                        0 <= c < before.len() && session_view((#[trigger] before[c]).session) == k;
                    assert(0 <= c < before.len() && session_view(before[c].session) == k);
                    if c != i {
                        assert(session_view(before[c].session) != session_view(
                            before[i as int].session,
                        ));
                    }
                    assert(self.queues@[i as int].waiters@.drop_last() =~= before[i as int].waiters@);
                }
            },
            None => {
                let ghost before = self.queues@;
                let mut waiters: Vec<Waiter> = Vec::new();
                waiters.push(waiter);
                self.queues.push(SessionQueue { session, waiters });
                proof {
                    assert(self.queues@.drop_last() =~= before);
                }
            },
        }
        Ok(QueueTicket { id, session: ticket_session, since_ms })
    }
}

pub proof fn lemma_queued_nonneg(v: Seq<SessionQueue>)
    ensures
        queued_count(v) >= 0,
    decreases v.len(),
{
    if v.len() > 0 {
        lemma_queued_nonneg(v.drop_last());
    }
}

/// The session holds as many threads as it may, or waits for a new binding
/// to be persisted.
pub open spec fn session_full(act: Option<SessionActivity>, cfg: RuntimeSettings) -> bool {
    act matches Some(a) && (a.threads@.len() >= cfg.session_max_inflight || a.binding_pending is Some)
}

/// The thread already has a dispatched request in the session.
pub open spec fn thread_busy(act: Option<SessionActivity>, thread: Seq<char>) -> bool {
    act matches Some(a) && exists|k: int|
        0 <= k < a.threads@.len() && (#[trigger] a.threads@[k]).thread_id@ == thread
}

/// No earlier waiter of the queue belongs to the same thread: requests of a
/// thread leave in order, without holding back other threads.
pub open spec fn first_of_thread(ws: Seq<Waiter>, p: int) -> bool {
    forall|j: int| 0 <= j < p ==> (#[trigger] ws[j]).thread_id@ != ws[p].thread_id@
}

/// The waiter has waited as long as the queue allows.
pub open spec fn waited_out(w: Waiter, cfg: RuntimeSettings, now_ms: u64) -> bool {
    (if now_ms >= w.since_ms {
        now_ms - w.since_ms
    } else {
        0
    }) >= cfg.queue_timeout_ms
}

/// An account that a request without a usable binding may go to now.
pub open spec fn open_for(s: Scheduler, x: AccountSlot, w: Waiter) -> bool {
    &&& x.account.enabled
    &&& in_group(x.account, w.group_id)
    &&& !s.blocked@.contains(x.account.id)
    &&& supports_spec(x.account, w.model)
    &&& accepts_spec(x.account, w.source)
    &&& x.inflight < x.account.max_inflight
}

/// `x` comes no later than `y` in the order of fewest requests held, then
/// fewest sends made, then smallest identifier.
pub open spec fn ranks_first(x: AccountSlot, y: AccountSlot) -> bool {
    x.inflight < y.inflight || (x.inflight == y.inflight && (x.served < y.served || (x.served
        == y.served && x.account.id <= y.account.id)))
}

pub open spec fn least_open(s: Scheduler, w: Waiter, i: int) -> bool {
    &&& 0 <= i < s.accounts@.len()
    &&& open_for(s, s.accounts@[i], w)
    &&& forall|j: int|
        0 <= j < s.accounts@.len() && open_for(s, #[trigger] s.accounts@[j], w) ==> ranks_first(
            s.accounts@[i],
            s.accounts@[j],
        )
}

/// The session's binding names a known account that still serves the
/// waiter's group and client source.
pub open spec fn bound_usable(s: Scheduler, k: (u128, Seq<char>), w: Waiter) -> bool {
    let a = slot(s, binding_of(s, k).account_id).account;
    &&& has_binding(s, k)
    &&& has_account(s, binding_of(s, k).account_id)
    &&& a.enabled
    &&& in_group(a, w.group_id)
    &&& accepts_spec(a, w.source)
}

/// The account a waiter of session `k` would go to now: its bound account if
/// that still serves it (and then only with the model supported and capacity
/// free), else the least loaded open account.
pub open spec fn choice(s: Scheduler, k: (u128, Seq<char>), w: Waiter) -> Option<u128> {
    if bound_usable(s, k, w) {
        let x = slot(s, binding_of(s, k).account_id);
        if supports_spec(x.account, w.model) && x.inflight < x.account.max_inflight {
            Some(x.account.id)
        } else {
            None
        }
    } else if exists|i: int| least_open(s, w, i) {
        Some(s.accounts@[choose|i: int| least_open(s, w, i)].account.id)
    } else {
        None
    }
}

/// Serving the session on `account` for `group` needs a new binding generation.
pub open spec fn renews(s: Scheduler, k: (u128, Seq<char>), account: u128, group: u128) -> bool {
    !has_binding(s, k) || binding_of(s, k).account_id != account || binding_of(s, k).group_id
        != group
}

/// Waiter `p` of queue `qi` can be dispatched now.
pub open spec fn dispatchable(s: Scheduler, cfg: RuntimeSettings, now_ms: u64, qi: int, p: int) -> bool {
    let q = s.queues@[qi];
    let w = q.waiters@[p];
    let k = session_view(q.session);
    let act = activity_of(s, k);
    &&& 0 <= qi < s.queues@.len()
    &&& 0 <= p < q.waiters@.len()
    &&& !session_full(act, cfg)
    &&& first_of_thread(q.waiters@, p)
    &&& !thread_busy(act, w.thread_id@)
    &&& eligibility_fault(s, k, w.group_id, w.model, w.source) is None
    &&& !waited_out(w, cfg, now_ms)
    &&& !(has_binding(s, k) && s.blocked@.contains(binding_of(s, k).account_id))
    &&& choice(s, k, w) is Some
    &&& !(act is Some && renews(s, k, choice(s, k, w).unwrap(), w.group_id))
}

pub open spec fn ready(s: Scheduler, cfg: RuntimeSettings, now_ms: u64, qi: int) -> bool {
    exists|p: int| dispatchable(s, cfg, now_ms, qi, p)
}

/// The request that goes next: the first dispatchable waiter of the first
/// session, in service order, that has one.
pub open spec fn next_dispatch(s: Scheduler, cfg: RuntimeSettings, now_ms: u64, qi: int, p: int) -> bool {
    &&& dispatchable(s, cfg, now_ms, qi, p)
    &&& forall|q2: int| 0 <= q2 < qi ==> !ready(s, cfg, now_ms, q2)
    &&& forall|p2: int| 0 <= p2 < p ==> !dispatchable(s, cfg, now_ms, qi, p2)
}

/// The first waiter with identifier `id`, in service order.
pub open spec fn located(s: Scheduler, id: u128, qi: int, p: int) -> bool {
    &&& 0 <= qi < s.queues@.len()
    &&& 0 <= p < s.queues@[qi].waiters@.len()
    &&& s.queues@[qi].waiters@[p].id == id
    &&& forall|q2: int, p2: int|
        0 <= q2 < qi && 0 <= p2 < s.queues@[q2].waiters@.len() ==> (#[trigger] s.queues@[q2].waiters@[p2]).id
            != id
    &&& forall|p2: int| 0 <= p2 < p ==> (#[trigger] s.queues@[qi].waiters@[p2]).id != id
}

pub open spec fn not_found_fault() -> (u16, Seq<char>, Seq<char>) {
    (404, "not_found"@, "The requested resource was not found"@)
}

/// What an attempt to reserve capacity for request `id` comes to: a fault, a
/// wait, or the grant of the waiter at `(queue, position)`.
pub open spec fn reserve_outcome(s: Scheduler, cfg: RuntimeSettings, now_ms: u64, id: u128) -> core::result::Result<
    Option<(int, int)>,
    (u16, Seq<char>, Seq<char>),
> {
    if s.paused {
        Err(storage_fault())
    } else if !exists|qi: int, p: int| located(s, id, qi, p) {
        Err(not_found_fault())
    } else {
        let (qi, p) = choose|qi: int, p: int| located(s, id, qi, p);
        let q = s.queues@[qi];
        let w = q.waiters@[p];
        if eligibility_fault(s, session_view(q.session), w.group_id, w.model, w.source) is Some {
            Err(eligibility_fault(s, session_view(q.session), w.group_id, w.model, w.source).unwrap())
        } else if total_inflight(s.accounts@) >= cfg.global_max_inflight {
            Ok(None)
        } else if exists|qi: int, p: int| next_dispatch(s, cfg, now_ms, qi, p) {
            let (qi2, p2) = choose|qi: int, p: int| next_dispatch(s, cfg, now_ms, qi, p);
            if s.queues@[qi2].waiters@[p2].id == id {
                Ok(Some((qi2, p2)))
            } else {
                Ok(None)
            }
        } else {
            Ok(None)
        }
    }
}

impl Scheduler {
    proof fn lemma_least_unique(self, w: Waiter, i: int, j: int)
        requires
            self.wf(),
            least_open(self, w, i),
            least_open(self, w, j),
        ensures
            i == j,
    {
        assert(ranks_first(self.accounts@[i], self.accounts@[j]));
        assert(ranks_first(self.accounts@[j], self.accounts@[i]));
    }

    fn is_open_for(&self, x: &AccountSlot, w: &Waiter) -> (r: bool)
        ensures
            r == open_for(*self, *x, *w),
    {
        x.account.enabled && x.account.in_group(w.group_id) && !holds(&self.blocked, x.account.id)
            && x.account.supports(&w.model) && x.account.accepts(w.source) && x.inflight
            < x.account.max_inflight
    }

    /// The index of the account `choice` names.
    fn choose_account(&self, session: &SessionKey, w: &Waiter) -> (r: Option<usize>)
        requires
            self.wf(),
        ensures
            match r {
                Some(i) => i < self.accounts@.len() && choice(*self, session_view(*session), *w)
                    == Some(self.accounts@[i as int].account.id),
                None => choice(*self, session_view(*session), *w) is None,
            },
    {
        let ghost k = session_view(*session);
        if let Some(bi) = self.find_binding(session) {
            if let Some(ai) = self.find_account(self.bindings[bi].account_id) {
                let x = &self.accounts[ai];
                if x.account.enabled && x.account.in_group(w.group_id) && x.account.accepts(w.source) {
                    if x.account.supports(&w.model) && x.inflight < x.account.max_inflight {
                        return Some(ai);
                    }
                    return None;
                }
            }
        }
        let mut best: Option<usize> = None;
        let mut i: usize = 0;
        while i < self.accounts.len()
            invariant
                self.wf(),
                i <= self.accounts@.len(),
                match best {
                    Some(b) => b < i && open_for(*self, self.accounts@[b as int], *w) && forall|j: int|
                        0 <= j < i && open_for(*self, #[trigger] self.accounts@[j], *w) ==> ranks_first(
                            self.accounts@[b as int],
                            self.accounts@[j],
                        ),
                    None => forall|j: int|
                        0 <= j < i ==> !open_for(*self, #[trigger] self.accounts@[j], *w),
                },
            decreases self.accounts@.len() - i,
        {
            let x = &self.accounts[i];
            if self.is_open_for(x, w) {
                match best {
                    Some(b) => {
                        let y = &self.accounts[b];
                        if x.inflight < y.inflight || (x.inflight == y.inflight && (x.served
                            < y.served || (x.served == y.served && x.account.id <= y.account.id))) {
                            best = Some(i);
                        }
                    },
                    None => {
                        best = Some(i);
                    },
                }
            }
            i = i + 1;
        }
        match best {
            Some(b) => {
                proof {
                    assert(least_open(*self, *w, b as int));
                    let c = choose|c: int| least_open(*self, *w, c);
                    self.lemma_least_unique(*w, b as int, c);
                }
                Some(b)
            },
            None => None,
        }
    }
}

/// A reservation of one account's capacity for one request. The process that
/// owns the scheduler returns it with `release` when the request ends.
pub struct DispatchLease {
    pub source: ClientSource,
    pub model: ModelRef,
    pub group_id: u128,
    pub id: u128,
    pub session: SessionKey,
    pub thread_id: String,
    pub account: Account,
    pub binding: Binding,
    pub needs_commit: bool,
    pub expected_generation: i64,
}

/// The queues after waiter `p` of queue `qi` leaves: a queue left empty goes
/// away, any other moves to the end of the service order.
pub open spec fn dequeued(before: Seq<SessionQueue>, after: Seq<SessionQueue>, qi: int, p: int) -> bool {
    let rest = before[qi].waiters@.remove(p);
    if rest.len() == 0 {
        after == before.remove(qi)
    } else {
        &&& after.len() == before.len()
        &&& after.drop_last() == before.remove(qi)
        &&& after.last().session == before[qi].session
        &&& after.last().waiters@ == rest
    }
}

/// The leases after `id` records `attempts` sends.
pub open spec fn upsert_lease(v: Seq<LeaseCount>, id: u128, attempts: u8) -> Seq<LeaseCount> {
    if exists|i: int| 0 <= i < v.len() && (#[trigger] v[i]).id == id {
        v.update(
            choose|i: int| 0 <= i < v.len() && (#[trigger] v[i]).id == id,
            LeaseCount { id, attempts },
        )
    } else {
        v.push(LeaseCount { id, attempts })
    }
}

/// The accounts after the account `id` takes `delta` more requests.
pub open spec fn add_inflight(v: Seq<AccountSlot>, id: u128, delta: int) -> Seq<AccountSlot> {
    let i = choose|i: int| 0 <= i < v.len() && (#[trigger] v[i]).account.id == id;
    v.update(
        i,
        AccountSlot { account: v[i].account, inflight: (v[i].inflight + delta) as u32, served: v[i].served },
    )
}

/// The session's activity once thread `thread` holds request `id`.
pub open spec fn activity_after(
    before: Option<SessionActivity>,
    after: SessionActivity,
    session: SessionKey,
    thread: String,
    id: u128,
    pending: Option<u128>,
) -> bool {
    let held = match before {
        Some(b) => b.threads@,
        None => Seq::empty(),
    };
    &&& session_view(after.session) == session_view(session)
    &&& after.threads@.len() == held.len() + 1
    &&& after.threads@.drop_last() == held
    &&& after.threads@.last().thread_id == thread
    &&& after.threads@.last().request_id == id
    &&& after.binding_pending == pending
}

/// The state and lease after the waiter at `(qi, p)` is granted as request `id`.
pub open spec fn granted(old: Scheduler, new: Scheduler, l: DispatchLease, qi: int, p: int, id: u128) -> bool {
    let q = old.queues@[qi];
    let w = q.waiters@[p];
    let k = session_view(q.session);
    let acct = choice(old, k, w).unwrap();
    let renew = renews(old, k, acct, w.group_id);
    let generation = if has_binding(old, k) {
        binding_of(old, k).generation
    } else {
        0
    };
    let act = activity_of(old, k);
    &&& l.id == id
    &&& l.session == q.session
    &&& l.thread_id == w.thread_id
    &&& l.group_id == w.group_id
    &&& l.model == w.model
    &&& l.source == w.source
    &&& l.account.id == acct
    &&& crate::accounts::same_account(l.account, slot(old, acct).account)
    &&& l.needs_commit == renew
    &&& l.expected_generation == generation
    &&& renew ==> {
        &&& l.binding.session == q.session
        &&& l.binding.account_id == acct
        &&& l.binding.generation == generation + 1
        &&& l.binding.group_id == w.group_id
        &&& l.binding.provider@ == w.model.provider@
        &&& l.binding.access_kind@ == w.model.access_kind@
    }
    &&& !renew ==> l.binding == binding_of(old, k)
    &&& dequeued(old.queues@, new.queues@, qi, p)
    &&& new.accounts@ == add_inflight(old.accounts@, acct, 1)
    &&& new.active@.len() == old.active@.len() + (if act is Some {
        0int
    } else {
        1int
    })
    &&& exists|i: int|
        0 <= i < new.active@.len() && new.active@ == (if act is Some {
            old.active@.update(i, new.active@[i])
        } else {
            old.active@.push(new.active@[i])
        }) && activity_after(
            act,
            #[trigger] new.active@[i],
            q.session,
            w.thread_id,
            id,
            if renew {
                Some(id)
            } else {
                None
            },
        )
    &&& new.leases@ == upsert_lease(old.leases@, id, 0)
    &&& new.keys == old.keys
    &&& new.bindings == old.bindings
    &&& new.blocked == old.blocked
    &&& new.blocked_keys == old.blocked_keys
    &&& new.paused == old.paused
}

impl Scheduler {
    proof fn lemma_located_unique(self, id: u128, a: int, b: int, c: int, d: int)
        requires
            located(self, id, a, b),
            located(self, id, c, d),
        ensures
            a == c && b == d,
    {
        if a < c {
            assert(self.queues@[a].waiters@[b].id != id);
        } else if c < a {
            assert(self.queues@[c].waiters@[d].id != id);
        } else if b < d {
            assert(self.queues@[a].waiters@[b].id != id);
        } else if d < b {
            assert(self.queues@[c].waiters@[d].id != id);
        }
    }

    proof fn lemma_next_unique(self, cfg: RuntimeSettings, now_ms: u64, a: int, b: int, c: int, d: int)
        requires
            next_dispatch(self, cfg, now_ms, a, b),
            next_dispatch(self, cfg, now_ms, c, d),
        ensures
            a == c && b == d,
    {
        if a < c {
            assert(ready(self, cfg, now_ms, a));
        } else if c < a {
            assert(ready(self, cfg, now_ms, c));
        }
    }

    fn locate(&self, id: u128) -> (r: Option<(usize, usize)>)
        ensures
            match r {
                Some((qi, p)) => located(*self, id, qi as int, p as int),
                None => !exists|qi: int, p: int| located(*self, id, qi, p),
            },
    {
        let mut qi: usize = 0;
        while qi < self.queues.len()
            invariant
                qi <= self.queues@.len(),
                forall|q2: int, p2: int|
                    0 <= q2 < qi && 0 <= p2 < self.queues@[q2].waiters@.len()
                        ==> (#[trigger] self.queues@[q2].waiters@[p2]).id != id,
            decreases self.queues@.len() - qi,
        {
            let ws = &self.queues[qi].waiters;
            let mut p: usize = 0;
            while p < ws.len()
                invariant
                    qi < self.queues@.len(),
                    ws@ == self.queues@[qi as int].waiters@,
                    p <= ws@.len(),
                    forall|q2: int, p2: int|
                        0 <= q2 < qi && 0 <= p2 < self.queues@[q2].waiters@.len()
                            ==> (#[trigger] self.queues@[q2].waiters@[p2]).id != id,
                    forall|p2: int| 0 <= p2 < p ==> (#[trigger] self.queues@[qi as int].waiters@[p2]).id != id,
                decreases ws@.len() - p,
            {
                if ws[p].id == id {
                    return Some((qi, p));
                }
                p = p + 1;
            }
            qi = qi + 1;
        }
        None
    }

    fn inflight_total(&self) -> (r: u64)
        requires
            self.wf(),
        ensures
            r == total_inflight(self.accounts@),
    {
        let mut total: u64 = 0;
        let mut i: usize = 0;
        while i < self.accounts.len()
            invariant
                self.wf(),
                i <= self.accounts@.len(),
                total == total_inflight(self.accounts@.take(i as int)),
            decreases self.accounts@.len() - i,
        {
            proof {
                assert(self.accounts@.take(i + 1).drop_last() =~= self.accounts@.take(i as int));
                lemma_total_prefix(self.accounts@, i + 1);
                lemma_total_nonneg(self.accounts@.take(i as int));
            }
            total = total + self.accounts[i].inflight as u64;
            i = i + 1;
        }
        proof {
            assert(self.accounts@.take(self.accounts@.len() as int) =~= self.accounts@);
        }
        total
    }

    fn thread_first(ws: &Vec<Waiter>, p: usize) -> (r: bool)
        requires
            p < ws@.len(),
        ensures
            r == first_of_thread(ws@, p as int),
    {
        let mut j: usize = 0;
        while j < p
            invariant
                p < ws@.len(),
                j <= p,
                forall|i: int| 0 <= i < j ==> (#[trigger] ws@[i]).thread_id@ != ws@[p as int].thread_id@,
            decreases p - j,
        {
            if ws[j].thread_id == ws[p].thread_id {
                return false;
            }
            j = j + 1;
        }
        true
    }

    fn thread_held(act: &SessionActivity, thread: &String) -> (r: bool)
        ensures
            r == exists|k: int|
                0 <= k < act.threads@.len() && (#[trigger] act.threads@[k]).thread_id@ == thread@,
    {
        let mut j: usize = 0;
        while j < act.threads.len()
            invariant
                j <= act.threads@.len(),
                forall|i: int| 0 <= i < j ==> (#[trigger] act.threads@[i]).thread_id@ != thread@,
            decreases act.threads@.len() - j,
        {
            if act.threads[j].thread_id == *thread {
                return true;
            }
            j = j + 1;
        }
        false
    }

    /// Whether waiter `p` of queue `qi` can go now, and to which account.
    fn check_dispatch(&self, cfg: &RuntimeSettings, now_ms: u64, qi: usize, p: usize) -> (r: Option<usize>)
        requires
            self.wf(),
            qi < self.queues@.len(),
            p < self.queues@[qi as int].waiters@.len(),
        ensures
            r is Some <==> dispatchable(*self, *cfg, now_ms, qi as int, p as int),
            r matches Some(i) ==> i < self.accounts@.len() && choice(
                *self,
                session_view(self.queues@[qi as int].session),
                self.queues@[qi as int].waiters@[p as int],
            ) == Some(self.accounts@[i as int].account.id),
    {
        let q = &self.queues[qi];
        let w = &q.waiters[p];
        let act = self.find_active(&q.session);
        if let Some(ai) = act {
            let a = &self.active[ai];
            if a.threads.len() as u64 >= cfg.session_max_inflight as u64 || a.binding_pending.is_some() {
                return None;
            }
            if Self::thread_held(a, &w.thread_id) {
                return None;
            }
        }
        if !Self::thread_first(&q.waiters, p) {
            return None;
        }
        if self.check_eligibility(&q.session, w.group_id, &w.model, w.source).is_err() {
            return None;
        }
        let waited = if now_ms >= w.since_ms {
            now_ms - w.since_ms
        } else {
            0
        };
        if waited >= cfg.queue_timeout_ms {
            return None;
        }
        let bound = self.find_binding(&q.session);
        if let Some(bi) = bound {
            if holds(&self.blocked, self.bindings[bi].account_id) {
                return None;
            }
        }
        let chosen = match self.choose_account(&q.session, w) {
            Some(c) => c,
            None => {
                return None;
            },
        };
        if act.is_some() {
            match bound {
                Some(bi) => {
                    if self.bindings[bi].account_id != self.accounts[chosen].account.id
                        || self.bindings[bi].group_id != w.group_id {
                        return None;
                    }
                },
                None => {
                    return None;
                },
            }
        }
        Some(chosen)
    }

    /// The first dispatchable waiter of queue `qi`, with its account.
    fn ready_in(&self, cfg: &RuntimeSettings, now_ms: u64, qi: usize) -> (r: Option<(usize, usize)>)
        requires
            self.wf(),
            qi < self.queues@.len(),
        ensures
            match r {
                Some((p, ai)) => dispatchable(*self, *cfg, now_ms, qi as int, p as int) && (forall|
                    p2: int,
                | 0 <= p2 < p ==> !dispatchable(*self, *cfg, now_ms, qi as int, p2)) && ai
                    < self.accounts@.len() && choice(
                    *self,
                    session_view(self.queues@[qi as int].session),
                    self.queues@[qi as int].waiters@[p as int],
                ) == Some(self.accounts@[ai as int].account.id),
                None => !ready(*self, *cfg, now_ms, qi as int),
            },
    {
        let n = self.queues[qi].waiters.len();
        let mut p: usize = 0;
        while p < n
            invariant
                self.wf(),
                qi < self.queues@.len(),
                n == self.queues@[qi as int].waiters@.len(),
                p <= n,
                forall|p2: int| 0 <= p2 < p ==> !dispatchable(*self, *cfg, now_ms, qi as int, p2),
            decreases n - p,
        {
            if let Some(ai) = self.check_dispatch(cfg, now_ms, qi, p) {
                return Some((p, ai));
            }
            p = p + 1;
        }
        proof {
            assert forall|p2: int| !dispatchable(*self, *cfg, now_ms, qi as int, p2) by {
                if 0 <= p2 < n {
                } else {
                }
            }
        }
        None
    }

    /// The next request to dispatch, with its account.
    fn next_waiter(&self, cfg: &RuntimeSettings, now_ms: u64) -> (r: Option<(usize, usize, usize)>)
        requires
            self.wf(),
        ensures
            match r {
                Some((qi, p, ai)) => next_dispatch(*self, *cfg, now_ms, qi as int, p as int) && ai
                    < self.accounts@.len() && choice(
                    *self,
                    session_view(self.queues@[qi as int].session),
                    self.queues@[qi as int].waiters@[p as int],
                ) == Some(self.accounts@[ai as int].account.id),
                None => !exists|qi: int, p: int| next_dispatch(*self, *cfg, now_ms, qi, p),
            },
    {
        let mut qi: usize = 0;
        while qi < self.queues.len()
            invariant
                self.wf(),
                qi <= self.queues@.len(),
                forall|q2: int| 0 <= q2 < qi ==> !ready(*self, *cfg, now_ms, q2),
            decreases self.queues@.len() - qi,
        {
            if let Some((p, ai)) = self.ready_in(cfg, now_ms, qi) {
                return Some((qi, p, ai));
            }
            qi = qi + 1;
        }
        proof {
            assert forall|a: int, b: int| !next_dispatch(*self, *cfg, now_ms, a, b) by {
                if next_dispatch(*self, *cfg, now_ms, a, b) {
                    assert(ready(*self, *cfg, now_ms, a));
                }
            }
        }
        None
    }
}

pub proof fn lemma_total_prefix(v: Seq<AccountSlot>, i: int)
    requires
        0 <= i <= v.len(),
    ensures
        total_inflight(v.take(i)) <= total_inflight(v),
    decreases v.len(),
{
    if i < v.len() {
        assert(v.drop_last().take(i) =~= v.take(i));
        lemma_total_prefix(v.drop_last(), i);
    } else {
        assert(v.take(i) =~= v);
    }
}

impl Scheduler {
    proof fn lemma_choice_capacity(self, k: (u128, Seq<char>), w: Waiter, ai: int)
        requires
            self.wf(),
            0 <= ai < self.accounts@.len(),
            choice(self, k, w) == Some(self.accounts@[ai].account.id),
        ensures
            self.accounts@[ai].inflight < self.accounts@[ai].account.max_inflight,
            slot(self, self.accounts@[ai].account.id) == self.accounts@[ai],
    {
        self.lemma_slot(ai);
        if !bound_usable(self, k, w) {
            let c = choose|i: int| least_open(self, w, i);
            assert(self.accounts@[c].account.id == self.accounts@[ai].account.id);
        }
    }

    fn set_lease(&mut self, id: u128, attempts: u8)
        requires
            old(self).wf(),
        ensures
            final(self).wf(),
            final(self).leases@ == upsert_lease(old(self).leases@, id, attempts),
            final(self).accounts == old(self).accounts,
            final(self).keys == old(self).keys,
            final(self).bindings == old(self).bindings,
            final(self).blocked == old(self).blocked,
            final(self).blocked_keys == old(self).blocked_keys,
            final(self).queues == old(self).queues,
            final(self).active == old(self).active,
            final(self).paused == old(self).paused,
    {
        match self.find_lease(id) {
            Some(i) => {
                proof {
                    let c = choose|c: int| 0 <= c < self.leases@.len() && (#[trigger] self.leases@[c]).id == id;
                    assert(self.leases@[c].id == self.leases@[i as int].id);
                }
                self.leases.set(i, LeaseCount { id, attempts });
            },
            None => {
                proof {
                    assert(!exists|c: int| 0 <= c < self.leases@.len() && (#[trigger] self.leases@[c]).id == id) by {
                        if exists|c: int| 0 <= c < self.leases@.len() && (#[trigger] self.leases@[c]).id == id {
                            let c = choose|c: int| 0 <= c < self.leases@.len() && (#[trigger] self.leases@[c]).id == id;
                            self.lemma_lease(c);
                        }
                    }
                }
                self.leases.push(LeaseCount { id, attempts });
            },
        }
    }

    /// Takes waiter `p` of queue `qi` out of its queue and dispatches it as
    /// request `id` on account `ai`.
    #[verifier::rlimit(40)]
    fn grant(&mut self, cfg: &RuntimeSettings, now_ms: u64, qi: usize, p: usize, ai: usize, id: u128) -> (r: DispatchLease)
        requires
            old(self).wf(),
            dispatchable(*old(self), *cfg, now_ms, qi as int, p as int),
            ai < old(self).accounts@.len(),
            choice(
                *old(self),
                session_view(old(self).queues@[qi as int].session),
                old(self).queues@[qi as int].waiters@[p as int],
            ) == Some(old(self).accounts@[ai as int].account.id),
            old(self).queues@[qi as int].waiters@[p as int].id == id,
            total_inflight(old(self).accounts@) < u32::MAX,
        ensures
            final(self).wf(),
            granted(*old(self), *final(self), r, qi as int, p as int, id),
    {
        let ghost old_s = *self;
        let ghost k = session_view(self.queues@[qi as int].session);
        proof {
            self.lemma_choice_capacity(k, self.queues@[qi as int].waiters@[p as int], ai as int);
        }
        let session = self.queues[qi].session.duplicate();
        let bi = self.find_binding(&session);
        let act = self.find_active(&session);
        let account_id = self.accounts[ai].account.id;
        let account = self.accounts[ai].account.duplicate();
        let group_id = self.queues[qi].waiters[p].group_id;
        let needs_commit = match bi {
            Some(b) => self.bindings[b].account_id != account_id || self.bindings[b].group_id != group_id,
            None => true,
        };
        let generation = match bi {
            Some(b) => self.bindings[b].generation,
            None => 0,
        };
        let binding = match bi {
            Some(b) if !needs_commit => self.bindings[b].duplicate(),
            _ => {
                let mut nb = Binding::new(
                    session.duplicate(),
                    account_id,
                    &self.queues[qi].waiters[p].model,
                    generation + 1,
                );
                nb.group_id = group_id;
                nb
            },
        };
        // Leave the queue; a queue with more waiters moves to the back.
        let ghost qs0 = self.queues@;
        let mut q = self.queues.remove(qi);
        proof {
            assert(self.queues@ =~= qs0.remove(qi as int));
        }
        let w = q.waiters.remove(p);
        if q.waiters.len() > 0 {
            self.queues.push(q);
            proof {
                assert(self.queues@.drop_last() =~= qs0.remove(qi as int));
            }
        }
        proof {
            assert(dequeued(qs0, self.queues@, qi as int, p as int));
            assert forall|i: int, j: int|
                #![trigger self.queues@[i], self.queues@[j]]
                0 <= i < self.queues@.len() && 0 <= j < self.queues@.len() && i != j
                    implies session_view(self.queues@[i].session) != session_view(self.queues@[j].session) by {
                let oi = if i < qs0.len() - 1 { if i < qi { i } else { i + 1 } } else { qi as int };
                let oj = if j < qs0.len() - 1 { if j < qi { j } else { j + 1 } } else { qi as int };
                assert(self.queues@[i].session == qs0[oi].session);
                assert(self.queues@[j].session == qs0[oj].session);
                assert(qs0[oi] == qs0[oi] && qs0[oj] == qs0[oj]);
            }
            assert forall|i: int| 0 <= i < self.queues@.len() implies (#[trigger] self.queues@[i]).waiters@.len() > 0 by {
                if i < qs0.len() - 1 {
                    let oi = if i < qi { i } else { i + 1 };
                    assert(self.queues@[i] == qs0[oi]);
                }
            }
        }
        // Take the account's capacity.
        let ghost accs0 = self.accounts@;
        let mut x = self.accounts.remove(ai);
        x.inflight = x.inflight + 1;
        self.accounts.insert(ai, x);
        proof {
            assert(self.accounts@ =~= accs0.update(ai as int, self.accounts@[ai as int]));
            lemma_total_update(accs0, ai as int, self.accounts@[ai as int]);
            let c = choose|c: int| 0 <= c < accs0.len() && (#[trigger] accs0[c]).account.id == account_id;
            assert(accs0[c].account.id == accs0[ai as int].account.id);
            assert(self.accounts@ == add_inflight(accs0, account_id, 1));
        }
        // Record the thread in the session.
        let ghost act0 = self.active@;
        let lease_thread = w.thread_id.clone();
        let pending = if needs_commit {
            Some(id)
        } else {
            None
        };
        match act {
            Some(i) => {
                let mut a = self.active.remove(i);
                let ghost held = a.threads@;
                a.threads.push(ThreadLease { thread_id: lease_thread, request_id: id });
                a.binding_pending = pending;
                self.active.insert(i, a);
                proof {
                    assert(self.active@ =~= act0.update(i as int, self.active@[i as int]));
                    assert(self.active@[i as int].threads@.drop_last() =~= held);
                }
            },
            None => {
                let mut threads: Vec<ThreadLease> = Vec::new();
                threads.push(ThreadLease { thread_id: lease_thread, request_id: id });
                self.active.push(SessionActivity { session: session.duplicate(), threads, binding_pending: pending });
                proof {
                    assert(self.active@ =~= act0.push(self.active@[act0.len() as int]));
                    assert(self.active@[act0.len() as int].threads@.drop_last() =~= Seq::<ThreadLease>::empty());
                }
            },
        }
        self.set_lease(id, 0);
        DispatchLease {
            source: w.source,
            model: w.model,
            group_id,
            id,
            session,
            thread_id: w.thread_id,
            account,
            binding,
            needs_commit,
            expected_generation: generation,
        }
    }

    /// Tries to dispatch request `id` now: see `reserve_outcome`. A granted
    /// request leaves its queue, takes one unit of its account's capacity, and
    /// holds its thread in the session until it is released.
    pub fn try_reserve(&mut self, cfg: &RuntimeSettings, now_ms: u64, id: u128) -> (r: Result<Option<DispatchLease>>)
        requires
            old(self).wf(),
        ensures
            final(self).wf(),
            match reserve_outcome(*old(self), *cfg, now_ms, id) {
                Err(f) => r matches Err(e) && fault_is(e, f) && *final(self) == *old(self),
                Ok(None) => r matches Ok(None) && *final(self) == *old(self),
                Ok(Some((qi, p))) => r matches Ok(Some(l)) && granted(
                    *old(self),
                    *final(self),
                    l,
                    qi,
                    p,
                    id,
                ),
            },
    {
        if self.paused {
            return Err(Error::storage());
        }
        let (fq, fp) = match self.locate(id) {
            Some(x) => x,
            None => {
                return Err(Error::not_found());
            },
        };
        proof {
            let (a, b) = choose|qi: int, p: int| located(*self, id, qi, p);
            self.lemma_located_unique(id, a, b, fq as int, fp as int);
        }
        let q = &self.queues[fq];
        let w = &q.waiters[fp];
        if let Err(e) = self.check_eligibility(&q.session, w.group_id, &w.model, w.source) {
            return Err(e);
        }
        if self.inflight_total() >= cfg.global_max_inflight as u64 {
            return Ok(None);
        }
        let (qi, p, ai) = match self.next_waiter(cfg, now_ms) {
            Some(x) => x,
            None => {
                return Ok(None);
            },
        };
        proof {
            let (a, b) = choose|qi: int, p: int| next_dispatch(*self, *cfg, now_ms, qi, p);
            self.lemma_next_unique(*cfg, now_ms, a, b, qi as int, p as int);
        }
        if self.queues[qi].waiters[p].id != id {
            return Ok(None);
        }
        let lease = self.grant(cfg, now_ms, qi, p, ai, id);
        Ok(Some(lease))
    }
}

/// The queues after request `id` stops waiting in session `k`: its queue keeps
/// its place unless no waiter is left.
pub open spec fn withdrawn(before: Seq<SessionQueue>, after: Seq<SessionQueue>, k: (u128, Seq<char>), id: u128) -> bool {
    if exists|i: int| 0 <= i < before.len() && session_view((#[trigger] before[i]).session) == k {
        let i = choose|i: int| 0 <= i < before.len() && session_view((#[trigger] before[i]).session) == k;
        let rest = before[i].waiters@.filter(|w: Waiter| w.id != id);
        if rest.len() == 0 {
            after == before.remove(i)
        } else {
            &&& after.len() == before.len()
            &&& forall|j: int| 0 <= j < before.len() && j != i ==> #[trigger] after[j] == before[j]
            &&& after[i].session == before[i].session
            &&& after[i].waiters@ == rest
        }
    } else {
        after == before
    }
}

/// The session activities after request `id` of session `k` no longer waits
/// for its binding to be persisted.
pub open spec fn pending_cleared(before: Seq<SessionActivity>, after: Seq<SessionActivity>, k: (u128, Seq<char>), id: u128) -> bool {
    &&& after.len() == before.len()
    &&& forall|i: int|
        0 <= i < before.len() ==> {
            &&& (#[trigger] after[i]).session == before[i].session
            &&& after[i].threads == before[i].threads
            &&& after[i].binding_pending == if session_view(before[i].session) == k
                && before[i].binding_pending == Some(id) {
                None
            } else {
                before[i].binding_pending
            }
        }
}

/// Why the lease may not make its send number `previous + 1` now.
pub open spec fn attempt_fault(s: Scheduler, l: DispatchLease, previous: u8) -> Option<(u16, Seq<char>, Seq<char>)> {
    let a = slot(s, l.account.id).account;
    if s.paused {
        Some(storage_fault())
    } else if key_fault(s, l.session.key_id, l.group_id) is Some {
        key_fault(s, l.session.key_id, l.group_id)
    } else if s.blocked@.contains(l.account.id) || !(has_account(s, l.account.id) && a.enabled
        && in_group(a, l.group_id) && supports_spec(a, l.model) && accepts_spec(a, l.source)) {
        Some(
            (
                409,
                "reservation_invalidated"@,
                "The account state or group changed before dispatch"@,
            ),
        )
    } else if l.needs_commit {
        Some(storage_fault())
    } else if lease_of(s, l.id) != Some(previous) {
        Some(
            (
                500,
                "attempt_already_consumed"@,
                "The upstream attempt has already been consumed"@,
            ),
        )
    } else {
        None
    }
}

/// The accounts after the account `id` makes one more send.
pub open spec fn add_served(v: Seq<AccountSlot>, id: u128) -> Seq<AccountSlot> {
    let i = choose|i: int| 0 <= i < v.len() && (#[trigger] v[i]).account.id == id;
    v.update(
        i,
        AccountSlot { account: v[i].account, inflight: v[i].inflight, served: (v[i].served + 1) as u64 },
    )
}

/// The threads of a session without `thread`.
pub open spec fn without_thread(t: Seq<ThreadLease>, thread: Seq<char>) -> Seq<ThreadLease> {
    if exists|x: int| 0 <= x < t.len() && (#[trigger] t[x]).thread_id@ == thread {
        t.remove(choose|x: int| 0 <= x < t.len() && (#[trigger] t[x]).thread_id@ == thread)
    } else {
        t
    }
}

/// The state after a lease is returned: its capacity, thread and pending
/// binding are given back; a lease returned twice changes nothing.
pub open spec fn released(old: Scheduler, new: Scheduler, l: DispatchLease) -> bool {
    let k = session_view(l.session);
    if lease_of(old, l.id) is None {
        new == old
    } else {
        &&& new.leases@ == old.leases@.remove(
            choose|i: int| 0 <= i < old.leases@.len() && (#[trigger] old.leases@[i]).id == l.id,
        )
        &&& new.accounts@ == if has_account(old, l.account.id) && slot(old, l.account.id).inflight > 0 {
            add_inflight(old.accounts@, l.account.id, -1)
        } else {
            old.accounts@
        }
        &&& if exists|i: int| 0 <= i < old.active@.len() && session_view((#[trigger] old.active@[i]).session) == k {
            let i = choose|i: int| 0 <= i < old.active@.len() && session_view((#[trigger] old.active@[i]).session) == k;
            let rest = without_thread(old.active@[i].threads@, l.thread_id@);
            if rest.len() == 0 {
                new.active@ == old.active@.remove(i)
            } else {
                &&& new.active@.len() == old.active@.len()
                &&& forall|j: int| 0 <= j < old.active@.len() && j != i ==> #[trigger] new.active@[j] == old.active@[j]
                &&& new.active@[i].session == old.active@[i].session
                &&& new.active@[i].threads@ == rest
                &&& new.active@[i].binding_pending == if old.active@[i].binding_pending == Some(l.id) {
                    None
                } else {
                    old.active@[i].binding_pending
                }
            }
        } else {
            new.active == old.active
        }
        &&& new.queues == old.queues
        &&& new.keys == old.keys
        &&& new.bindings == old.bindings
        &&& new.blocked == old.blocked
        &&& new.blocked_keys == old.blocked_keys
        &&& new.paused == old.paused
    }
}

pub proof fn lemma_filter_take<A>(v: Seq<A>, n: int, pred: spec_fn(A) -> bool)
    requires
        0 <= n < v.len(),
    ensures
        v.take(n + 1).filter(pred) == if pred(v[n]) {
            v.take(n).filter(pred).push(v[n])
        } else {
            v.take(n).filter(pred)
        },
{
    assert(v.take(n + 1) =~= v.take(n).push(v[n]));
    v.take(n).lemma_filter_push(v[n], pred);
}

impl Scheduler {
    /// Takes request `id` out of the session's queue.
    pub fn remove_waiter(&mut self, id: u128, session: &SessionKey)
        requires
            old(self).wf(),
        ensures
            final(self).wf(),
            withdrawn(old(self).queues@, final(self).queues@, session_view(*session), id),
            final(self).accounts == old(self).accounts,
            final(self).keys == old(self).keys,
            final(self).bindings == old(self).bindings,
            final(self).blocked == old(self).blocked,
            final(self).blocked_keys == old(self).blocked_keys,
            final(self).active == old(self).active,
            final(self).leases == old(self).leases,
            final(self).paused == old(self).paused,
    {
        let i = match self.find_queue(session) {
            Some(i) => i,
            None => {
                return ;
            },
        };
        let ghost qs0 = self.queues@;
        let ghost k = session_view(*session);
        proof {
            let c = choose|c: int| 0 <= c < qs0.len() && session_view((#[trigger] qs0[c]).session) == k;
            assert(session_view(qs0[c].session) == session_view(qs0[i as int].session));
        }
        let q = self.queues.remove(i);
        let ghost orig = q.waiters@;
        let pred = |w: Waiter| w.id != id;
        let mut rest = q.waiters;
        let mut kept: Vec<Waiter> = Vec::new();
        while rest.len() > 0
            invariant
                rest@.len() <= orig.len(),
                rest@ =~= orig.skip(orig.len() - rest@.len()),
                kept@ == orig.take(orig.len() - rest@.len()).filter(|w: Waiter| w.id != id),
            decreases rest@.len(),
        {
            let ghost n = orig.len() - rest@.len();
            let w = rest.remove(0);
            proof {
                lemma_filter_take(orig, n, |w: Waiter| w.id != id);
            }
            if w.id != id {
                kept.push(w);
            }
        }
        proof {
            assert(orig.take(orig.len() as int) =~= orig);
        }
        if kept.len() > 0 {
            self.queues.insert(i, SessionQueue { session: q.session, waiters: kept });
            proof {
                assert forall|j: int| 0 <= j < qs0.len() && j != i implies #[trigger] self.queues@[j] == qs0[j] by {
                }
                assert forall|a: int, b: int|
                    #![trigger self.queues@[a], self.queues@[b]]
                    0 <= a < self.queues@.len() && 0 <= b < self.queues@.len() && a != b
                        implies session_view(self.queues@[a].session) != session_view(self.queues@[b].session) by {
                    assert(self.queues@[a].session == qs0[a].session);
                    assert(self.queues@[b].session == qs0[b].session);
                    assert(qs0[a] == qs0[a] && qs0[b] == qs0[b]);
                }
                assert forall|a: int| 0 <= a < self.queues@.len() implies (#[trigger] self.queues@[a]).waiters@.len() > 0 by {
                    if a != i {
                        assert(self.queues@[a] == qs0[a]);
                    }
                }
            }
        } else {
            proof {
                assert(self.queues@ =~= qs0.remove(i as int));
            }
        }
    }

    fn clear_pending(&mut self, session: &SessionKey, id: u128)
        requires
            old(self).wf(),
        ensures
            final(self).wf(),
            pending_cleared(old(self).active@, final(self).active@, session_view(*session), id),
            final(self).accounts == old(self).accounts,
            final(self).keys == old(self).keys,
            final(self).bindings == old(self).bindings,
            final(self).blocked == old(self).blocked,
            final(self).blocked_keys == old(self).blocked_keys,
            final(self).queues == old(self).queues,
            final(self).leases == old(self).leases,
            final(self).paused == old(self).paused,
    {
        let ghost act0 = self.active@;
        if let Some(i) = self.find_active(session) {
            if self.active[i].binding_pending == Some(id) {
                let mut a = self.active.remove(i);
                a.binding_pending = None;
                self.active.insert(i, a);
                proof {
                    assert(self.active@ =~= act0.update(i as int, self.active@[i as int]));
                    assert forall|j: int| 0 <= j < act0.len() && j != i implies session_view(act0[j].session)
                        != session_view(*session) by {
                        assert(session_view(act0[j].session) != session_view(act0[i as int].session));
                    }
                }
                return ;
            }
        }
        proof {
            assert forall|j: int|
                0 <= j < act0.len() && session_view(act0[j].session) == session_view(*session)
                    implies act0[j].binding_pending != Some(id) by {
                self.lemma_activity(j);
            }
        }
    }
}

impl DispatchLease {
    /// Authorizes one send without keeping a binding for the client session.
    pub fn confirm_stateless(&mut self, sched: &mut Scheduler) -> (r: Result<()>)
        requires
            old(sched).wf(),
        ensures
            final(sched).wf(),
            !old(self).needs_commit || old(self).expected_generation != 0 ==> (r matches Err(e)
                && fault_is(e, storage_fault()) && *final(self) == *old(self) && *final(sched)
                == *old(sched)),
            old(self).needs_commit && old(self).expected_generation == 0 ==> {
                &&& r is Ok
                &&& *final(self) == (DispatchLease { needs_commit: false, ..*old(self) })
                &&& pending_cleared(
                    old(sched).active@,
                    final(sched).active@,
                    session_view(old(self).session),
                    old(self).id,
                )
                &&& final(sched).accounts == old(sched).accounts
                &&& final(sched).bindings == old(sched).bindings
                &&& final(sched).queues == old(sched).queues
                &&& final(sched).leases == old(sched).leases
                &&& final(sched).keys == old(sched).keys
                &&& final(sched).paused == old(sched).paused
            },
    {
        if !self.needs_commit || self.expected_generation != 0 {
            return Err(Error::storage());
        }
        sched.clear_pending(&self.session, self.id);
        self.needs_commit = false;
        Ok(())
    }

    /// Records the lease's binding as the session's binding (the caller has
    /// persisted it).
    pub fn confirm_binding(&mut self, sched: &mut Scheduler)
        requires
            old(sched).wf(),
            old(self).binding.generation < i64::MAX,
        ensures
            final(sched).wf(),
            *final(self) == (DispatchLease { needs_commit: false, ..*old(self) }),
            final(sched).bindings@ == upsert_binding(old(sched).bindings@, old(self).binding),
            pending_cleared(
                old(sched).active@,
                final(sched).active@,
                session_view(old(self).session),
                old(self).id,
            ),
            final(sched).accounts == old(sched).accounts,
            final(sched).queues == old(sched).queues,
            final(sched).leases == old(sched).leases,
            final(sched).keys == old(sched).keys,
            final(sched).blocked == old(sched).blocked,
            final(sched).blocked_keys == old(sched).blocked_keys,
            final(sched).paused == old(sched).paused,
    {
        sched.put_binding(self.binding.duplicate());
        sched.clear_pending(&self.session, self.id);
        self.needs_commit = false;
    }

    /// Starts send number `previous + 1` on the lease after checking that the
    /// key, the account and the binding still allow it.
    pub fn begin_attempt(&self, sched: &mut Scheduler, previous: u8) -> (r: Result<()>)
        requires
            old(sched).wf(),
            previous < u8::MAX,
            has_account(*old(sched), self.account.id) ==> slot(*old(sched), self.account.id).served
                < u64::MAX,
        ensures
            final(sched).wf(),
            r is Ok <==> attempt_fault(*old(sched), *self, previous) is None,
            r matches Err(e) ==> fault_is(e, attempt_fault(*old(sched), *self, previous).unwrap())
                && *final(sched) == *old(sched),
            r is Ok ==> {
                &&& final(sched).leases@ == upsert_lease(old(sched).leases@, self.id, (previous + 1) as u8)
                &&& final(sched).accounts@ == add_served(old(sched).accounts@, self.account.id)
                &&& final(sched).keys == old(sched).keys
                &&& final(sched).bindings == old(sched).bindings
                &&& final(sched).blocked == old(sched).blocked
                &&& final(sched).blocked_keys == old(sched).blocked_keys
                &&& final(sched).queues == old(sched).queues
                &&& final(sched).active == old(sched).active
                &&& final(sched).paused == old(sched).paused
            },
    {
        if sched.paused {
            return Err(Error::storage());
        }
        sched.check_key(self.session.key_id, self.group_id)?;
        let ai = sched.find_account(self.account.id);
        let ok = match ai {
            Some(i) => {
                let a = &sched.accounts[i].account;
                a.enabled && a.in_group(self.group_id) && a.supports(&self.model) && a.accepts(self.source)
            },
            None => false,
        };
        if holds(&sched.blocked, self.account.id) || !ok {
            return Err(
                Error::new(
                    409,
                    "reservation_invalidated",
                    "The account state or group changed before dispatch",
                ),
            );
        }
        if self.needs_commit {
            return Err(Error::storage());
        }
        let li = sched.find_lease(self.id);
        let current = match li {
            Some(i) => sched.leases[i].attempts == previous,
            None => false,
        };
        if !current {
            return Err(
                Error::new(
                    500,
                    "attempt_already_consumed",
                    "The upstream attempt has already been consumed",
                ),
            );
        }
        sched.set_lease(self.id, previous + 1);
        let i = ai.unwrap();
        let ghost accs0 = sched.accounts@;
        let mut x = sched.accounts.remove(i);
        x.served = x.served + 1;
        sched.accounts.insert(i, x);
        proof {
            assert(sched.accounts@ =~= accs0.update(i as int, sched.accounts@[i as int]));
            lemma_total_update(accs0, i as int, sched.accounts@[i as int]);
            let c = choose|c: int| 0 <= c < accs0.len() && (#[trigger] accs0[c]).account.id == self.account.id;
            assert(accs0[c].account.id == accs0[i as int].account.id);
        }
        Ok(())
    }

    /// The first send of the lease.
    pub fn begin_send(&self, sched: &mut Scheduler) -> (r: Result<()>)
        requires
            old(sched).wf(),
            has_account(*old(sched), self.account.id) ==> slot(*old(sched), self.account.id).served
                < u64::MAX,
        ensures
            final(sched).wf(),
            r is Ok <==> attempt_fault(*old(sched), *self, 0) is None,
            r matches Err(e) ==> fault_is(e, attempt_fault(*old(sched), *self, 0).unwrap())
                && *final(sched) == *old(sched),
            r is Ok ==> final(sched).leases@ == upsert_lease(old(sched).leases@, self.id, 1)
                && final(sched).accounts@ == add_served(old(sched).accounts@, self.account.id),
    {
        self.begin_attempt(sched, 0)
    }

    /// One more send, only after the provider confirms a recoverable
    /// encrypted-reasoning rejection of the first; it keeps the same capacity.
    pub fn begin_encrypted_reasoning_recovery(&self, sched: &mut Scheduler) -> (r: Result<()>)
        requires
            old(sched).wf(),
            has_account(*old(sched), self.account.id) ==> slot(*old(sched), self.account.id).served
                < u64::MAX,
        ensures
            final(sched).wf(),
            r is Ok <==> attempt_fault(*old(sched), *self, 1) is None,
            r matches Err(e) ==> fault_is(e, attempt_fault(*old(sched), *self, 1).unwrap())
                && *final(sched) == *old(sched),
            r is Ok ==> final(sched).leases@ == upsert_lease(old(sched).leases@, self.id, 2)
                && final(sched).accounts@ == add_served(old(sched).accounts@, self.account.id),
    {
        self.begin_attempt(sched, 1)
    }
}

impl DispatchLease {
    /// Returns the lease's capacity, thread and pending binding to the
    /// scheduler; a lease that was already returned changes nothing.
    #[verifier::rlimit(60)]
    #[verifier::spinoff_prover]
    pub fn release(self, sched: &mut Scheduler)
        requires
            old(sched).wf(),
        ensures
            final(sched).wf(),
            released(*old(sched), *final(sched), self),
    {
        let li = match sched.find_lease(self.id) {
            Some(i) => i,
            None => {
                return ;
            },
        };
        let ghost s0 = *sched;
        proof {
            let c = choose|c: int| 0 <= c < s0.leases@.len() && (#[trigger] s0.leases@[c]).id == self.id;
            assert(s0.leases@[c].id == s0.leases@[li as int].id);
        }
        sched.leases.remove(li);
        proof {
            assert forall|i: int, j: int|
                #![trigger sched.leases@[i], sched.leases@[j]]
                0 <= i < sched.leases@.len() && 0 <= j < sched.leases@.len() && i != j
                    implies sched.leases@[i].id != sched.leases@[j].id by {
                let oi = if i < li { i } else { i + 1 };
                let oj = if j < li { j } else { j + 1 };
                assert(sched.leases@[i] == s0.leases@[oi]);
                assert(sched.leases@[j] == s0.leases@[oj]);
            }
        }
        if let Some(ai) = sched.find_account(self.account.id) {
            if sched.accounts[ai].inflight > 0 {
                let ghost accs0 = sched.accounts@;
                let mut x = sched.accounts.remove(ai);
                x.inflight = x.inflight - 1;
                sched.accounts.insert(ai, x);
                proof {
                    assert(sched.accounts@ =~= accs0.update(ai as int, sched.accounts@[ai as int]));
                    lemma_total_update(accs0, ai as int, sched.accounts@[ai as int]);
                    let c = choose|c: int| 0 <= c < accs0.len() && (#[trigger] accs0[c]).account.id == self.account.id;
                    assert(accs0[c].account.id == accs0[ai as int].account.id);
                }
            }
        }
        let ghost act0 = sched.active@;
        if let Some(j) = sched.find_active(&self.session) {
            proof {
                let k = session_view(self.session);
                let c = choose|c: int| 0 <= c < act0.len() && session_view((#[trigger] act0[c]).session) == k;
                assert(session_view(act0[c].session) == session_view(act0[j as int].session));
            }
            let mut a = sched.active.remove(j);
            let ghost t0 = a.threads@;
            proof {
                assert(thread_ids_unique(act0[j as int].threads@));
            }
            let found = thread_index(&a.threads, &self.thread_id);
            if let Some(x) = found {
                proof {
                    let c = choose|c: int| 0 <= c < t0.len() && (#[trigger] t0[c]).thread_id@ == self.thread_id@;
                    if c != x {
                        assert(t0[c].thread_id@ != t0[x as int].thread_id@);
                    }
                }
                a.threads.remove(x);
            }
            proof {
                assert(a.threads@ == without_thread(t0, self.thread_id@));
                assert(thread_ids_unique(a.threads@)) by {
                    if let Some(x) = found {
                        assert forall|i: int, j: int|
                            #![trigger a.threads@[i], a.threads@[j]]
                            0 <= i < a.threads@.len() && 0 <= j < a.threads@.len() && i != j
                                implies a.threads@[i].thread_id@ != a.threads@[j].thread_id@ by {
                            let oi = if i < x { i } else { i + 1 };
                            let oj = if j < x { j } else { j + 1 };
                            assert(a.threads@[i] == t0[oi]);
                            assert(a.threads@[j] == t0[oj]);
                        }
                    }
                }
            }
            if a.binding_pending == Some(self.id) {
                a.binding_pending = None;
            }
            if a.threads.len() > 0 {
                sched.active.insert(j, a);
                proof {
                    assert(sched.active@ =~= act0.update(j as int, sched.active@[j as int]));
                    assert forall|x: int, y: int|
                        #![trigger sched.active@[x], sched.active@[y]]
                        0 <= x < sched.active@.len() && 0 <= y < sched.active@.len() && x != y
                            implies session_view(sched.active@[x].session) != session_view(sched.active@[y].session) by {
                        assert(sched.active@[x].session == act0[x].session);
                        assert(sched.active@[y].session == act0[y].session);
                        assert(act0[x] == act0[x] && act0[y] == act0[y]);
                    }
                    assert forall|x: int| 0 <= x < sched.active@.len() implies thread_ids_unique((#[trigger] sched.active@[x]).threads@) by {
                        if x != j {
                            assert(sched.active@[x] == act0[x]);
                        }
                    }
                }
            } else {
                proof {
                    assert(sched.active@ =~= act0.remove(j as int));
                    assert forall|x: int, y: int|
                        #![trigger sched.active@[x], sched.active@[y]]
                        0 <= x < sched.active@.len() && 0 <= y < sched.active@.len() && x != y
                            implies session_view(sched.active@[x].session) != session_view(sched.active@[y].session) by {
                        let ox = if x < j { x } else { x + 1 };
                        let oy = if y < j { y } else { y + 1 };
                        assert(sched.active@[x] == act0[ox]);
                        assert(sched.active@[y] == act0[oy]);
                    }
                    assert forall|x: int| 0 <= x < sched.active@.len() implies thread_ids_unique((#[trigger] sched.active@[x]).threads@) by {
                        let ox = if x < j { x } else { x + 1 };
                        assert(sched.active@[x] == act0[ox]);
                    }
                }
            }
        } else {
            proof {
                let k = session_view(self.session);
                assert(!exists|i: int| 0 <= i < act0.len() && session_view((#[trigger] act0[i]).session) == k);
            }
        }
    }
}

fn thread_index(t: &Vec<ThreadLease>, thread: &String) -> (r: Option<usize>)
    ensures
        match r {
            Some(x) => x < t@.len() && t@[x as int].thread_id@ == thread@,
            None => forall|x: int| 0 <= x < t@.len() ==> (#[trigger] t@[x]).thread_id@ != thread@,
        },
{
    let mut i: usize = 0;
    while i < t.len()
        invariant
            i <= t@.len(),
            forall|x: int| 0 <= x < i ==> (#[trigger] t@[x]).thread_id@ != thread@,
        decreases t@.len() - i,
    {
        if t[i].thread_id == *thread {
            return Some(i);
        }
        i = i + 1;
    }
    None
}

/// The queue, capacity and accounts as the administrator sees them.
pub struct QueueStats {
    pub queued: usize,
    pub inflight: u32,
    pub paused: bool,
    pub accounts: Vec<AccountRuntime>,
    pub requests: Vec<QueuedRequest>,
}

pub struct AccountRuntime {
    pub id: u128,
    pub inflight: u32,
    pub queued: usize,
    pub max_inflight: u32,
}

pub struct QueuedRequest {
    pub request_id: u128,
    pub session_id: String,
    pub thread_id: String,
    pub session_inflight: usize,
    pub session_max_inflight: u32,
    pub account_id: Option<u128>,
    pub wait_ms: u64,
}

/// Every waiting request with its session, in service order.
pub open spec fn waiting(qs: Seq<SessionQueue>) -> Seq<(SessionKey, Waiter)>
    decreases qs.len(),
{
    if qs.len() == 0 {
        Seq::empty()
    } else {
        waiting(qs.drop_last()) + qs.last().waiters@.map_values(|w: Waiter| (qs.last().session, w))
    }
}

/// `r` reports the waiting request `e`.
pub open spec fn describes(s: Scheduler, cfg: RuntimeSettings, now_ms: u64, r: QueuedRequest, e: (SessionKey, Waiter)) -> bool {
    let k = session_view(e.0);
    &&& r.request_id == e.1.id
    &&& r.session_id@ == e.0.client_session_id@
    &&& r.thread_id@ == e.1.thread_id@
    &&& r.session_inflight == match activity_of(s, k) {
        Some(a) => a.threads@.len(),
        None => 0,
    }
    &&& r.session_max_inflight == cfg.session_max_inflight
    &&& r.account_id == if has_binding(s, k) {
        Some(binding_of(s, k).account_id)
    } else {
        None
    }
    &&& r.wait_ms == if now_ms >= e.1.since_ms {
        now_ms - e.1.since_ms
    } else {
        0
    }
}

pub open spec fn bound_to(id: u128) -> spec_fn(QueuedRequest) -> bool {
    |q: QueuedRequest| q.account_id == Some(id)
}

impl Scheduler {
    fn describe(&self, cfg: &RuntimeSettings, now_ms: u64, session: &SessionKey, w: &Waiter) -> (r: QueuedRequest)
        requires
            self.wf(),
        ensures
            describes(*self, *cfg, now_ms, r, (*session, *w)),
    {
        let session_inflight = match self.find_active(session) {
            Some(i) => self.active[i].threads.len(),
            None => 0,
        };
        let account_id = match self.find_binding(session) {
            Some(i) => Some(self.bindings[i].account_id),
            None => None,
        };
        QueuedRequest {
            request_id: w.id,
            session_id: session.client_session_id.clone(),
            thread_id: w.thread_id.clone(),
            session_inflight,
            session_max_inflight: cfg.session_max_inflight,
            account_id,
            wait_ms: if now_ms >= w.since_ms {
                now_ms - w.since_ms
            } else {
                0
            },
        }
    }

    /// The waiting requests in service order, the capacity each account holds,
    /// and how many waiting requests are bound to it.
    pub fn stats(&self, cfg: &RuntimeSettings, now_ms: u64) -> (r: QueueStats)
        requires
            self.wf(),
        ensures
            r.requests@.len() == waiting(self.queues@).len(),
            forall|i: int|
                0 <= i < r.requests@.len() ==> describes(
                    *self,
                    *cfg,
                    now_ms,
                    #[trigger] r.requests@[i],
                    waiting(self.queues@)[i],
                ),
            r.queued == r.requests@.len(),
            r.inflight == total_inflight(self.accounts@),
            r.paused == self.paused,
            r.accounts@.len() == self.accounts@.len(),
            forall|i: int|
                0 <= i < r.accounts@.len() ==> {
                    &&& (#[trigger] r.accounts@[i]).id == self.accounts@[i].account.id
                    &&& r.accounts@[i].inflight == self.accounts@[i].inflight
                    &&& r.accounts@[i].max_inflight == self.accounts@[i].account.max_inflight
                    &&& r.accounts@[i].queued == r.requests@.filter(
                        bound_to(self.accounts@[i].account.id),
                    ).len()
                },
    {
        let mut requests: Vec<QueuedRequest> = Vec::new();
        let mut qi: usize = 0;
        while qi < self.queues.len()
            invariant
                self.wf(),
                qi <= self.queues@.len(),
                requests@.len() == waiting(self.queues@.take(qi as int)).len(),
                forall|i: int|
                    0 <= i < requests@.len() ==> describes(
                        *self,
                        *cfg,
                        now_ms,
                        #[trigger] requests@[i],
                        waiting(self.queues@.take(qi as int))[i],
                    ),
            decreases self.queues@.len() - qi,
        {
            let q = &self.queues[qi];
            let ghost base = requests@.len();
            let ghost prev = waiting(self.queues@.take(qi as int));
            let ghost next = waiting(self.queues@.take(qi + 1));
            proof {
                assert(self.queues@.take(qi + 1).drop_last() =~= self.queues@.take(qi as int));
                assert(next == prev + q.waiters@.map_values(|w: Waiter| (q.session, w)));
            }
            let mut p: usize = 0;
            while p < q.waiters.len()
                invariant
                    self.wf(),
                    qi < self.queues@.len(),
                    *q == self.queues@[qi as int],
                    p <= q.waiters@.len(),
                    base == prev.len(),
                    next == prev + q.waiters@.map_values(|w: Waiter| (q.session, w)),
                    requests@.len() == base + p,
                    forall|i: int|
                        0 <= i < requests@.len() ==> describes(
                            *self,
                            *cfg,
                            now_ms,
                            #[trigger] requests@[i],
                            next[i],
                        ),
                decreases q.waiters@.len() - p,
            {
                let d = self.describe(cfg, now_ms, &q.session, &q.waiters[p]);
                requests.push(d);
                p = p + 1;
            }
            qi = qi + 1;
        }
        proof {
            assert(self.queues@.take(self.queues@.len() as int) =~= self.queues@);
        }
        let mut accounts: Vec<AccountRuntime> = Vec::new();
        let mut i: usize = 0;
        while i < self.accounts.len()
            invariant
                i <= self.accounts@.len(),
                accounts@.len() == i,
                forall|j: int|
                    0 <= j < i ==> {
                        &&& (#[trigger] accounts@[j]).id == self.accounts@[j].account.id
                        &&& accounts@[j].inflight == self.accounts@[j].inflight
                        &&& accounts@[j].max_inflight == self.accounts@[j].account.max_inflight
                        &&& accounts@[j].queued == requests@.filter(
                            bound_to(self.accounts@[j].account.id),
                        ).len()
                    },
            decreases self.accounts@.len() - i,
        {
            let id = self.accounts[i].account.id;
            let mut n: usize = 0;
            let mut j: usize = 0;
            while j < requests.len()
                invariant
                    j <= requests@.len(),
                    n == requests@.take(j as int).filter(bound_to(id)).len(),
                    n <= j,
                decreases requests@.len() - j,
            {
                proof {
                    lemma_filter_take(requests@, j as int, bound_to(id));
                }
                if requests[j].account_id == Some(id) {
                    n = n + 1;
                }
                j = j + 1;
            }
            proof {
                assert(requests@.take(requests@.len() as int) =~= requests@);
            }
            accounts.push(
                AccountRuntime {
                    id,
                    inflight: self.accounts[i].inflight,
                    queued: n,
                    max_inflight: self.accounts[i].account.max_inflight,
                },
            );
            i = i + 1;
        }
        let total = self.inflight_total();
        QueueStats {
            queued: requests.len(),
            inflight: total as u32,
            paused: self.paused,
            accounts,
            requests,
        }
    }
}

/// The request memory that buffered bodies hold together.
pub struct MemoryBudget {
    pub used: usize,
}

/// One buffer's share of the memory budget.
pub struct MemoryLease {
    pub bytes: usize,
}

impl MemoryBudget {
    pub fn new() -> (r: Self)
        ensures
            r.used == 0,
    {
        MemoryBudget { used: 0 }
    }

    pub fn used(&self) -> (r: usize)
        ensures
            r == self.used,
    {
        self.used
    }

    pub fn lease(&self) -> (r: MemoryLease)
        ensures
            r.bytes == 0,
    {
        MemoryLease { bytes: 0 }
    }
}

pub open spec fn memory_fault() -> (u16, Seq<char>, Seq<char>) {
    (429, "memory_limit"@, "Request memory budget is exhausted"@)
}

impl MemoryLease {
    /// Takes `bytes` more of the budget when the total stays within `limit`.
    pub fn grow(&mut self, budget: &mut MemoryBudget, limit: usize, bytes: usize) -> (r: Result<()>)
        requires
            old(self).bytes <= old(budget).used,
        ensures
            r is Ok <==> old(budget).used + bytes <= limit,
            r matches Err(e) ==> fault_is(e, memory_fault()) && *final(self) == *old(self)
                && *final(budget) == *old(budget),
            r is Ok ==> final(budget).used == old(budget).used + bytes && final(self).bytes
                == old(self).bytes + bytes,
            final(self).bytes <= final(budget).used,
    {
        let next = match budget.used.checked_add(bytes) {
            Some(n) => n,
            None => {
                return Err(Error::new(429, "memory_limit", "Request memory budget is exhausted"));
            },
        };
        if next > limit {
            return Err(Error::new(429, "memory_limit", "Request memory budget is exhausted"));
        }
        budget.used = next;
        self.bytes = self.bytes + bytes;
        Ok(())
    }

    /// Sets the lease to `bytes`: growing is checked against `limit`,
    /// shrinking always succeeds.
    pub fn resize(&mut self, budget: &mut MemoryBudget, limit: usize, bytes: usize) -> (r: Result<()>)
        requires
            old(self).bytes <= old(budget).used,
        ensures
            bytes < old(self).bytes ==> r is Ok && final(self).bytes == bytes && final(budget).used
                == old(budget).used - (old(self).bytes - bytes),
            bytes >= old(self).bytes ==> (r is Ok <==> old(budget).used + (bytes - old(self).bytes)
                <= limit),
            bytes >= old(self).bytes && r is Ok ==> final(self).bytes == bytes && final(budget).used
                == old(budget).used + (bytes - old(self).bytes),
            r matches Err(e) ==> fault_is(e, memory_fault()) && *final(self) == *old(self)
                && *final(budget) == *old(budget),
            final(self).bytes <= final(budget).used,
    {
        if bytes >= self.bytes {
            let more = bytes - self.bytes;
            self.grow(budget, limit, more)
        } else {
            budget.used = budget.used - (self.bytes - bytes);
            self.bytes = bytes;
            Ok(())
        }
    }

    /// Gives the lease's share back.
    pub fn release(self, budget: &mut MemoryBudget)
        ensures
            final(budget).used == if old(budget).used >= self.bytes {
                old(budget).used - self.bytes
            } else {
                0
            },
    {
        budget.used = budget.used.saturating_sub(self.bytes);
    }
}

/// A granted request never takes an account beyond its own limit, nor the
/// gateway beyond its global limit, nor a session beyond its thread limit (a
/// limit of at least one thread; an idle session always gets its first).
pub proof fn law_grant_respects_limits(
    old: Scheduler,
    new: Scheduler,
    cfg: RuntimeSettings,
    now_ms: u64,
    id: u128,
    l: DispatchLease,
    qi: int,
    p: int,
)
    requires
        old.wf(),
        new.wf(),
        reserve_outcome(old, cfg, now_ms, id) == Ok::<Option<(int, int)>, (u16, Seq<char>, Seq<char>)>(
            Some((qi, p)),
        ),
        granted(old, new, l, qi, p, id),
        cfg.session_max_inflight >= 1,
    ensures
        total_inflight(new.accounts@) == total_inflight(old.accounts@) + 1,
        total_inflight(new.accounts@) <= cfg.global_max_inflight,
        has_account(new, l.account.id),
        slot(new, l.account.id).inflight <= slot(new, l.account.id).account.max_inflight,
        slot(new, l.account.id).inflight == slot(old, l.account.id).inflight + 1,
        activity_of(new, session_view(l.session)) matches Some(a) && a.threads@.len()
            <= cfg.session_max_inflight,
{
    let q = old.queues@[qi];
    let w = q.waiters@[p];
    let k = session_view(q.session);
    let acct = choice(old, k, w).unwrap();
    assert(next_dispatch(old, cfg, now_ms, qi, p)) by {
        let (a, b) = choose|a: int, b: int| next_dispatch(old, cfg, now_ms, a, b);
        assert(exists|a: int, b: int| next_dispatch(old, cfg, now_ms, a, b));
    }
    let ai = choose|i: int| 0 <= i < old.accounts@.len() && (#[trigger] old.accounts@[i]).account.id == acct;
    assert(has_account(old, acct)) by {
        if bound_usable(old, k, w) {
        } else {
            let c = choose|i: int| least_open(old, w, i);
            assert(old.accounts@[c].account.id == acct);
        }
    }
    assert(0 <= ai < old.accounts@.len() && old.accounts@[ai].account.id == acct);
    old.lemma_choice_capacity(k, w, ai);
    lemma_total_update(old.accounts@, ai, new.accounts@[ai]);
    new.lemma_slot(ai);
    let (fq, fp) = choose|a: int, b: int| located(old, id, a, b);
    assert(total_inflight(old.accounts@) < cfg.global_max_inflight);
    let i = choose|i: int|
        0 <= i < new.active@.len() && new.active@ == (if activity_of(old, k) is Some {
            old.active@.update(i, new.active@[i])
        } else {
            old.active@.push(new.active@[i])
        }) && activity_after(
            activity_of(old, k),
            #[trigger] new.active@[i],
            q.session,
            w.thread_id,
            id,
            if renews(old, k, acct, w.group_id) {
                Some(id)
            } else {
                None
            },
        );
    new.lemma_activity(i);
    assert(dispatchable(old, cfg, now_ms, qi, p));
    assert(!session_full(activity_of(old, k), cfg));
    let held = match activity_of(old, k) {
        Some(b) => b.threads@,
        None => Seq::<ThreadLease>::empty(),
    };
    assert(held.len() < cfg.session_max_inflight);
    assert(new.active@[i].threads@.len() == held.len() + 1);
    assert(session_view(new.active@[i].session) == session_view(l.session));
}

/// A request granted to an idle session and then released leaves the
/// capacity, the leases and the session activity exactly as they were.
pub proof fn law_release_undoes_grant(
    s0: Scheduler,
    s1: Scheduler,
    s2: Scheduler,
    l: DispatchLease,
    qi: int,
    p: int,
    id: u128,
)
    requires
        s0.wf(),
        s1.wf(),
        0 <= qi < s0.queues@.len(),
        0 <= p < s0.queues@[qi].waiters@.len(),
        choice(s0, session_view(s0.queues@[qi].session), s0.queues@[qi].waiters@[p]) is Some,
        has_account(s0, choice(s0, session_view(s0.queues@[qi].session), s0.queues@[qi].waiters@[p]).unwrap()),
        activity_of(s0, session_view(s0.queues@[qi].session)) is None,
        lease_of(s0, id) is None,
        granted(s0, s1, l, qi, p, id),
        released(s1, s2, l),
    ensures
        s2.accounts@ == s0.accounts@,
        s2.leases@ == s0.leases@,
        s2.active@ == s0.active@,
{
    let q = s0.queues@[qi];
    let w = q.waiters@[p];
    let k = session_view(q.session);
    let acct = l.account.id;
    // the lease
    let n = s0.leases@.len();
    assert(!exists|i: int| 0 <= i < n && (#[trigger] s0.leases@[i]).id == id);
    assert(s1.leases@ == s0.leases@.push(LeaseCount { id, attempts: 0 }));
    s1.lemma_lease(n as int);
    let c = choose|i: int| 0 <= i < s1.leases@.len() && (#[trigger] s1.leases@[i]).id == l.id;
    assert(c == n) by {
        if c != n {
            assert(s1.leases@[c].id != s1.leases@[n as int].id);
        }
    }
    assert(s2.leases@ =~= s0.leases@);
    // the capacity
    let a0 = choose|i: int| 0 <= i < s0.accounts@.len() && (#[trigger] s0.accounts@[i]).account.id == acct;
    assert(0 <= a0 < s0.accounts@.len() && s0.accounts@[a0].account.id == acct);
    s1.lemma_slot(a0);
    let a1 = choose|i: int| 0 <= i < s1.accounts@.len() && (#[trigger] s1.accounts@[i]).account.id == acct;
    assert(a1 == a0) by {
        if a1 != a0 {
            assert(s1.accounts@[a1].account.id != s1.accounts@[a0].account.id);
        }
    }
    assert(s2.accounts@ =~= s0.accounts@);
    // the session
    let i = choose|i: int|
        0 <= i < s1.active@.len() && s1.active@ == s0.active@.push(s1.active@[i]) && activity_after(
            None,
            #[trigger] s1.active@[i],
            q.session,
            w.thread_id,
            id,
            if renews(s0, k, acct, w.group_id) {
                Some(id)
            } else {
                None
            },
        );
    assert(i == s0.active@.len());
    let j = choose|j: int| 0 <= j < s1.active@.len() && session_view((#[trigger] s1.active@[j]).session) == k;
    assert(session_view(s1.active@[i].session) == k);
    assert(j == i) by {
        if j != i {
            assert(session_view(s1.active@[j].session) != session_view(s1.active@[i].session));
        }
    }
    let t = s1.active@[i].threads@;
    assert(t.len() == 1 && t[0].thread_id@ == l.thread_id@);
    let x = choose|x: int| 0 <= x < t.len() && (#[trigger] t[x]).thread_id@ == l.thread_id@;
    assert(without_thread(t, l.thread_id@).len() == 0);
    assert(s2.active@ =~= s0.active@);
}

/// After a send is started, the same send number is refused: every upstream
/// attempt of a lease is used at most once.
pub proof fn law_send_is_single_use(s: Scheduler, new: Scheduler, l: DispatchLease, previous: u8)
    requires
        s.wf(),
        new.wf(),
        previous < u8::MAX,
        attempt_fault(s, l, previous) is None,
        new.leases@ == upsert_lease(s.leases@, l.id, (previous + 1) as u8),
    ensures
        lease_of(new, l.id) == Some((previous + 1) as u8),
        attempt_fault(new, l, previous) is Some,
{
    let c = choose|i: int| 0 <= i < s.leases@.len() && (#[trigger] s.leases@[i]).id == l.id;
    assert(0 <= c < s.leases@.len() && s.leases@[c].id == l.id);
    assert(new.leases@[c] == LeaseCount { id: l.id, attempts: (previous + 1) as u8 });
    new.lemma_lease(c);
}

/// While a session waits for its new binding to be persisted, none of its
/// requests is dispatched.
pub proof fn law_pending_binding_holds_session(s: Scheduler, cfg: RuntimeSettings, now_ms: u64, qi: int, p: int)
    requires
        0 <= qi < s.queues@.len(),
        activity_of(s, session_view(s.queues@[qi].session)) matches Some(a) && a.binding_pending is Some,
    ensures
        !dispatchable(s, cfg, now_ms, qi, p),
{
}

/// A request joins the queue only while fewer requests than the configured
/// capacity wait, so the queue never grows past it.
pub proof fn law_enqueue_within_capacity(
    old: Scheduler,
    new: Scheduler,
    thread: ThreadKey,
    id: u128,
    group: u128,
    model: ModelRef,
    source: ClientSource,
    since_ms: u64,
    cfg: RuntimeSettings,
)
    requires
        old.wf(),
        queued_count(old.queues@) < cfg.queue_capacity,
        joined(old.queues@, new.queues@, thread, id, group, model, source, since_ms),
    ensures
        queued_count(new.queues@) == queued_count(old.queues@) + 1,
        queued_count(new.queues@) <= cfg.queue_capacity,
{
    let k = session_view(thread.session);
    if exists|i: int| 0 <= i < old.queues@.len() && session_view((#[trigger] old.queues@[i]).session) == k {
        let i = choose|i: int| 0 <= i < old.queues@.len() && session_view((#[trigger] old.queues@[i]).session) == k;
        lemma_queued_update(old.queues@, new.queues@, i);
    }
}

pub proof fn lemma_queued_update(a: Seq<SessionQueue>, b: Seq<SessionQueue>, i: int)
    requires
        0 <= i < a.len(),
        a.len() == b.len(),
        forall|j: int| 0 <= j < a.len() && j != i ==> #[trigger] b[j] == a[j],
    ensures
        queued_count(b) == queued_count(a) - a[i].waiters@.len() + b[i].waiters@.len(),
    decreases a.len(),
{
    if i == a.len() - 1 {
        assert(b.drop_last() =~= a.drop_last());
    } else {
        lemma_queued_update(a.drop_last(), b.drop_last(), i);
    }
}

/// A session with a usable binding stays on its bound account; one without
/// goes to an open account holding the fewest requests in flight, and among
/// those to one that has made the fewest sends, so new sessions on an idle
/// gateway spread over the accounts.
pub proof fn law_unbound_choice_is_least_loaded(s: Scheduler, k: (u128, Seq<char>), w: Waiter)
    ensures
        bound_usable(s, k, w) && choice(s, k, w) is Some ==> choice(s, k, w) == Some(binding_of(s, k).account_id),
        !bound_usable(s, k, w) && choice(s, k, w) is Some ==> exists|i: int| {
            &&& 0 <= i < s.accounts@.len()
            &&& s.accounts@[i].account.id == choice(s, k, w).unwrap()
            &&& open_for(s, s.accounts@[i], w)
            &&& forall|j: int| 0 <= j < s.accounts@.len() && open_for(s, #[trigger] s.accounts@[j], w) ==> {
                ||| s.accounts@[i].inflight < s.accounts@[j].inflight
                ||| (s.accounts@[i].inflight == s.accounts@[j].inflight && s.accounts@[i].served
                    <= s.accounts@[j].served)
            }
        },
{
    if !bound_usable(s, k, w) && choice(s, k, w) is Some {
        let i = choose|i: int| least_open(s, w, i);
        assert(least_open(s, w, i));
        assert forall|j: int| 0 <= j < s.accounts@.len() && open_for(s, #[trigger] s.accounts@[j], w) implies {
            ||| s.accounts@[i].inflight < s.accounts@[j].inflight
            ||| (s.accounts@[i].inflight == s.accounts@[j].inflight && s.accounts@[i].served
                <= s.accounts@[j].served)
        } by {
            assert(ranks_first(s.accounts@[i], s.accounts@[j]));
        }
    }
}

/// While a session waits for its new binding to be persisted, none of its
/// requests is dispatched: a granted request's session holds no pending
/// binding, and is below its limit of threads.
pub proof fn law_granted_session_has_no_pending_binding(s: Scheduler, cfg: RuntimeSettings, now_ms: u64, id: u128)
    ensures
        reserve_outcome(s, cfg, now_ms, id) matches Ok(Some((qi, p))) ==> !session_full(
            activity_of(s, session_view(s.queues@[qi].session)),
            cfg,
        ),
        reserve_outcome(s, cfg, now_ms, id) matches Ok(Some((qi, p))) ==> (activity_of(
            s,
            session_view(s.queues@[qi].session),
        ) matches Some(a) ==> a.binding_pending is None),
{
    if reserve_outcome(s, cfg, now_ms, id) matches Ok(Some((qi, p))) {
        let (q2, p2) = choose|qi: int, p: int| next_dispatch(s, cfg, now_ms, qi, p);
        assert(next_dispatch(s, cfg, now_ms, q2, p2));
        assert(dispatchable(s, cfg, now_ms, q2, p2));
    }
}

/// A session with a request in flight shares one binding: a request of it
/// granted meanwhile needs no new binding and is sent under the session's
/// binding.
pub proof fn law_active_session_shares_its_binding(
    s: Scheduler,
    s2: Scheduler,
    cfg: RuntimeSettings,
    now_ms: u64,
    id: u128,
    l: DispatchLease,
    qi: int,
    p: int,
)
    requires
        reserve_outcome(s, cfg, now_ms, id) == Ok::<Option<(int, int)>, (u16, Seq<char>, Seq<char>)>(Some((qi, p))),
        activity_of(s, session_view(s.queues@[qi].session)) is Some,
        granted(s, s2, l, qi, p, id),
    ensures
        !l.needs_commit,
        l.binding == binding_of(s, session_view(s.queues@[qi].session)),
{
    let (q2, p2) = choose|qi: int, p: int| next_dispatch(s, cfg, now_ms, qi, p);
    assert(next_dispatch(s, cfg, now_ms, q2, p2));
    assert(dispatchable(s, cfg, now_ms, q2, p2));
}

/// A lease allows one send: once a first send is recorded for it, every later
/// first send of the same lease is refused, as an attempt already consumed
/// wherever nothing else refuses it first.
pub proof fn law_one_send_per_lease(before: Scheduler, after: Scheduler, l: DispatchLease)
    requires
        after.wf(),
        after.leases@ == upsert_lease(before.leases@, l.id, 1),
    ensures
        lease_of(after, l.id) == Some(1u8),
        attempt_fault(after, l, 0) is Some,
        attempt_fault(after, l, 1) is None ==> attempt_fault(after, l, 0) == Some(
            (500u16, "attempt_already_consumed"@, "The upstream attempt has already been consumed"@),
        ),
{
    let v = before.leases@;
    let w = after.leases@;
    let k = if exists|i: int| 0 <= i < v.len() && (#[trigger] v[i]).id == l.id {
        choose|i: int| 0 <= i < v.len() && (#[trigger] v[i]).id == l.id
    } else {
        v.len() as int
    };
    assert(w[k].id == l.id && w[k].attempts == 1);
    let c = choose|i: int| 0 <= i < w.len() && (#[trigger] w[i]).id == l.id;
    if c != k {
        assert(w[c].id != w[k].id);
    }
}

} // verus!
