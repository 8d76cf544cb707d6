use xxgate::access::GatewayKey;
use xxgate::accounts::{Account, ClientProfile};
use xxgate::clients::ClientSource;
use xxgate::groups::DEFAULT_GROUP_ID;
use xxgate::identity::{Binding, SessionKey, ThreadKey};
use xxgate::ids::random_uuid;
use xxgate::scheduling::{DispatchLease, MemoryBudget, QueueTicket, Scheduler};
use xxgate::settings::RuntimeSettings;
use xxgate::time::Timestamp;
use xxgate::types::{Error, ModelRef};

const NOW: u64 = 1_000_000;

fn stamp() -> Timestamp {
    Timestamp { secs: 1_700_000_000, nanos: 0 }
}

fn account() -> Account {
    Account {
        id: random_uuid(),
        group_ids: vec![DEFAULT_GROUP_ID],
        name: "test".into(),
        provider: "openai".into(),
        access_kind: "codex_oauth".into(),
        enabled: true,
        codex_only: false,
        disable_reason: None,
        max_inflight: 1,
        upstream_account_id: "upstream".into(),
        upstream_base_url: "https://example.test".into(),
        models: vec![],
        models_restricted: false,
        model_catalog: None,
        profile: ClientProfile {
            installation_id: random_uuid(),
            codex_version: "0.153.4".into(),
            user_agent: "codex_cli_rs/0.153.4".into(),
            tls_backend: "native".into(),
        },
        version: 1,
        credential_version: 1,
        credential_expires_at: None,
        created_at: stamp(),
        updated_at: stamp(),
    }
}

fn key(group_id: u128) -> GatewayKey {
    GatewayKey {
        id: random_uuid(),
        group_id,
        name: "test".into(),
        prefix: "sk-test".into(),
        enabled: true,
        created_at: stamp(),
        last_used_at: None,
    }
}

fn session(key: &GatewayKey, name: &str) -> SessionKey {
    SessionKey { key_id: key.id, client_session_id: name.into() }
}

fn enqueue_thread(
    s: &mut Scheduler,
    cfg: &RuntimeSettings,
    key: &GatewayKey,
    session_name: &str,
    thread_name: &str,
) -> Result<QueueTicket, Error> {
    s.enqueue(
        cfg,
        random_uuid(),
        ThreadKey { session: session(key, session_name), client_thread_id: thread_name.into() },
        key.group_id,
        ModelRef::codex("test"),
        ClientSource::Unknown,
        NOW,
    )
}

fn enqueue(s: &mut Scheduler, cfg: &RuntimeSettings, key: &GatewayKey, name: &str) -> Result<QueueTicket, Error> {
    enqueue_thread(s, cfg, key, name, name)
}

fn reserve(s: &mut Scheduler, cfg: &RuntimeSettings, t: &QueueTicket) -> Option<DispatchLease> {
    match s.try_reserve(cfg, NOW, t.id) {
        Ok(lease) => lease,
        Err(e) => panic!("reservation failed: {}", e.code),
    }
}

fn code(r: Result<QueueTicket, Error>) -> String {
    match r {
        Ok(_) => "ok".into(),
        Err(e) => e.code,
    }
}

#[test]
fn no_matching_group_account_is_rejected_without_queueing() {
    let cfg = RuntimeSettings::default();
    let g = random_uuid();
    let k = key(g);
    let mut a = account();
    let mut s = Scheduler::new(vec![a.duplicate()], vec![], vec![k.clone()]);
    assert_eq!(code(enqueue(&mut s, &cfg, &k, "new")), "no_available_account");
    a.group_ids = vec![g];
    a.enabled = false;
    s.update_account(a.duplicate());
    assert_eq!(code(enqueue(&mut s, &cfg, &k, "disabled")), "no_available_account");
    a.enabled = true;
    a.models_restricted = true;
    a.models = vec!["other".into()];
    s.update_account(a.duplicate());
    assert_eq!(code(enqueue(&mut s, &cfg, &k, "unsupported")), "no_available_account");
    a.models.clear();
    s.update_account(a);
    assert_eq!(code(enqueue(&mut s, &cfg, &k, "empty-models")), "no_available_account");
    assert_eq!(s.stats(&cfg, NOW).queued, 0);
}

#[test]
fn a_pending_binding_holds_the_session_and_is_shared_once_confirmed() {
    let cfg = RuntimeSettings::default();
    let mut a = account();
    a.max_inflight = 10;
    let k = key(DEFAULT_GROUP_ID);
    let mut s = Scheduler::new(vec![a], vec![], vec![k.clone()]);
    let first_ticket = enqueue_thread(&mut s, &cfg, &k, "session", "a").ok().unwrap();
    let mut first = reserve(&mut s, &cfg, &first_ticket).unwrap();
    let second_ticket = enqueue_thread(&mut s, &cfg, &k, "session", "b").ok().unwrap();
    let third_ticket = enqueue_thread(&mut s, &cfg, &k, "session", "c").ok().unwrap();
    assert!(reserve(&mut s, &cfg, &second_ticket).is_none());
    first.confirm_binding(&mut s);
    first.begin_send(&mut s).ok().unwrap();
    let second = reserve(&mut s, &cfg, &second_ticket).unwrap();
    assert!(!second.needs_commit);
    assert_eq!(second.binding.id, first.binding.id);
    assert_eq!(second.binding.namespace, first.binding.namespace);
    second.begin_send(&mut s).ok().unwrap();
    assert!(reserve(&mut s, &cfg, &third_ticket).is_none());
    let queued = s.stats(&cfg, NOW).requests;
    assert_eq!(queued[0].thread_id, "c");
    assert_eq!(queued[0].session_inflight, 2);
    assert_eq!(queued[0].session_max_inflight, 2);
    let other_ticket = enqueue_thread(&mut s, &cfg, &k, "other-session", "a").ok().unwrap();
    let mut other = reserve(&mut s, &cfg, &other_ticket).unwrap();
    other.confirm_binding(&mut s);
    other.begin_send(&mut s).ok().unwrap();
    assert_eq!(s.stats(&cfg, NOW).inflight, 3);
    first.release(&mut s);
    let third = reserve(&mut s, &cfg, &third_ticket).unwrap();
    assert_eq!(third.binding.id, second.binding.id);
    third.begin_send(&mut s).ok().unwrap();
    second.release(&mut s);
    third.release(&mut s);
    other.release(&mut s);
    assert_eq!(s.stats(&cfg, NOW).inflight, 0);
    assert!(s.active.is_empty());
}

#[test]
fn a_thread_keeps_its_order_without_holding_back_another_thread() {
    let cfg = RuntimeSettings::default();
    let mut a = account();
    a.max_inflight = 10;
    let k = key(DEFAULT_GROUP_ID);
    let mut s = Scheduler::new(vec![a], vec![], vec![k.clone()]);
    let first_ticket = enqueue_thread(&mut s, &cfg, &k, "session", "a").ok().unwrap();
    let mut first = reserve(&mut s, &cfg, &first_ticket).unwrap();
    first.confirm_binding(&mut s);
    first.begin_send(&mut s).ok().unwrap();
    let next_a = enqueue_thread(&mut s, &cfg, &k, "session", "a").ok().unwrap();
    let last_a = enqueue_thread(&mut s, &cfg, &k, "session", "a").ok().unwrap();
    let next_b = enqueue_thread(&mut s, &cfg, &k, "session", "b").ok().unwrap();
    assert!(reserve(&mut s, &cfg, &next_a).is_none());
    let parallel = reserve(&mut s, &cfg, &next_b).unwrap();
    parallel.begin_send(&mut s).ok().unwrap();
    first.release(&mut s);
    assert!(reserve(&mut s, &cfg, &last_a).is_none());
    let next = reserve(&mut s, &cfg, &next_a).unwrap();
    next.begin_send(&mut s).ok().unwrap();
    assert!(reserve(&mut s, &cfg, &last_a).is_none());
    next.release(&mut s);
    let last = reserve(&mut s, &cfg, &last_a).unwrap();
    last.begin_send(&mut s).ok().unwrap();
    assert_eq!(s.stats(&cfg, NOW).inflight, 2);
    last.release(&mut s);
    parallel.release(&mut s);
    assert_eq!(s.stats(&cfg, NOW).inflight, 0);
}

#[test]
fn an_abandoned_binding_reservation_releases_the_whole_session() {
    let cfg = RuntimeSettings::default();
    let mut a = account();
    a.max_inflight = 10;
    let k = key(DEFAULT_GROUP_ID);
    let mut s = Scheduler::new(vec![a], vec![], vec![k.clone()]);
    let ta = enqueue_thread(&mut s, &cfg, &k, "s", "a").ok().unwrap();
    let first = reserve(&mut s, &cfg, &ta).unwrap();
    let tb = enqueue_thread(&mut s, &cfg, &k, "s", "b").ok().unwrap();
    assert!(reserve(&mut s, &cfg, &tb).is_none());
    let abandoned = first.binding.id;
    first.release(&mut s);
    let mut next = reserve(&mut s, &cfg, &tb).unwrap();
    assert_ne!(next.binding.id, abandoned);
    assert_eq!(next.expected_generation, 0);
    assert_eq!(next.binding.generation, 1);
    next.confirm_binding(&mut s);
    next.begin_send(&mut s).ok().unwrap();
    next.release(&mut s);
    assert_eq!(s.stats(&cfg, NOW).inflight, 0);
}

#[test]
fn stateless_leases_keep_no_binding_and_each_send_is_used_once() {
    let cfg = RuntimeSettings::default();
    let mut a = account();
    a.max_inflight = 2;
    let k = key(DEFAULT_GROUP_ID);
    let mut s = Scheduler::new(vec![a], vec![], vec![k.clone()]);
    let t1 = enqueue(&mut s, &cfg, &k, "request-one").ok().unwrap();
    let mut first = reserve(&mut s, &cfg, &t1).unwrap();
    first.confirm_stateless(&mut s).ok().unwrap();
    first.begin_send(&mut s).ok().unwrap();
    let t2 = enqueue(&mut s, &cfg, &k, "request-two").ok().unwrap();
    let mut second = reserve(&mut s, &cfg, &t2).unwrap();
    second.confirm_stateless(&mut s).ok().unwrap();
    second.begin_send(&mut s).ok().unwrap();
    assert_eq!(s.stats(&cfg, NOW).inflight, 2);
    assert!(s.bindings.is_empty());
    assert_eq!(first.begin_send(&mut s).err().unwrap().code, "attempt_already_consumed");
    first.release(&mut s);
    second.release(&mut s);
    assert_eq!(s.stats(&cfg, NOW).inflight, 0);
    assert!(s.bindings.is_empty() && s.queues.is_empty() && s.active.is_empty());
}

#[test]
fn a_send_rechecks_the_account_and_the_key() {
    let cfg = RuntimeSettings::default();
    let mut a = account();
    let mut k = key(DEFAULT_GROUP_ID);
    let mut s = Scheduler::new(vec![a.duplicate()], vec![], vec![k.clone()]);
    let t = enqueue(&mut s, &cfg, &k, "recovery").ok().unwrap();
    let mut lease = reserve(&mut s, &cfg, &t).unwrap();
    lease.confirm_binding(&mut s);
    assert!(lease.begin_encrypted_reasoning_recovery(&mut s).is_err());
    lease.begin_send(&mut s).ok().unwrap();
    a.enabled = false;
    s.update_account(a.duplicate());
    assert_eq!(
        lease.begin_encrypted_reasoning_recovery(&mut s).err().unwrap().code,
        "reservation_invalidated"
    );
    a.enabled = true;
    a.group_ids.clear();
    s.update_account(a.duplicate());
    assert_eq!(
        lease.begin_encrypted_reasoning_recovery(&mut s).err().unwrap().code,
        "reservation_invalidated"
    );
    a.group_ids = vec![DEFAULT_GROUP_ID];
    s.update_account(a);
    k.enabled = false;
    s.update_key(k.clone());
    assert_eq!(lease.begin_encrypted_reasoning_recovery(&mut s).err().unwrap().code, "invalid_api_key");
    k.enabled = true;
    s.update_key(k);
    lease.begin_encrypted_reasoning_recovery(&mut s).ok().unwrap();
    assert_eq!(s.stats(&cfg, NOW).inflight, 1);
    assert!(lease.begin_send(&mut s).is_err());
    assert!(lease.begin_encrypted_reasoning_recovery(&mut s).is_err());
    lease.release(&mut s);
    assert_eq!(s.stats(&cfg, NOW).inflight, 0);
}

#[test]
fn a_disabled_bound_account_is_left_only_after_its_leases_drain() {
    let cfg = RuntimeSettings::default();
    let a = account();
    let b = account();
    let k = key(DEFAULT_GROUP_ID);
    let binding = Binding::new(session(&k, "main"), a.id, &ModelRef::codex("test"), 1);
    let mut s = Scheduler::new(vec![a.duplicate(), b.duplicate()], vec![binding], vec![k.clone()]);
    let t1 = enqueue(&mut s, &cfg, &k, "main").ok().unwrap();
    let first = reserve(&mut s, &cfg, &t1).unwrap();
    assert_eq!(first.account.id, a.id);
    let ticket = enqueue(&mut s, &cfg, &k, "main").ok().unwrap();
    assert!(reserve(&mut s, &cfg, &ticket).is_none());
    s.block_account(a.id);
    assert!(reserve(&mut s, &cfg, &ticket).is_none());
    let mut disabled = a.duplicate();
    disabled.enabled = false;
    s.update_account(disabled);
    assert!(reserve(&mut s, &cfg, &ticket).is_none());
    first.release(&mut s);
    let next = reserve(&mut s, &cfg, &ticket).unwrap();
    assert_eq!(next.account.id, b.id);
    assert_eq!(next.binding.generation, 2);
    assert_eq!(next.binding.group_id, DEFAULT_GROUP_ID);
}

#[test]
fn queue_capacity_and_waiting_time_are_enforced() {
    let mut cfg = RuntimeSettings::default();
    cfg.queue_capacity = 1;
    let k = key(DEFAULT_GROUP_ID);
    let mut s = Scheduler::new(vec![account()], vec![], vec![k.clone()]);
    let t = enqueue(&mut s, &cfg, &k, "first").ok().unwrap();
    assert_eq!(code(enqueue(&mut s, &cfg, &k, "second")), "queue_full");
    assert_eq!(s.stats(&cfg, NOW + 250).requests[0].wait_ms, 250);
    cfg.queue_timeout_ms = 100;
    assert!(s.try_reserve(&cfg, NOW + 100, t.id).ok().unwrap().is_none());
    s.remove_waiter(t.id, &t.session);
    assert_eq!(s.stats(&cfg, NOW).queued, 0);
    assert_eq!(s.try_reserve(&cfg, NOW, t.id).err().unwrap().code, "not_found");
}

#[test]
fn pausing_refuses_queueing_and_dispatch() {
    let cfg = RuntimeSettings::default();
    let k = key(DEFAULT_GROUP_ID);
    let mut s = Scheduler::new(vec![account()], vec![], vec![k.clone()]);
    let t = enqueue(&mut s, &cfg, &k, "first").ok().unwrap();
    s.set_paused(true);
    assert_eq!(code(enqueue(&mut s, &cfg, &k, "second")), "storage_unavailable");
    assert_eq!(s.try_reserve(&cfg, NOW, t.id).err().unwrap().code, "storage_unavailable");
    s.set_paused(false);
    assert!(reserve(&mut s, &cfg, &t).is_some());
}

#[test]
fn a_blocked_key_waits_for_its_update() {
    let cfg = RuntimeSettings::default();
    let k = key(DEFAULT_GROUP_ID);
    let mut s = Scheduler::new(vec![account()], vec![], vec![k.clone()]);
    s.block_key(k.id);
    assert_eq!(code(enqueue(&mut s, &cfg, &k, "first")), "key_updating");
    s.update_key(k.clone());
    assert!(enqueue(&mut s, &cfg, &k, "first").is_ok());
}

#[test]
fn memory_leases_stay_within_the_budget() {
    let mut budget = MemoryBudget::new();
    let mut a = budget.lease();
    let mut b = budget.lease();
    a.grow(&mut budget, 100, 60).ok().unwrap();
    assert_eq!(b.grow(&mut budget, 100, 50).err().unwrap().code, "memory_limit");
    b.resize(&mut budget, 100, 40).ok().unwrap();
    assert_eq!(budget.used(), 100);
    a.resize(&mut budget, 100, 10).ok().unwrap();
    assert_eq!(budget.used(), 50);
    a.release(&mut budget);
    b.release(&mut budget);
    assert_eq!(budget.used(), 0);
}
