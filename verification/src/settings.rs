//! Runtime limits that administrators tune while the gateway runs.
use vstd::prelude::*;
use crate::types::{Error, Result, plain_error};

verus! {

#[derive(Debug, Clone, Copy)]
pub struct RuntimeSettings {
    pub version: i64,
    pub queue_timeout_ms: u64,
    pub heartbeat_interval_ms: u64,
    pub connect_timeout_ms: u64,
    pub sse_idle_timeout_ms: u64,
    pub queue_capacity: usize,
    pub queue_memory_bytes: usize,
    pub request_body_limit_bytes: usize,
    pub sse_event_limit_bytes: usize,
    pub global_max_inflight: u32,
    pub session_max_inflight: u32,
    pub default_account_concurrency: u32,
    pub quota_poll_interval_secs: u64,
    pub quota_stale_after_secs: u64,
    pub request_retention_days: u32,
    pub audit_retention_days: u32,
}

pub open spec fn timeout_ok(v: u64) -> bool {
    100 <= v <= 86_400_000
}

/// The message of the first rule that `s` breaks, checked in a fixed order;
/// `None` when every limit is in range.
pub open spec fn settings_violation(s: RuntimeSettings) -> Option<Seq<char>> {
    if !timeout_ok(s.queue_timeout_ms) {
        Some("queue_timeout_ms must be between 100 and 86400000"@)
    } else if !timeout_ok(s.connect_timeout_ms) {
        Some("connect_timeout_ms must be between 100 and 86400000"@)
    } else if !timeout_ok(s.sse_idle_timeout_ms) {
        Some("sse_idle_timeout_ms must be between 100 and 86400000"@)
    } else if !(50 <= s.heartbeat_interval_ms <= 60_000) {
        Some("Heartbeat interval must be between 50 and 60000 ms"@)
    } else if s.queue_capacity == 0 || s.queue_capacity > 100_000 || s.global_max_inflight == 0
        || s.global_max_inflight > 10_000 || s.session_max_inflight == 0
        || s.session_max_inflight > 1000 || s.default_account_concurrency == 0
        || s.default_account_concurrency > 1000 {
        Some("Invalid concurrency or queue capacity"@)
    } else if s.request_body_limit_bytes < 1024 || s.request_body_limit_bytes > 256 * 1024 * 1024
        || s.sse_event_limit_bytes < 1024 || s.sse_event_limit_bytes > 256 * 1024 * 1024
        || s.queue_memory_bytes < 1024 * 1024 || s.queue_memory_bytes > 16 * 1024 * 1024
        * 1024 {
        Some("Invalid request, event or queue memory limit"@)
    } else if !(30 <= s.quota_poll_interval_secs <= 86_400) || s.quota_stale_after_secs
        < s.quota_poll_interval_secs || s.quota_stale_after_secs > 604_800 {
        Some("Invalid quota collection interval"@)
    } else if s.request_retention_days == 0 || s.audit_retention_days == 0
        || s.request_retention_days > 3650 || s.audit_retention_days > 3650 {
        Some("Retention must be between 1 and 3650 days"@)
    } else {
        None
    }
}

impl Default for RuntimeSettings {
    fn default() -> (r: Self)
        ensures
            r.version == 1,
            r.queue_timeout_ms == 300_000,
            r.heartbeat_interval_ms == 10_000,
            r.connect_timeout_ms == 15_000,
            r.sse_idle_timeout_ms == 300_000,
            r.queue_capacity == 2000,
            r.queue_memory_bytes == 512 * 1024 * 1024,
            r.request_body_limit_bytes == 32 * 1024 * 1024,
            r.sse_event_limit_bytes == 64 * 1024 * 1024,
            r.global_max_inflight == 200,
            r.session_max_inflight == 2,
            r.default_account_concurrency == 2,
            r.quota_poll_interval_secs == 300,
            r.quota_stale_after_secs == 900,
            r.request_retention_days == 30,
            r.audit_retention_days == 180,
    {
        RuntimeSettings {
            version: 1,
            queue_timeout_ms: 300_000,
            heartbeat_interval_ms: 10_000,
            connect_timeout_ms: 15_000,
            sse_idle_timeout_ms: 300_000,
            queue_capacity: 2000,
            queue_memory_bytes: 512 * 1024 * 1024,
            request_body_limit_bytes: 32 * 1024 * 1024,
            sse_event_limit_bytes: 64 * 1024 * 1024,
            global_max_inflight: 200,
            session_max_inflight: 2,
            default_account_concurrency: 2,
            quota_poll_interval_secs: 300,
            quota_stale_after_secs: 900,
            request_retention_days: 30,
            audit_retention_days: 180,
        }
    }
}

fn timeout_in_range(v: u64) -> (r: bool)
    ensures
        r == timeout_ok(v),
{
    100 <= v && v <= 86_400_000
}

impl RuntimeSettings {
    /// Accepts the settings exactly when every limit is in range; otherwise
    /// reports the first broken rule as an invalid request.
    pub fn validate(&self) -> (r: Result<()>)
        ensures
            match settings_violation(*self) {
                None => r is Ok,
                Some(m) => r matches Err(e) && plain_error(e, 400, "invalid_request"@, m),
            },
    {
        if !timeout_in_range(self.queue_timeout_ms) {
            return Err(Error::invalid("queue_timeout_ms must be between 100 and 86400000"));
        }
        if !timeout_in_range(self.connect_timeout_ms) {
            return Err(Error::invalid("connect_timeout_ms must be between 100 and 86400000"));
        }
        if !timeout_in_range(self.sse_idle_timeout_ms) {
            return Err(Error::invalid("sse_idle_timeout_ms must be between 100 and 86400000"));
        }
        if !(50 <= self.heartbeat_interval_ms && self.heartbeat_interval_ms <= 60_000) {
            return Err(Error::invalid("Heartbeat interval must be between 50 and 60000 ms"));
        }
        if self.queue_capacity == 0 || self.queue_capacity > 100_000 || self.global_max_inflight
            == 0 || self.global_max_inflight > 10_000 || self.session_max_inflight == 0
            || self.session_max_inflight > 1000 || self.default_account_concurrency == 0
            || self.default_account_concurrency > 1000 {
            return Err(Error::invalid("Invalid concurrency or queue capacity"));
        }
        if self.request_body_limit_bytes < 1024 || self.request_body_limit_bytes > 256 * 1024
            * 1024 || self.sse_event_limit_bytes < 1024 || self.sse_event_limit_bytes > 256
            * 1024 * 1024 || self.queue_memory_bytes < 1024 * 1024 || self.queue_memory_bytes
            as u128 > 16 * 1024 * 1024 * 1024 {
            return Err(Error::invalid("Invalid request, event or queue memory limit"));
        }
        if !(30 <= self.quota_poll_interval_secs && self.quota_poll_interval_secs <= 86_400)
            || self.quota_stale_after_secs < self.quota_poll_interval_secs
            || self.quota_stale_after_secs > 604_800 {
            return Err(Error::invalid("Invalid quota collection interval"));
        }
        if self.request_retention_days == 0 || self.audit_retention_days == 0
            || self.request_retention_days > 3650 || self.audit_retention_days > 3650 {
            return Err(Error::invalid("Retention must be between 1 and 3650 days"));
        }
        Ok(())
    }
}

} // verus!
