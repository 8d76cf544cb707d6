//! Report filters: aggregate usage windows and error investigations.
use vstd::prelude::*;
use crate::clients::ClientSource;
use crate::protocol::RequestKind;
use crate::text::{byte_len, has_control, has_control_spec, len_bytes, str_eq};
use crate::time::{Timestamp, chrono_shift, in_range};
use crate::types::{Error, Result, plain_error};

verus! {

#[derive(Debug)]
pub struct UsageFilter {
    pub account_id: Option<u128>,
    pub key_id: Option<u128>,
    pub model: Option<String>,
    pub service_tier: Option<String>,
    pub from: Option<Timestamp>,
    pub to: Option<Timestamp>,
}

#[derive(Debug)]
pub struct RequestFilter {
    pub client_source: Option<ClientSource>,
    pub kind: Option<RequestKind>,
    pub account_id: Option<u128>,
    pub key_id: Option<u128>,
    pub state: Option<String>,
    pub model: Option<String>,
    pub session_id: Option<String>,
    pub id: Option<u128>,
    pub from: Option<Timestamp>,
    pub to: Option<Timestamp>,
    pub limit: Option<i64>,
    pub offset: Option<i64>,
}

#[derive(Debug)]
pub struct ErrorFilter {
    pub from: Option<Timestamp>,
    pub to: Option<Timestamp>,
    pub account_id: Option<u128>,
    pub key_id: Option<u128>,
    pub model: Option<String>,
    pub kind: Option<RequestKind>,
    pub state: Option<String>,
    pub code: Option<String>,
    pub stage: Option<String>,
    pub upstream_status: Option<u16>,
    pub upstream_missing: bool,
    pub cause: Option<String>,
    pub param: Option<String>,
    pub session_id: Option<String>,
    pub request_id: Option<u128>,
    pub q: Option<String>,
    pub limit: Option<i64>,
    pub offset: Option<i64>,
}

pub open spec fn whole_hour(t: Timestamp) -> bool {
    t.secs % 3600 == 0 && t.nanos == 0
}

pub open spec fn opt_ts_wf(t: Option<Timestamp>) -> bool {
    t matches Some(x) ==> x.wf()
}

impl UsageFilter {
    /// The start must precede the end, and both boundaries fall on whole hours.
    pub fn validate(&self) -> (r: Result<()>)
        requires
            opt_ts_wf(self.from),
            opt_ts_wf(self.to),
        ensures
            (self.from matches Some(f) && self.to matches Some(t) && f.ns() >= t.ns()) ==> (r matches Err(e)
                && plain_error(e, 400, "invalid_request"@, "Report start must precede its end"@)),
            !(self.from matches Some(f) && self.to matches Some(t) && f.ns() >= t.ns()) && ((
            self.from matches Some(f) && !whole_hour(f)) || (self.to matches Some(t)
                && !whole_hour(t))) ==> (r matches Err(e) && plain_error(
                e,
                400,
                "invalid_request"@,
                "Aggregate report boundaries must use whole hours"@,
            )),
            !(self.from matches Some(f) && self.to matches Some(t) && f.ns() >= t.ns()) && !((
            self.from matches Some(f) && !whole_hour(f)) || (self.to matches Some(t)
                && !whole_hour(t))) ==> r is Ok,
    {
        if let (Some(from), Some(to)) = (&self.from, &self.to) {
            if !from.before(to) {
                return Err(Error::invalid("Report start must precede its end"));
            }
        }
        let from_bad = match &self.from {
            Some(f) => !f.whole_hour(),
            None => false,
        };
        let to_bad = match &self.to {
            Some(t) => !t.whole_hour(),
            None => false,
        };
        if from_bad || to_bad {
            return Err(Error::invalid("Aggregate report boundaries must use whole hours"));
        }
        Ok(())
    }
}

pub open spec fn text_filter_ok(v: Option<String>) -> bool {
    v matches Some(s) ==> byte_len(s@) <= 512 && !has_control_spec(s@)
}

pub open spec fn state_ok(v: Option<String>) -> bool {
    v matches Some(s) ==> (s@ == "failed"@ || s@ == "rejected"@ || s@ == "interrupted"@ || s@
        == "cancelled"@)
}

/// The filter rules other than the time range.
pub open spec fn filter_fields_ok(f: ErrorFilter) -> bool {
    &&& state_ok(f.state)
    &&& f.upstream_status matches Some(s) ==> 100 <= s <= 599
    &&& !(f.upstream_missing && f.upstream_status is Some)
    &&& f.limit matches Some(l) ==> 1 <= l <= 100
    &&& f.offset matches Some(o) ==> o >= 0
}

pub open spec fn text_filters_ok(f: ErrorFilter) -> bool {
    &&& text_filter_ok(f.model)
    &&& text_filter_ok(f.code)
    &&& text_filter_ok(f.stage)
    &&& text_filter_ok(f.cause)
    &&& text_filter_ok(f.param)
    &&& text_filter_ok(f.session_id)
    &&& text_filter_ok(f.q)
}

fn text_filter_valid(v: &Option<String>) -> (r: bool)
    ensures
        r == text_filter_ok(*v),
{
    match v {
        Some(s) => len_bytes(s.as_str()) <= 512 && !has_control(s.as_str()),
        None => true,
    }
}

pub open spec fn day_ns() -> int {
    86_400_000_000_000
}

impl ErrorFilter {
    /// The investigated range: `to` defaults to `now` and `from` to 24 hours
    /// before `to`; the range must be positive and at most 31 days, and the
    /// other filters within their limits.
    pub fn window(&self, now: Timestamp) -> (r: Result<(Timestamp, Timestamp)>)
        requires
            now.wf(),
            in_range(now.secs as int),
            self.from matches Some(f) ==> f.wf() && in_range(f.secs as int),
            self.to matches Some(t) ==> t.wf() && in_range(t.secs as int),
        ensures
            ({
                let to = match self.to {
                    Some(t) => t,
                    None => now,
                };
                let from = match self.from {
                    Some(f) => Some(f),
                    None => if in_range(to.secs - 86400) {
                        Some(Timestamp { secs: (to.secs - 86400) as i64, nanos: to.nanos })
                    } else {
                        None
                    },
                };
                match from {
                    None => r matches Err(e) && plain_error(
                        e,
                        400,
                        "invalid_request"@,
                        "Invalid error report end time"@,
                    ),
                    Some(from) => if from.ns() >= to.ns() || to.ns() - from.ns() > 31 * day_ns() {
                        r matches Err(e) && plain_error(
                            e,
                            400,
                            "invalid_request"@,
                            "Error report range must be positive and at most 31 days"@,
                        )
                    } else if !filter_fields_ok(*self) {
                        r matches Err(e) && plain_error(
                            e,
                            400,
                            "invalid_request"@,
                            "Invalid error report filter"@,
                        )
                    } else if !text_filters_ok(*self) {
                        r matches Err(e) && plain_error(
                            e,
                            400,
                            "invalid_request"@,
                            "Error filters must be at most 512 bytes without control characters"@,
                        )
                    } else {
                        r == Ok::<(Timestamp, Timestamp), Error>((from, to))
                    },
                }
            }),
    {
        let to = match &self.to {
            Some(t) => *t,
            None => now,
        };
        let from = match &self.from {
            Some(f) => *f,
            None => match chrono_shift(to, -86400) {
                Some(f) => f,
                None => {
                    return Err(Error::invalid("Invalid error report end time"));
                },
            },
        };
        // 31 days, compared exactly in nanoseconds.
        let span_ok = if from.before(&to) {
            let dsecs = (to.secs as i128) - (from.secs as i128);
            let dns = dsecs * 1_000_000_000 + (to.nanos as i128) - (from.nanos as i128);
            dns <= 31 * 86_400_000_000_000
        } else {
            false
        };
        if !span_ok {
            return Err(Error::invalid("Error report range must be positive and at most 31 days"));
        }
        proof {
            reveal_strlit("failed");
            reveal_strlit("rejected");
            reveal_strlit("interrupted");
            reveal_strlit("cancelled");
        }
        let state_valid = match &self.state {
            Some(s) => str_eq(s.as_str(), "failed") || str_eq(s.as_str(), "rejected") || str_eq(
                s.as_str(),
                "interrupted",
            ) || str_eq(s.as_str(), "cancelled"),
            None => true,
        };
        let status_valid = match self.upstream_status {
            Some(s) => 100 <= s && s <= 599,
            None => true,
        };
        let limit_valid = match self.limit {
            Some(l) => 1 <= l && l <= 100,
            None => true,
        };
        let offset_valid = match self.offset {
            Some(o) => o >= 0,
            None => true,
        };
        if !state_valid || !status_valid || (self.upstream_missing && self.upstream_status.is_some())
            || !limit_valid || !offset_valid {
            return Err(Error::invalid("Invalid error report filter"));
        }
        if !text_filter_valid(&self.model) || !text_filter_valid(&self.code) || !text_filter_valid(
            &self.stage,
        ) || !text_filter_valid(&self.cause) || !text_filter_valid(&self.param)
            || !text_filter_valid(&self.session_id) || !text_filter_valid(&self.q) {
            return Err(
                Error::invalid("Error filters must be at most 512 bytes without control characters"),
            );
        }
        Ok((from, to))
    }
}

} // verus!
