//! Decisions of the gateway around one request: which configured model
//! serves it when it is accepted and again just before it is sent, and the
//! status its completion reports.
use vstd::prelude::*;
use crate::accounts::DisableReason;
use crate::providers::ModelSpec;
use crate::text::str_eq;
use crate::types::{Error, Result, plain_error, same_model};

verus! {

/// `i` is the first enabled model named `id` among `models`, or, with
/// `i == models.len()`, there is none.
pub open spec fn first_enabled(models: Seq<ModelSpec>, id: Seq<char>, i: int) -> bool {
    &&& 0 <= i <= models.len()
    &&& i < models.len() ==> models[i].id@ == id && models[i].enabled
    &&& forall|j: int| 0 <= j < i ==> !(#[trigger] models[j].id@ == id && models[j].enabled)
}

fn find_enabled(models: &Vec<ModelSpec>, id: &str) -> (r: usize)
    ensures
        first_enabled(models@, id@, r as int),
{
    let mut i: usize = 0;
    while i < models.len()
        invariant
            i <= models@.len(),
            forall|j: int| 0 <= j < i ==> !(#[trigger] models@[j].id@ == id@ && models@[j].enabled),
        decreases models@.len() - i,
    {
        if models[i].enabled && str_eq(models[i].id.as_str(), id) {
            return i;
        }
        i = i + 1;
    }
    i
}

/// The model that accepts a request: the first enabled model with the
/// requested name.
pub fn configured_model(models: &Vec<ModelSpec>, id: &str) -> (r: Result<usize>)
    ensures
        match r {
            Ok(i) => i < models@.len() && first_enabled(models@, id@, i as int),
            Err(e) => first_enabled(models@, id@, models@.len() as int) && plain_error(
                e,
                400,
                "model_not_configured"@,
                "The requested model is not enabled in the gateway"@,
            ),
        },
{
    let i = find_enabled(models, id);
    if i < models.len() {
        Ok(i)
    } else {
        Err(Error::new(400, "model_not_configured", "The requested model is not enabled in the gateway"))
    }
}

/// The model a request is sent with, read again just before dispatch: it
/// must still be enabled and still route to the upstream model the request
/// was accepted for.
pub fn dispatch_model(models: &Vec<ModelSpec>, accepted: &ModelSpec) -> (r: Result<usize>)
    ensures
        match r {
            Ok(i) => i < models@.len() && first_enabled(models@, accepted.id@, i as int)
                && same_model(models@[i as int].upstream, accepted.upstream),
            Err(e) => {
                let i = choose|i: int| first_enabled(models@, accepted.id@, i);
                &&& first_enabled(models@, accepted.id@, i)
                &&& i == models@.len() ==> plain_error(
                    e,
                    400,
                    "model_disabled"@,
                    "The model was disabled before dispatch"@,
                )
                &&& i < models@.len() ==> !same_model(models@[i].upstream, accepted.upstream)
                    && plain_error(
                    e,
                    409,
                    "model_route_changed"@,
                    "The model route changed before dispatch"@,
                )
            },
        },
{
    let i = find_enabled(models, accepted.id.as_str());
    proof {
        let c = choose|c: int| first_enabled(models@, accepted.id@, c);
        assert(first_enabled(models@, accepted.id@, i as int));
        if c < i {
            assert(!(models@[c].id@ == accepted.id@ && models@[c].enabled));
        } else if i < c {
            assert(!(models@[i as int].id@ == accepted.id@ && models@[i as int].enabled));
        }
    }
    if i == models.len() {
        return Err(Error::new(400, "model_disabled", "The model was disabled before dispatch"));
    }
    if !models[i].upstream.same(&accepted.upstream) {
        return Err(Error::new(409, "model_route_changed", "The model route changed before dispatch"));
    }
    Ok(i)
}

/// The status a completed request reports: a passed-through upstream body
/// keeps the upstream status; otherwise a failure reports its own status,
/// capped at 599, and a success reports 200.
pub open spec fn completion_status_spec(
    failure: Option<u16>,
    raw_body: bool,
    upstream_status: Option<u16>,
) -> u16 {
    match failure {
        Some(s) => if raw_body {
            match upstream_status {
                Some(u) => u,
                None => s,
            }
        } else if s < 599 {
            s
        } else {
            599
        },
        None => if raw_body {
            match upstream_status {
                Some(u) => u,
                None => 200,
            }
        } else {
            200
        },
    }
}

pub fn completion_status(failure: Option<u16>, raw_body: bool, upstream_status: Option<u16>) -> (r: u16)
    ensures
        r == completion_status_spec(failure, raw_body, upstream_status),
{
    let fallback: u16 = match failure {
        Some(s) => s,
        None => 200,
    };
    if raw_body {
        match upstream_status {
            Some(u) => u,
            None => fallback,
        }
    } else if fallback < 599 {
        fallback
    } else {
        599
    }
}


/// How one upstream attempt of a request failed.
pub struct AttemptFailure {
    /// The gateway error the attempt ended with.
    pub error: Error,
    /// The account state the failure implies.
    pub disable: Option<DisableReason>,
    /// The failure rejected the request's encrypted content and the request
    /// was cleaned up for another attempt. Transport, authorization and
    /// overload failures never are.
    pub recoverable: bool,
}

/// What the gateway does after a failed attempt.
pub enum AttemptAction {
    /// Send the cleaned-up request once more.
    Retry,
    /// Answer with the error; remember it against the session when it is a
    /// safety rejection; disable the account where the failure says so.
    Fail { error: Error, remember_safety: bool, disable: Option<DisableReason> },
}

/// A safety rejection is remembered only for a content-policy refusal of a
/// request that has a session.
pub open spec fn remembers_safety(code: Seq<char>, stateless: bool) -> bool {
    code == "upstream_content_policy_violation"@ && !stateless
}

/// The step after a failed attempt: a request is sent again at most once,
/// after a recoverable rejection of its encrypted content on the first
/// attempt; any other failure answers the request.
pub fn after_attempt(attempts: u32, stateless: bool, failure: AttemptFailure) -> (r: AttemptAction)
    ensures
        (r is Retry) <==> (attempts == 1 && failure.recoverable),
        !(attempts == 1 && failure.recoverable) ==> (r matches AttemptAction::Fail {
            error,
            remember_safety,
            disable,
        } && error == failure.error && remember_safety == remembers_safety(
            failure.error.code@,
            stateless,
        ) && disable == failure.disable),
{
    if attempts == 1 && failure.recoverable {
        return AttemptAction::Retry;
    }
    let remember_safety = !stateless && str_eq(
        failure.error.code.as_str(),
        "upstream_content_policy_violation",
    );
    AttemptAction::Fail { error: failure.error, remember_safety, disable: failure.disable }
}

/// What the gateway does when the lease's first send is refused or allowed.
pub enum SendStep {
    Send,
    /// The account or group changed: wait for another reservation.
    Reserve,
}

/// After `begin_send`: send when allowed, reserve again when the reservation
/// was invalidated, and fail otherwise.
pub fn after_begin_send(begun: Result<()>) -> (r: Result<SendStep>)
    ensures
        begun is Ok ==> r == Ok::<SendStep, Error>(SendStep::Send),
        begun matches Err(e) ==> if e.code@ == "reservation_invalidated"@ {
            r == Ok::<SendStep, Error>(SendStep::Reserve)
        } else {
            r == Err::<SendStep, Error>(e)
        },
{
    match begun {
        Ok(()) => Ok(SendStep::Send),
        Err(e) => if str_eq(e.code.as_str(), "reservation_invalidated") {
            Ok(SendStep::Reserve)
        } else {
            Err(e)
        },
    }
}

} // verus!
