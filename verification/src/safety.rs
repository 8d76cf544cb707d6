//! Upstream safety rejections remembered per gateway key and client session.
//! No request body, model, thread or account takes part in this decision.
use vstd::prelude::*;
use vstd::string::StringExecFns;
use crate::identity::{SessionKey, session_view};
use crate::types::{Error, Result, UpstreamError, error_is, same_upstream, unbox_upstream};

verus! {

pub open spec fn blocked_message(previous: Seq<char>) -> Seq<char> {
    "The gateway blocked this session without contacting the upstream because an earlier request in this session was rejected by upstream safety policy. Previous rejection: "@
        + previous
}

/// The error that answers a session blocked after `previous`.
pub fn blocked(previous: Error) -> (r: Error)
    ensures
        error_is(r, 403, "session_safety_blocked"@, blocked_message(previous.message@)),
        unbox_upstream(r.upstream) == unbox_upstream(previous.upstream),
        r.attached_message() is None,
{
    let message = String::from_str(
        "The gateway blocked this session without contacting the upstream because an earlier request in this session was rejected by upstream safety policy. Previous rejection: ",
    ).concat(previous.message.as_str());
    let upstream: Option<UpstreamError> = match previous.upstream {
        Some(b) => Some(*b),
        None => None,
    };
    Error::new(403, "session_safety_blocked", message.as_str()).with_upstream(upstream)
}

pub struct SafetyEntry {
    pub session: SessionKey,
    pub error: Error,
}

/// Sessions blocked by an explicit upstream safety decision, with the first
/// rejection that blocked each of them.
pub struct SafetyGuard {
    entries: Vec<SafetyEntry>,
}

impl SafetyGuard {
    pub closed spec fn view(self) -> Map<(u128, Seq<char>), Error> {
        Map::new(
            |k: (u128, Seq<char>)|
                exists|i: int| 0 <= i < self.entries@.len() && session_view(#[trigger] self.entries@[i].session) == k,
            |k: (u128, Seq<char>)|
                self.entries@[choose|i: int|
                    0 <= i < self.entries@.len() && session_view(#[trigger] self.entries@[i].session)
                        == k].error,
        )
    }

    pub closed spec fn wf(self) -> bool {
        forall|i: int, j: int|
            0 <= i < j < self.entries@.len() ==> session_view(#[trigger] self.entries@[i].session)
                != session_view(#[trigger] self.entries@[j].session)
    }

    pub fn new() -> (r: Self)
        ensures
            r.wf(),
            r.view() == Map::<(u128, Seq<char>), Error>::empty(),
    {
        let r = SafetyGuard { entries: Vec::new() };
        assert(r.view() =~= Map::<(u128, Seq<char>), Error>::empty());
        r
    }

    fn find(&self, session: &SessionKey) -> (r: Option<usize>)
        requires
            self.wf(),
        ensures
            match r {
                Some(i) => i < self.entries@.len() && session_view(self.entries@[i as int].session)
                    == session_view(*session) && self.view().contains_key(session_view(*session))
                    && self.view()[session_view(*session)] == self.entries@[i as int].error,
                None => !self.view().contains_key(session_view(*session)),
            },
    {
        let mut i: usize = 0;
        while i < self.entries.len()
            invariant
                i <= self.entries@.len(),
                self.wf(),
                forall|j: int|
                    0 <= j < i ==> session_view(#[trigger] self.entries@[j].session) != session_view(
                        *session,
                    ),
            decreases self.entries@.len() - i,
        {
            if self.entries[i].session.same(session) {
                proof {
                    let k = session_view(*session);
                    let j = choose|j: int|
                        0 <= j < self.entries@.len() && session_view(#[trigger] self.entries@[j].session)
                            == k;
                    if j != i {
                        if j < i {
                            assert(session_view(self.entries@[j].session) != session_view(
                                self.entries@[i as int].session,
                            ));
                        } else {
                            assert(session_view(self.entries@[i as int].session) != session_view(
                                self.entries@[j].session,
                            ));
                        }
                    }
                }
                return Some(i);
            }
            i = i + 1;
        }
        None
    }

    /// A blocked session is refused with the error derived from its first
/// rejection; the refusal carries no text for the caller.
    pub fn check(&self, session: &SessionKey) -> (r: Result<()>)
        requires
            self.wf(),
        ensures
            !self.view().contains_key(session_view(*session)) ==> r is Ok,
            self.view().contains_key(session_view(*session)) ==> (r matches Err(e) && error_is(
                e,
                403,
                "session_safety_blocked"@,
                blocked_message(self.view()[session_view(*session)].message@),
            ) && same_upstream(
                unbox_upstream(e.upstream),
                unbox_upstream(self.view()[session_view(*session)].upstream),
            ) && e.attached_message() is None),
    {
        match self.find(session) {
            Some(i) => Err(blocked(self.entries[i].error.duplicate())),
            None => Ok(()),
        }
    }

    /// Records a rejection for a session; the first recorded rejection is kept.
    pub fn remember(&mut self, session: SessionKey, error: Error)
        requires
            old(self).wf(),
        ensures
            final(self).wf(),
            old(self).view().contains_key(session_view(session)) ==> final(self).view()
                == old(self).view(),
            !old(self).view().contains_key(session_view(session)) ==> final(self).view().dom()
                == old(self).view().dom().insert(session_view(session)),
            forall|k| #[trigger] old(self).view().contains_key(k) ==> final(self).view()[k]
                == old(self).view()[k],
            !old(self).view().contains_key(session_view(session)) ==> error_is(
                final(self).view()[session_view(session)],
                error.status,
                error.code@,
                error.message@,
            ),
            !old(self).view().contains_key(session_view(session)) ==> unbox_upstream(
                final(self).view()[session_view(session)].upstream,
            ) == unbox_upstream(error.upstream),
            !old(self).view().contains_key(session_view(session)) ==> final(self).view()[session_view(session)].attached_message() is None,
    {
        if self.find(&session).is_some() {
            return;
        }
        let upstream: Option<UpstreamError> = match error.upstream {
            Some(b) => Some(*b),
            None => None,
        };
        let saved = Error::new(error.status, error.code.as_str(), error.message.as_str())
            .with_upstream(upstream);
        let ghost before = self.entries@;
        let ghost k = session_view(session);
        self.entries.push(SafetyEntry { session, error: saved });
        proof {
            assert forall|i: int, j: int|
                0 <= i < j < self.entries@.len() implies session_view(
                #[trigger] self.entries@[i].session,
            ) != session_view(#[trigger] self.entries@[j].session) by {
                if j < before.len() {
                    assert(self.entries@[i] == before[i] && self.entries@[j] == before[j]);
                } else {
                    assert(self.entries@[i] == before[i]);
                }
            }
            assert forall|q| #[trigger] self.view().contains_key(q) == old(self).view().dom().insert(k).contains(q) by {
                if q != k && old(self).view().contains_key(q) {
                    let j = choose|j: int|
                        0 <= j < before.len() && session_view(#[trigger] before[j].session) == q;
                    assert(self.entries@[j] == before[j]);
                }
                if q != k && self.view().contains_key(q) {
                    let j = choose|j: int|
                        0 <= j < self.entries@.len() && session_view(#[trigger] self.entries@[j].session) == q;
                    assert(j < before.len());
                    assert(self.entries@[j] == before[j]);
                }
                if q == k {
                    assert(session_view(self.entries@[before.len() as int].session) == k);
                }
            }
            assert(self.view().dom() =~= old(self).view().dom().insert(k));
            assert forall|q| #[trigger] old(self).view().contains_key(q) implies self.view()[q] == old(self).view()[q] by {
                let j = choose|j: int|
                    0 <= j < self.entries@.len() && session_view(#[trigger] self.entries@[j].session) == q;
                let j0 = choose|j: int|
                    0 <= j < before.len() && session_view(#[trigger] before[j].session) == q;
                assert(self.entries@[j0] == before[j0]);
                if j != j0 {
                    if j < j0 {
                        assert(session_view(self.entries@[j].session) != session_view(self.entries@[j0].session));
                    } else {
                        assert(session_view(self.entries@[j0].session) != session_view(self.entries@[j].session));
                    }
                }
            }
            let j = choose|j: int|
                0 <= j < self.entries@.len() && session_view(#[trigger] self.entries@[j].session) == k;
            if j != before.len() {
                assert(session_view(self.entries@[j].session) != session_view(
                    self.entries@[before.len() as int].session,
                ));
            }
        }
    }
}

} // verus!
