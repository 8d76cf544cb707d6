//! Delivery of a response's events to the client while an encrypted-content
//! recovery is still possible. The first events of such an attempt (the
//! preamble) are held back, within fixed bounds, so that a rejected request
//! can be sent again without the client having seen any of it; the first
//! other event releases them. A terminal event always reaches a streaming
//! client.
use vstd::prelude::*;

verus! {

/// At most this many preamble events are held back.
pub const MAX_HELD_EVENTS: usize = 16;

/// At most this many bytes of preamble events are held back.
pub const MAX_HELD_BYTES: usize = 65536;

pub open spec fn bytes_of(s: Seq<Vec<u8>>) -> Seq<Seq<u8>> {
    s.map_values(|v: Vec<u8>| v@)
}

/// The number of bytes of the events.
pub open spec fn total_len(s: Seq<Seq<u8>>) -> nat
    decreases s.len(),
{
    if s.len() == 0 {
        0
    } else {
        total_len(s.drop_last()) + s.last().len()
    }
}

/// Whether an event may join the held preamble.
pub open spec fn joins_preamble(held: Seq<Seq<u8>>, bytes: Seq<u8>, preamble: bool) -> bool {
    preamble && held.len() < MAX_HELD_EVENTS && total_len(held) + bytes.len() <= MAX_HELD_BYTES
}

/// The events to deliver when one is accepted: the held preamble where the
/// event releases it, then the event itself where it is not held (a terminal
/// event is never held back), and nothing for a client that does not stream.
pub open spec fn released(
    stream: bool,
    holding: bool,
    held: Seq<Seq<u8>>,
    bytes: Seq<u8>,
    preamble: bool,
    terminal: bool,
) -> Seq<Seq<u8>> {
    let keep = holding && joins_preamble(held, bytes, preamble);
    if !stream {
        Seq::empty()
    } else {
        (if holding && !keep {
            held
        } else {
            Seq::empty()
        }) + (if terminal || !keep {
            seq![bytes]
        } else {
            Seq::empty()
        })
    }
}

/// The events of one upstream attempt on their way to the client.
pub struct Delivery {
    stream: bool,
    holding: bool,
    held: Vec<Vec<u8>>,
    held_bytes: usize,
    accepted: Ghost<Seq<Seq<u8>>>,
    delivered: Ghost<Seq<Seq<u8>>>,
    ended: Ghost<bool>,
}

impl Delivery {
    /// Whether the client streams.
    pub closed spec fn streaming(&self) -> bool {
        self.stream
    }

    /// Whether events are still held back.
    pub closed spec fn is_holding(&self) -> bool {
        self.holding
    }

    /// The preamble held back, in order.
    pub closed spec fn held(&self) -> Seq<Seq<u8>> {
        bytes_of(self.held@)
    }

    /// Every event accepted, in order.
    pub closed spec fn accepted(&self) -> Seq<Seq<u8>> {
        self.accepted@
    }

    /// Every event handed out for delivery, in order.
    pub closed spec fn delivered(&self) -> Seq<Seq<u8>> {
        self.delivered@
    }

    /// Whether a terminal event was accepted.
    pub closed spec fn ended(&self) -> bool {
        self.ended@
    }

    pub closed spec fn wf(&self) -> bool {
        &&& self.held@.len() <= MAX_HELD_EVENTS
        &&& self.held_bytes == total_len(bytes_of(self.held@))
        &&& self.held_bytes <= MAX_HELD_BYTES
        &&& !self.holding ==> self.held@.len() == 0
        &&& !self.stream ==> self.delivered@.len() == 0
        &&& self.stream && !self.ended@ ==> self.delivered@ + bytes_of(self.held@) == self.accepted@
        &&& self.holding && !self.ended@ ==> self.delivered@.len() == 0
    }

    /// A new attempt. Events are held back only where a rejection of the
    /// request's encrypted content could still be recovered.
    pub fn new(stream: bool, recoverable: bool) -> (r: Self)
        ensures
            r.wf(),
            r.streaming() == stream,
            r.is_holding() == recoverable,
            r.held().len() == 0,
            r.accepted().len() == 0,
            r.delivered().len() == 0,
            !r.ended(),
    {
        let r = Delivery {
            stream,
            holding: recoverable,
            held: Vec::new(),
            held_bytes: 0,
            accepted: Ghost(Seq::empty()),
            delivered: Ghost(Seq::empty()),
            ended: Ghost(false),
        };
        proof {
            assert(bytes_of(r.held@) =~= Seq::<Seq<u8>>::empty());
            assert(r.delivered@ + bytes_of(r.held@) =~= r.accepted@);
        }
        r
    }

    pub fn holding(&self) -> (r: bool)
        ensures
            r == self.is_holding(),
    {
        self.holding
    }

    /// Heartbeats keep a streaming client waiting while events are held back.
    pub fn heartbeat_due(&self) -> (r: bool)
        ensures
            r == (self.is_holding() && self.streaming()),
    {
        self.holding && self.stream
    }

    /// A rejection of encrypted content may be recovered by sending the
    /// request again only while events are held back.
    pub fn may_recover(&self, rejected: bool) -> (r: bool)
        requires
            self.wf(),
        ensures
            r == (rejected && self.is_holding()),
            r && !self.ended() ==> self.delivered().len() == 0,
    {
        rejected && self.holding
    }

    /// Accepts the next event of the attempt and returns what is to be
    /// delivered now, in order.
    pub fn accept(&mut self, bytes: Vec<u8>, preamble: bool, terminal: bool) -> (r: Vec<Vec<u8>>)
        requires
            old(self).wf(),
        ensures
            final(self).wf(),
            final(self).streaming() == old(self).streaming(),
            final(self).is_holding() == (old(self).is_holding() && joins_preamble(
                old(self).held(),
                bytes@,
                preamble,
            )),
            final(self).held() == if final(self).is_holding() {
                old(self).held().push(bytes@)
            } else {
                Seq::empty()
            },
            bytes_of(r@) == released(
                old(self).streaming(),
                old(self).is_holding(),
                old(self).held(),
                bytes@,
                preamble,
                terminal,
            ),
            final(self).accepted() == old(self).accepted().push(bytes@),
            final(self).delivered() == old(self).delivered() + bytes_of(r@),
            final(self).ended() == (old(self).ended() || terminal),
    {
        let ghost old_held = bytes_of(self.held@);
        let ghost b = bytes@;
        let n = bytes.len();
        let joins = preamble && self.held.len() < MAX_HELD_EVENTS && n <= MAX_HELD_BYTES - self.held_bytes;
        assert(joins == joins_preamble(old_held, b, preamble));
        let mut out: Vec<Vec<u8>> = Vec::new();
        if self.holding && joins {
            if terminal && self.stream {
                out.push(bytes.clone());
            }
            self.held.push(bytes);
            self.held_bytes = self.held_bytes + n;
            proof {
                assert(bytes_of(self.held@) =~= old_held.push(b));
                assert(bytes_of(self.held@).drop_last() =~= old_held);
            }
        } else {
            if self.holding {
                if self.stream {
                    std::mem::swap(&mut out, &mut self.held);
                } else {
                    self.held = Vec::new();
                }
                self.held_bytes = 0;
                self.holding = false;
            }
            if self.stream {
                out.push(bytes);
            }
            proof {
                assert(bytes_of(self.held@) =~= Seq::<Seq<u8>>::empty());
            }
        }
        proof {
            let rel = released(self.stream, old(self).holding, old_held, b, preamble, terminal);
            assert(bytes_of(out@) =~= rel);
            self.accepted@ = self.accepted@.push(b);
            self.delivered@ = self.delivered@ + bytes_of(out@);
            self.ended@ = self.ended@ || terminal;
            if self.stream && !self.ended@ {
                assert(self.delivered@ + bytes_of(self.held@) =~= self.accepted@);
            }
        }
        out
    }
}

/// While no terminal event has been accepted, a streaming client has been
/// handed every accepted event but the held preamble, in order.
pub proof fn law_delivery_keeps_order(d: &Delivery)
    requires
        d.wf(),
        d.streaming(),
        !d.ended(),
    ensures
        d.delivered() + d.held() == d.accepted(),
{
}

/// The held preamble never exceeds its bounds, and while it is held nothing
/// but a terminal event has been delivered, so a recovery is never visible to
/// the client.
pub proof fn law_preamble_is_bounded_and_invisible(d: &Delivery)
    requires
        d.wf(),
    ensures
        d.held().len() <= MAX_HELD_EVENTS,
        total_len(d.held()) <= MAX_HELD_BYTES,
        d.is_holding() && !d.ended() ==> d.delivered().len() == 0,
        !d.is_holding() ==> d.held().len() == 0,
{
}

/// A client that does not stream is handed no event: its response is
/// written from the terminal event alone.
pub proof fn law_unary_clients_get_no_events(d: &Delivery)
    requires
        d.wf(),
        !d.streaming(),
    ensures
        d.delivered().len() == 0,
{
}

} // verus!
