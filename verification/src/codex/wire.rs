//! Framing of the upstream server-sent event stream: bytes are cut into
//! complete event blocks, bounded in size, and each block's events are read
//! with `eventsource-stream`.
use vstd::prelude::*;
use vstd::string::StringExecFns;
use crate::text::{byte_len, len_bytes, str_eq};
use crate::types::{Error, Result, plain_error};

verus! {

pub const FORMAT: &'static str = "openai.responses.v1";

/// The document format of a web search request.
pub const SEARCH_FORMAT: &'static str = "codex.search.v1";

/// The data of each event of a complete event block as `eventsource-stream`
/// reads it, or `None` where it reports an error.
pub uninterp spec fn sse_block_data(block: Seq<u8>) -> Option<Seq<Seq<char>>>;

/// `eventsource_stream::Eventsource::eventsource` over the block alone, each
/// event's `data` collected in order.
#[verifier::external_body]
fn block_events(block: &[u8]) -> (r: Option<Vec<String>>)
    ensures
        match r {
            Some(v) => sse_block_data(block@) == Some(v@.map_values(|s: String| s@)),
            None => sse_block_data(block@) is None,
        },
{
    let chunk: std::result::Result<bytes::Bytes, std::convert::Infallible> = Ok(bytes::Bytes::copy_from_slice(block));
    let events = eventsource_stream::Eventsource::eventsource(futures::stream::iter([chunk]));
    let all: Vec<_> = futures::executor::block_on(futures::StreamExt::collect(events));
    all.into_iter().map(|e| e.ok().map(|e| e.data)).collect()
}

/// The decoder's state: the bytes of the event being read, the length of its
/// current line, whether a carriage return was just read, the bytes read of
/// a possible leading byte-order mark, and whether that mark is behind us.
pub struct SseDecoder {
    buffer: Vec<u8>,
    line_bytes: usize,
    skip_lf: bool,
    prefix: Vec<u8>,
    started: bool,
}

pub type DecoderView = (Seq<u8>, nat, bool, Seq<u8>, bool);

pub type Fault = (u16, Seq<char>, Seq<char>);

pub open spec fn too_large() -> Fault {
    (502, "sse_event_too_large"@, "Upstream SSE event exceeds the configured limit"@)
}

pub open spec fn invalid_sse() -> Fault {
    (502, "invalid_sse"@, "Upstream returned invalid SSE"@)
}

pub open spec fn not_done() -> spec_fn(Seq<char>) -> bool {
    |d: Seq<char>| d != "[DONE]"@
}

/// One byte after the stream start: carriage returns become line feeds (a
/// line feed right after one is dropped), the event grows up to `limit`
/// bytes, and an empty line completes the event block, whose events other
/// than `[DONE]` come out.
pub open spec fn byte_step(v: DecoderView, b: u8, limit: nat) -> (DecoderView, core::result::Result<Seq<Seq<char>>, Fault>) {
    if v.2 && b == 10 {
        ((v.0, v.1, false, v.3, v.4), Ok(Seq::empty()))
    } else {
        let skip = b == 13;
        let buf = v.0.push(if b == 13 {
            10u8
        } else {
            b
        });
        if buf.len() > limit {
            ((buf, v.1, skip, v.3, v.4), Err(too_large()))
        } else if b != 13 && b != 10 {
            ((buf, v.1 + 1, skip, v.3, v.4), Ok(Seq::empty()))
        } else if v.1 > 0 {
            ((buf, 0, skip, v.3, v.4), Ok(Seq::empty()))
        } else {
            (
                (Seq::empty(), 0, skip, v.3, v.4),
                match sse_block_data(buf) {
                    Some(d) => Ok(d.filter(not_done())),
                    None => Err(invalid_sse()),
                },
            )
        }
    }
}

/// `byte_step` over each byte in order, stopping at the first fault.
pub open spec fn feed(v: DecoderView, bs: Seq<u8>, limit: nat) -> (DecoderView, core::result::Result<Seq<Seq<char>>, Fault>)
    decreases bs.len(),
{
    if bs.len() == 0 {
        (v, Ok(Seq::empty()))
    } else {
        let (v1, r1) = feed(v, bs.drop_last(), limit);
        match r1 {
            Err(f) => (v1, Err(f)),
            Ok(e1) => {
                let (v2, r2) = byte_step(v1, bs.last(), limit);
                (
                    v2,
                    match r2 {
                        Ok(e2) => Ok(e1 + e2),
                        Err(f) => Err(f),
                    },
                )
            },
        }
    }
}

pub open spec fn bom() -> Seq<u8> {
    seq![0xefu8, 0xbbu8, 0xbfu8]
}

/// One input byte: until the stream has started, bytes that could begin a
/// byte-order mark are held back; a whole mark is dropped, and anything else
/// releases the held bytes into the stream.
pub open spec fn push_one(v: DecoderView, b: u8, limit: nat) -> (DecoderView, core::result::Result<Seq<Seq<char>>, Fault>) {
    if !v.4 {
        let p = v.3.push(b);
        if p.len() <= 3 && bom().take(p.len() as int) == p {
            if p.len() == 3 {
                ((v.0, v.1, v.2, Seq::empty(), true), Ok(Seq::empty()))
            } else {
                ((v.0, v.1, v.2, p, false), Ok(Seq::empty()))
            }
        } else {
            feed((v.0, v.1, v.2, Seq::empty(), true), p, limit)
        }
    } else {
        byte_step(v, b, limit)
    }
}

pub open spec fn push_spec(v: DecoderView, bs: Seq<u8>, limit: nat) -> (DecoderView, core::result::Result<Seq<Seq<char>>, Fault>)
    decreases bs.len(),
{
    if bs.len() == 0 {
        (v, Ok(Seq::empty()))
    } else {
        let (v1, r1) = push_spec(v, bs.drop_last(), limit);
        match r1 {
            Err(f) => (v1, Err(f)),
            Ok(e1) => {
                let (v2, r2) = push_one(v1, bs.last(), limit);
                (
                    v2,
                    match r2 {
                        Ok(e2) => Ok(e1 + e2),
                        Err(f) => Err(f),
                    },
                )
            },
        }
    }
}

pub open spec fn strings(v: Seq<String>) -> Seq<Seq<char>> {
    v.map_values(|s: String| s@)
}

impl Default for SseDecoder {
    fn default() -> (r: Self)
        ensures
            r.view() == (Seq::<u8>::empty(), 0nat, false, Seq::<u8>::empty(), false),
    {
        SseDecoder { buffer: Vec::new(), line_bytes: 0, skip_lf: false, prefix: Vec::new(), started: false }
    }
}

impl SseDecoder {
    pub closed spec fn view(self) -> DecoderView {
        (self.buffer@, self.line_bytes as nat, self.skip_lf, self.prefix@, self.started)
    }

    /// The current line never holds more bytes than the event.
    pub closed spec fn wf(self) -> bool {
        self.line_bytes <= self.buffer@.len()
    }

    pub fn new() -> (r: Self)
        ensures
            r.wf(),
            r.view() == (Seq::<u8>::empty(), 0nat, false, Seq::<u8>::empty(), false),
    {
        SseDecoder { buffer: Vec::new(), line_bytes: 0, skip_lf: false, prefix: Vec::new(), started: false }
    }

    fn filter_done(data: Vec<String>) -> (r: Vec<String>)
        ensures
            strings(r@) == strings(data@).filter(not_done()),
    {
        let mut out: Vec<String> = Vec::new();
        let mut i: usize = 0;
        proof {
            reveal_strlit("[DONE]");
        }
        while i < data.len()
            invariant
                i <= data@.len(),
                strings(out@) == strings(data@).take(i as int).filter(not_done()),
            decreases data@.len() - i,
        {
            proof {
                assert(strings(data@).take(i + 1) =~= strings(data@).take(i as int).push(data@[i as int]@));
                strings(data@).take(i as int).lemma_filter_push(data@[i as int]@, not_done());
            }
            if !str_eq(data[i].as_str(), "[DONE]") {
                let ghost before = out@;
                out.push(data[i].clone());
                proof {
                    assert(strings(out@) =~= strings(before).push(data@[i as int]@));
                }
            }
            i = i + 1;
        }
        proof {
            assert(strings(data@).take(data@.len() as int) =~= strings(data@));
        }
        out
    }

    fn byte(&mut self, byte: u8, limit: usize, events: &mut Vec<String>) -> (r: Result<()>)
        requires
            old(self).wf(),
        ensures
            final(self).wf(),
            final(self).view() == byte_step(old(self).view(), byte, limit as nat).0,
            match byte_step(old(self).view(), byte, limit as nat).1 {
                Ok(e) => r is Ok && strings(final(events)@) == strings(old(events)@) + e,
                Err(f) => r matches Err(x) && plain_error(x, f.0, f.1, f.2),
            },
    {
        if self.skip_lf {
            self.skip_lf = false;
            if byte == 10 {
                proof {
                    assert(strings(events@) =~= strings(events@) + Seq::<Seq<char>>::empty());
                }
                return Ok(());
            }
        }
        self.skip_lf = byte == 13;
        self.buffer.push(if byte == 13 {
            10u8
        } else {
            byte
        });
        if self.buffer.len() > limit {
            return Err(
                Error::new(502, "sse_event_too_large", "Upstream SSE event exceeds the configured limit"),
            );
        }
        if byte != 13 && byte != 10 {
            self.line_bytes = self.line_bytes + 1;
            proof {
                assert(strings(events@) =~= strings(events@) + Seq::<Seq<char>>::empty());
            }
            return Ok(());
        }
        if self.line_bytes > 0 {
            self.line_bytes = 0;
            proof {
                assert(strings(events@) =~= strings(events@) + Seq::<Seq<char>>::empty());
            }
            return Ok(());
        }
        let mut block: Vec<u8> = Vec::new();
        std::mem::swap(&mut block, &mut self.buffer);
        match block_events(block.as_slice()) {
            Some(data) => {
                let kept = Self::filter_done(data);
                let ghost before = events@;
                let mut i: usize = 0;
                while i < kept.len()
                    invariant
                        i <= kept@.len(),
                        strings(events@) == strings(before) + strings(kept@).take(i as int),
                    decreases kept@.len() - i,
                {
                    let ghost prev = events@;
                    events.push(kept[i].clone());
                    proof {
                        assert(strings(events@) =~= strings(prev).push(kept@[i as int]@));
                        assert(strings(kept@).take(i + 1) =~= strings(kept@).take(i as int).push(kept@[i as int]@));
                    }
                    i = i + 1;
                }
                proof {
                    assert(strings(kept@).take(kept@.len() as int) =~= strings(kept@));
                }
                Ok(())
            },
            None => Err(Error::new(502, "invalid_sse", "Upstream returned invalid SSE")),
        }
    }

    /// Feeds `bytes` to the decoder and returns the data of the events they
    /// complete; see `push_spec`. On a fault the decoder keeps the state it
    /// had reached.
    #[verifier::loop_isolation(false)]
    pub fn push(&mut self, bytes: &[u8], limit: usize) -> (r: Result<Vec<String>>)
        requires
            old(self).wf(),
        ensures
            final(self).wf(),
            final(self).view() == push_spec(old(self).view(), bytes@, limit as nat).0,
            match push_spec(old(self).view(), bytes@, limit as nat).1 {
                Ok(e) => r matches Ok(v) && strings(v@) == e,
                Err(f) => r matches Err(x) && plain_error(x, f.0, f.1, f.2),
            },
    {
        let ghost v0 = self.view();
        let mut events: Vec<String> = Vec::new();
        let mut i: usize = 0;
        proof {
            assert(bytes@.take(0) =~= Seq::<u8>::empty());
            assert(strings(events@) =~= Seq::<Seq<char>>::empty());
        }
        while i < bytes.len()
            invariant
                self.wf(),
                i <= bytes@.len(),
                push_spec(v0, bytes@.take(i as int), limit as nat) == (self.view(), Ok::<
                    Seq<Seq<char>>,
                    Fault,
                >(strings(events@))),
            decreases bytes@.len() - i,
        {
            let byte = bytes[i];
            let ghost vs = self.view();
            let ghost eb = strings(events@);
            proof {
                assert(bytes@.take(i + 1).drop_last() =~= bytes@.take(i as int));
                assert(bytes@.take(i + 1).last() == byte);
            }
            let step = self.push_byte(byte, limit, &mut events);
            proof {
                let (v2, r2) = push_one(vs, byte, limit as nat);
                assert(push_spec(v0, bytes@.take(i + 1), limit as nat) == (
                    v2,
                    match r2 {
                        Ok(e2) => Ok(eb + e2),
                        Err(f) => Err(f),
                    },
                ));
            }
            if let Err(e) = step {
                proof {
                    let f = push_one(vs, byte, limit as nat).1->Err_0;
                    assert(push_spec(v0, bytes@.take(i + 1), limit as nat) == (self.view(), Err::<
                        Seq<Seq<char>>,
                        Fault,
                    >(f)));
                    lemma_push_stops(v0, bytes@, i as int + 1, limit as nat);
                }
                return Err(e);
            }
            i = i + 1;
        }
        proof {
            assert(bytes@.take(bytes@.len() as int) =~= bytes@);
        }
        Ok(events)
    }

    /// One input byte; see `push_one`.
    #[verifier::loop_isolation(false)]
    fn push_byte(&mut self, byte: u8, limit: usize, events: &mut Vec<String>) -> (r: Result<()>)
        requires
            old(self).wf(),
        ensures
            final(self).wf(),
            final(self).view() == push_one(old(self).view(), byte, limit as nat).0,
            match push_one(old(self).view(), byte, limit as nat).1 {
                Ok(e) => r is Ok && strings(final(events)@) == strings(old(events)@) + e,
                Err(f) => r matches Err(x) && plain_error(x, f.0, f.1, f.2),
            },
    {
        if self.started {
            return self.byte(byte, limit, events);
        }
        let ghost ov = self.view();
        self.prefix.push(byte);
        let ghost p = self.prefix@;
        let n = self.prefix.len();
        let is_bom = n <= 3 && (n < 1 || self.prefix[0] == 0xef) && (n < 2 || self.prefix[1] == 0xbb)
            && (n < 3 || self.prefix[2] == 0xbf);
        proof {
            let p = self.prefix@;
            if n <= 3 {
                assert(is_bom == (bom().take(p.len() as int) =~= p));
            }
            assert(strings(events@) =~= strings(events@) + Seq::<Seq<char>>::empty());
        }
        if is_bom {
            if n == 3 {
                self.prefix = Vec::new();
                self.started = true;
            }
            return Ok(());
        }
        self.started = true;
        let mut held: Vec<u8> = Vec::new();
        std::mem::swap(&mut held, &mut self.prefix);
        let ghost e0 = strings(events@);
        let ghost start = self.view();
        proof {
            assert(held@ == p);
            assert(p == ov.3.push(byte));
            assert(start == (ov.0, ov.1, ov.2, Seq::<u8>::empty(), true));
            assert(push_one(ov, byte, limit as nat) == feed(start, held@, limit as nat));
        }
        let mut k: usize = 0;
        proof {
            assert(held@.take(0) =~= Seq::<u8>::empty());
            assert(strings(events@).skip(e0.len() as int) =~= Seq::<Seq<char>>::empty());
        }
        while k < held.len()
            invariant
                self.wf(),
                k <= held@.len(),
                feed(start, held@.take(k as int), limit as nat) == (self.view(), Ok::<
                    Seq<Seq<char>>,
                    Fault,
                >(strings(events@).skip(e0.len() as int))),
                strings(events@).take(e0.len() as int) == e0,
                e0.len() <= strings(events@).len(),
            decreases held@.len() - k,
        {
            proof {
                assert(held@.take(k + 1).drop_last() =~= held@.take(k as int));
                assert(held@.take(k + 1).last() == held@[k as int]);
            }
            let ghost evs = strings(events@);
            let ghost vk = self.view();
            match self.byte(held[k], limit, events) {
                Ok(()) => {
                    proof {
                        let e2 = byte_step(vk, held@[k as int], limit as nat).1->Ok_0;
                        assert(strings(events@) == evs + e2);
                        assert(strings(events@).skip(e0.len() as int) =~= evs.skip(e0.len() as int) + e2);
                        assert(strings(events@).take(e0.len() as int) =~= evs.take(e0.len() as int));
                    }
                },
                Err(e) => {
                    proof {
                        assert(feed(start, held@.take(k + 1), limit as nat) == (self.view(), Err::<
                            Seq<Seq<char>>,
                            Fault,
                        >(byte_step(vk, held@[k as int], limit as nat).1->Err_0)));
                        lemma_feed_stops(start, held@, k as int, limit as nat);
                    }
                    return Err(e);
                },
            }
            k = k + 1;
        }
        proof {
            assert(held@.take(held@.len() as int) =~= held@);
            assert(strings(events@) =~= e0 + strings(events@).skip(e0.len() as int));
        }
        Ok(())
    }

    /// The bytes held back: the event being read and a possible mark.
    pub fn buffered_bytes(&self) -> (r: usize)
        requires
            self.view().0.len() + self.view().3.len() <= usize::MAX,
        ensures
            r == self.view().0.len() + self.view().3.len(),
    {
        self.buffer.len() + self.prefix.len()
    }
}

proof fn lemma_feed_stops(v: DecoderView, bs: Seq<u8>, k: int, limit: nat)
    requires
        0 <= k < bs.len(),
        feed(v, bs.take(k + 1), limit).1 is Err,
    ensures
        feed(v, bs, limit) == feed(v, bs.take(k + 1), limit),
    decreases bs.len() - k,
{
    if k + 1 < bs.len() {
        assert(bs.take(k + 2).drop_last() =~= bs.take(k + 1));
        lemma_feed_stops(v, bs, k + 1, limit);
    } else {
        assert(bs.take(k + 1) =~= bs);
    }
}

proof fn lemma_push_stops(v: DecoderView, bs: Seq<u8>, n: int, limit: nat)
    requires
        0 < n <= bs.len(),
        push_spec(v, bs.take(n), limit).1 is Err,
    ensures
        push_spec(v, bs, limit) == push_spec(v, bs.take(n), limit),
    decreases bs.len() - n,
{
    if n < bs.len() {
        assert(bs.take(n + 1).drop_last() =~= bs.take(n));
        lemma_push_stops(v, bs, n + 1, limit);
    } else {
        assert(bs.take(n) =~= bs);
    }
}

/// An event frame: the event type of at most 128 bytes of letters, digits
/// and `._-`, and the event serialized as JSON.
pub open spec fn type_char(c: char) -> bool {
    ('0' <= c <= '9') || ('a' <= c <= 'z') || ('A' <= c <= 'Z') || c == '.' || c == '_' || c == '-'
}

pub open spec fn frame_spec(kind: Option<Seq<char>>, json: Seq<char>) -> core::result::Result<Seq<char>, Fault> {
    match kind {
        None => Err((502, "invalid_sse_event"@, "SSE event has no type"@)),
        Some(k) => if byte_len(k) > 128 || exists|i: int| 0 <= i < k.len() && !type_char(#[trigger] k[i]) {
            Err((502, "invalid_sse_event"@, "SSE event type is invalid"@))
        } else {
            Ok("event: "@ + k + "\ndata: "@ + json + "\n\n"@)
        },
    }
}

pub open spec fn opt_view(v: Option<&str>) -> Option<Seq<char>> {
    match v {
        Some(x) => Some(x@),
        None => None,
    }
}

/// The SSE frame of an event with type `kind` and JSON text `json`.
pub fn frame(kind: Option<&str>, json: &str) -> (r: Result<String>)
    ensures
        match frame_spec(opt_view(kind), json@) {
            Ok(s) => r matches Ok(x) && x@ == s,
            Err(f) => r matches Err(e) && plain_error(e, f.0, f.1, f.2),
        },
{
    let k = match kind {
        Some(k) => k,
        None => {
            return Err(Error::new(502, "invalid_sse_event", "SSE event has no type"));
        },
    };
    if len_bytes(k) > 128 {
        return Err(Error::new(502, "invalid_sse_event", "SSE event type is invalid"));
    }
    let mut ok = true;
    for c in it: k.chars()
        invariant
            it.seq() == k@,
            ok == forall|i: int| 0 <= i < it.index() ==> type_char(#[trigger] k@[i]),
    {
        if !(('0' <= c && c <= '9') || ('a' <= c && c <= 'z') || ('A' <= c && c <= 'Z') || c == '.'
            || c == '_' || c == '-') {
            ok = false;
        }
    }
    if !ok {
        return Err(Error::new(502, "invalid_sse_event", "SSE event type is invalid"));
    }
    let out = String::from_str("event: ").concat(k).concat("\ndata: ").concat(json).concat("\n\n");
    Ok(out)
}

} // verus!
