//! Resolves the explicit identity signals of a request (headers, client
//! metadata, prompt cache key) into one session and thread, refusing signals
//! that are malformed or disagree.
use vstd::prelude::*;
use vstd::string::StringExecFns;
use crate::scheduling::lemma_filter_take;
use crate::text::{blank, byte_len, has_control, has_control_spec, is_blank, len_bytes, str_eq, trim, trim_spec};
use crate::types::{Error, Result, plain_error};
use crate::json::{Json, JsonView};
use crate::text::{decimal, decimal_text};

verus! {

/// A signal as it was read: JSON null, text, a JSON value of another type,
/// or a header value of so many bytes that is not text.
pub enum RawValue {
    Null,
    Text(String),
    Other,
    Undecodable(usize),
}

/// One identity signal: the field it speaks for, where it was found, whether
/// it is usable, its trimmed value when it is, and its size.
pub struct Candidate {
    pub field: String,
    pub source: String,
    pub status: String,
    pub value: Option<String>,
    pub bytes: usize,
}

pub struct ResolvedIdentity {
    pub session_id: String,
    pub thread_id: String,
    pub session_sources: Vec<String>,
    pub thread_sources: Vec<String>,
}

pub open spec fn ov(v: Option<String>) -> Option<Seq<char>> {
    match v {
        Some(x) => Some(x@),
        None => None,
    }
}

/// Status, trimmed value and size of a text signal: text of at most 512
/// bytes without control characters that is not blank is valid.
pub open spec fn classify_text(s: Seq<char>) -> (Seq<char>, Option<Seq<char>>, nat) {
    if byte_len(s) > 512 {
        ("too_long"@, None, byte_len(s))
    } else if has_control_spec(s) {
        ("invalid_characters"@, None, byte_len(s))
    } else if blank(s) {
        ("empty"@, None, byte_len(s))
    } else {
        ("valid"@, Some(trim_spec(s)), byte_len(s))
    }
}

/// Status, trimmed value and size of a signal.
pub open spec fn classify(v: RawValue) -> (Seq<char>, Option<Seq<char>>, nat) {
    match v {
        RawValue::Null => ("empty"@, None, 0),
        RawValue::Text(s) => classify_text(s@),
        RawValue::Other => ("invalid_type"@, None, 0),
        RawValue::Undecodable(n) => ("invalid_encoding"@, None, n as nat),
    }
}

pub fn candidate(field: &str, source: String, value: &RawValue) -> (r: Candidate)
    ensures
        r.field@ == field@,
        r.source == source,
        (r.status@, ov(r.value), r.bytes as nat) == classify(*value),
{
    proof {
        reveal_strlit("empty");
        reveal_strlit("too_long");
        reveal_strlit("invalid_characters");
        reveal_strlit("valid");
        reveal_strlit("invalid_type");
        reveal_strlit("invalid_encoding");
    }
    let (status, text, bytes): (&str, Option<String>, usize) = match value {
        RawValue::Null => ("empty", None, 0),
        RawValue::Text(s) => {
            let n = len_bytes(s.as_str());
            if n > 512 {
                ("too_long", None, n)
            } else if has_control(s.as_str()) {
                ("invalid_characters", None, n)
            } else if is_blank(s.as_str()) {
                ("empty", None, n)
            } else {
                ("valid", Some(trim(s.as_str()).to_owned()), n)
            }
        },
        RawValue::Other => ("invalid_type", None, 0),
        RawValue::Undecodable(n) => ("invalid_encoding", None, *n),
    };
    Candidate { field: field.to_owned(), source, status: status.to_owned(), value: text, bytes }
}

pub open spec fn derefs(v: Seq<&Candidate>) -> Seq<Candidate> {
    v.map_values(|c: &Candidate| *c)
}

pub open spec fn usable_status(c: Candidate) -> bool {
    c.status@ == "valid"@ || c.status@ == "empty"@
}

pub open spec fn for_field(field: Seq<char>) -> spec_fn(Candidate) -> bool {
    |c: Candidate| c.field@ == field
}

pub open spec fn has_value() -> spec_fn(Candidate) -> bool {
    |c: Candidate| c.value is Some
}

pub open spec fn sources_of(v: Seq<Candidate>) -> Seq<Seq<char>> {
    v.map_values(|c: Candidate| c.source@)
}

/// The texts joined with `, `.
pub open spec fn join(v: Seq<Seq<char>>) -> Seq<char>
    decreases v.len(),
{
    if v.len() == 0 {
        Seq::empty()
    } else if v.len() == 1 {
        v[0]
    } else {
        join(v.drop_last()) + ", "@ + v.last()
    }
}

pub open spec fn first_unusable(v: Seq<Candidate>, i: int) -> bool {
    0 <= i < v.len() && !usable_status(v[i]) && forall|k: int| 0 <= k < i ==> usable_status(#[trigger] v[k])
}

/// The signal of one field: refused when one of its candidates is unusable or
/// two valid ones disagree; otherwise the agreed value (if any) with where it
/// was found.
pub open spec fn coherent_spec(cs: Seq<Candidate>, field: Seq<char>) -> core::result::Result<
    Option<(Seq<char>, Seq<Seq<char>>)>,
    (u16, Seq<char>, Seq<char>),
> {
    let vs = cs.filter(for_field(field));
    if exists|i: int| first_unusable(vs, i) {
        let i = choose|i: int| first_unusable(vs, i);
        Err(
            (
                400,
                "invalid_request"@,
                "Invalid identity at "@ + vs[i].source@ + " ("@ + vs[i].status@ + ")"@,
            ),
        )
    } else {
        let valid = vs.filter(has_value());
        if valid.len() == 0 {
            Ok(None)
        } else if exists|j: int| 0 <= j < valid.len() && ov((#[trigger] valid[j]).value) != ov(valid[0].value) {
            Err(
                (
                    400,
                    "identity_conflict"@,
                    "Conflicting "@ + field + " values in "@ + join(sources_of(valid)),
                ),
            )
        } else {
            Ok(Some((valid[0].value.unwrap()@, sources_of(valid))))
        }
    }
}

pub open spec fn signal_view(r: Option<(String, Vec<String>)>) -> Option<(Seq<char>, Seq<Seq<char>>)> {
    match r {
        Some((v, s)) => Some((v@, s@.map_values(|x: String| x@))),
        None => None,
    }
}

fn join_sources(v: &Vec<&Candidate>) -> (r: String)
    ensures
        r@ == join(v@.map_values(|c: &Candidate| c.source@)),
{
    let mut out = String::new();
    let mut i: usize = 0;
    while i < v.len()
        invariant
            i <= v@.len(),
            out@ == join(v@.take(i as int).map_values(|c: &Candidate| c.source@)),
        decreases v@.len() - i,
    {
        proof {
            let m = v@.take(i + 1).map_values(|c: &Candidate| c.source@);
            assert(m.drop_last() =~= v@.take(i as int).map_values(|c: &Candidate| c.source@));
        }
        if i > 0 {
            out.append(", ");
        }
        out.append(v[i].source.as_str());
        proof {
            reveal_strlit(", ");
        }
        i = i + 1;
    }
    proof {
        assert(v@.take(v@.len() as int) =~= v@);
    }
    out
}

/// The agreed signal of `field` among the candidates.
#[verifier::loop_isolation(false)]
pub fn coherent(candidates: &Vec<Candidate>, field: &str) -> (r: Result<Option<(String, Vec<String>)>>)
    ensures
        match coherent_spec(candidates@, field@) {
            Ok(s) => r matches Ok(x) && signal_view(x) == s,
            Err(f) => r matches Err(e) && plain_error(e, f.0, f.1, f.2),
        },
{
    proof {
        reveal_strlit("valid");
        reveal_strlit("empty");
        reveal_strlit("Invalid identity at ");
        reveal_strlit(" (");
        reveal_strlit(")");
        reveal_strlit("Conflicting ");
        reveal_strlit(" values in ");
    }
    let ghost cs = candidates@;
    let ghost vs = cs.filter(for_field(field@));
    // Every candidate of the field, in order.
    let mut values: Vec<&Candidate> = Vec::new();
    let mut i: usize = 0;
    while i < candidates.len()
        invariant
            i <= candidates@.len(),
            derefs(values@) =~= cs.take(i as int).filter(for_field(field@)),
        decreases candidates@.len() - i,
    {
        proof {
            lemma_filter_take(cs, i as int, for_field(field@));
        }
        if str_eq(candidates[i].field.as_str(), field) {
            values.push(&candidates[i]);
        }
        i = i + 1;
    }
    proof {
        assert(cs.take(cs.len() as int) =~= cs);
    }
    let mut k: usize = 0;
    while k < values.len()
        invariant
            derefs(values@) == vs,
            k <= vs.len(),
            forall|j: int| 0 <= j < k ==> usable_status(#[trigger] vs[j]),
        decreases vs.len() - k,
    {
        let c = values[k];
        if !(str_eq(c.status.as_str(), "valid") || str_eq(c.status.as_str(), "empty")) {
            proof {
                assert(first_unusable(vs, k as int));
                let x = choose|x: int| first_unusable(vs, x);
                if x < k {
                    assert(usable_status(vs[x]));
                } else if k < x {
                    assert(usable_status(vs[k as int]));
                }
            }
            let mut msg = String::from_str("Invalid identity at ");
            msg.append(c.source.as_str());
            msg.append(" (");
            msg.append(c.status.as_str());
            msg.append(")");
            return Err(Error::invalid(msg.as_str()));
        }
        k = k + 1;
    }
    proof {
        assert(!exists|x: int| first_unusable(vs, x));
    }
    let ghost valid_spec = vs.filter(has_value());
    let mut valid: Vec<&Candidate> = Vec::new();
    let mut m: usize = 0;
    while m < values.len()
        invariant
            derefs(values@) == vs,
            m <= vs.len(),
            derefs(valid@) =~= vs.take(m as int).filter(has_value()),
        decreases vs.len() - m,
    {
        proof {
            lemma_filter_take(vs, m as int, has_value());
        }
        if values[m].value.is_some() {
            valid.push(values[m]);
        }
        m = m + 1;
    }
    proof {
        assert(vs.take(vs.len() as int) =~= vs);
        assert(derefs(valid@) == valid_spec);
    }
    if valid.len() == 0 {
        return Ok(None);
    }
    let first = valid[0];
    let mut j: usize = 0;
    while j < valid.len()
        invariant
            derefs(valid@) == valid_spec,
            valid@.len() > 0,
            *first == valid_spec[0],
            j <= valid@.len(),
            forall|x: int| 0 <= x < j ==> ov((#[trigger] valid_spec[x]).value) == ov(valid_spec[0].value),
        decreases valid@.len() - j,
    {
        let same = match (&valid[j].value, &first.value) {
            (Some(a), Some(b)) => str_eq(a.as_str(), b.as_str()),
            (None, None) => true,
            _ => false,
        };
        if !same {
            proof {
                assert(*valid@[j as int] == valid_spec[j as int]);
                assert(ov(valid_spec[j as int].value) != ov(valid_spec[0].value));
            }
            let mut msg = String::from_str("Conflicting ");
            msg.append(field);
            msg.append(" values in ");
            let joined = join_sources(&valid);
            msg.append(joined.as_str());
            proof {
                assert(valid@.map_values(|c: &Candidate| c.source@) =~= sources_of(valid_spec));
            }
            return Err(Error::new(400, "identity_conflict", msg.as_str()));
        }
        j = j + 1;
    }
    let mut sources: Vec<String> = Vec::new();
    let mut n: usize = 0;
    while n < valid.len()
        invariant
            derefs(valid@) == valid_spec,
            n <= valid@.len(),
            sources@.map_values(|x: String| x@) =~= sources_of(valid_spec.take(n as int)),
        decreases valid@.len() - n,
    {
        proof {
            assert(*valid@[n as int] == valid_spec[n as int]);
            assert(valid_spec.take(n + 1) =~= valid_spec.take(n as int).push(valid_spec[n as int]));
        }
        let ghost before = sources@;
        sources.push(valid[n].source.clone());
        proof {
            let a = sources@.map_values(|x: String| x@);
            let b = sources_of(valid_spec.take(n + 1));
            assert(a.len() == b.len());
            assert forall|k: int| 0 <= k < a.len() implies a[k] == b[k] by {
                if k < n {
                    assert(sources@[k] == before[k]);
                    assert(before.map_values(|x: String| x@)[k] == sources_of(valid_spec.take(n as int))[k]);
                }
            }
            assert(a =~= b);
        }
        n = n + 1;
    }
    proof {
        assert(valid_spec.take(valid_spec.len() as int) =~= valid_spec);
        assert(valid_spec[0].value is Some) by {
            vs.lemma_filter_pred(has_value(), 0);
        }
    }
    let value = match &first.value {
        Some(v) => v.clone(),
        None => String::new(),
    };
    Ok(Some((value, sources)))
}


pub type SignalView = Option<(Seq<char>, Seq<Seq<char>>)>;

pub open spec fn or_else(a: SignalView, b: SignalView) -> SignalView {
    if a is Some {
        a
    } else {
        b
    }
}

/// Session and thread of a request: the session from the session, then the
/// conversation, then the thread, then the search signal; the thread from the
/// thread, then the conversation signal, else the session itself. Every
/// signal, the prompt cache key included, must be coherent.
pub open spec fn resolve_spec(cs: Seq<Candidate>) -> core::result::Result<
    Option<(Seq<char>, Seq<char>, Seq<Seq<char>>, Seq<Seq<char>>)>,
    (u16, Seq<char>, Seq<char>),
> {
    let s = coherent_spec(cs, "session_id"@);
    let t = coherent_spec(cs, "thread_id"@);
    let c = coherent_spec(cs, "conversation_id"@);
    let k = coherent_spec(cs, "prompt_cache_key"@);
    let q = coherent_spec(cs, "search_id"@);
    if s is Err {
        Err(s->Err_0)
    } else if t is Err {
        Err(t->Err_0)
    } else if c is Err {
        Err(c->Err_0)
    } else if k is Err {
        Err(k->Err_0)
    } else if q is Err {
        Err(q->Err_0)
    } else {
        let session = or_else(or_else(or_else(s->Ok_0, c->Ok_0), t->Ok_0), q->Ok_0);
        match session {
            None => Ok(None),
            Some((sid, ssrc)) => {
                let thread = match or_else(t->Ok_0, c->Ok_0) {
                    Some(x) => x,
                    None => (sid, seq!["resolved.session_id"@]),
                };
                Ok(Some((sid, thread.0, ssrc, thread.1)))
            },
        }
    }
}

/// Where a request names no thread, its thread is its conversation, and
/// only where it names neither is the thread the session itself; a thread it
/// names is always its thread. The session is the session named, else the
/// conversation.
pub proof fn law_thread_falls_back_to_the_conversation(cs: Seq<Candidate>)
    ensures
        resolve_spec(cs) matches Ok(Some(r)) ==> {
            &&& coherent_spec(cs, "thread_id"@) matches Ok(Some(t)) ==> r.1 == t.0
            &&& coherent_spec(cs, "thread_id"@) == Ok::<Option<(Seq<char>, Seq<Seq<char>>)>, (u16, Seq<char>, Seq<char>)>(None)
                ==> (coherent_spec(cs, "conversation_id"@) matches Ok(Some(c)) ==> r.1 == c.0)
            &&& coherent_spec(cs, "thread_id"@) == Ok::<Option<(Seq<char>, Seq<Seq<char>>)>, (u16, Seq<char>, Seq<char>)>(None)
                && coherent_spec(cs, "conversation_id"@) == Ok::<Option<(Seq<char>, Seq<Seq<char>>)>, (u16, Seq<char>, Seq<char>)>(None)
                ==> r.1 == r.0
            &&& coherent_spec(cs, "session_id"@) matches Ok(Some(x)) ==> r.0 == x.0
            &&& coherent_spec(cs, "session_id"@) == Ok::<Option<(Seq<char>, Seq<Seq<char>>)>, (u16, Seq<char>, Seq<char>)>(None)
                ==> (coherent_spec(cs, "conversation_id"@) matches Ok(Some(c)) ==> r.0 == c.0)
        },
{
}

pub open spec fn resolved_view(r: Option<ResolvedIdentity>) -> Option<(Seq<char>, Seq<char>, Seq<Seq<char>>, Seq<Seq<char>>)> {
    match r {
        Some(x) => Some(
            (
                x.session_id@,
                x.thread_id@,
                x.session_sources@.map_values(|v: String| v@),
                x.thread_sources@.map_values(|v: String| v@),
            ),
        ),
        None => None,
    }
}

fn copy_signal(s: &Option<(String, Vec<String>)>) -> (r: Option<(String, Vec<String>)>)
    ensures
        signal_view(r) == signal_view(*s),
{
    match s {
        Some((v, src)) => {
            let mut out: Vec<String> = Vec::new();
            let mut i: usize = 0;
            while i < src.len()
                invariant
                    i <= src@.len(),
                    out@ =~= src@.take(i as int),
                decreases src@.len() - i,
            {
                out.push(src[i].clone());
                i = i + 1;
            }
            proof {
                assert(src@.take(src@.len() as int) =~= src@);
            }
            Some((v.clone(), out))
        },
        None => None,
    }
}

/// The session and thread of a request from its identity candidates.
pub fn resolve(candidates: &Vec<Candidate>) -> (r: Result<Option<ResolvedIdentity>>)
    ensures
        match resolve_spec(candidates@) {
            Ok(x) => r matches Ok(v) && resolved_view(v) == x,
            Err(f) => r matches Err(e) && plain_error(e, f.0, f.1, f.2),
        },
{
    proof {
        reveal_strlit("resolved.session_id");
    }
    let session = coherent(candidates, "session_id")?;
    let thread = coherent(candidates, "thread_id")?;
    let conversation = coherent(candidates, "conversation_id")?;
    let _cache = coherent(candidates, "prompt_cache_key")?;
    let search = coherent(candidates, "search_id")?;
    let chosen = if session.is_some() {
        session
    } else if conversation.is_some() {
        copy_signal(&conversation)
    } else if thread.is_some() {
        copy_signal(&thread)
    } else {
        search
    };
    let (session_id, session_sources) = match chosen {
        Some(x) => x,
        None => {
            return Ok(None);
        },
    };
    let (thread_id, thread_sources) = if thread.is_some() {
        thread.unwrap()
    } else if conversation.is_some() {
        conversation.unwrap()
    } else {
        let mut v: Vec<String> = Vec::new();
        v.push("resolved.session_id".to_owned());
        proof {
            assert(v@.map_values(|x: String| x@) =~= seq!["resolved.session_id"@]);
        }
        (session_id.clone(), v)
    };
    Ok(Some(ResolvedIdentity { session_id, thread_id, session_sources, thread_sources }))
}

/// A JSON value read as a signal.
pub open spec fn raw_json(v: JsonView) -> (Seq<char>, Option<Seq<char>>, nat) {
    match v {
        JsonView::Null => classify(RawValue::Null),
        JsonView::Text(s) => classify_text(s),
        _ => classify(RawValue::Other),
    }
}

pub(crate) fn raw_of(v: &Json) -> (r: RawValue)
    ensures
        classify(r) == raw_json(v@),
{
    match v {
        Json::Null => RawValue::Null,
        Json::Text(s) => RawValue::Text(s.clone()),
        _ => RawValue::Other,
    }
}

/// The identity fields a metadata object may carry, each with the name it is
/// read under.
pub open spec fn metadata_names() -> Seq<(Seq<char>, Seq<char>)> {
    seq![
        ("session_id"@, "session_id"@),
        ("session_id"@, "session-id"@),
        ("thread_id"@, "thread_id"@),
        ("thread_id"@, "thread-id"@),
        ("conversation_id"@, "conversation_id"@),
        ("conversation_id"@, "conversation-id"@),
        ("turn_id"@, "turn_id"@),
        ("parent_thread_id"@, "parent_thread_id"@),
        ("forked_from_thread_id"@, "forked_from_thread_id"@),
        ("parent_turn_id"@, "parent_turn_id"@),
        ("root_turn_id"@, "root_turn_id"@),
        ("window_id"@, "window_id"@),
        ("context_window_id"@, "context_window_id"@),
        ("installation_id"@, "installation_id"@),
        ("x-codex-window-id"@, "x-codex-window-id"@),
        ("x-codex-installation-id"@, "x-codex-installation-id"@),
        ("x-codex-parent-thread-id"@, "x-codex-parent-thread-id"@)
    ]
}

fn metadata_name(k: usize) -> (r: (&'static str, &'static str))
    requires
        k < 17,
    ensures
        (r.0@, r.1@) == metadata_names()[k as int],
{
    if k == 0 {
        ("session_id", "session_id")
    } else if k == 1 {
        ("session_id", "session-id")
    } else if k == 2 {
        ("thread_id", "thread_id")
    } else if k == 3 {
        ("thread_id", "thread-id")
    } else if k == 4 {
        ("conversation_id", "conversation_id")
    } else if k == 5 {
        ("conversation_id", "conversation-id")
    } else if k == 6 {
        ("turn_id", "turn_id")
    } else if k == 7 {
        ("parent_thread_id", "parent_thread_id")
    } else if k == 8 {
        ("forked_from_thread_id", "forked_from_thread_id")
    } else if k == 9 {
        ("parent_turn_id", "parent_turn_id")
    } else if k == 10 {
        ("root_turn_id", "root_turn_id")
    } else if k == 11 {
        ("window_id", "window_id")
    } else if k == 12 {
        ("context_window_id", "context_window_id")
    } else if k == 13 {
        ("installation_id", "installation_id")
    } else if k == 14 {
        ("x-codex-window-id", "x-codex-window-id")
    } else if k == 15 {
        ("x-codex-installation-id", "x-codex-installation-id")
    } else {
        ("x-codex-parent-thread-id", "x-codex-parent-thread-id")
    }
}

/// What a candidate records: its field, source, status, value and size.
pub open spec fn candidate_view(c: Candidate) -> (Seq<char>, Seq<char>, Seq<char>, Option<Seq<char>>, nat) {
    (c.field@, c.source@, c.status@, ov(c.value), c.bytes as nat)
}

pub open spec fn candidates_view(s: Seq<Candidate>) -> Seq<(Seq<char>, Seq<char>, Seq<char>, Option<Seq<char>>, nat)> {
    s.map_values(|c: Candidate| candidate_view(c))
}

/// The candidates a metadata object yields from its first `k` names, its
/// source written as `source.name`.
pub open spec fn metadata_picks(value: JsonView, source: Seq<char>, k: int) -> Seq<(Seq<char>, Seq<char>, Seq<char>, Option<Seq<char>>, nat)>
    decreases k,
{
    if k <= 0 {
        Seq::empty()
    } else {
        let rest = metadata_picks(value, source, k - 1);
        let (field, name) = metadata_names()[k - 1];
        match value.get(name) {
            Some(v) => {
                let c = raw_json(v);
                rest.push((field, source + "."@ + name, c.0, c.1, c.2))
            },
            None => rest,
        }
    }
}

proof fn lemma_candidates_push(s: Seq<Candidate>, c: Candidate)
    ensures
        candidates_view(s.push(c)) == candidates_view(s).push(candidate_view(c)),
{
    assert(candidates_view(s.push(c)) =~= candidates_view(s).push(candidate_view(c)));
}

/// Adds the identity candidates of a metadata object; anything but an object
/// is refused.
pub fn metadata_candidates(out: &mut Vec<Candidate>, value: &Json, source: &str) -> (r: Result<()>)
    ensures
        !(value@ is Object) ==> (r matches Err(e) && plain_error(
            e,
            400,
            "invalid_request"@,
            source@ + " must be a JSON object"@,
        )) && final(out)@ == old(out)@,
        value@ is Object ==> r is Ok && candidates_view(final(out)@) == candidates_view(old(out)@)
            + metadata_picks(value@, source@, 17),
{
    if !value.is_object() {
        let m = String::from_str(source).concat(" must be a JSON object");
        return Err(Error::invalid(m.as_str()));
    }
    let ghost start = candidates_view(out@);
    let mut k: usize = 0;
    while k < 17
        invariant
            k <= 17,
            value@ is Object,
            candidates_view(out@) == start + metadata_picks(value@, source@, k as int),
        decreases 17 - k,
    {
        let (field, name) = metadata_name(k);
        if let Some(v) = value.get(name) {
            let s = String::from_str(source).concat(".").concat(name);
            let c = candidate(field, s, &raw_of(v));
            proof {
                lemma_candidates_push(out@, c);
            }
            out.push(c);
        }
        k = k + 1;
    }
    Ok(())
}

/// The candidates of a header's first `k` values, each read as `field`, its
/// source written as `headers.name[index]`.
pub open spec fn header_picks(field: Seq<char>, name: Seq<char>, values: Seq<RawValue>, k: int) -> Seq<(Seq<char>, Seq<char>, Seq<char>, Option<Seq<char>>, nat)>
    decreases k,
{
    if k <= 0 {
        Seq::empty()
    } else {
        let c = classify(values[k - 1]);
        header_picks(field, name, values, k - 1).push(
            (field, "headers."@ + name + "["@ + decimal((k - 1) as nat) + "]"@, c.0, c.1, c.2),
        )
    }
}

/// Adds the identity candidates of a header's values; a header that occurs
/// more than four times is refused after its first four.
#[verifier::loop_isolation(false)]
pub fn header_candidates(out: &mut Vec<Candidate>, field: &str, name: &str, values: &Vec<RawValue>) -> (r: Result<()>)
    ensures
        values@.len() <= 4 ==> r is Ok && candidates_view(final(out)@) == candidates_view(old(out)@)
            + header_picks(field@, name@, values@, values@.len() as int),
        values@.len() > 4 ==> (r matches Err(e) && plain_error(
            e,
            400,
            "invalid_request"@,
            "Too many occurrences of "@ + name@,
        )) && candidates_view(final(out)@) == candidates_view(old(out)@) + header_picks(
            field@,
            name@,
            values@,
            4,
        ),
{
    let ghost start = candidates_view(out@);
    let mut i: usize = 0;
    while i < values.len()
        invariant
            i <= values@.len(),
            i <= 4,
            candidates_view(out@) == start + header_picks(field@, name@, values@, i as int),
        decreases values.len() - i,
    {
        if i >= 4 {
            let m = String::from_str("Too many occurrences of ").concat(name);
            return Err(Error::invalid(m.as_str()));
        }
        let index = decimal_text(i as u16);
        let s = String::from_str("headers.").concat(name).concat("[").concat(index.as_str()).concat("]");
        let c = candidate(field, s, &values[i]);
        proof {
            lemma_candidates_push(out@, c);
        }
        out.push(c);
        i = i + 1;
    }
    Ok(())
}

} // verus!
