//! Client sessions, account bindings and the per-binding identifier map.
use vstd::prelude::*;
use vstd::string::StringExecFns;
use vstd::utf8::encode_utf8;
use crate::ids::{hyphenated, hyphenated_spec, parse, random_uuid, simple, simple_spec, uuid_parse, uuid_v5, v5};
use crate::pairmap::PairMap;
use crate::text::{byte_len, len_bytes, str_eq};
use crate::types::{Error, ModelRef, Result, plain_error};

verus! {

/// A client session, scoped by the gateway key that authenticated it.
#[derive(Debug, Clone)]
pub struct SessionKey {
    pub key_id: u128,
    pub client_session_id: String,
}

/// A thread within a session.
#[derive(Debug, Clone)]
pub struct ThreadKey {
    pub session: SessionKey,
    pub client_thread_id: String,
}

#[derive(Debug)]
pub struct ClientIdentity {
    pub session_id: String,
    pub thread_id: String,
    pub turn_id: Option<String>,
}

/// The account that serves a session, in one generation with its own namespace.
#[derive(Debug, Clone)]
pub struct Binding {
    pub id: u128,
    pub group_id: u128,
    pub session: SessionKey,
    pub generation: i64,
    pub account_id: u128,
    pub namespace: u128,
    pub provider: String,
    pub access_kind: String,
}

#[derive(Debug, Clone)]
pub struct IdMapping {
    pub kind: String,
    pub client_id: String,
    pub upstream_id: String,
}

#[derive(Debug)]
pub struct IdentifierRewrite {
    pub field: String,
    pub before: Option<String>,
    pub after: Option<String>,
    pub action: String,
}

#[derive(Debug)]
pub struct RequestRewrite {
    pub entries: Vec<IdentifierRewrite>,
    pub omitted: usize,
}

pub open spec fn session_view(s: SessionKey) -> (u128, Seq<char>) {
    (s.key_id, s.client_session_id@)
}

impl SessionKey {
    pub fn same(&self, other: &SessionKey) -> (r: bool)
        ensures
            r == (session_view(*self) == session_view(*other)),
    {
        self.key_id == other.key_id && self.client_session_id == other.client_session_id
    }

    pub fn duplicate(&self) -> (r: Self)
        ensures
            r == *self,
    {
        SessionKey { key_id: self.key_id, client_session_id: self.client_session_id.clone() }
    }
}

impl Binding {
    /// A new generation: fresh random binding and namespace identifiers, in the
    /// default group.
    pub fn new(session: SessionKey, account_id: u128, model: &ModelRef, generation: i64) -> (r: Self)
        ensures
            r.group_id == crate::groups::DEFAULT_GROUP_ID,
            r.session == session,
            r.generation == generation,
            r.account_id == account_id,
            r.provider@ == model.provider@,
            r.access_kind@ == model.access_kind@,
    {
        Binding {
            id: random_uuid(),
            group_id: crate::groups::DEFAULT_GROUP_ID,
            session,
            generation,
            account_id,
            namespace: random_uuid(),
            provider: model.provider.clone(),
            access_kind: model.access_kind.clone(),
        }
    }

    /// A conversation never migrates across providers or access types.
    pub fn compatible(&self, model: &ModelRef) -> (r: bool)
        ensures
            r == (self.provider@ == model.provider@ && self.access_kind@ == model.access_kind@),
    {
        self.provider == model.provider && self.access_kind == model.access_kind
    }

    pub fn duplicate(&self) -> (r: Self)
        ensures
            r == *self,
    {
        Binding {
            id: self.id,
            group_id: self.group_id,
            session: self.session.duplicate(),
            generation: self.generation,
            account_id: self.account_id,
            namespace: self.namespace,
            provider: self.provider.clone(),
            access_kind: self.access_kind.clone(),
        }
    }
}

pub open spec fn is_ascii_alnum(c: char) -> bool {
    ('0' <= c && c <= '9') || ('a' <= c && c <= 'z') || ('A' <= c && c <= 'Z')
}

/// The protocol item type prefix of an identifier: the text before its first
/// `_` when that is 1 to 64 ASCII letters or digits, else `msg`.
pub open spec fn item_prefix_spec(id: Seq<char>) -> Seq<char> {
    if exists|i: int|
        0 < i <= 64 && i < id.len() && id[i] == '_' && (forall|j: int|
            0 <= j < i ==> is_ascii_alnum(#[trigger] id[j])) {
        let i = choose|i: int|
            0 < i <= 64 && i < id.len() && id[i] == '_' && (forall|j: int|
                0 <= j < i ==> is_ascii_alnum(#[trigger] id[j]));
        id.take(i)
    } else {
        "msg"@
    }
}

fn ascii_alnum(c: char) -> (r: bool)
    ensures
        r == is_ascii_alnum(c),
{
    ('0' <= c && c <= '9') || ('a' <= c && c <= 'z') || ('A' <= c && c <= 'Z')
}

/// The item type prefix (`msg`, `rs`, `fc`, `ctco`, ...) that an identifier
/// carries; unfamiliar types are preserved rather than mapped to `msg`.
pub fn item_prefix(id: &str) -> (r: &str)
    ensures
        r@ == item_prefix_spec(id@),
{
    let n = id.unicode_len();
    let mut i: usize = 0;
    while i < n
        invariant
            n == id@.len(),
            i <= n,
            i <= 64,
            forall|j: int| 0 <= j < i ==> is_ascii_alnum(#[trigger] id@[j]),
        decreases n - i,
    {
        let c = id.get_char(i);
        if c == '_' {
            if i > 0 {
                proof {
                    assert forall|k: int|
                        0 < k <= 64 && k < id@.len() && id@[k] == '_' && (forall|j: int|
                            0 <= j < k ==> is_ascii_alnum(#[trigger] id@[j])) implies k == i as int by {
                        if k < i {
                            assert(is_ascii_alnum(id@[k]));
                        }
                        if k > i {
                            assert(is_ascii_alnum(id@[i as int]));
                        }
                    }
                }
                return id.substring_char(0, i);
            }
            proof {
                reveal_strlit("msg");
                assert forall|k: int|
                    0 < k <= 64 && k < id@.len() && id@[k] == '_' implies !(forall|j: int|
                        0 <= j < k ==> is_ascii_alnum(#[trigger] id@[j])) by {
                    assert(!is_ascii_alnum(id@[0]));
                }
            }
            return "msg";
        }
        if !ascii_alnum(c) || i == 64 {
            proof {
                reveal_strlit("msg");
                assert forall|k: int|
                    0 < k <= 64 && k < id@.len() && id@[k] == '_' implies !(forall|j: int|
                        0 <= j < k ==> is_ascii_alnum(#[trigger] id@[j])) by {
                    if k > i {
                        assert(!is_ascii_alnum(id@[i as int]) || i == 64);
                    }
                }
            }
            return "msg";
        }
        i = i + 1;
    }
    proof {
        reveal_strlit("msg");
    }
    "msg"
}

} // verus!

verus! {

pub type PairView = Map<(Seq<char>, Seq<char>), Seq<char>>;

/// The name hashed into a generated identifier: `kind`, a NUL byte, `client`.
pub open spec fn name_bytes(kind: Seq<char>, client: Seq<char>) -> Seq<u8> {
    encode_utf8(kind) + seq![0u8] + encode_utf8(client)
}

/// The name-based identifier that a namespace gives to a client identifier.
pub open spec fn generated(namespace: u128, kind: Seq<char>, client: Seq<char>) -> u128 {
    uuid_v5(namespace, name_bytes(kind, client))
}

/// The upstream identifier issued for a client identifier of a kind: items keep
/// their type prefix, calls and responses get `call_` and `resp_`, other kinds a
/// hyphenated UUID (`None` where the UUID text cannot be parsed back).
pub open spec fn outbound_spec(namespace: u128, kind: Seq<char>, client: Seq<char>) -> Option<
    Seq<char>,
> {
    let id = simple_spec(generated(namespace, kind, client));
    if kind == "item"@ {
        Some(item_prefix_spec(client) + "_"@ + id)
    } else if kind == "call"@ {
        Some("call_"@ + id)
    } else if kind == "response"@ {
        Some("resp_"@ + id)
    } else {
        match uuid_parse(id) {
            Some(u) => Some(hyphenated_spec(u)),
            None => None,
        }
    }
}

/// The prefix of a client alias issued for an upstream identifier.
pub open spec fn inbound_prefix(kind: Seq<char>, upstream: Seq<char>) -> Seq<char> {
    if kind == "response"@ {
        "resp"@
    } else if kind == "call"@ {
        "call"@
    } else {
        item_prefix_spec(upstream)
    }
}

/// The text after the last `_` (all of it when there is none).
pub open spec fn last_segment(s: Seq<char>) -> Seq<char>
    decreases s.len(),
{
    if s.len() == 0 {
        Seq::empty()
    } else if s.last() == '_' {
        Seq::empty()
    } else {
        last_segment(s.drop_last()).push(s.last())
    }
}

pub open spec fn mapping_view(m: IdMapping) -> (Seq<char>, Seq<char>, Seq<char>) {
    (m.kind@, m.client_id@, m.upstream_id@)
}

/// A stored mapping that is an alias an older gateway issued for an upstream
/// output identifier, rather than a transformed input identifier.
pub open spec fn legacy_alias(namespace: u128, m: (Seq<char>, Seq<char>, Seq<char>)) -> bool {
    &&& (m.0 == "item"@ || m.0 == "call"@ || m.0 == "response"@)
    &&& last_segment(m.2) != simple_spec(generated(namespace, m.0, m.1))
}

/// Legacy aliases imported from `ms` in order; the first alias of a key wins.
pub open spec fn import_aliases(
    aliases: PairView,
    namespace: u128,
    ms: Seq<(Seq<char>, Seq<char>, Seq<char>)>,
) -> PairView
    decreases ms.len(),
{
    if ms.len() == 0 {
        aliases
    } else {
        let prior = import_aliases(aliases, namespace, ms.drop_last());
        let m = ms.last();
        if legacy_alias(namespace, m) && !prior.contains_key((m.0, m.1)) {
            prior.insert((m.0, m.1), m.2)
        } else {
            prior
        }
    }
}

/// Mappings loaded in order; a later mapping of the same key replaces an earlier one.
pub open spec fn load_forward(ms: Seq<(Seq<char>, Seq<char>, Seq<char>)>) -> PairView
    decreases ms.len(),
{
    if ms.len() == 0 {
        Map::empty()
    } else {
        let m = ms.last();
        load_forward(ms.drop_last()).insert((m.0, m.1), m.2)
    }
}

pub open spec fn load_reverse(ms: Seq<(Seq<char>, Seq<char>, Seq<char>)>) -> PairView
    decreases ms.len(),
{
    if ms.len() == 0 {
        Map::empty()
    } else {
        let m = ms.last();
        load_reverse(ms.drop_last()).insert((m.0, m.2), m.1)
    }
}

pub open spec fn mappings_view(ms: Seq<IdMapping>) -> Seq<(Seq<char>, Seq<char>, Seq<char>)> {
    ms.map_values(|m: IdMapping| mapping_view(m))
}

/// The identifiers of one binding generation: client identifiers are rewritten
/// to upstream identifiers on the way out, and upstream identifiers to client
/// aliases on the way back, always through the same recorded pair.
pub struct IdentityMap {
    pub binding: Binding,
    forward: PairMap,
    reverse: PairMap,
    legacy_aliases: PairMap,
    pending: Vec<IdMapping>,
    request_rewrite: Option<RequestRewrite>,
}

fn last_segment_of(s: &str) -> (r: String)
    ensures
        r@ == last_segment(s@),
{
    let n = s.unicode_len();
    let mut start: usize = 0;
    let mut i: usize = 0;
    while i < n
        invariant
            n == s@.len(),
            start <= i <= n,
            last_segment(s@.take(i as int)) == s@.subrange(start as int, i as int),
        decreases n - i,
    {
        let c = s.get_char(i);
        proof {
            let t = s@.take(i + 1);
            assert(t.drop_last() =~= s@.take(i as int));
            assert(t.last() == c);
        }
        if c == '_' {
            start = i + 1;
            proof {
                assert(s@.subrange(i + 1, i + 1) =~= Seq::<char>::empty());
            }
        } else {
            proof {
                assert(s@.subrange(start as int, i as int).push(c) =~= s@.subrange(
                    start as int,
                    i + 1,
                ));
            }
        }
        i = i + 1;
    }
    proof {
        assert(s@.take(n as int) =~= s@);
    }
    s.substring_char(start, n).to_owned()
}

fn name_of(kind: &str, client: &str) -> (r: Vec<u8>)
    ensures
        r@ == name_bytes(kind@, client@),
{
    let mut name: Vec<u8> = Vec::new();
    name.extend_from_slice(kind.as_bytes());
    name.push(0u8);
    name.extend_from_slice(client.as_bytes());
    proof {
        assert(name@ =~= name_bytes(kind@, client@));
    }
    name
}

fn joined(a: &str, b: &str, c: &str) -> (r: String)
    ensures
        r@ == a@ + b@ + c@,
{
    String::from_str(a).concat(b).concat(c)
}

impl IdentityMap {
    /// The binding whose identifiers this map holds.
    pub closed spec fn binding_of(self) -> Binding {
        self.binding
    }

    pub closed spec fn wf(self) -> bool {
        self.forward.wf() && self.reverse.wf() && self.legacy_aliases.wf()
    }

    /// Client identifier to upstream identifier, by kind.
    pub closed spec fn forward(self) -> PairView {
        self.forward.view()
    }

    /// Upstream identifier to client identifier, by kind.
    pub closed spec fn reverse(self) -> PairView {
        self.reverse.view()
    }

    /// Aliases issued by older gateway versions, by kind.
    pub closed spec fn legacy(self) -> PairView {
        self.legacy_aliases.view()
    }

    /// Mappings created since they were last taken, in creation order.
    pub closed spec fn pending(self) -> Seq<(Seq<char>, Seq<char>, Seq<char>)> {
        mappings_view(self.pending@)
    }

    pub closed spec fn rewrite(self) -> Option<RequestRewrite> {
        self.request_rewrite
    }

    /// Loads the stored mappings of `binding`, after importing the legacy
    /// aliases among them.
    pub fn new(binding: Binding, mappings: Vec<IdMapping>) -> (r: Self)
        ensures
            r.wf(),
            r.binding_of() == binding,
            r.legacy() == import_aliases(Map::empty(), binding.namespace, mappings_view(mappings@)),
            r.forward() == load_forward(mappings_view(mappings@)),
            r.reverse() == load_reverse(mappings_view(mappings@)),
            r.pending().len() == 0,
            r.rewrite() is None,
    {
        let ghost b0 = binding;
        let mut this = IdentityMap {
            binding,
            forward: PairMap::new(),
            reverse: PairMap::new(),
            legacy_aliases: PairMap::new(),
            pending: Vec::new(),
            request_rewrite: None,
        };
        let b = this.binding.duplicate();
        proof {
            assert(mappings_view(this.pending@) =~= Seq::empty());
        }
        this.import_legacy_aliases(&b, &mappings);
        proof {
            assert(mappings_view(this.pending@).len() == this.pending@.len());
        }
        let ghost ms = mappings_view(mappings@);
        let mut i: usize = 0;
        while i < mappings.len()
            invariant
                i <= mappings@.len(),
                ms == mappings_view(mappings@),
                this.forward.wf(),
                this.reverse.wf(),
                this.legacy_aliases.wf(),
                this.binding == b0,
                this.legacy_aliases.view() == import_aliases(Map::empty(), b0.namespace, ms),
                mappings_view(this.pending@).len() == 0,
                this.request_rewrite is None,
                this.forward.view() == load_forward(ms.take(i as int)),
                this.reverse.view() == load_reverse(ms.take(i as int)),
            decreases mappings@.len() - i,
        {
            let m = &mappings[i];
            this.forward.insert(m.kind.as_str(), m.client_id.as_str(), m.upstream_id.as_str());
            this.reverse.insert(m.kind.as_str(), m.upstream_id.as_str(), m.client_id.as_str());
            proof {
                assert(ms.take(i + 1).drop_last() =~= ms.take(i as int));
                assert(ms.take(i + 1).last() == mapping_view(mappings@[i as int]));
            }
            i = i + 1;
        }
        proof {
            assert(ms.take(mappings@.len() as int) =~= ms);
            assert(ms.take(0) =~= Seq::<(Seq<char>, Seq<char>, Seq<char>)>::empty());
        }
        this
    }

    /// Imports aliases issued for upstream output identifiers by an older
    /// gateway, so that its clients can replay their history. Only mappings of
    /// this very binding count; transformed input identifiers are ignored.
    pub fn import_legacy_aliases(&mut self, binding: &Binding, mappings: &Vec<IdMapping>)
        requires
            old(self).wf(),
        ensures
            final(self).wf(),
            final(self).binding_of() == old(self).binding_of(),
            final(self).forward() == old(self).forward(),
            final(self).reverse() == old(self).reverse(),
            final(self).pending() == old(self).pending(),
            final(self).rewrite() == old(self).rewrite(),
            final(self).legacy() == if session_view(binding.session) == session_view(
                old(self).binding_of().session,
            ) && binding.provider@ == old(self).binding_of().provider@ && binding.access_kind@ == old(self).binding_of().access_kind@ {
                import_aliases(old(self).legacy(), binding.namespace, mappings_view(mappings@))
            } else {
                old(self).legacy()
            },
    {
        if !binding.session.same(&self.binding.session) || !(binding.provider
            == self.binding.provider) || !(binding.access_kind == self.binding.access_kind) {
            return;
        }
        let ghost start = self.legacy_aliases.view();
        let ghost ms = mappings_view(mappings@);
        let ghost b0 = self.binding;
        let ghost fw = self.forward;
        let ghost rv = self.reverse;
        let ghost pd = self.pending;
        let ghost rw = self.request_rewrite;
        let mut i: usize = 0;
        while i < mappings.len()
            invariant
                i <= mappings@.len(),
                ms == mappings_view(mappings@),
                self.legacy_aliases.wf(),
                self.binding == b0,
                self.forward == fw,
                self.reverse == rv,
                self.pending == pd,
                self.request_rewrite == rw,
                self.legacy_aliases.view() == import_aliases(
                    start,
                    binding.namespace,
                    ms.take(i as int),
                ),
            decreases mappings@.len() - i,
        {
            let m = &mappings[i];
            let k = m.kind.as_str();
            proof {
                reveal_strlit("item");
                reveal_strlit("call");
                reveal_strlit("response");
                assert(ms.take(i + 1).drop_last() =~= ms.take(i as int));
                assert(ms.take(i + 1).last() == mapping_view(mappings@[i as int]));
            }
            if str_eq(k, "item") || str_eq(k, "call") || str_eq(k, "response") {
                let id = simple(v5(binding.namespace, name_of(k, m.client_id.as_str()).as_slice()));
                let tail = last_segment_of(m.upstream_id.as_str());
                if !(tail == id) {
                    if self.legacy_aliases.get(k, m.client_id.as_str()).is_none() {
                        self.legacy_aliases.insert(k, m.client_id.as_str(), m.upstream_id.as_str());
                    }
                }
            }
            i = i + 1;
        }
        proof {
            assert(ms.take(mappings@.len() as int) =~= ms);
        }
    }

    /// The identifier a client originally used for `id`: a legacy alias is
    /// resolved, anything else (or anything over 512 bytes) is returned as is.
    pub fn original_id<'a>(&'a self, kind: &str, id: &'a str) -> (r: &'a str)
        requires
            self.wf(),
        ensures
            r@ == if byte_len(id@) <= 512 && self.legacy().contains_key((kind@, id@)) {
                self.legacy()[(kind@, id@)]
            } else {
                id@
            },
    {
        if len_bytes(id) > 512 {
            return id;
        }
        match self.legacy_aliases.get(kind, id) {
            Some(v) => v,
            None => id,
        }
    }

    /// The upstream identifier already issued for a client identifier, if any.
    pub fn existing(&self, kind: &str, client: &str) -> (r: Option<&str>)
        requires
            self.wf(),
        ensures
            match r {
                Some(v) => self.forward().contains_key((kind@, client@)) && self.forward()[(
                kind@, client@)] == v@,
                None => !self.forward().contains_key((kind@, client@)),
            },
    {
        self.forward.get(kind, client)
    }

    fn insert(&mut self, kind: &str, client_id: String, upstream_id: String)
        requires
            old(self).wf(),
        ensures
            final(self).wf(),
            final(self).binding_of() == old(self).binding_of(),
            final(self).forward() == old(self).forward().insert((kind@, client_id@), upstream_id@),
            final(self).reverse() == old(self).reverse().insert((kind@, upstream_id@), client_id@),
            final(self).legacy() == old(self).legacy(),
            final(self).pending() == old(self).pending().push((kind@, client_id@, upstream_id@)),
            final(self).rewrite() == old(self).rewrite(),
    {
        self.forward.insert(kind, client_id.as_str(), upstream_id.as_str());
        self.reverse.insert(kind, upstream_id.as_str(), client_id.as_str());
        let ghost before = self.pending@;
        self.pending.push(IdMapping { kind: kind.to_owned(), client_id, upstream_id });
        proof {
            assert(mappings_view(self.pending@) =~= mappings_view(before).push(
                (kind@, client_id@, upstream_id@),
            ));
        }
    }

    /// The upstream identifier for a client identifier of 1 to 512 bytes:
    /// the recorded one, else a new name-based one that is recorded.
    pub fn outbound(&mut self, kind: &str, client: &str) -> (r: Result<String>)
        requires
            old(self).wf(),
        ensures
            final(self).wf(),
            final(self).binding_of() == old(self).binding_of(),
            final(self).legacy() == old(self).legacy(),
            final(self).rewrite() == old(self).rewrite(),
            client@.len() == 0 || byte_len(client@) > 512 ==> (r matches Err(e) && plain_error(
                e,
                400,
                "invalid_request"@,
                "Identity length is invalid"@,
            ) && *final(self) == *old(self)),
            client@.len() > 0 && byte_len(client@) <= 512 && old(self).forward().contains_key(
                (kind@, client@),
            ) ==> (r matches Ok(u) && u@ == old(self).forward()[(kind@, client@)]
                && *final(self) == *old(self)),
            client@.len() > 0 && byte_len(client@) <= 512 && !old(self).forward().contains_key(
                (kind@, client@),
            ) ==> match outbound_spec(old(self).binding_of().namespace, kind@, client@) {
                Some(u) => r matches Ok(v) && v@ == u && final(self).forward() == old(
                    self,
                ).forward().insert((kind@, client@), u) && final(self).reverse() == old(
                    self,
                ).reverse().insert((kind@, u), client@) && final(self).pending() == old(
                    self,
                ).pending().push((kind@, client@, u)),
                None => r matches Err(e) && plain_error(
                    e,
                    400,
                    "invalid_request"@,
                    "Invalid identity"@,
                ) && *final(self) == *old(self),
            },
    {
        let n = len_bytes(client);
        if n == 0 || n > 512 {
            return Err(Error::invalid("Identity length is invalid"));
        }
        match self.existing(kind, client) {
            Some(v) => {
                return Ok(v.to_owned());
            },
            None => {},
        }
        let id = simple(v5(self.binding.namespace, name_of(kind, client).as_slice()));
        proof {
            reveal_strlit("item");
            reveal_strlit("call");
            reveal_strlit("response");
        }
        let upstream = if str_eq(kind, "item") {
            joined(item_prefix(client), "_", id.as_str())
        } else if str_eq(kind, "call") {
            String::from_str("call_").concat(id.as_str())
        } else if str_eq(kind, "response") {
            String::from_str("resp_").concat(id.as_str())
        } else {
            match parse(id.as_str()) {
                Some(u) => hyphenated(u),
                None => {
                    return Err(Error::invalid("Invalid identity"));
                },
            }
        };
        self.insert(kind, client.to_owned(), upstream.clone());
        Ok(upstream)
    }

    /// The client identifier for an upstream identifier of 1 to 512 bytes:
    /// the recorded one, else a new random alias with the matching prefix.
    pub fn inbound(&mut self, kind: &str, upstream: &str) -> (r: Result<String>)
        requires
            old(self).wf(),
        ensures
            final(self).wf(),
            final(self).binding_of() == old(self).binding_of(),
            final(self).legacy() == old(self).legacy(),
            final(self).rewrite() == old(self).rewrite(),
            upstream@.len() == 0 || byte_len(upstream@) > 512 ==> (r matches Err(e) && plain_error(
                e,
                502,
                "invalid_upstream_id"@,
                "Upstream identity length is invalid"@,
            ) && *final(self) == *old(self)),
            upstream@.len() > 0 && byte_len(upstream@) <= 512 && old(self).reverse().contains_key(
                (kind@, upstream@),
            ) ==> (r matches Ok(c) && c@ == old(self).reverse()[(kind@, upstream@)]
                && *final(self) == *old(self)),
            upstream@.len() > 0 && byte_len(upstream@) <= 512 && !old(self).reverse().contains_key(
                (kind@, upstream@),
            ) ==> (r matches Ok(c) && (exists|x: u128|
                c@ == inbound_prefix(kind@, upstream@) + "_"@ + simple_spec(x))
                && final(self).forward() == old(self).forward().insert((kind@, c@), upstream@)
                && final(self).reverse() == old(self).reverse().insert((kind@, upstream@), c@)
                && final(self).pending() == old(self).pending().push((kind@, c@, upstream@))),
    {
        let n = len_bytes(upstream);
        if n == 0 || n > 512 {
            return Err(Error::new(502, "invalid_upstream_id", "Upstream identity length is invalid"));
        }
        match self.reverse.get(kind, upstream) {
            Some(c) => {
                return Ok(c.to_owned());
            },
            None => {},
        }
        proof {
            reveal_strlit("call");
            reveal_strlit("response");
        }
        let prefix = if str_eq(kind, "response") {
            "resp"
        } else if str_eq(kind, "call") {
            "call"
        } else {
            item_prefix(upstream)
        };
        let x = random_uuid();
        let client = joined(prefix, "_", simple(x).as_str());
        self.insert(kind, client.clone(), upstream.to_owned());
        Ok(client)
    }

    /// The mappings created since the last call, which are then forgotten.
    pub fn take_pending(&mut self) -> (r: Vec<IdMapping>)
        ensures
            mappings_view(r@) == old(self).pending(),
            final(self).pending().len() == 0,
            final(self).wf() == old(self).wf(),
            final(self).binding_of() == old(self).binding_of(),
            final(self).forward() == old(self).forward(),
            final(self).reverse() == old(self).reverse(),
            final(self).legacy() == old(self).legacy(),
            final(self).rewrite() == old(self).rewrite(),
    {
        let mut taken = Vec::new();
        std::mem::swap(&mut taken, &mut self.pending);
        proof {
            assert(mappings_view(self.pending@) =~= Seq::empty());
        }
        taken
    }

    pub fn record_request_rewrite(&mut self, rewrite: RequestRewrite)
        ensures
            final(self).rewrite() == Some(rewrite),
            final(self).wf() == old(self).wf(),
            final(self).binding_of() == old(self).binding_of(),
            final(self).forward() == old(self).forward(),
            final(self).reverse() == old(self).reverse(),
            final(self).legacy() == old(self).legacy(),
            final(self).pending() == old(self).pending(),
    {
        self.request_rewrite = Some(rewrite);
    }

    pub fn take_request_rewrite(&mut self) -> (r: Option<RequestRewrite>)
        ensures
            r == old(self).rewrite(),
            final(self).rewrite() is None,
            final(self).wf() == old(self).wf(),
            final(self).binding_of() == old(self).binding_of(),
            final(self).forward() == old(self).forward(),
            final(self).reverse() == old(self).reverse(),
            final(self).legacy() == old(self).legacy(),
            final(self).pending() == old(self).pending(),
    {
        let mut taken = None;
        std::mem::swap(&mut taken, &mut self.request_rewrite);
        taken
    }
}

} // verus!
