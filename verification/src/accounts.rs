//! Upstream accounts, their client profiles and credentials.
use vstd::prelude::*;
use crate::clients::ClientSource;
use crate::providers::AccountModelCatalog;
use crate::time::Timestamp;
use crate::types::{Error, ModelRef, Result, plain_error};
use crate::text::{blank, byte_len, is_blank, len_bytes, str_eq};
use crate::urls::{header_bytes_ok, header_value_ok, parse_url, url_parse};
use vstd::string::StringExecFns;
use vstd::utf8::encode_utf8;

verus! {

#[derive(Debug, Clone, Copy, PartialEq, Eq, Structural)]
pub enum DisableReason {
    AdminDisabled,
    Quota5hExhausted,
    Quota7dExhausted,
    QuotaExhausted,
    OauthInvalid,
}

/// The Codex client identity presented to the upstream for one account.
#[derive(Debug)]
pub struct ClientProfile {
    pub installation_id: u128,
    pub codex_version: String,
    pub user_agent: String,
    pub tls_backend: String,
}

pub struct Account {
    pub id: u128,
    pub group_ids: Vec<u128>,
    pub name: String,
    pub provider: String,
    pub access_kind: String,
    pub enabled: bool,
    pub codex_only: bool,
    pub disable_reason: Option<DisableReason>,
    pub max_inflight: u32,
    pub upstream_account_id: String,
    pub upstream_base_url: String,
    pub models: Vec<String>,
    pub models_restricted: bool,
    pub model_catalog: Option<AccountModelCatalog>,
    pub profile: ClientProfile,
    pub version: i64,
    pub credential_version: i64,
    pub credential_expires_at: Option<Timestamp>,
    pub created_at: Timestamp,
    pub updated_at: Timestamp,
}

/// Whether an account serves requests from `source`.
pub open spec fn accepts_spec(a: Account, source: ClientSource) -> bool {
    !a.codex_only || source == ClientSource::Codex
}

pub open spec fn names_contain(v: Seq<String>, name: Seq<char>) -> bool {
    exists|i: int| 0 <= i < v.len() && #[trigger] v[i]@ == name
}

/// Whether a synced catalog lists the model (an unsynced or absent catalog
/// does not restrict anything).
pub open spec fn catalog_allows(c: Option<AccountModelCatalog>, model: Seq<char>) -> bool {
    match c {
        Some(cat) => cat.synced_at is Some ==> exists|i: int|
            0 <= i < cat.models@.len() && #[trigger] cat.models@[i].id@ == model,
        None => true,
    }
}

/// Provider and access kind match, the administrator's model scope admits the
/// model (an unrestricted empty scope admits all), and a synced catalog lists it.
pub open spec fn supports_spec(a: Account, m: ModelRef) -> bool {
    &&& a.provider@ == m.provider@
    &&& a.access_kind@ == m.access_kind@
    &&& ((!a.models_restricted && a.models@.len() == 0) || names_contain(a.models@, m.model@))
    &&& catalog_allows(a.model_catalog, m.model@)
}

pub open spec fn in_group(a: Account, group: u128) -> bool {
    a.group_ids@.contains(group)
}

pub fn contains_id(ids: &Vec<u128>, id: u128) -> (r: bool)
    ensures
        r == ids@.contains(id),
{
    let mut i: usize = 0;
    while i < ids.len()
        invariant
            i <= ids.len(),
            forall|j: int| 0 <= j < i ==> ids@[j] != id,
        decreases ids.len() - i,
    {
        if ids[i] == id {
            return true;
        }
        i = i + 1;
    }
    false
}

pub fn names_include(v: &Vec<String>, name: &String) -> (r: bool)
    ensures
        r == names_contain(v@, name@),
{
    let mut i: usize = 0;
    while i < v.len()
        invariant
            i <= v.len(),
            forall|j: int| 0 <= j < i ==> v@[j]@ != name@,
        decreases v.len() - i,
    {
        if v[i] == *name {
            return true;
        }
        i = i + 1;
    }
    false
}

impl ClientProfile {
    pub fn duplicate(&self) -> (r: Self)
        ensures
            r == *self,
    {
        ClientProfile {
            installation_id: self.installation_id,
            codex_version: self.codex_version.clone(),
            user_agent: self.user_agent.clone(),
            tls_backend: self.tls_backend.clone(),
        }
    }
}

/// Two copies of the same account; a catalog's recorded sync error is
/// compared only by its presence.
pub open spec fn same_account(a: Account, b: Account) -> bool {
    &&& a.id == b.id
    &&& a.group_ids@ == b.group_ids@
    &&& a.name@ == b.name@
    &&& a.provider@ == b.provider@
    &&& a.access_kind@ == b.access_kind@
    &&& a.enabled == b.enabled
    &&& a.codex_only == b.codex_only
    &&& a.disable_reason == b.disable_reason
    &&& a.max_inflight == b.max_inflight
    &&& a.upstream_account_id@ == b.upstream_account_id@
    &&& a.upstream_base_url@ == b.upstream_base_url@
    &&& a.models@ == b.models@
    &&& a.models_restricted == b.models_restricted
    &&& (a.model_catalog is Some <==> b.model_catalog is Some)
    &&& (a.model_catalog matches Some(x) ==> (b.model_catalog matches Some(y) && x.models@
        == y.models@ && x.synced_at == y.synced_at && x.attempted_at == y.attempted_at))
    &&& a.profile == b.profile
    &&& a.version == b.version
    &&& a.credential_version == b.credential_version
    &&& a.credential_expires_at == b.credential_expires_at
    &&& a.created_at == b.created_at
    &&& a.updated_at == b.updated_at
}

fn copy_strings(v: &Vec<String>) -> (r: Vec<String>)
    ensures
        r@ == v@,
{
    let mut out: Vec<String> = Vec::new();
    let mut i: usize = 0;
    while i < v.len()
        invariant
            i <= v@.len(),
            out@ =~= v@.take(i as int),
        decreases v@.len() - i,
    {
        out.push(v[i].clone());
        i = i + 1;
    }
    proof {
        assert(v@.take(v@.len() as int) =~= v@);
    }
    out
}

fn copy_ids(v: &Vec<u128>) -> (r: Vec<u128>)
    ensures
        r@ == v@,
{
    let mut out: Vec<u128> = Vec::new();
    let mut i: usize = 0;
    while i < v.len()
        invariant
            i <= v@.len(),
            out@ =~= v@.take(i as int),
        decreases v@.len() - i,
    {
        out.push(v[i]);
        i = i + 1;
    }
    proof {
        assert(v@.take(v@.len() as int) =~= v@);
    }
    out
}

impl Account {
    pub fn duplicate(&self) -> (r: Self)
        ensures
            same_account(r, *self),
    {
        Account {
            id: self.id,
            group_ids: copy_ids(&self.group_ids),
            name: self.name.clone(),
            provider: self.provider.clone(),
            access_kind: self.access_kind.clone(),
            enabled: self.enabled,
            codex_only: self.codex_only,
            disable_reason: self.disable_reason,
            max_inflight: self.max_inflight,
            upstream_account_id: self.upstream_account_id.clone(),
            upstream_base_url: self.upstream_base_url.clone(),
            models: copy_strings(&self.models),
            models_restricted: self.models_restricted,
            model_catalog: match &self.model_catalog {
                Some(c) => Some(c.duplicate()),
                None => None,
            },
            profile: self.profile.duplicate(),
            version: self.version,
            credential_version: self.credential_version,
            credential_expires_at: self.credential_expires_at,
            created_at: self.created_at,
            updated_at: self.updated_at,
        }
    }

    pub fn accepts(&self, source: ClientSource) -> (r: bool)
        ensures
            r == accepts_spec(*self, source),
    {
        !self.codex_only || source == ClientSource::Codex
    }

    pub fn in_group(&self, group: u128) -> (r: bool)
        ensures
            r == in_group(*self, group),
    {
        contains_id(&self.group_ids, group)
    }

    #[verifier::loop_isolation(false)]
    pub fn supports(&self, model: &ModelRef) -> (r: bool)
        ensures
            r == supports_spec(*self, *model),
    {
        if !(self.provider == model.provider) || !(self.access_kind == model.access_kind) {
            return false;
        }
        if !((!self.models_restricted && self.models.len() == 0) || names_include(
            &self.models,
            &model.model,
        )) {
            return false;
        }
        match &self.model_catalog {
            Some(c) => {
                if c.synced_at.is_none() {
                    return true;
                }
                let mut i: usize = 0;
                while i < c.models.len()
                    invariant
                        i <= c.models@.len(),
                        forall|j: int| 0 <= j < i ==> c.models@[j].id@ != model.model@,
                    decreases c.models@.len() - i,
                {
                    if c.models[i].id == model.model {
                        assert(c.models@[i as int].id@ == model.model@);
                        return true;
                    }
                    i = i + 1;
                }
                false
            },
            None => true,
        }
    }
}


pub open spec fn ids_distinct(v: Seq<u128>) -> bool {
    forall|i: int, j: int| #![trigger v[i], v[j]] 0 <= i < j < v.len() ==> v[i] != v[j]
}

pub open spec fn model_name_bad(m: Seq<char>) -> bool {
    blank(m) || byte_len(m) > 160
}

/// An upstream URL with a host, no credentials, query or fragment, over HTTPS
/// (or HTTP where allowed).
pub open spec fn upstream_url_ok(text: Seq<char>, allow_http: bool) -> bool {
    let u = url_parse(text).unwrap();
    &&& u.1 is Some
    &&& u.3 == Seq::<char>::empty()
    &&& u.4 is None
    &&& u.5 is None
    &&& u.6 is None
    &&& (u.0 == "https"@ || (allow_http && u.0 == "http"@))
}

/// Why an account is refused, checked in a fixed order: groups, models, name,
/// concurrency, upstream account, provider, upstream URL, TLS backend, Codex
/// baseline and user agent.
pub open spec fn account_fault(a: Account, allow_http: bool) -> Option<Seq<char>> {
    if a.group_ids@.len() > 64 || !ids_distinct(a.group_ids@) {
        Some("Choose at most 64 distinct account groups"@)
    } else if a.models@.len() > 512 || exists|i: int| 0 <= i < a.models@.len() && model_name_bad(#[trigger] a.models@[i]@) {
        Some("Invalid account model selection"@)
    } else if blank(a.name@) || byte_len(a.name@) > 128 {
        Some("Account name must contain 1 to 128 bytes"@)
    } else if a.max_inflight == 0 || a.max_inflight > 1000 {
        Some("Account concurrency must be between 1 and 1000"@)
    } else if blank(a.upstream_account_id@) || byte_len(a.upstream_account_id@) > 256 {
        Some("An upstream account ID is required"@)
    } else if a.provider@ != "openai"@ || a.access_kind@ != "codex_oauth"@ {
        Some("Only the Codex OAuth provider is currently supported"@)
    } else if url_parse(a.upstream_base_url@) is None {
        Some("Invalid upstream URL"@)
    } else if !upstream_url_ok(a.upstream_base_url@, allow_http) {
        Some("Upstream URL requires HTTPS and must not include credentials, query or fragment"@)
    } else if a.profile.tls_backend@ != "native"@ && a.profile.tls_backend@ != "rustls"@ {
        Some("Unsupported TLS backend"@)
    } else if a.profile.codex_version@ != "0.153.4"@ {
        Some("The supported Codex baseline is 0.153.4"@)
    } else if !header_bytes_ok(encode_utf8(a.profile.user_agent@)) {
        Some("Invalid User-Agent"@)
    } else {
        None
    }
}

fn distinct_ids(v: &Vec<u128>) -> (r: bool)
    ensures
        r == ids_distinct(v@),
{
    let mut j: usize = 0;
    while j < v.len()
        invariant
            j <= v@.len(),
            forall|a: int, b: int| #![trigger v@[a], v@[b]] 0 <= a < b < j ==> v@[a] != v@[b],
        decreases v@.len() - j,
    {
        let mut i: usize = 0;
        while i < j
            invariant
                j < v@.len(),
                i <= j,
                forall|a: int| 0 <= a < i ==> #[trigger] v@[a] != v@[j as int],
            decreases j - i,
        {
            if v[i] == v[j] {
                return false;
            }
            i = i + 1;
        }
        j = j + 1;
    }
    true
}

impl Account {
    /// Checks an account before it is stored; see `account_fault`.
    #[verifier::loop_isolation(false)]
    pub fn validate(&self, allow_http: bool) -> (r: Result<()>)
        ensures
            match account_fault(*self, allow_http) {
                Some(m) => r matches Err(e) && plain_error(e, 400, "invalid_request"@, m),
                None => r is Ok,
            },
    {
        proof {
            reveal_strlit("openai");
            reveal_strlit("codex_oauth");
            reveal_strlit("https");
            reveal_strlit("http");
            reveal_strlit("native");
            reveal_strlit("rustls");
            reveal_strlit("0.153.4");
        }
        if self.group_ids.len() > 64 || !distinct_ids(&self.group_ids) {
            return Err(Error::invalid("Choose at most 64 distinct account groups"));
        }
        if self.models.len() > 512 {
            return Err(Error::invalid("Invalid account model selection"));
        }
        let mut i: usize = 0;
        while i < self.models.len()
            invariant
                i <= self.models@.len(),
                forall|k: int| 0 <= k < i ==> !model_name_bad(#[trigger] self.models@[k]@),
            decreases self.models@.len() - i,
        {
            if is_blank(self.models[i].as_str()) || len_bytes(self.models[i].as_str()) > 160 {
                return Err(Error::invalid("Invalid account model selection"));
            }
            i = i + 1;
        }
        if is_blank(self.name.as_str()) || len_bytes(self.name.as_str()) > 128 {
            return Err(Error::invalid("Account name must contain 1 to 128 bytes"));
        }
        if self.max_inflight == 0 || self.max_inflight > 1000 {
            return Err(Error::invalid("Account concurrency must be between 1 and 1000"));
        }
        if is_blank(self.upstream_account_id.as_str()) || len_bytes(self.upstream_account_id.as_str())
            > 256 {
            return Err(Error::invalid("An upstream account ID is required"));
        }
        if !str_eq(self.provider.as_str(), "openai") || !str_eq(self.access_kind.as_str(), "codex_oauth") {
            return Err(Error::invalid("Only the Codex OAuth provider is currently supported"));
        }
        let url = match parse_url(self.upstream_base_url.as_str()) {
            Some(u) => u,
            None => {
                return Err(Error::invalid("Invalid upstream URL"));
            },
        };
        proof {
            let u = url_parse(self.upstream_base_url@).unwrap();
            assert(u == crate::urls::url_view(url));
        }
        let secure = str_eq(url.scheme.as_str(), "https") || (allow_http && str_eq(
            url.scheme.as_str(),
            "http",
        ));
        proof {
            reveal_strlit("");
            assert(""@ =~= Seq::<char>::empty());
        }
        if url.host.is_none() || !str_eq(url.username.as_str(), "") || url.password.is_some()
            || url.query.is_some() || url.fragment.is_some() || !secure {
            return Err(
                Error::invalid(
                    "Upstream URL requires HTTPS and must not include credentials, query or fragment",
                ),
            );
        }
        let tls = self.profile.tls_backend.as_str();
        if !str_eq(tls, "native") && !str_eq(tls, "rustls") {
            return Err(Error::invalid("Unsupported TLS backend"));
        }
        if !str_eq(self.profile.codex_version.as_str(), "0.153.4") {
            return Err(Error::invalid("The supported Codex baseline is 0.153.4"));
        }
        if !header_value_ok(self.profile.user_agent.as_str()) {
            return Err(Error::invalid("Invalid User-Agent"));
        }
        Ok(())
    }
}

/// Upstream credentials of an account. They are kept encrypted at rest and
/// have no `Debug` output.
pub struct Credentials {
    pub access_token: String,
    pub refresh_token: String,
    pub id_token: String,
    pub expires_at: Option<Timestamp>,
}

/// Tokens of sane length, and an access token that can be sent as a bearer
/// header.
pub open spec fn credentials_fault(c: Credentials) -> Option<Seq<char>> {
    if byte_len(c.access_token@) == 0 || byte_len(c.access_token@) > 32768 || byte_len(c.refresh_token@)
        > 32768 || byte_len(c.id_token@) > 32768 {
        Some("Invalid credential length"@)
    } else if !header_bytes_ok(encode_utf8("Bearer "@ + c.access_token@)) {
        Some("Invalid access token"@)
    } else {
        None
    }
}

impl Credentials {
    pub fn validate(&self) -> (r: Result<()>)
        ensures
            match credentials_fault(*self) {
                Some(m) => r matches Err(e) && plain_error(e, 400, "invalid_request"@, m),
                None => r is Ok,
            },
    {
        if len_bytes(self.access_token.as_str()) == 0 || len_bytes(self.access_token.as_str()) > 32768
            || len_bytes(self.refresh_token.as_str()) > 32768 || len_bytes(self.id_token.as_str())
            > 32768 {
            return Err(Error::invalid("Invalid credential length"));
        }
        let bearer = String::from_str("Bearer ").concat(self.access_token.as_str());
        if !header_value_ok(bearer.as_str()) {
            return Err(Error::invalid("Invalid access token"));
        }
        Ok(())
    }
}
} // verus!
