//! Errors and model references shared by every part of the gateway.
use vstd::prelude::*;
use crate::text::{blank, copy_opt_string, is_blank};

verus! {

/// Allowlisted facts extracted by the provider; never free-form upstream text.
#[derive(Debug)]
pub struct UpstreamError {
    pub code: Option<String>,
    pub reason: Option<String>,
    pub param: Option<String>,
}

/// A classified gateway failure. The optional client message may quote
/// upstream text, so it is returned only to the requesting caller and the type
/// has no `Debug` output that could copy it into logs.
pub struct Error {
    pub code: String,
    pub message: String,
    pub status: u16,
    pub upstream: Option<Box<UpstreamError>>,
    pub client_message: Option<String>,
}

pub type Result<T> = core::result::Result<T, Error>;

/// `e` carries exactly this status, code and message.
pub open spec fn error_is(e: Error, status: u16, code: Seq<char>, message: Seq<char>) -> bool {
    e.status == status && e.code@ == code && e.message@ == message
}

/// A plain error: no upstream facts, no client message.
pub open spec fn plain_error(e: Error, status: u16, code: Seq<char>, message: Seq<char>) -> bool {
    error_is(e, status, code, message) && e.upstream is None && e.attached_message() is None
}

pub open spec fn same_upstream(a: Option<UpstreamError>, b: Option<UpstreamError>) -> bool {
    match (a, b) {
        (None, None) => true,
        (Some(x), Some(y)) => x.code == y.code && x.reason == y.reason && x.param == y.param,
        _ => false,
    }
}

pub open spec fn unbox_upstream(u: Option<Box<UpstreamError>>) -> Option<UpstreamError> {
    match u {
        Some(b) => Some(*b),
        None => None,
    }
}

/// The first 4096 characters of a non-blank message, else nothing.
pub open spec fn client_text(message: Option<Seq<char>>) -> Option<Seq<char>> {
    match message {
        Some(m) => if blank(m) {
            None
        } else {
            Some(m.take(if m.len() > 4096 { 4096 } else { m.len() as int }))
        },
        None => None,
    }
}

impl UpstreamError {
    pub fn duplicate(&self) -> (r: Self)
        ensures
            r == *self,
    {
        UpstreamError {
            code: copy_opt_string(&self.code),
            reason: copy_opt_string(&self.reason),
            param: copy_opt_string(&self.param),
        }
    }
}

impl Error {
    pub open spec fn attached_message(self) -> Option<Seq<char>> {
        match self.client_message {
            Some(m) => Some(m@),
            None => None,
        }
    }

    pub fn new(status: u16, code: &str, message: &str) -> (r: Self)
        ensures
            plain_error(r, status, code@, message@),
    {
        Error {
            code: code.to_owned(),
            message: message.to_owned(),
            status,
            upstream: None,
            client_message: None,
        }
    }

    /// The same error, field for field.
    pub fn duplicate(&self) -> (r: Self)
        ensures
            error_is(r, self.status, self.code@, self.message@),
            same_upstream(unbox_upstream(r.upstream), unbox_upstream(self.upstream)),
            r.attached_message() == self.attached_message(),
    {
        Error {
            code: self.code.clone(),
            message: self.message.clone(),
            status: self.status,
            upstream: match &self.upstream {
                Some(u) => Some(Box::new(u.duplicate())),
                None => None,
            },
            client_message: copy_opt_string(&self.client_message),
        }
    }

    pub fn with_upstream(self, facts: Option<UpstreamError>) -> (r: Self)
        ensures
            error_is(r, self.status, self.code@, self.message@),
            unbox_upstream(r.upstream) == facts,
            r.attached_message() == self.attached_message(),
    {
        let mut this = self;
        this.upstream = match facts {
            Some(f) => Some(Box::new(f)),
            None => None,
        };
        this
    }

    /// Attaches text for this caller only: a blank message is dropped and a
    /// long one keeps its first 4096 characters.
    pub fn with_client_message(self, message: Option<&str>) -> (r: Self)
        ensures
            error_is(r, self.status, self.code@, self.message@),
            r.upstream == self.upstream,
            r.attached_message() == client_text(
                match message {
                    Some(m) => Some(m@),
                    None => None,
                },
            ),
    {
        let mut this = self;
        this.client_message = match message {
            Some(m) => {
                if is_blank(m) {
                    None
                } else {
                    let n = m.unicode_len();
                    let keep = if n > 4096 { 4096 } else { n };
                    Some(m.substring_char(0, keep).to_owned())
                }
            },
            None => None,
        };
        this
    }

    /// The text for the requesting caller: its own message if one was
    /// attached, else the classified message.
    pub fn client_message(&self) -> (r: &str)
        ensures
            r@ == match self.attached_message() {
                Some(m) => m,
                None => self.message@,
            },
    {
        match &self.client_message {
            Some(m) => m.as_str(),
            None => self.message.as_str(),
        }
    }

    pub fn invalid(message: &str) -> (r: Self)
        ensures
            plain_error(r, 400, "invalid_request"@, message@),
    {
        Self::new(400, "invalid_request", message)
    }

    pub fn storage() -> (r: Self)
        ensures
            plain_error(r, 503, "storage_unavailable"@, "Persistent storage is unavailable"@),
    {
        Self::new(503, "storage_unavailable", "Persistent storage is unavailable")
    }

    pub fn cancelled() -> (r: Self)
        ensures
            plain_error(r, 499, "client_cancelled"@, "The client disconnected"@),
    {
        Self::new(499, "client_cancelled", "The client disconnected")
    }

    pub fn unauthorized() -> (r: Self)
        ensures
            plain_error(r, 401, "unauthorized"@, "Authentication is required"@),
    {
        Self::new(401, "unauthorized", "Authentication is required")
    }

    pub fn not_found() -> (r: Self)
        ensures
            plain_error(r, 404, "not_found"@, "The requested resource was not found"@),
    {
        Self::new(404, "not_found", "The requested resource was not found")
    }

    pub fn conflict() -> (r: Self)
        ensures
            plain_error(r, 409, "version_conflict"@, "The resource changed; reload and try again"@),
    {
        Self::new(409, "version_conflict", "The resource changed; reload and try again")
    }
}

/// A provider, access kind and upstream model name.
#[derive(Debug, Clone)]
pub struct ModelRef {
    pub provider: String,
    pub access_kind: String,
    pub model: String,
}

pub open spec fn same_model(a: ModelRef, b: ModelRef) -> bool {
    a.provider@ == b.provider@ && a.access_kind@ == b.access_kind@ && a.model@ == b.model@
}

impl ModelRef {
    /// A Codex OAuth model of the OpenAI provider.
    pub fn codex(model: &str) -> (r: Self)
        ensures
            r.provider@ == "openai"@,
            r.access_kind@ == "codex_oauth"@,
            r.model@ == model@,
    {
        ModelRef {
            provider: "openai".to_owned(),
            access_kind: "codex_oauth".to_owned(),
            model: model.to_owned(),
        }
    }

    pub fn duplicate(&self) -> (r: Self)
        ensures
            r == *self,
    {
        ModelRef {
            provider: self.provider.clone(),
            access_kind: self.access_kind.clone(),
            model: self.model.clone(),
        }
    }

    /// Field-wise equality.
    pub fn same(&self, other: &ModelRef) -> (r: bool)
        ensures
            r == same_model(*self, *other),
    {
        self.provider == other.provider && self.access_kind == other.access_kind && self.model
            == other.model
    }
}

} // verus!
