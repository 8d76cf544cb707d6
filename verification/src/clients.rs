//! Inbound software classification, independent of authentication and transport.
use vstd::prelude::*;

verus! {

#[derive(Debug, Clone, Copy, PartialEq, Eq, Structural)]
pub enum ClientSource {
    Codex,
    Unknown,
}

impl Default for ClientSource {
    fn default() -> (r: Self)
        ensures
            r == ClientSource::Unknown,
    {
        ClientSource::Unknown
    }
}

/// Where a request was recognized: field locations only, never content.
#[derive(Debug)]
pub struct ClientOrigin {
    pub source: ClientSource,
    pub evidence: Vec<String>,
    pub rule: String,
    pub version: u32,
}

impl Default for ClientOrigin {
    fn default() -> (r: Self)
        ensures
            r.source == ClientSource::Unknown,
            r.evidence@.len() == 0,
            r.rule@ == "unrecognized"@,
            r.version == 1,
    {
        ClientOrigin {
            source: ClientSource::Unknown,
            evidence: Vec::new(),
            rule: "unrecognized".to_owned(),
            version: 1,
        }
    }
}

} // verus!
