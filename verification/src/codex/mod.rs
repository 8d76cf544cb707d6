pub mod model_version;
pub mod request;
pub mod credits;
pub mod trace;
pub mod client_source;
pub mod identity_input;
pub mod ingress;
pub mod oauth_browser;
pub mod wire;
pub mod upstream_error;
pub mod oauth_response;
pub mod recovery;
pub mod events;
pub mod references;
pub mod compaction;
pub mod oauth;
pub mod capabilities;
pub mod inbound;
pub mod projection;
pub mod search;
pub mod headers;
pub mod identifiers;
