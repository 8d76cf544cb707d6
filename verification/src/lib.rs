//! Verified core of the XXGate account gateway: scheduling, identity mapping,
//! pricing, quota rules and the Codex protocol helpers they rely on.
mod text;
mod pairmap;
pub mod ids;
pub mod order;
pub mod bytes;
pub mod time;
pub mod types;
pub mod json;
pub mod json_text;
pub mod sorted_members;
pub mod settings;
pub mod clients;
pub mod providers;
pub mod groups;
pub mod accounts;
pub mod identity;
pub mod quota;
pub mod resets;
pub mod protocol;
pub mod reports;
pub mod safety;
pub mod access;
pub mod scheduling;
pub mod usage;
pub mod delivery;
pub mod dispatch;
pub mod pricing;
pub mod queries;
pub mod urls;
pub mod turn_state;
pub mod codex;
