//! Protocol facts kept about a request, never its content.
use vstd::prelude::*;

verus! {

#[derive(Debug, Clone, Copy, PartialEq, Eq, Structural)]
pub enum RequestKind {
    Responses,
    Compact,
    Search,
}

impl Default for RequestKind {
    fn default() -> (r: Self)
        ensures
            r == RequestKind::Responses,
    {
        RequestKind::Responses
    }
}

#[derive(Debug, Clone, Copy, PartialEq, Eq, Structural)]
pub enum CompactionMethod {
    Compact,
    RemoteV2,
}

/// Only operation facts are retained, never the compacted transcript or ciphertext.
#[derive(Debug, Clone, Copy)]
pub struct Compaction {
    pub method: CompactionMethod,
    /// None until an output item or a complete response has been observed.
    pub output_observed: Option<bool>,
}

#[derive(Debug, Clone, Copy, PartialEq, Eq, Structural)]
pub enum EncryptedContentError {
    Reasoning,
    ToolOutput,
}

/// Counts only: removed ciphertext, summaries or input content are never kept.
#[derive(Debug, Clone, Copy)]
pub struct EncryptedContentRecovery {
    pub error_kind: EncryptedContentError,
    pub encrypted_fields_removed: usize,
    pub null_content_fields_removed: usize,
    pub empty_reasoning_items_removed: usize,
    pub encrypted_tool_parts_replaced: usize,
    pub tool_outputs_changed: usize,
}

} // verus!
