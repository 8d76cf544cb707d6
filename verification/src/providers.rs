//! Models that upstream accounts offer and the administrator's model table.
use vstd::prelude::*;
use crate::text::{copy_opt_string, len_bytes};
use crate::time::Timestamp;
use crate::types::{Error, ModelRef, Result, plain_error};
use crate::text::byte_len;

verus! {

/// One model listed by an upstream account. `raw` is the complete upstream
/// capability object as JSON text, when the last sync recorded it.
#[derive(Debug)]
pub struct DiscoveredModel {
    pub id: String,
    pub display_name: String,
    pub context_window: Option<i64>,
    pub raw: Option<String>,
}

/// The last model list obtained from an account.
pub struct AccountModelCatalog {
    pub models: Vec<DiscoveredModel>,
    pub synced_at: Option<Timestamp>,
    pub attempted_at: Option<Timestamp>,
    pub error: Option<Error>,
}

impl DiscoveredModel {
    pub fn duplicate(&self) -> (r: Self)
        ensures
            r == *self,
    {
        DiscoveredModel {
            id: self.id.clone(),
            display_name: self.display_name.clone(),
            context_window: self.context_window,
            raw: copy_opt_string(&self.raw),
        }
    }
}

impl AccountModelCatalog {
    /// The same catalog; the recorded sync error keeps its status, code and messages.
    pub fn duplicate(&self) -> (r: Self)
        ensures
            r.models@ == self.models@,
            r.synced_at == self.synced_at,
            r.attempted_at == self.attempted_at,
            r.error is Some == self.error is Some,
    {
        let mut models: Vec<DiscoveredModel> = Vec::new();
        let mut i: usize = 0;
        while i < self.models.len()
            invariant
                i <= self.models@.len(),
                models@ =~= self.models@.take(i as int),
            decreases self.models@.len() - i,
        {
            models.push(self.models[i].duplicate());
            i = i + 1;
        }
        proof {
            assert(self.models@.take(self.models@.len() as int) =~= self.models@);
        }
        AccountModelCatalog {
            models,
            synced_at: self.synced_at,
            attempted_at: self.attempted_at,
            error: match &self.error {
                Some(e) => Some(e.duplicate()),
                None => None,
            },
        }
    }
}

#[derive(Debug, Clone, Copy)]
pub struct Capabilities {
    pub image_input: bool,
    pub image_generation: bool,
    pub tools: bool,
    pub reasoning: bool,
    pub fast: bool,
}

impl Default for Capabilities {
    fn default() -> (r: Self)
        ensures
            r.image_input && r.image_generation && r.tools && r.reasoning && r.fast,
    {
        Capabilities {
            image_input: true,
            image_generation: true,
            tools: true,
            reasoning: true,
            fast: true,
        }
    }
}

#[derive(Debug)]
pub struct ModelSpec {
    pub id: String,
    pub upstream: ModelRef,
    pub enabled: bool,
    pub capabilities: Capabilities,
    pub version: i64,
}

pub open spec fn model_name_ok(name: Seq<char>) -> bool {
    0 < byte_len(name) <= 160
}

impl ModelSpec {
    /// Names must hold 1 to 160 bytes, and only Codex OAuth models of the
    /// OpenAI provider are served.
    pub fn validate(&self) -> (r: Result<()>)
        ensures
            !model_name_ok(self.id@) || !model_name_ok(self.upstream.model@) ==> (r matches Err(e)
                && plain_error(e, 400, "invalid_request"@, "Invalid model name"@)),
            model_name_ok(self.id@) && model_name_ok(self.upstream.model@) && (
            self.upstream.provider@ != "openai"@ || self.upstream.access_kind@
                != "codex_oauth"@) ==> (r matches Err(e) && plain_error(
                e,
                400,
                "invalid_request"@,
                "Only Codex OAuth is implemented"@,
            )),
            model_name_ok(self.id@) && model_name_ok(self.upstream.model@)
                && self.upstream.provider@ == "openai"@ && self.upstream.access_kind@
                == "codex_oauth"@ ==> r is Ok,
    {
        let id = len_bytes(self.id.as_str());
        let model = len_bytes(self.upstream.model.as_str());
        if id == 0 || id > 160 || model == 0 || model > 160 {
            return Err(Error::invalid("Invalid model name"));
        }
        let openai = "openai".to_owned();
        let codex = "codex_oauth".to_owned();
        if !(self.upstream.provider == openai) || !(self.upstream.access_kind == codex) {
            return Err(Error::invalid("Only Codex OAuth is implemented"));
        }
        Ok(())
    }
}

} // verus!
