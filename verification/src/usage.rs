//! Token and tool usage reported for one request.
use vstd::prelude::*;
use crate::json::{Json, JsonView};

verus! {

/// The usage of one request. `raw_usage` keeps the numeric facts of the
/// provider's usage object.
#[derive(Debug)]
pub struct Usage {
    pub search_calls: u64,
    pub input_tokens: Option<u64>,
    pub cached_input_tokens: Option<u64>,
    pub output_tokens: Option<u64>,
    pub reasoning_output_tokens: Option<u64>,
    pub image_input_tokens: Option<u64>,
    pub image_output_tokens: Option<u64>,
    pub image_count: u32,
    pub image_tool_usage_reported: bool,
    pub service_tier: Option<String>,
    pub source: String,
    pub complete: bool,
    pub raw_usage: Json,
}

/// The value of a `Usage`.
pub struct UsageView {
    pub search_calls: u64,
    pub input_tokens: Option<u64>,
    pub cached_input_tokens: Option<u64>,
    pub output_tokens: Option<u64>,
    pub reasoning_output_tokens: Option<u64>,
    pub image_input_tokens: Option<u64>,
    pub image_output_tokens: Option<u64>,
    pub image_count: u32,
    pub image_tool_usage_reported: bool,
    pub service_tier: Option<Seq<char>>,
    pub source: Seq<char>,
    pub complete: bool,
    pub raw_usage: JsonView,
}

impl View for Usage {
    type V = UsageView;

    open spec fn view(&self) -> UsageView {
        UsageView {
            search_calls: self.search_calls,
            input_tokens: self.input_tokens,
            cached_input_tokens: self.cached_input_tokens,
            output_tokens: self.output_tokens,
            reasoning_output_tokens: self.reasoning_output_tokens,
            image_input_tokens: self.image_input_tokens,
            image_output_tokens: self.image_output_tokens,
            image_count: self.image_count,
            image_tool_usage_reported: self.image_tool_usage_reported,
            service_tier: match self.service_tier {
                Some(s) => Some(s@),
                None => None,
            },
            source: self.source@,
            complete: self.complete,
            raw_usage: self.raw_usage@,
        }
    }
}

/// Usage with nothing reported.
pub open spec fn empty_usage() -> UsageView {
    UsageView {
        search_calls: 0,
        input_tokens: None,
        cached_input_tokens: None,
        output_tokens: None,
        reasoning_output_tokens: None,
        image_input_tokens: None,
        image_output_tokens: None,
        image_count: 0,
        image_tool_usage_reported: false,
        service_tier: None,
        source: Seq::empty(),
        complete: false,
        raw_usage: JsonView::Null,
    }
}

impl Default for Usage {
    fn default() -> (r: Self)
        ensures
            r@ == empty_usage(),
    {
        Usage {
            search_calls: 0,
            input_tokens: None,
            cached_input_tokens: None,
            output_tokens: None,
            reasoning_output_tokens: None,
            image_input_tokens: None,
            image_output_tokens: None,
            image_count: 0,
            image_tool_usage_reported: false,
            service_tier: None,
            source: String::new(),
            complete: false,
            raw_usage: Json::Null,
        }
    }
}

impl Usage {
    /// A copy of every fact.
    pub fn duplicate(&self) -> (r: Self)
        ensures
            r@ == self@,
    {
        Usage {
            search_calls: self.search_calls,
            input_tokens: self.input_tokens,
            cached_input_tokens: self.cached_input_tokens,
            output_tokens: self.output_tokens,
            reasoning_output_tokens: self.reasoning_output_tokens,
            image_input_tokens: self.image_input_tokens,
            image_output_tokens: self.image_output_tokens,
            image_count: self.image_count,
            image_tool_usage_reported: self.image_tool_usage_reported,
            service_tier: match &self.service_tier {
                Some(s) => Some(s.clone()),
                None => None,
            },
            source: self.source.clone(),
            complete: self.complete,
            raw_usage: self.raw_usage.duplicate(),
        }
    }
}

} // verus!
