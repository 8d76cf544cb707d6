//! Whether a model's configured capabilities admit a request: its document
//! format, fast service tiers, reasoning, tools, image generation and image
//! input.
use vstd::prelude::*;
use crate::codex::wire::{FORMAT, SEARCH_FORMAT};
use crate::json::{Json, JsonView, find_key, find_member, lemma_view_items, lemma_view_members, view_members, lookup, text_in, view_items};
use crate::providers::Capabilities;
use crate::text::str_eq;
use crate::types::{Error, Result, plain_error};

verus! {

/// Whether `v` holds an image input: a value typed `input_image` inside
/// arrays and inside the `content` of objects, at any depth.
pub open spec fn has_image(v: JsonView) -> bool
    decreases v, 0int, 0int,
{
    match v {
        JsonView::Array(items) => any_image(items, items.len() as int),
        JsonView::Object(m) => text_in(lookup(m, "type"@)) == Some("input_image"@) || (0 <= find_key(
            m,
            "content"@,
        ) < m.len() && has_image(m[find_key(m, "content"@)].1)),
        _ => false,
    }
}

/// Whether one of the first `n` items holds an image input.
pub open spec fn any_image(s: Seq<JsonView>, n: int) -> bool
    decreases s, 1int, n,
{
    if n <= 0 || n > s.len() {
        false
    } else {
        any_image(s, n - 1) || has_image(s[n - 1])
    }
}

proof fn lemma_any_image_grows(s: Seq<JsonView>, a: int, b: int)
    requires
        0 <= a <= b <= s.len(),
        any_image(s, a),
    ensures
        any_image(s, b),
    decreases b - a,
{
    if a < b {
        lemma_any_image_grows(s, a, b - 1);
    }
}

#[verifier::loop_isolation(false)]
fn has_image_exec(v: &Json) -> (r: bool)
    ensures
        r == has_image(v@),
    decreases v,
{
    match v {
        Json::Array(items) => {
            proof {
                lemma_view_items(items@);
            }
            let ghost s = view_items(items@);
            assert(v@ == JsonView::Array(s));
            assert(has_image(v@) == any_image(s, s.len() as int));
            let mut i: usize = 0;
            while i < items.len()
                invariant
                    i <= items@.len(),
                    !any_image(s, i as int),
                decreases items@.len() - i,
            {
                let found = has_image_exec(&items[i]);
                proof {
                    assert(s[i as int] == items@[i as int]@);
                }
                if found {
                    proof {
                        assert(any_image(s, i + 1));
                        lemma_any_image_grows(s, i + 1, s.len() as int);
                    }
                    return true;
                }
                i = i + 1;
            }
            false
        },
        Json::Object(m) => {
            proof {
                lemma_view_members(m@);
            }
            let ghost mv = view_members(m@);
            assert(v@ == JsonView::Object(mv));
            let typed = match v.get("type") {
                Some(t) => match t.as_str() {
                    Some(s) => str_eq(s, "input_image"),
                    None => false,
                },
                None => false,
            };
            if typed {
                return true;
            }
            let k = find_member(m, "content");
            if k < m.len() {
                assert(mv[k as int].1 == m@[k as int].1@);
                has_image_exec(&m[k].1)
            } else {
                false
            }
        },
        _ => false,
    }
}

/// Whether one of the tools is an image generation tool.
pub open spec fn image_tool(tools: Seq<JsonView>) -> bool {
    exists|i: int| 0 <= i < tools.len() && text_in(#[trigger] tools[i].get("type"@)) == Some("image_generation"@)
}

/// The message a request is refused with for what the model does not
/// support, checked in this order: fast tiers, reasoning, tools (which must
/// be an array), image generation, image input.
pub open spec fn capability_fault(tier: Option<Seq<char>>, doc: JsonView, caps: Capabilities) -> Option<Seq<char>> {
    if (tier == Some("fast"@) || tier == Some("priority"@)) && !caps.fast {
        Some("Fast mode is not enabled for this model"@)
    } else if (doc.get("reasoning"@) matches Some(x) && !(x is Null)) && !caps.reasoning {
        Some("Reasoning is not enabled for this model"@)
    } else if doc.get("tools"@) matches Some(t) && t.items() is None {
        Some("tools must be an array"@)
    } else if (doc.get("tools"@) matches Some(t) && t.items() matches Some(ts) && ts.len() > 0)
        && !caps.tools {
        Some("Tools are not enabled for this model"@)
    } else if (doc.get("tools"@) matches Some(t) && t.items() matches Some(ts) && image_tool(ts))
        && !caps.image_generation {
        Some("Image generation is not enabled for this model"@)
    } else if !caps.image_input && (doc.get("input"@) matches Some(i) && has_image(i)) {
        Some("Image input is not enabled for this model"@)
    } else {
        None
    }
}

fn is_image_tool(t: &Json) -> (r: bool)
    ensures
        r == (text_in(t@.get("type"@)) == Some("image_generation"@)),
{
    match t.get_str("type") {
        Some(s) => str_eq(s, "image_generation"),
        None => false,
    }
}

fn any_image_tool(tools: &Vec<Json>) -> (r: bool)
    ensures
        r == image_tool(view_items(tools@)),
{
    proof {
        lemma_view_items(tools@);
    }
    let ghost s = view_items(tools@);
    let mut i: usize = 0;
    while i < tools.len()
        invariant
            s == view_items(tools@),
            s.len() == tools@.len(),
            forall|j: int| 0 <= j < tools@.len() ==> #[trigger] s[j] == tools@[j]@,
            i <= tools@.len(),
            forall|j: int| 0 <= j < i ==> text_in(#[trigger] s[j].get("type"@)) != Some("image_generation"@),
        decreases tools@.len() - i,
    {
        if is_image_tool(&tools[i]) {
            assert(text_in(s[i as int].get("type"@)) == Some("image_generation"@));
            return true;
        }
        i = i + 1;
    }
    false
}

fn tier_is(tier: Option<&str>, name: &str) -> (r: bool)
    ensures
        r == (match tier {
            Some(t) => t@ == name@,
            None => false,
        }),
{
    match tier {
        Some(t) => str_eq(t, name),
        None => false,
    }
}

/// Admits a request for a model: the document must be a Responses or a
/// search document, and the model must support what the request uses.
pub fn validate(format: &str, requested_tier: Option<&str>, document: &Json, caps: &Capabilities) -> (r: Result<()>)
    ensures
        format@ != FORMAT@ && format@ != SEARCH_FORMAT@ ==> (r matches Err(e) && plain_error(
            e,
            400,
            "unsupported_conversion"@,
            "This provider accepts Responses requests"@,
        )),
        format@ == FORMAT@ || format@ == SEARCH_FORMAT@ ==> match capability_fault(
            match requested_tier {
                Some(t) => Some(t@),
                None => None,
            },
            document@,
            *caps,
        ) {
            Some(m) => r matches Err(e) && plain_error(e, 400, "invalid_request"@, m),
            None => r is Ok,
        },
{
    if !str_eq(format, FORMAT) && !str_eq(format, SEARCH_FORMAT) {
        return Err(Error::new(400, "unsupported_conversion", "This provider accepts Responses requests"));
    }
    if (tier_is(requested_tier, "fast") || tier_is(requested_tier, "priority")) && !caps.fast {
        return Err(Error::invalid("Fast mode is not enabled for this model"));
    }
    let reasoning = match document.get("reasoning") {
        Some(x) => !x.is_null(),
        None => false,
    };
    if reasoning && !caps.reasoning {
        return Err(Error::invalid("Reasoning is not enabled for this model"));
    }
    match document.get("tools") {
        Some(t) => match t.as_array() {
            Some(tools) => {
                proof {
                    lemma_view_items(tools@);
                }
                if tools.len() > 0 && !caps.tools {
                    return Err(Error::invalid("Tools are not enabled for this model"));
                }
                if any_image_tool(tools) && !caps.image_generation {
                    return Err(Error::invalid("Image generation is not enabled for this model"));
                }
            },
            None => {
                return Err(Error::invalid("tools must be an array"));
            },
        },
        None => {},
    }
    if !caps.image_input {
        let image = match document.get("input") {
            Some(i) => has_image_exec(i),
            None => false,
        };
        if image {
            return Err(Error::invalid("Image input is not enabled for this model"));
        }
    }
    Ok(())
}

} // verus!
