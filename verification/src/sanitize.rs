//! The sanitizer: all steps, one after the other.

use vstd::prelude::*;
use crate::coerce::{coerce_tool_parameters_to_object, coerced, has_object_roots};
use crate::document::contents;
use crate::fields::{
    remove_field_recursive, remove_top_level_field, request_targets_grok_45, targets_grok_45,
    unsupported_fields, unsupported_sampling_fields,
};
use crate::filter::{filter_unsupported_tools, has_supported_tools, with_supported_tools};
use crate::input::{has_null_reasoning, strip_null_reasoning_content, with_clean_reasoning};
use crate::json::{items_of, Json};
use crate::laws::{lemma_clean_is_kept, lemma_sanitized_is_clean};
use crate::promote::{has_carrier, promote_additional_tools, promoted};

verus! {

/// A request without the top-level fields that xAI rejects for its model.
pub open spec fn without_unsupported_fields(body: Json) -> Json {
    let rest = body.without_all(unsupported_fields());
    if targets_grok_45(rest) {
        rest.without_all(unsupported_sampling_fields())
    } else {
        rest
    }
}

/// The request that xAI accepts in place of another one. What is no object is no request, and
/// stays as it is.
pub open spec fn sanitized(body: Json) -> Json {
    if body is Obj {
        let stripped = without_unsupported_fields(body).strip("external_web_access"@);
        coerced(with_supported_tools(with_clean_reasoning(promoted(stripped))))
    } else {
        body
    }
}

/// Whether a request has none of the fields that xAI rejects for its model.
pub open spec fn has_supported_fields(body: Json) -> bool {
    &&& forall|field: Seq<char>| #[trigger]
        unsupported_fields().contains(field) ==> body.get(field) is None
    &&& targets_grok_45(body) ==> forall|field: Seq<char>| #[trigger]
        unsupported_sampling_fields().contains(field) ==> body.get(field) is None
}

/// Whether the input of a request, as far as it is a list, has no carrier of additional tools
/// and no reasoning item with a null `content`.
pub open spec fn has_clean_input(body: Json) -> bool {
    items_of(body.get("input"@)) matches Some(items) ==> {
        &&& !has_carrier(items)
        &&& forall|i: int| 0 <= i < items.len() ==> !has_null_reasoning(#[trigger] items[i])
    }
}

/// Whether a request holds nothing that xAI would reject, as far as the sanitizer knows.
pub open spec fn is_clean(body: Json) -> bool {
    body is Obj ==> {
        &&& has_supported_fields(body)
        &&& !body.mentions("external_web_access"@)
        &&& has_clean_input(body)
        &&& has_supported_tools(body)
        &&& has_object_roots(body)
    }
}

/// Takes the top-level fields out of a request that xAI rejects for its model. Returns whether
/// there was one.
fn remove_unsupported_fields(body: &mut serde_json::Value) -> (changed: bool)
    ensures
        contents(*final(body)) == without_unsupported_fields(contents(*old(body))),
        changed == (contents(*final(body)) != contents(*old(body))),
{
    let ghost whole = contents(*body);
    let retention = remove_top_level_field(body, "prompt_cache_retention");
    let identifier = remove_top_level_field(body, "safety_identifier");
    let ghost rest = contents(*body);
    proof {
        if whole is Obj {
            assert(rest->Obj_0 =~= whole.without_all(unsupported_fields())->Obj_0);
        }
        assert(rest.get("prompt_cache_retention"@) is None);
        assert(rest.get("safety_identifier"@) is None);
    }
    let mut changed: bool = retention || identifier;
    if request_targets_grok_45(body) {
        let presence = remove_top_level_field(body, "presence_penalty");
        let presence_camel = remove_top_level_field(body, "presencePenalty");
        let frequency = remove_top_level_field(body, "frequency_penalty");
        let frequency_camel = remove_top_level_field(body, "frequencyPenalty");
        let stop = remove_top_level_field(body, "stop");
        changed = changed || presence || presence_camel || frequency || frequency_camel || stop;
        proof {
            if rest is Obj {
                assert(contents(*body)->Obj_0 =~= rest.without_all(
                    unsupported_sampling_fields(),
                )->Obj_0);
            }
            assert(contents(*body).get("prompt_cache_retention"@) is None);
            assert(contents(*body).get("safety_identifier"@) is None);
            assert(contents(*body).get("presence_penalty"@) is None);
            assert(contents(*body).get("presencePenalty"@) is None);
            assert(contents(*body).get("frequency_penalty"@) is None);
            assert(contents(*body).get("frequencyPenalty"@) is None);
            assert(contents(*body).get("stop"@) is None);
        }
    }
    changed
}

/// Takes out of a native Responses request, in place, what xAI does not accept: fields and
/// tools. Returns whether anything changed.
///
/// The steps are these. Fields that xAI rejects go, those for the model of the request and a
/// plugin-private flag at any depth. Tools of `additional_tools` carriers move to the top-level
/// tools. Reasoning items lose a null `content`. Tools of other types go, and a tool choice that
/// then points at none. The parameter schemas of the tools that are left become object schemas.
pub fn sanitize_xai_responses_request(body: &mut serde_json::Value) -> (changed: bool)
    ensures
        contents(*final(body)) == sanitized(contents(*old(body))),
        changed == (contents(*final(body)) != contents(*old(body))),
{
    if !body.is_object() {
        return false;
    }
    let ghost whole = contents(*body);
    let fields_removed = remove_unsupported_fields(body);
    let flags_removed = remove_field_recursive(body, "external_web_access");
    let tools_promoted = promote_additional_tools(body);
    let reasoning_stripped = strip_null_reasoning_content(body);
    let tools_filtered = filter_unsupported_tools(body);
    let schemas_coerced = coerce_tool_parameters_to_object(body);
    proof {
        lemma_sanitized_is_clean(whole);
        if contents(*body) == whole {
            lemma_clean_is_kept(whole);
        }
    }
    fields_removed || flags_removed || tools_promoted || reasoning_stripped || tools_filtered
        || schemas_coerced
}

} // verus!
