//! What holds of the sanitizer as a whole.

use vstd::prelude::*;
use crate::coerce::{
    coerced, coerced_carrier, coerced_items, coerced_tool, coerced_tools, law_coerced,
    law_coerced_carrier, law_coerced_request, law_coerced_tool, lemma_tool_members,
    tool_has_object_roots,
};
use crate::fields::{
    law_mentioned_path, law_strip, law_strip_parts, targets_grok_45, unsupported_fields,
    unsupported_sampling_fields,
};
use crate::filter::{
    choice_dangles, has_function, has_supported_tools, law_kept_choice, law_kept_tools,
    law_supported_tools, with_supported_tools,
};
use crate::input::{
    has_null_reasoning, is_carrier, law_clean_reasoning, law_reasoning_request,
    lemma_without_null_reasoning, with_clean_reasoning, without_null_reasoning,
};
use crate::json::{at, items_of, text_of, Json, Step};
use crate::mentions::{
    lemma_flag_name, lemma_unmentioned_coerced, lemma_unmentioned_filtered,
    lemma_unmentioned_promoted, lemma_unmentioned_reasoning,
};
use crate::promote::{
    carried_tools, has_carrier, law_one_more_carrier, law_one_more_tool, law_promoted,
    law_promoted_input, law_promoted_tools, law_promotion_keeps, promoted, with_new_tools,
};
use crate::sanitize::{
    has_clean_input, has_supported_fields, is_clean, sanitized, without_unsupported_fields,
};
use crate::tool::{is_supported_kind, is_supported_tool, kind, tool_name};

verus! {

/// A clean request passes each step of the sanitizer unchanged.
pub proof fn lemma_clean_is_kept(body: Json)
    requires
        body is Obj,
        is_clean(body),
    ensures
        without_unsupported_fields(body) == body,
        body.strip("external_web_access"@) == body,
        promoted(body) == body,
        with_clean_reasoning(body) == body,
        with_supported_tools(body) == body,
        coerced(body) == body,
{
    let members = body->Obj_0;
    assert(members.remove_keys(unsupported_fields()) =~= members) by {
        assert forall|key: Seq<char>| members.contains_key(key) implies !unsupported_fields().contains(
            key,
        ) by {
            if unsupported_fields().contains(key) {
                assert(body.get(key) is None);
            }
        }
    }
    if targets_grok_45(body) {
        assert(members.remove_keys(unsupported_sampling_fields()) =~= members) by {
            assert forall|key: Seq<char>|
                members.contains_key(key) implies !unsupported_sampling_fields().contains(key) by {
                if unsupported_sampling_fields().contains(key) {
                    assert(body.get(key) is None);
                }
            }
        }
    }
    law_strip(body, "external_web_access"@);
    law_clean_reasoning(body);
    law_supported_tools(body);
    law_coerced(body);
}

/// The request once the fields that xAI rejects are gone, before any of its tools is touched.
pub open spec fn stripped(body: Json) -> Json {
    without_unsupported_fields(body).strip("external_web_access"@)
}

/// The names of the fields that xAI rejects are none of those that later steps write.
proof fn lemma_field_names()
    ensures
        forall|field: Seq<char>|
            (#[trigger] unsupported_fields().contains(field)) ==> field != "tools"@ && field
                != "input"@ && field != "tool_choice"@ && field != "model"@,
        forall|field: Seq<char>|
            (#[trigger] unsupported_sampling_fields().contains(field)) ==> field != "tools"@
                && field != "input"@ && field != "tool_choice"@ && field != "model"@,
        "model"@ != "tools"@,
        "model"@ != "input"@,
        "model"@ != "tool_choice"@,
        "model"@ != "external_web_access"@,
{
    reveal_strlit("prompt_cache_retention");
    reveal_strlit("safety_identifier");
    reveal_strlit("presence_penalty");
    reveal_strlit("presencePenalty");
    reveal_strlit("frequency_penalty");
    reveal_strlit("frequencyPenalty");
    reveal_strlit("stop");
    reveal_strlit("tools");
    reveal_strlit("input");
    reveal_strlit("tool_choice");
    reveal_strlit("model");
    reveal_strlit("external_web_access");
    assert("model"@[0] == 'm');
    assert("tools"@[0] == 't');
    assert("input"@[0] == 'i');
    assert("tools"@.len() == 5 && "input"@.len() == 5 && "model"@.len() == 5);
    assert("tool_choice"@.len() == 11 && "external_web_access"@.len() == 19);
    assert("prompt_cache_retention"@.len() == 22 && "safety_identifier"@.len() == 17);
    assert("presence_penalty"@.len() == 16 && "presencePenalty"@.len() == 15);
    assert("frequency_penalty"@.len() == 17 && "frequencyPenalty"@.len() == 16);
    assert("stop"@.len() == 4);
}

/// Stripping the fields that xAI rejects leaves none of them, and all others with the flag
/// stripped from them.
proof fn lemma_stripped(body: Json)
    requires
        body is Obj,
    ensures
        stripped(body) is Obj,
        !stripped(body).mentions("external_web_access"@),
        has_supported_fields(stripped(body)),
        targets_grok_45(stripped(body)) == targets_grok_45(body),
        forall|key: Seq<char>| #[trigger]
            stripped(body).get(key) == (if key == "external_web_access"@
                || unsupported_fields().contains(key) || (targets_grok_45(body)
                && unsupported_sampling_fields().contains(key)) {
                None
            } else {
                match body.get(key) {
                    Some(value) => Some(value.strip("external_web_access"@)),
                    None => None,
                }
            }),
{
    lemma_field_names();
    law_strip(without_unsupported_fields(body), "external_web_access"@);
    let rest = body.without_all(unsupported_fields());
    assert(rest.get("model"@) == body.get("model"@));
    assert(targets_grok_45(rest) == targets_grok_45(body));
    assert(without_unsupported_fields(body).get("model"@) == body.get("model"@));
    if let Some(model) = body.get("model"@) {
        assert(stripped(body).get("model"@) == Some(model.strip("external_web_access"@)));
        assert(text_of(Some(model.strip("external_web_access"@))) == text_of(Some(model)));
    }
}

/// The steps behind stripping leave all members but `tools`, `input` and `tool_choice` alone.
proof fn lemma_later_steps_keep(body: Json)
    requires
        body is Obj,
    ensures
        sanitized(body) is Obj,
        forall|key: Seq<char>|
            key != "tools"@ && key != "input"@ && key != "tool_choice"@ ==> #[trigger] sanitized(
                body,
            ).get(key) == stripped(body).get(key),
{
    let freed = promoted(stripped(body));
    let reasoned = with_clean_reasoning(freed);
    let filtered = with_supported_tools(reasoned);
    lemma_stripped(body);
    law_promoted(stripped(body));
    law_clean_reasoning(freed);
    law_supported_tools(reasoned);
    law_coerced(filtered);
    assert forall|key: Seq<char>|
        key != "tools"@ && key != "input"@ && key != "tool_choice"@ implies #[trigger] sanitized(
        body,
    ).get(key) == stripped(body).get(key) by {
        assert(coerced(filtered).get(key) == filtered.get(key));
        assert(filtered.get(key) == reasoned.get(key));
        assert(reasoned.get(key) == freed.get(key));
        assert(freed.get(key) == stripped(body).get(key));
    }
}

/// Cleaning reasoning items brings no carrier in.
proof fn lemma_reasoning_keeps_items(body: Json)
    requires
        items_of(body.get("input"@)) matches Some(items) ==> !has_carrier(items),
    ensures
        items_of(with_clean_reasoning(body).get("input"@)) matches Some(items) ==> !has_carrier(
            items,
        ),
{
    if let Some(items) = items_of(body.get("input"@)) {
        let after = items.map_values(|item: Json| without_null_reasoning(item));
        reveal_strlit("type");
        reveal_strlit("content");
        assert forall|i: int| 0 <= i < after.len() implies !is_carrier(#[trigger] after[i]) by {
            lemma_without_null_reasoning(items[i]);
            assert(!is_carrier(items[i]));
            assert("type"@.len() == 4 && "content"@.len() == 7);
            assert(without_null_reasoning(items[i]).get("type"@) == items[i].get("type"@));
        }
    }
}

/// Coercion keeps the input clean.
proof fn lemma_coercion_keeps_input(body: Json)
    requires
        has_clean_input(body),
    ensures
        has_clean_input(coerced(body)),
{
    lemma_flag_name();
    if let Some(items) = items_of(body.get("input"@)) {
        let after = coerced_items(items);
        assert(items_of(coerced(body).get("input"@)) == Some(after));
        lemma_tool_members();
        reveal_strlit("content");
        assert forall|i: int| 0 <= i < after.len() implies !is_carrier(#[trigger] after[i])
            && !has_null_reasoning(after[i]) by {
            law_coerced_carrier(items[i]);
            assert(!is_carrier(items[i]));
            assert(!has_null_reasoning(items[i]));
            assert(coerced_carrier(items[i]).get("type"@) == items[i].get("type"@));
            assert(coerced_carrier(items[i]).get("content"@) == items[i].get("content"@));
        }
    }
}

/// Coercion keeps the tools supported and the tool choice pointing at one of them.
proof fn lemma_coercion_keeps_tools(body: Json)
    requires
        has_supported_tools(body),
    ensures
        has_supported_tools(coerced(body)),
{
    lemma_flag_name();
    law_coerced(body);
    if let Some(tools) = items_of(body.get("tools"@)) {
        let after = coerced_tools(tools);
        assert(items_of(coerced(body).get("tools"@)) == Some(after));
        assert(coerced(body).get("tool_choice"@) == body.get("tool_choice"@));
        assert forall|i: int| 0 <= i < tools.len() implies kind(#[trigger] after[i]) == kind(
            tools[i],
        ) && tool_name(after[i]) == tool_name(tools[i]) by {
            law_coerced_tool(tools[i]);
        }
        assert forall|i: int| 0 <= i < after.len() implies is_supported_tool(
            #[trigger] after[i],
        ) by {
            assert(is_supported_tool(tools[i]));
        }
        assert forall|name: Seq<char>| has_function(tools, name) implies #[trigger] has_function(
            after,
            name,
        ) by {
            let i = choose|i: int|
                0 <= i < tools.len() && kind(#[trigger] tools[i]) == "function"@ && tool_name(
                    tools[i],
                ) == name;
            assert(kind(after[i]) == "function"@);
        }
    }
}

/// Sanitizing leaves a clean request.
pub proof fn lemma_sanitized_is_clean(body: Json)
    ensures
        is_clean(sanitized(body)),
{
    if body is Obj {
        let freed = promoted(stripped(body));
        let reasoned = with_clean_reasoning(freed);
        let filtered = with_supported_tools(reasoned);
        lemma_flag_name();
        lemma_field_names();
        lemma_stripped(body);
        lemma_later_steps_keep(body);
        law_promoted(stripped(body));
        law_clean_reasoning(freed);
        law_supported_tools(reasoned);
        law_coerced(filtered);
        lemma_unmentioned_promoted(stripped(body));
        lemma_unmentioned_reasoning(freed);
        lemma_unmentioned_filtered(reasoned);
        lemma_unmentioned_coerced(filtered);
        lemma_reasoning_keeps_items(freed);
        assert(filtered.get("input"@) == reasoned.get("input"@));
        lemma_coercion_keeps_input(filtered);
        lemma_coercion_keeps_tools(filtered);
        assert(sanitized(body).get("model"@) == stripped(body).get("model"@));
        assert(has_supported_fields(sanitized(body))) by {
            assert forall|field: Seq<char>| #[trigger]
                unsupported_fields().contains(field) implies sanitized(body).get(field) is None by {
                assert(stripped(body).get(field) is None);
            }
            if targets_grok_45(sanitized(body)) {
                assert forall|field: Seq<char>| #[trigger]
                    unsupported_sampling_fields().contains(field) implies sanitized(body).get(
                    field,
                ) is None by {
                    assert(stripped(body).get(field) is None);
                }
            }
        }
    }
}

/// A sanitized request is clean, and a clean request, and no other, is left as it is.
pub proof fn law_clean(body: Json)
    ensures
        is_clean(sanitized(body)),
        is_clean(body) <==> sanitized(body) == body,
{
    lemma_sanitized_is_clean(body);
    if body is Obj && is_clean(body) {
        lemma_clean_is_kept(body);
    }
}

/// Sanitizing twice is sanitizing once: the second time nothing changes.
pub proof fn law_idempotent(body: Json)
    ensures
        sanitized(sanitized(body)) == sanitized(body),
{
    law_clean(body);
    law_clean(sanitized(body));
}

/// All members of a request but its tools, its input and its tool choice are kept, except that
/// the fields that xAI rejects go and the plugin-private flag is stripped at any depth. The
/// sampling fields go for grok-4.5 alone.
pub proof fn law_other_members(body: Json, key: Seq<char>)
    requires
        body is Obj,
        key != "tools"@,
        key != "input"@,
        key != "tool_choice"@,
    ensures
        sanitized(body).get(key) == (if key == "external_web_access"@
            || unsupported_fields().contains(key) || (targets_grok_45(body)
            && unsupported_sampling_fields().contains(key)) {
            None
        } else {
            match body.get(key) {
                Some(value) => Some(value.strip("external_web_access"@)),
                None => None,
            }
        }),
{
    lemma_stripped(body);
    lemma_later_steps_keep(body);
    assert(sanitized(body).get(key) == stripped(body).get(key));
}

/// A tool choice that is a text is always kept.
pub proof fn law_text_choice(body: Json)
    requires
        body.get("tool_choice"@) matches Some(Json::Str(_)),
    ensures
        sanitized(body).get("tool_choice"@) == body.get("tool_choice"@),
{
    let freed = promoted(stripped(body));
    let reasoned = with_clean_reasoning(freed);
    let filtered = with_supported_tools(reasoned);
    lemma_flag_name();
    lemma_field_names();
    lemma_stripped(body);
    law_promoted(stripped(body));
    law_clean_reasoning(freed);
    law_supported_tools(reasoned);
    law_coerced(filtered);
    assert(stripped(body).get("tool_choice"@) == body.get("tool_choice"@));
    assert(freed.get("tool_choice"@) == body.get("tool_choice"@));
    assert(reasoned.get("tool_choice"@) == body.get("tool_choice"@));
    assert(coerced(filtered).get("tool_choice"@) == filtered.get("tool_choice"@));
}

/// Sanitizing does not change which model a request is for.
pub proof fn law_model(body: Json)
    ensures
        targets_grok_45(sanitized(body)) == targets_grok_45(body),
{
    if body is Obj {
        lemma_stripped(body);
        lemma_later_steps_keep(body);
        lemma_field_names();
        assert(sanitized(body).get("model"@) == stripped(body).get("model"@));
    }
}

/// What is no object is no request, and stays as it is. A request stays an object.
pub proof fn law_requests_alone(body: Json)
    ensures
        !(body is Obj) ==> sanitized(body) == body,
        body is Obj ==> sanitized(body) is Obj,
{
    if body is Obj {
        lemma_later_steps_keep(body);
    }
}

/// Removing the rejected fields takes two top-level fields out of any request and five more out
/// of one for grok-4.5. It leaves every other field as it is.
pub proof fn law_removed_fields(body: Json, key: Seq<char>)
    ensures
        key == "prompt_cache_retention"@ || key == "safety_identifier"@
            ==> without_unsupported_fields(body).get(key) is None,
        targets_grok_45(body) && (key == "presence_penalty"@ || key == "presencePenalty"@ || key
            == "frequency_penalty"@ || key == "frequencyPenalty"@ || key == "stop"@)
            ==> without_unsupported_fields(body).get(key) is None,
        key != "prompt_cache_retention"@ && key != "safety_identifier"@ && (!targets_grok_45(body)
            || (key != "presence_penalty"@ && key != "presencePenalty"@ && key
            != "frequency_penalty"@ && key != "frequencyPenalty"@ && key != "stop"@))
            ==> without_unsupported_fields(body).get(key) == body.get(key),
        without_unsupported_fields(body) is Obj <==> body is Obj,
        !(body is Obj) ==> without_unsupported_fields(body) == body,
{
    lemma_field_names();
    let rest = body.without_all(unsupported_fields());
    assert(rest.get("model"@) == body.get("model"@));
    assert(targets_grok_45(rest) == targets_grok_45(body));
}

/// Of the members of a request besides its tools, its input and its tool choice, two go whatever
/// the model, five more go for grok-4.5, and so does the plugin-private flag. Each other member
/// is kept, without that flag at any depth, and none is added.
pub proof fn law_fields(body: Json, key: Seq<char>)
    requires
        body is Obj,
        key != "tools"@,
        key != "input"@,
        key != "tool_choice"@,
    ensures
        key == "prompt_cache_retention"@ || key == "safety_identifier"@ || key
            == "external_web_access"@ ==> sanitized(body).get(key) is None,
        targets_grok_45(body) && (key == "presence_penalty"@ || key == "presencePenalty"@ || key
            == "frequency_penalty"@ || key == "frequencyPenalty"@ || key == "stop"@) ==> sanitized(
            body,
        ).get(key) is None,
        key != "prompt_cache_retention"@ && key != "safety_identifier"@ && key
            != "external_web_access"@ && (!targets_grok_45(body) || (key != "presence_penalty"@
            && key != "presencePenalty"@ && key != "frequency_penalty"@ && key
            != "frequencyPenalty"@ && key != "stop"@)) ==> sanitized(body).get(key) == (
        match body.get(key) {
            Some(value) => Some(value.strip("external_web_access"@)),
            None => None,
        }),
{
    law_other_members(body, key);
}

/// No path in a sanitized request leads through the plugin-private flag.
pub proof fn law_no_flag(body: Json, path: Seq<Step>)
    requires
        body is Obj,
        path.contains(Step::Member("external_web_access"@)),
    ensures
        at(sanitized(body), path) is None,
{
    lemma_sanitized_is_clean(body);
    lemma_later_steps_keep(body);
    if at(sanitized(body), path) is Some {
        law_mentioned_path(sanitized(body), "external_web_access"@, path);
    }
}

/// No item of the input of a sanitized request is a carrier of additional tools, and none of
/// type `reasoning` has a null `content`, whatever other members it has.
pub proof fn law_final_items(body: Json, items: Seq<Json>, i: int)
    requires
        body is Obj,
        sanitized(body).get("input"@) == Some(Json::Arr(items)),
        0 <= i < items.len(),
    ensures
        kind(items[i]) != "additional_tools"@,
        kind(items[i]) == "reasoning"@ ==> items[i].get("content"@) != Some(Json::Null),
{
    lemma_sanitized_is_clean(body);
    lemma_later_steps_keep(body);
    assert(!is_carrier(items[i]));
    assert(!has_null_reasoning(items[i]));
}

/// Each tool of a sanitized request is of an accepted type. If it is a function, its parameters,
/// be they its own or those of its `function` wrapper, are an object schema without a union at
/// the root.
pub proof fn law_final_tools(body: Json, tools: Seq<Json>, i: int, parameters: Json)
    requires
        body is Obj,
        sanitized(body).get("tools"@) == Some(Json::Arr(tools)),
        0 <= i < tools.len(),
    ensures
        is_supported_kind(kind(tools[i])),
        kind(tools[i]) == "function"@ && (tools[i].get("parameters"@) == Some(parameters) || (
        tools[i].get("function"@) matches Some(function) && function.get("parameters"@) == Some(
            parameters,
        ))) ==> parameters.get("type"@) == Some(Json::Str("object"@)) && parameters.get(
            "anyOf"@,
        ) is None && parameters.get("oneOf"@) is None && parameters.get("allOf"@) is None,
{
    lemma_sanitized_is_clean(body);
    lemma_later_steps_keep(body);
    assert(is_supported_tool(tools[i]));
    assert(tool_has_object_roots(tools[i]));
}

/// The input of a request that is a list stays one. It loses the carriers of additional tools.
/// Each other item stays in its order, without the plugin-private flag, with a null reasoning
/// content gone, and with the tools that it embeds coerced.
pub proof fn law_final_input(body: Json)
    requires
        body is Obj,
    ensures
        sanitized(body).get("input"@) == match body.get("input"@) {
            Some(Json::Arr(items)) => Some(
                Json::Arr(
                    items.map_values(|item: Json| item.strip("external_web_access"@)).filter(
                        |item: Json| kind(item) != "additional_tools"@,
                    ).map_values(|item: Json| coerced_carrier(without_null_reasoning(item))),
                ),
            ),
            Some(other) => Some(other.strip("external_web_access"@)),
            None => None,
        },
{
    let first = stripped(body);
    let freed = promoted(first);
    let reasoned = with_clean_reasoning(freed);
    let filtered = with_supported_tools(reasoned);
    lemma_flag_name();
    lemma_field_names();
    lemma_stripped(body);
    law_promotion_keeps(first, "input"@);
    law_reasoning_request(freed);
    law_kept_choice(reasoned, "input"@);
    law_coerced_request(filtered, "input"@);
    if let Some(value) = body.get("input"@) {
        assert(first.get("input"@) == Some(value.strip("external_web_access"@)));
        if let Json::Arr(items) = value {
            let bare = items.map_values(|item: Json| item.strip("external_web_access"@));
            assert(value.strip("external_web_access"@)->Arr_0 =~= bare);
            law_promoted_input(first, bare);
            let kept = bare.filter(|item: Json| kind(item) != "additional_tools"@);
            let after = kept.map_values(
                |item: Json| coerced_carrier(without_null_reasoning(item)),
            );
            assert(coerced(filtered).get("input"@)->0->Arr_0 =~= after);
        }
    } else {
        assert(first.get("input"@) is None);
    }
}

/// The tools of a sanitized request are its own, followed by those of the carriers in its input
/// whose keys none before them has, all without the plugin-private flag, of these the ones of an
/// accepted type, and those coerced. `tools` goes where none of several is accepted, and is left
/// alone where it was no list and no carrier adds a tool. The tool choice is kept, without that
/// flag, unless it dangles among the tools that are accepted.
pub proof fn law_final_tool_list(
    body: Json,
    top: Seq<Json>,
    items: Seq<Json>,
    all: Seq<Json>,
    kept: Seq<Json>,
)
    requires
        body is Obj,
        top == (match body.get("tools"@) {
            Some(Json::Arr(tools)) => tools.map_values(
                |tool: Json| tool.strip("external_web_access"@),
            ),
            _ => Seq::empty(),
        }),
        items == (match body.get("input"@) {
            Some(Json::Arr(items)) => items.map_values(
                |item: Json| item.strip("external_web_access"@),
            ),
            _ => Seq::empty(),
        }),
        all == with_new_tools(top, carried_tools(items)),
        kept == all.filter(|tool: Json| is_supported_kind(kind(tool))),
    ensures
        (body.get("tools"@) matches Some(Json::Arr(_))) || all.len() > 0 ==> {
            &&& kept.len() > 0 || all.len() == 0 ==> sanitized(body).get("tools"@) == Some(
                Json::Arr(kept.map_values(|tool: Json| coerced_tool(tool))),
            )
            &&& kept.len() == 0 && all.len() > 0 ==> sanitized(body).get("tools"@) is None
            &&& sanitized(body).get("tool_choice"@) == (if choice_dangles(
                body.strip("external_web_access"@),
                kept,
            ) {
                None
            } else {
                body.strip("external_web_access"@).get("tool_choice"@)
            })
        },
        !(body.get("tools"@) matches Some(Json::Arr(_))) && all.len() == 0 ==> {
            &&& sanitized(body).get("tools"@) == body.strip("external_web_access"@).get("tools"@)
            &&& sanitized(body).get("tool_choice"@) == body.strip("external_web_access"@).get(
                "tool_choice"@,
            )
        },
{
    let bare = body.strip("external_web_access"@);
    let first = stripped(body);
    let freed = promoted(first);
    let reasoned = with_clean_reasoning(freed);
    let filtered = with_supported_tools(reasoned);
    lemma_flag_name();
    lemma_field_names();
    lemma_stripped(body);
    law_strip_parts(body, "external_web_access"@);
    assert(first.get("tools"@) == bare.get("tools"@));
    assert(first.get("tool_choice"@) == bare.get("tool_choice"@));
    assert(first.get("input"@) == bare.get("input"@));
    if let Some(Json::Arr(tools)) = body.get("tools"@) {
        assert(Json::Arr(tools).strip("external_web_access"@)->Arr_0 =~= top);
        assert(first.get("tools"@) == Some(Json::Arr(top)));
    } else {
        assert(!(first.get("tools"@) matches Some(Json::Arr(_))));
    }
    law_promotion_keeps(first, "tool_choice"@);
    law_one_more_tool(top, Seq::empty(), Json::Null);
    law_one_more_carrier(Seq::empty(), Json::Null);
    if let Some(Json::Arr(listed)) = body.get("input"@) {
        assert(Json::Arr(listed).strip("external_web_access"@)->Arr_0 =~= items);
        law_promoted_tools(first, items, top);
    } else {
        assert(!(first.get("input"@) matches Some(Json::Arr(_))));
        assert(carried_tools(items) =~= Seq::empty());
        assert(all == top);
    }
    law_reasoning_request(freed);
    law_kept_choice(reasoned, "input"@);
    law_coerced_request(filtered, "tool_choice"@);
    if (body.get("tools"@) matches Some(Json::Arr(_))) || all.len() > 0 {
        assert(reasoned.get("tools"@) == Some(Json::Arr(all)));
        assert(reasoned.get("tool_choice"@) == bare.get("tool_choice"@));
        law_kept_tools(reasoned, all, kept);
        assert(choice_dangles(reasoned, kept) == choice_dangles(bare, kept));
        if kept.len() > 0 || all.len() == 0 {
            assert(coerced(filtered).get("tools"@)->0->Arr_0 =~= kept.map_values(
                |tool: Json| coerced_tool(tool),
            ));
        }
    }
}

} // verus!
