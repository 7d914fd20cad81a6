//! Mentions: once the plugin-private flag is stripped, no later step brings it back.

use vstd::prelude::*;
use crate::coerce::{
    child_key, coerced, coerced_carrier, coerced_items, coerced_tool, coerced_tools,
    declares_parameters, lemma_tool_members, with_object_parameters,
};
use crate::filter::{supported_tools, with_kept_tools, with_supported_tools};
use crate::input::{is_carrier, with_clean_reasoning, without_null_reasoning};
use crate::json::{items_of, Json};
use crate::promote::{
    carried_tools, promoted, promoted_tools, tools_in, top_level_tools, with_new_tools,
    without_carriers,
};
use crate::schema::{
    lemma_keywords, merged_properties, merged_required, object_root, texts, union_key,
};
use crate::tool::is_supported_tool;

verus! {

/// Whether no document of a list mentions a field.
pub open spec fn none_mentions(items: Seq<Json>, field: Seq<char>) -> bool {
    forall|i: int| 0 <= i < items.len() ==> !(#[trigger] items[i]).mentions(field)
}

/// An array mentions a field if and only if an item does.
proof fn lemma_array_mentions(items: Seq<Json>, field: Seq<char>)
    ensures
        Json::Arr(items).mentions(field) <==> !none_mentions(items, field),
{
    let array = Json::Arr(items);
    assert(array.mentions(field) <==> exists|i: int|
        0 <= i < array->Arr_0.len() && (#[trigger] array->Arr_0[i]).mentions(field));
}

/// What a document does not mention, no member mentions either.
proof fn lemma_unmentioned_member(document: Json, key: Seq<char>, field: Seq<char>)
    requires
        !document.mentions(field),
        document.get(key) is Some,
    ensures
        !document.get(key)->0.mentions(field),
        key != field,
{
    assert(document->Obj_0.contains_key(key));
}

/// What neither a document nor a value mentions is not mentioned once the value is a member.
proof fn lemma_unmentioned_with(document: Json, key: Seq<char>, value: Json, field: Seq<char>)
    requires
        !document.mentions(field),
        !value.mentions(field),
        key != field,
    ensures
        !document.with(key, value).mentions(field),
{
    if document is Obj {
        let before = document->Obj_0;
        let after = before.insert(key, value);
        assert forall|k: Seq<char>| #[trigger] after.contains_key(k) implies !after[k].mentions(
            field,
        ) by {
            if k != key {
                assert(before.contains_key(k));
            }
        }
    }
}

/// What a document does not mention is not mentioned without some of its members either.
proof fn lemma_unmentioned_without(document: Json, key: Seq<char>, field: Seq<char>)
    requires
        !document.mentions(field),
    ensures
        !document.without(key).mentions(field),
{
    if document is Obj {
        let before = document->Obj_0;
        let after = before.remove(key);
        assert forall|k: Seq<char>| #[trigger] after.contains_key(k) implies !after[k].mentions(
            field,
        ) by {
            assert(before.contains_key(k));
        }
    }
}

/// What no item mentions, no item that passes a filter mentions.
proof fn lemma_unmentioned_filter(
    items: Seq<Json>,
    pass: spec_fn(Json) -> bool,
    field: Seq<char>,
)
    requires
        none_mentions(items, field),
    ensures
        none_mentions(items.filter(pass), field),
    decreases items.len(),
{
    reveal(Seq::filter);
    if items.len() > 0 {
        assert forall|i: int| 0 <= i < items.drop_last().len() implies !(
        #[trigger] items.drop_last()[i]).mentions(field) by {
            assert(!items[i].mentions(field));
        }
        lemma_unmentioned_filter(items.drop_last(), pass, field);
        assert(!items[items.len() - 1].mentions(field));
    }
}

/// The plugin-private flag is none of the names that the sanitizer writes.
pub proof fn lemma_flag_name()
    ensures
        "external_web_access"@.len() == 19,
        "tools"@.len() == 5,
        "input"@.len() == 5,
        "tools"@ != "input"@,
        "tool_choice"@.len() == 11,
        "content"@.len() == 7,
        "type"@.len() == 4,
{
    reveal_strlit("external_web_access");
    reveal_strlit("tools");
    reveal_strlit("input");
    reveal_strlit("tool_choice");
    reveal_strlit("content");
    reveal_strlit("type");
    assert("input"@[0] == 'i');
    assert("tools"@[0] == 't');
}

/// Merging the properties of branches mentions no field that no branch mentions.
proof fn lemma_unmentioned_properties(branches: Seq<Json>, field: Seq<char>)
    requires
        none_mentions(branches, field),
    ensures
        !Json::Obj(merged_properties(branches)).mentions(field),
    decreases branches.len(),
{
    if branches.len() > 0 {
        let rest = branches.drop_last();
        let last = branches.last();
        assert forall|i: int| 0 <= i < rest.len() implies !(#[trigger] rest[i]).mentions(field) by {
            assert(!branches[i].mentions(field));
        }
        assert(!branches[branches.len() - 1].mentions(field));
        lemma_unmentioned_properties(rest, field);
        if let Some(Json::Obj(properties)) = last.get("properties"@) {
            lemma_unmentioned_member(last, "properties"@, field);
            let earlier = merged_properties(rest);
            let both = earlier.union_prefer_right(properties);
            assert forall|k: Seq<char>| #[trigger] both.contains_key(k) implies !both[k].mentions(
                field,
            ) && k != field by {
                if properties.contains_key(k) {
                    assert(!properties[k].mentions(field));
                } else {
                    assert(earlier.contains_key(k));
                }
            }
        }
    }
}

/// Making the root of a schema an object schema does not bring the flag in.
proof fn lemma_unmentioned_root(schema: Json)
    requires
        !schema.mentions("external_web_access"@),
    ensures
        !object_root(schema).mentions("external_web_access"@),
{
    let flag = "external_web_access"@;
    lemma_flag_name();
    lemma_keywords();
    let bare = Json::Obj(Map::empty());
    assert(!bare.mentions(flag));
    let typed = bare.with("type"@, Json::Str("object"@));
    lemma_unmentioned_with(bare, "type"@, Json::Str("object"@), flag);
    if let Some(key) = union_key(schema) {
        let branches = match items_of(schema.get(key)) {
            Some(branches) => branches,
            None => Seq::empty(),
        };
        lemma_unmentioned_member(schema, key, flag);
        lemma_array_mentions(branches, flag);
        lemma_unmentioned_properties(branches, flag);
        let properties = merged_properties(branches);
        let required = merged_required(branches);
        let described = match schema.get("description"@) {
            Some(description) => typed.with("description"@, description),
            None => typed,
        };
        if let Some(description) = schema.get("description"@) {
            lemma_unmentioned_member(schema, "description"@, flag);
            lemma_unmentioned_with(typed, "description"@, description, flag);
        }
        lemma_unmentioned_with(described, "properties"@, Json::Obj(properties), flag);
        let declared = if properties == Map::<Seq<char>, Json>::empty() {
            described
        } else {
            described.with("properties"@, Json::Obj(properties))
        };
        lemma_array_mentions(texts(required)->Arr_0, flag);
        lemma_unmentioned_with(declared, "required"@, texts(required), flag);
        let demanding = if required.len() == 0 {
            declared
        } else {
            declared.with("required"@, texts(required))
        };
        lemma_unmentioned_with(demanding, "additionalProperties"@, Json::Bool(true), flag);
    } else if schema is Obj {
        let schema_typed = schema.with("type"@, Json::Str("object"@));
        lemma_unmentioned_with(schema, "type"@, Json::Str("object"@), flag);
        lemma_unmentioned_with(schema_typed, "additionalProperties"@, Json::Bool(true), flag);
    } else {
        lemma_unmentioned_with(typed, "properties"@, bare, flag);
        lemma_unmentioned_with(
            typed.with("properties"@, bare),
            "additionalProperties"@,
            Json::Bool(true),
            flag,
        );
    }
}

/// Coercing the parameters of a declaration does not bring the flag in.
proof fn lemma_unmentioned_parameters(declaration: Json)
    requires
        !declaration.mentions("external_web_access"@),
    ensures
        !with_object_parameters(declaration).mentions("external_web_access"@),
{
    if let Some(parameters) = declaration.get("parameters"@) {
        lemma_flag_name();
        lemma_tool_members();
        lemma_unmentioned_member(declaration, "parameters"@, "external_web_access"@);
        lemma_unmentioned_root(parameters);
        lemma_unmentioned_with(
            declaration,
            "parameters"@,
            object_root(parameters),
            "external_web_access"@,
        );
    }
}

/// Coercing a tool does not bring the flag in.
proof fn lemma_unmentioned_tool(tool: Json)
    requires
        !tool.mentions("external_web_access"@),
    ensures
        !coerced_tool(tool).mentions("external_web_access"@),
    decreases tool, 1nat,
{
    if declares_parameters(tool) {
        let flat = with_object_parameters(tool);
        lemma_unmentioned_parameters(tool);
        if let Some(function) = flat.get("function"@) {
            lemma_flag_name();
            lemma_tool_members();
            lemma_unmentioned_member(flat, "function"@, "external_web_access"@);
            lemma_unmentioned_parameters(function);
            lemma_unmentioned_with(
                flat,
                "function"@,
                with_object_parameters(function),
                "external_web_access"@,
            );
        }
    } else {
        lemma_unmentioned_carrier(tool);
    }
}

/// Coercing the tools of a carrier does not bring the flag in.
proof fn lemma_unmentioned_carrier(carrier: Json)
    requires
        !carrier.mentions("external_web_access"@),
    ensures
        !coerced_carrier(carrier).mentions("external_web_access"@),
    decreases carrier, 0nat,
{
    if let Some(key) = child_key(carrier) {
        if let Some(tools) = items_of(carrier.get(key)) {
            lemma_flag_name();
            lemma_tool_members();
            lemma_unmentioned_member(carrier, key, "external_web_access"@);
            lemma_array_mentions(tools, "external_web_access"@);
            lemma_unmentioned_tools(tools);
            lemma_array_mentions(coerced_tools(tools), "external_web_access"@);
            lemma_unmentioned_with(
                carrier,
                key,
                Json::Arr(coerced_tools(tools)),
                "external_web_access"@,
            );
        }
    }
}

/// Coercing a list of tools does not bring the flag in.
proof fn lemma_unmentioned_tools(tools: Seq<Json>)
    requires
        none_mentions(tools, "external_web_access"@),
    ensures
        none_mentions(coerced_tools(tools), "external_web_access"@),
    decreases tools, 0nat,
{
    let after = coerced_tools(tools);
    assert forall|i: int| 0 <= i < after.len() implies !(#[trigger] after[i]).mentions(
        "external_web_access"@,
    ) by {
        assert(!tools[i].mentions("external_web_access"@));
        lemma_unmentioned_tool(tools[i]);
    }
}

/// Coercing a request does not bring the flag in.
pub proof fn lemma_unmentioned_coerced(body: Json)
    requires
        !body.mentions("external_web_access"@),
    ensures
        !coerced(body).mentions("external_web_access"@),
{
    let flag = "external_web_access"@;
    lemma_flag_name();
    let declared = match items_of(body.get("tools"@)) {
        Some(tools) => body.with("tools"@, Json::Arr(coerced_tools(tools))),
        None => body,
    };
    if let Some(tools) = items_of(body.get("tools"@)) {
        lemma_unmentioned_member(body, "tools"@, flag);
        lemma_array_mentions(tools, flag);
        lemma_unmentioned_tools(tools);
        lemma_array_mentions(coerced_tools(tools), flag);
        lemma_unmentioned_with(body, "tools"@, Json::Arr(coerced_tools(tools)), flag);
    }
    if let Some(items) = items_of(declared.get("input"@)) {
        lemma_unmentioned_member(declared, "input"@, flag);
        lemma_array_mentions(items, flag);
        let after = coerced_items(items);
        assert forall|i: int| 0 <= i < after.len() implies !(#[trigger] after[i]).mentions(
            flag,
        ) by {
            assert(!items[i].mentions(flag));
            lemma_unmentioned_carrier(items[i]);
        }
        lemma_array_mentions(after, flag);
        lemma_unmentioned_with(declared, "input"@, Json::Arr(after), flag);
    }
}

/// The tools that carriers hold mention no field that no item mentions.
proof fn lemma_unmentioned_carried(items: Seq<Json>, field: Seq<char>)
    requires
        none_mentions(items, field),
    ensures
        none_mentions(carried_tools(items), field),
    decreases items.len(),
{
    if items.len() > 0 {
        let rest = items.drop_last();
        let last = items.last();
        assert forall|i: int| 0 <= i < rest.len() implies !(#[trigger] rest[i]).mentions(field) by {
            assert(!items[i].mentions(field));
        }
        assert(!items[items.len() - 1].mentions(field));
        lemma_unmentioned_carried(rest, field);
        if let Some(tools) = items_of(last.get("tools"@)) {
            lemma_unmentioned_member(last, "tools"@, field);
            lemma_array_mentions(tools, field);
        }
        let both = carried_tools(rest) + tools_in(last);
        assert forall|i: int| 0 <= i < both.len() implies !(#[trigger] both[i]).mentions(field) by {
            if i < carried_tools(rest).len() {
                assert(both[i] == carried_tools(rest)[i]);
            } else {
                assert(both[i] == tools_in(last)[i - carried_tools(rest).len()]);
            }
        }
    }
}

/// Extending a list by tools mentions no field that neither mentions.
proof fn lemma_unmentioned_new_tools(tools: Seq<Json>, more: Seq<Json>, field: Seq<char>)
    requires
        none_mentions(tools, field),
        none_mentions(more, field),
    ensures
        none_mentions(with_new_tools(tools, more), field),
    decreases more.len(),
{
    if more.len() > 0 {
        let rest = more.drop_last();
        assert forall|i: int| 0 <= i < rest.len() implies !(#[trigger] rest[i]).mentions(field) by {
            assert(!more[i].mentions(field));
        }
        assert(!more[more.len() - 1].mentions(field));
        lemma_unmentioned_new_tools(tools, rest, field);
    }
}

/// Promoting tools does not bring the flag in.
pub proof fn lemma_unmentioned_promoted(body: Json)
    requires
        !body.mentions("external_web_access"@),
    ensures
        !promoted(body).mentions("external_web_access"@),
{
    let flag = "external_web_access"@;
    lemma_flag_name();
    if let Some(items) = items_of(body.get("input"@)) {
        lemma_unmentioned_member(body, "input"@, flag);
        lemma_array_mentions(items, flag);
        let kept = without_carriers(items);
        lemma_unmentioned_filter(items, |item: Json| !is_carrier(item), flag);
        lemma_array_mentions(kept, flag);
        lemma_unmentioned_with(body, "input"@, Json::Arr(kept), flag);
        let top = top_level_tools(body);
        if let Some(tools) = items_of(body.get("tools"@)) {
            lemma_unmentioned_member(body, "tools"@, flag);
            lemma_array_mentions(tools, flag);
        }
        lemma_unmentioned_carried(items, flag);
        lemma_unmentioned_new_tools(top, carried_tools(items), flag);
        lemma_array_mentions(promoted_tools(body, items), flag);
        lemma_unmentioned_with(
            body.with("input"@, Json::Arr(kept)),
            "tools"@,
            Json::Arr(promoted_tools(body, items)),
            flag,
        );
    }
}

/// Cleaning reasoning items does not bring the flag in.
pub proof fn lemma_unmentioned_reasoning(body: Json)
    requires
        !body.mentions("external_web_access"@),
    ensures
        !with_clean_reasoning(body).mentions("external_web_access"@),
{
    let flag = "external_web_access"@;
    lemma_flag_name();
    if let Some(items) = items_of(body.get("input"@)) {
        lemma_unmentioned_member(body, "input"@, flag);
        lemma_array_mentions(items, flag);
        let after = items.map_values(|item: Json| without_null_reasoning(item));
        assert forall|i: int| 0 <= i < after.len() implies !(#[trigger] after[i]).mentions(
            flag,
        ) by {
            assert(!items[i].mentions(flag));
            lemma_unmentioned_without(items[i], "content"@, flag);
        }
        lemma_array_mentions(after, flag);
        lemma_unmentioned_with(body, "input"@, Json::Arr(after), flag);
    }
}

/// Filtering tools does not bring the flag in.
pub proof fn lemma_unmentioned_filtered(body: Json)
    requires
        !body.mentions("external_web_access"@),
    ensures
        !with_supported_tools(body).mentions("external_web_access"@),
{
    let flag = "external_web_access"@;
    lemma_flag_name();
    if let Some(tools) = items_of(body.get("tools"@)) {
        lemma_unmentioned_member(body, "tools"@, flag);
        lemma_array_mentions(tools, flag);
        let kept = supported_tools(tools);
        lemma_unmentioned_filter(tools, |tool: Json| is_supported_tool(tool), flag);
        lemma_array_mentions(kept, flag);
        lemma_unmentioned_with(body, "tools"@, Json::Arr(kept), flag);
        lemma_unmentioned_without(body, "tools"@, flag);
        lemma_unmentioned_without(
            with_kept_tools(body, tools, kept),
            "tool_choice"@,
            flag,
        );
    }
}

} // verus!
