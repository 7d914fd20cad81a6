//! Tool declarations: the parameter schemas of all function tools, at any depth, become
//! object schemas.

use vstd::prelude::*;
use crate::document::{all_contents, contents, member, member_mut};
use crate::json::{items_of, lemma_with, Json};
use crate::schema::{
    coerce_parameter_root_to_object, has_object_root, law_object_root, object_root,
};
use crate::text::same_text;
use crate::tool::{kind, kind_of, tool_name};

verus! {

/// A declaration with the root of its member `parameters`, if any, made an object schema.
pub open spec fn with_object_parameters(declaration: Json) -> Json {
    match declaration.get("parameters"@) {
        Some(parameters) => declaration.with("parameters"@, object_root(parameters)),
        None => declaration,
    }
}

/// Whether a tool declares parameters of its own.
pub open spec fn declares_parameters(tool: Json) -> bool {
    kind(tool) == "function"@ || kind(tool) == "custom"@
}

/// The member of a carrier that lists the tools it embeds.
pub open spec fn child_key(carrier: Json) -> Option<Seq<char>> {
    if carrier.get("tools"@) is Some {
        Some("tools"@)
    } else if carrier.get("children"@) is Some {
        Some("children"@)
    } else {
        None
    }
}

/// A tool with the schemas of its parameters made object schemas: those of a function tool in
/// the flat form and in its `function` wrapper, and those of the tools that a carrier embeds.
pub open spec fn coerced_tool(tool: Json) -> Json
    decreases tool, 1nat,
{
    if declares_parameters(tool) {
        let flat = with_object_parameters(tool);
        match flat.get("function"@) {
            Some(function) => flat.with("function"@, with_object_parameters(function)),
            None => flat,
        }
    } else {
        coerced_carrier(tool)
    }
}

/// A carrier with the tools that it embeds coerced.
pub open spec fn coerced_carrier(carrier: Json) -> Json
    decreases carrier, 0nat,
{
    match child_key(carrier) {
        Some(key) => match items_of(carrier.get(key)) {
            Some(tools) => carrier.with(key, Json::Arr(coerced_tools(tools))),
            None => carrier,
        },
        None => carrier,
    }
}

/// A list of tools, each coerced.
pub open spec fn coerced_tools(tools: Seq<Json>) -> Seq<Json>
    decreases tools, 0nat,
{
    Seq::new(
        tools.len(),
        |i: int|
            if 0 <= i < tools.len() {
                coerced_tool(tools[i])
            } else {
                Json::Null
            },
    )
}

/// An input item with the tools that it embeds coerced, whichever way it carries them.
pub open spec fn coerced_items(items: Seq<Json>) -> Seq<Json> {
    items.map_values(|item: Json| coerced_carrier(item))
}

/// A request with the tools that it declares and those that its input items embed coerced.
pub open spec fn coerced(body: Json) -> Json {
    let declared = match items_of(body.get("tools"@)) {
        Some(tools) => body.with("tools"@, Json::Arr(coerced_tools(tools))),
        None => body,
    };
    match items_of(declared.get("input"@)) {
        Some(items) => declared.with("input"@, Json::Arr(coerced_items(items))),
        None => declared,
    }
}

/// Whether the member `parameters` of a declaration, if any, has an object root.
pub open spec fn has_object_parameters(declaration: Json) -> bool {
    match declaration.get("parameters"@) {
        Some(parameters) => has_object_root(parameters),
        None => true,
    }
}

/// Whether the parameters of a tool, and of all tools that it embeds, have object roots.
pub open spec fn tool_has_object_roots(tool: Json) -> bool
    decreases tool, 1nat,
{
    if declares_parameters(tool) {
        has_object_parameters(tool) && match tool.get("function"@) {
            Some(function) => has_object_parameters(function),
            None => true,
        }
    } else {
        carrier_has_object_roots(tool)
    }
}

/// Whether the parameters of all tools that a carrier embeds have object roots.
pub open spec fn carrier_has_object_roots(carrier: Json) -> bool
    decreases carrier, 0nat,
{
    match child_key(carrier) {
        Some(key) => match items_of(carrier.get(key)) {
            Some(tools) => tools_have_object_roots(tools),
            None => true,
        },
        None => true,
    }
}

/// Whether the parameters of all tools of a list, and of all that they embed, have object
/// roots.
pub open spec fn tools_have_object_roots(tools: Seq<Json>) -> bool
    decreases tools, 0nat,
{
    forall|i: int| 0 <= i < tools.len() ==> tool_has_object_roots(#[trigger] tools[i])
}

/// Whether the parameters of all tools that a request declares, or that its input items embed,
/// have object roots.
pub open spec fn has_object_roots(body: Json) -> bool {
    &&& items_of(body.get("tools"@)) matches Some(tools) ==> tools_have_object_roots(tools)
    &&& items_of(body.get("input"@)) matches Some(items) ==> forall|i: int|
        0 <= i < items.len() ==> #[trigger] carrier_has_object_roots(items[i])
}

/// Coercing `parameters` gives them an object root, and changes nothing if and only if they
/// have one. It touches no other member.
pub proof fn lemma_with_object_parameters(declaration: Json)
    ensures
        has_object_parameters(with_object_parameters(declaration)),
        has_object_parameters(declaration) <==> with_object_parameters(declaration) == declaration,
        forall|key: Seq<char>|
            key != "parameters"@ ==> #[trigger] with_object_parameters(declaration).get(key)
                == declaration.get(key),
        with_object_parameters(declaration) is Obj <==> declaration is Obj,
{
    if let Some(parameters) = declaration.get("parameters"@) {
        law_object_root(parameters);
        lemma_with(declaration, "parameters"@, object_root(parameters));
    }
}

/// After coercion the parameters of a tool, and of all tools that it embeds, have object roots.
/// A tool of which that holds, and no other, is left as it is. The type and the name of a tool
/// are kept.
pub proof fn law_coerced_tool(tool: Json)
    ensures
        tool_has_object_roots(coerced_tool(tool)),
        tool_has_object_roots(tool) <==> coerced_tool(tool) == tool,
        kind(coerced_tool(tool)) == kind(tool),
        tool_name(coerced_tool(tool)) == tool_name(tool),
    decreases tool, 1nat,
{
    lemma_tool_members();
    if declares_parameters(tool) {
        let flat = with_object_parameters(tool);
        lemma_with_object_parameters(tool);
        if let Some(function) = flat.get("function"@) {
            lemma_with_object_parameters(function);
            lemma_with(flat, "function"@, with_object_parameters(function));
        }
    } else {
        law_coerced_carrier(tool);
    }
}

/// After coercion the parameters of all tools that a carrier embeds have object roots. A
/// carrier of which that holds, and no other, is left as it is. All its members but the list of
/// those tools are kept.
pub proof fn law_coerced_carrier(carrier: Json)
    ensures
        carrier_has_object_roots(coerced_carrier(carrier)),
        carrier_has_object_roots(carrier) <==> coerced_carrier(carrier) == carrier,
        forall|key: Seq<char>|
            key != "tools"@ && key != "children"@ ==> #[trigger] coerced_carrier(carrier).get(key)
                == carrier.get(key),
        coerced_carrier(carrier) is Obj <==> carrier is Obj,
    decreases carrier, 0nat,
{
    lemma_tool_members();
    if let Some(key) = child_key(carrier) {
        if let Some(tools) = items_of(carrier.get(key)) {
            law_coerced_tools(tools);
            lemma_with(carrier, key, Json::Arr(coerced_tools(tools)));
            assert(child_key(coerced_carrier(carrier)) == Some(key));
        }
    }
}

/// After coercion the parameters of all tools of a list, and of all that they embed, have
/// object roots. A list of which that holds, and no other, is left as it is.
pub proof fn law_coerced_tools(tools: Seq<Json>)
    ensures
        tools_have_object_roots(coerced_tools(tools)),
        tools_have_object_roots(tools) <==> coerced_tools(tools) == tools,
    decreases tools, 0nat,
{
    let after = coerced_tools(tools);
    assert forall|i: int| 0 <= i < tools.len() implies tool_has_object_roots(
        #[trigger] after[i],
    ) && (tool_has_object_roots(tools[i]) <==> after[i] == tools[i]) by {
        law_coerced_tool(tools[i]);
    }
    if tools_have_object_roots(tools) {
        assert forall|i: int| 0 <= i < tools.len() implies after[i] == tools[i] by {
            assert(tool_has_object_roots(tools[i]));
        }
        assert(after =~= tools);
    }
    if after == tools {
        assert forall|i: int| 0 <= i < tools.len() implies tool_has_object_roots(
            #[trigger] tools[i],
        ) by {
            assert(after[i] == tools[i]);
        }
    }
}

/// A tool without `parameters` does not gain any.
pub proof fn law_absent_parameters(tool: Json)
    requires
        tool.get("parameters"@) is None,
    ensures
        coerced_tool(tool).get("parameters"@) is None,
{
    lemma_tool_members();
    if !declares_parameters(tool) {
        law_coerced_carrier(tool);
        assert(coerced_carrier(tool).get("parameters"@) == tool.get("parameters"@));
    }
}

/// After coercion the parameters of all tools that a request declares, or that its input items
/// embed, have object roots. A request of which that holds, and no other, is left as it is. All
/// members but `tools` and `input` are kept.
pub proof fn law_coerced(body: Json)
    ensures
        has_object_roots(coerced(body)),
        has_object_roots(body) <==> coerced(body) == body,
        forall|key: Seq<char>|
            key != "tools"@ && key != "input"@ ==> #[trigger] coerced(body).get(key) == body.get(
                key,
            ),
        coerced(body) is Obj <==> body is Obj,
{
    lemma_tool_members();
    reveal_strlit("input");
    reveal_strlit("tools");
    assert("input"@[0] == 'i');
    assert("tools"@[0] == 't');
    let declared = match items_of(body.get("tools"@)) {
        Some(tools) => body.with("tools"@, Json::Arr(coerced_tools(tools))),
        None => body,
    };
    if let Some(tools) = items_of(body.get("tools"@)) {
        law_coerced_tools(tools);
        lemma_with(body, "tools"@, Json::Arr(coerced_tools(tools)));
    }
    if let Some(items) = items_of(body.get("input"@)) {
        let after = coerced_items(items);
        lemma_with(declared, "input"@, Json::Arr(after));
        assert forall|i: int| 0 <= i < items.len() implies carrier_has_object_roots(
            #[trigger] after[i],
        ) && (carrier_has_object_roots(items[i]) <==> after[i] == items[i]) by {
            law_coerced_carrier(items[i]);
        }
        assert forall|i: int| 0 <= i < after.len() implies #[trigger] carrier_has_object_roots(
            after[i],
        ) by {}
        if forall|i: int| 0 <= i < items.len() ==> #[trigger] carrier_has_object_roots(items[i]) {
            assert(after =~= items);
        }
        if after == items {
            assert forall|i: int| 0 <= i < items.len() implies #[trigger] carrier_has_object_roots(
                items[i],
            ) by {
                assert(after[i] == items[i]);
            }
        }
    }
}

/// Coerces the member `parameters` of a declaration, if it has one.
fn coerce_own_parameters(declaration: &mut serde_json::Value) -> (changed: bool)
    ensures
        contents(*final(declaration)) == with_object_parameters(contents(*old(declaration))),
        changed == (contents(*final(declaration)) != contents(*old(declaration))),
{
    let ghost before = contents(*declaration);
    if let Some(params) = member_mut(declaration, "parameters") {
        let changed = coerce_parameter_root_to_object(params);
        proof {
            lemma_with(before, "parameters"@, contents(*params));
        }
        changed
    } else {
        false
    }
}

/// Coerces the parameters of a single tool, in the flat form and in the form with a
/// `function` wrapper; of a carrier, those of the tools that it embeds.
pub fn coerce_tool_entry_parameters(tool: &mut serde_json::Value) -> (changed: bool)
    ensures
        contents(*final(tool)) == coerced_tool(contents(*old(tool))),
        changed == (contents(*final(tool)) != contents(*old(tool))),
    decreases contents(*old(tool)), 1nat,
{
    let tool_type = kind_of(tool);
    if !same_text(tool_type, "function") && !same_text(tool_type, "custom") {
        return coerce_nested_tool_children(tool);
    }
    let ghost before = contents(*tool);
    let flat_changed = coerce_own_parameters(tool);
    let ghost flat = contents(*tool);
    let mut wrapped_changed: bool = false;
    if let Some(function) = member_mut(tool, "function") {
        wrapped_changed = coerce_own_parameters(function);
        proof {
            lemma_with(flat, "function"@, contents(*function));
        }
    }
    proof {
        lemma_tool_members();
        if flat.get("function"@) is Some {
            let function = flat.get("function"@)->0;
            lemma_with(flat, "function"@, with_object_parameters(function));
            assert(before.get("function"@) == Some(function));
        }
    }
    flat_changed || wrapped_changed
}

/// The members of a tool that coercion reads and writes are all different.
pub proof fn lemma_tool_members()
    ensures
        "type"@.len() == 4,
        "tools"@.len() == 5,
        "children"@.len() == 8,
        "parameters"@.len() == 10,
        "function"@.len() == 8,
        "function"@ != "children"@,
        "name"@.len() == 4,
        "name"@ != "type"@,
{
    reveal_strlit("type");
    reveal_strlit("tools");
    reveal_strlit("children");
    reveal_strlit("parameters");
    reveal_strlit("function");
    reveal_strlit("name");
    assert("function"@[0] == 'f');
    assert("children"@[0] == 'c');
    assert("name"@[0] == 'n');
    assert("type"@[0] == 't');
}

/// Coerces the tools that a carrier embeds under `tools` or, failing that, under `children`.
pub fn coerce_nested_tool_children(carrier: &mut serde_json::Value) -> (changed: bool)
    ensures
        contents(*final(carrier)) == coerced_carrier(contents(*old(carrier))),
        changed == (contents(*final(carrier)) != contents(*old(carrier))),
    decreases contents(*old(carrier)), 0nat,
{
    let key = if member(carrier, "tools").is_some() {
        "tools"
    } else if member(carrier, "children").is_some() {
        "children"
    } else {
        return false;
    };
    let ghost before = contents(*carrier);
    if let Some(embedded) = member_mut(carrier, key) {
        let ghost listed = contents(*embedded);
        if let Some(tools) = embedded.as_array_mut() {
            let changed = coerce_each_tool(tools);
            proof {
                lemma_with(before, key@, Json::Arr(all_contents(tools@)));
            }
            return changed;
        }
        proof {
            lemma_with(before, key@, listed);
        }
    }
    false
}

/// Coerces each tool of a list.
fn coerce_each_tool(tools: &mut Vec<serde_json::Value>) -> (changed: bool)
    ensures
        all_contents(final(tools)@) == coerced_tools(all_contents(old(tools)@)),
        changed == (all_contents(final(tools)@) != all_contents(old(tools)@)),
    decreases all_contents(old(tools)@), 0nat,
{
    let ghost before = all_contents(tools@);
    let mut changed: bool = false;
    let mut i: usize = 0;
    while i < tools.len()
        invariant
            i <= tools.len(),
            before == all_contents(old(tools)@),
            before.len() == tools.len(),
            forall|j: int| i <= j < tools.len() ==> contents(#[trigger] tools@[j]) == before[j],
            forall|j: int|
                0 <= j < i ==> contents(#[trigger] tools@[j]) == coerced_tool(before[j]),
            changed == exists|j: int|
                0 <= j < i && coerced_tool(#[trigger] before[j]) != before[j],
        decreases tools.len() - i,
    {
        assert(decreases_to!(before => before[i as int]));
        let entry_changed = coerce_tool_entry_parameters(&mut tools[i]);
        changed = changed || entry_changed;
        i += 1;
    }
    proof {
        let after = all_contents(tools@);
        assert(after =~= coerced_tools(before));
        if changed {
            let j = choose|j: int|
                0 <= j < before.len() && coerced_tool(#[trigger] before[j]) != before[j];
            assert(after[j] != before[j]);
        } else {
            assert(after =~= before);
        }
    }
    changed
}

/// Coerces the tools that an input item embeds, under `tools` or as nested children.
pub fn coerce_input_item_tools(item: &mut serde_json::Value) -> (changed: bool)
    ensures
        contents(*final(item)) == coerced_carrier(contents(*old(item))),
        changed == (contents(*final(item)) != contents(*old(item))),
{
    let ghost before = contents(*item);
    if let Some(listed) = member_mut(item, "tools") {
        let ghost listing = contents(*listed);
        if let Some(tools) = listed.as_array_mut() {
            let changed = coerce_each_tool(tools);
            proof {
                lemma_with(before, "tools"@, Json::Arr(all_contents(tools@)));
            }
            if changed {
                return true;
            }
        } else {
            proof {
                lemma_with(before, "tools"@, listing);
            }
        }
    }
    coerce_nested_tool_children(item)
}

/// Coerces the tools that each input item of a list embeds.
fn coerce_each_item(items: &mut Vec<serde_json::Value>) -> (changed: bool)
    ensures
        all_contents(final(items)@) == coerced_items(all_contents(old(items)@)),
        changed == (all_contents(final(items)@) != all_contents(old(items)@)),
{
    let ghost before = all_contents(items@);
    let mut changed: bool = false;
    let mut i: usize = 0;
    while i < items.len()
        invariant
            i <= items.len(),
            before == all_contents(old(items)@),
            before.len() == items.len(),
            forall|j: int| i <= j < items.len() ==> contents(#[trigger] items@[j]) == before[j],
            forall|j: int|
                0 <= j < i ==> contents(#[trigger] items@[j]) == coerced_carrier(before[j]),
            changed == exists|j: int|
                0 <= j < i && coerced_carrier(#[trigger] before[j]) != before[j],
        decreases items.len() - i,
    {
        assert(before[i as int] == contents(items@[i as int]));
        let item_changed = coerce_input_item_tools(&mut items[i]);
        changed = changed || item_changed;
        i += 1;
    }
    proof {
        let after = all_contents(items@);
        assert(after =~= coerced_items(before));
        if changed {
            let j = choose|j: int|
                0 <= j < before.len() && coerced_carrier(#[trigger] before[j]) != before[j];
            assert(after[j] != before[j]);
        } else {
            assert(after =~= before);
        }
    }
    changed
}

/// Makes the parameter schemas of all function tools of a request object schemas, those at the
/// top level and those that its input items embed.
///
/// A tool without `parameters` does not gain any.
pub fn coerce_tool_parameters_to_object(body: &mut serde_json::Value) -> (changed: bool)
    ensures
        contents(*final(body)) == coerced(contents(*old(body))),
        changed == (contents(*final(body)) != contents(*old(body))),
{
    let ghost before = contents(*body);
    let mut tools_changed: bool = false;
    if let Some(listed) = member_mut(body, "tools") {
        let ghost listing = contents(*listed);
        if let Some(tools) = listed.as_array_mut() {
            tools_changed = coerce_each_tool(tools);
            proof {
                lemma_with(before, "tools"@, Json::Arr(all_contents(tools@)));
            }
        } else {
            proof {
                lemma_with(before, "tools"@, listing);
            }
        }
    }
    let ghost declared = contents(*body);
    let mut input_changed: bool = false;
    if let Some(listed) = member_mut(body, "input") {
        let ghost listing = contents(*listed);
        if let Some(items) = listed.as_array_mut() {
            input_changed = coerce_each_item(items);
            proof {
                lemma_with(declared, "input"@, Json::Arr(all_contents(items@)));
            }
        } else {
            proof {
                lemma_with(declared, "input"@, listing);
            }
        }
    }
    proof {
        reveal_strlit("input");
        reveal_strlit("tools");
        assert("input"@[0] == 'i');
        assert("tools"@[0] == 't');
        assert(contents(*body).get("tools"@) == declared.get("tools"@));
    }
    tools_changed || input_changed
}

/// A tool that declares parameters keeps all its members but `parameters` and `function`. Of
/// these, `parameters` gets an object root where it is there, and the wrapper `function` keeps
/// all its members but `parameters`, which gets an object root too.
pub proof fn law_declaring_tool(tool: Json, key: Seq<char>)
    requires
        kind(tool) == "function"@ || kind(tool) == "custom"@,
    ensures
        coerced_tool(tool) is Obj,
        key != "parameters"@ && key != "function"@ ==> coerced_tool(tool).get(key) == tool.get(key),
        coerced_tool(tool).get("parameters"@) == match tool.get("parameters"@) {
            Some(parameters) => Some(object_root(parameters)),
            None => None,
        },
        match tool.get("function"@) {
            Some(function) => coerced_tool(tool).get("function"@) matches Some(after) && {
                &&& !(function is Obj) ==> after == function
                &&& function is Obj ==> after is Obj
                &&& key != "parameters"@ ==> after.get(key) == function.get(key)
                &&& after.get("parameters"@) == match function.get("parameters"@) {
                    Some(parameters) => Some(object_root(parameters)),
                    None => None,
                }
            },
            None => coerced_tool(tool).get("function"@) is None,
        },
{
    lemma_tool_members();
    reveal_strlit("function");
    reveal_strlit("custom");
    assert("function"@.len() == 8 && "custom"@.len() == 6);
}

/// A tool of any other type is treated as a carrier, whatever else it holds.
pub proof fn law_other_tool(tool: Json)
    requires
        kind(tool) != "function"@,
        kind(tool) != "custom"@,
    ensures
        coerced_tool(tool) == coerced_carrier(tool),
{
}

/// A carrier keeps all its members but one list of tools: `tools`, or `children` where there is
/// no `tools`. That list keeps its length and its order, and each tool in it is coerced. Where
/// that member is no list, or is absent, the carrier is left as it is.
pub proof fn law_carrier_members(carrier: Json, key: Seq<char>)
    ensures
        key != "tools"@ && key != "children"@ ==> coerced_carrier(carrier).get(key) == carrier.get(
            key,
        ),
        match carrier.get("tools"@) {
            Some(Json::Arr(tools)) => {
                &&& coerced_carrier(carrier).get("tools"@) matches Some(Json::Arr(after))
                    && after.len() == tools.len() && forall|i: int|
                    0 <= i < tools.len() ==> #[trigger] after[i] == coerced_tool(tools[i])
                &&& coerced_carrier(carrier).get("children"@) == carrier.get("children"@)
            },
            Some(_) => coerced_carrier(carrier) == carrier,
            None => match carrier.get("children"@) {
                Some(Json::Arr(tools)) => {
                    &&& coerced_carrier(carrier).get("children"@) matches Some(Json::Arr(after))
                        && after.len() == tools.len() && forall|i: int|
                        0 <= i < tools.len() ==> #[trigger] after[i] == coerced_tool(tools[i])
                    &&& coerced_carrier(carrier).get("tools"@) is None
                },
                _ => coerced_carrier(carrier) == carrier,
            },
        },
        coerced_carrier(carrier) is Obj <==> carrier is Obj,
        !(carrier is Obj) ==> coerced_carrier(carrier) == carrier,
{
    lemma_tool_members();
}

/// A list of tools keeps its length and its order, and each tool in it is coerced on its own.
pub proof fn law_each_tool(tools: Seq<Json>, i: int)
    ensures
        coerced_tools(tools).len() == tools.len(),
        0 <= i < tools.len() ==> coerced_tools(tools)[i] == coerced_tool(tools[i]),
{
}

/// Coercion takes each top-level tool of a request and each of its input items on its own, in
/// its place, and touches nothing else. `tools` and `input` that are no lists are left alone.
pub proof fn law_coerced_request(body: Json, key: Seq<char>)
    ensures
        key != "tools"@ && key != "input"@ ==> coerced(body).get(key) == body.get(key),
        match body.get("tools"@) {
            Some(Json::Arr(tools)) => coerced(body).get("tools"@) matches Some(Json::Arr(after))
                && after.len() == tools.len() && forall|i: int|
                0 <= i < tools.len() ==> #[trigger] after[i] == coerced_tool(tools[i]),
            other => coerced(body).get("tools"@) == other,
        },
        match body.get("input"@) {
            Some(Json::Arr(items)) => coerced(body).get("input"@) matches Some(Json::Arr(after))
                && after.len() == items.len() && forall|i: int|
                0 <= i < items.len() ==> #[trigger] after[i] == coerced_carrier(items[i]),
            other => coerced(body).get("input"@) == other,
        },
        coerced(body) is Obj <==> body is Obj,
        !(body is Obj) ==> coerced(body) == body,
{
    law_coerced(body);
    lemma_tool_members();
    reveal_strlit("input");
    reveal_strlit("tools");
    assert("input"@[0] == 'i');
    assert("tools"@[0] == 't');
}

} // verus!
