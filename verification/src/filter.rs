//! Tool types: tools of a type that xAI does not accept go, and with them a tool choice that
//! points at one.

use vstd::prelude::*;
use crate::document::{all_contents, array, contents, member, take_out};
use crate::json::{items_of, lemma_filter, lemma_with, Json};
use crate::text::same_text;
use crate::tool::{
    is_supported_kind, is_supported_tool, kind, kind_of, name_of, supports_kind, tool_name,
};

verus! {

/// The tools of a list whose type xAI accepts.
pub open spec fn supported_tools(tools: Seq<Json>) -> Seq<Json> {
    tools.filter(|tool: Json| is_supported_tool(tool))
}

/// Whether a list of tools has a function of that name.
pub open spec fn has_function(tools: Seq<Json>, name: Seq<char>) -> bool {
    exists|i: int|
        0 <= i < tools.len() && kind(#[trigger] tools[i]) == "function"@ && tool_name(tools[i])
            == name
}

/// Whether a tool choice points at no tool of a list: there is no tool at all, the type of the
/// choice is not accepted, or there is no function of its name. A text, such as `auto`, `none`
/// or `required`, points at no tool in particular and never dangles.
pub open spec fn dangles(choice: Json, tools: Seq<Json>) -> bool {
    if choice is Str {
        false
    } else if tools.len() == 0 {
        true
    } else if !(choice is Obj) || kind(choice).len() == 0 {
        false
    } else if !is_supported_kind(kind(choice)) {
        true
    } else {
        kind(choice) == "function"@ && tool_name(choice).len() > 0 && !has_function(
            tools,
            tool_name(choice),
        )
    }
}

/// A request whose tools are replaced by those among them that are kept, or that has no `tools`
/// where none is kept.
pub open spec fn with_kept_tools(body: Json, tools: Seq<Json>, kept: Seq<Json>) -> Json {
    if kept.len() == tools.len() {
        body
    } else if kept.len() == 0 {
        body.without("tools"@)
    } else {
        body.with("tools"@, Json::Arr(kept))
    }
}

/// Whether the tool choice of a request points at no tool of a list.
pub open spec fn choice_dangles(body: Json, tools: Seq<Json>) -> bool {
    match body.get("tool_choice"@) {
        Some(choice) => dangles(choice, tools),
        None => false,
    }
}

/// A request with the tools that xAI accepts, and without a tool choice that points at none of
/// them. A request without a list of tools is left as it is.
pub open spec fn with_supported_tools(body: Json) -> Json {
    match items_of(body.get("tools"@)) {
        Some(tools) => {
            let filtered = with_kept_tools(body, tools, supported_tools(tools));
            if choice_dangles(body, supported_tools(tools)) {
                filtered.without("tool_choice"@)
            } else {
                filtered
            }
        },
        None => body,
    }
}

/// Whether xAI accepts all tools of a request and its tool choice points at one of them, as far
/// as it has a list of tools.
pub open spec fn has_supported_tools(body: Json) -> bool {
    items_of(body.get("tools"@)) matches Some(tools) ==> {
        &&& forall|i: int| 0 <= i < tools.len() ==> is_supported_tool(#[trigger] tools[i])
        &&& !choice_dangles(body, tools)
    }
}

/// After filtering xAI accepts all tools of a request, and its tool choice points at one of
/// them. A request of which that holds, and no other, is left as it is. All members but `tools`
/// and `tool_choice` are kept, and so is a tool choice that is a text.
pub proof fn law_supported_tools(body: Json)
    ensures
        has_supported_tools(with_supported_tools(body)),
        has_supported_tools(body) <==> with_supported_tools(body) == body,
        forall|key: Seq<char>|
            key != "tools"@ && key != "tool_choice"@ ==> #[trigger] with_supported_tools(body).get(
                key,
            ) == body.get(key),
        body.get("tool_choice"@) matches Some(Json::Str(_)) ==> with_supported_tools(body).get(
            "tool_choice"@,
        ) == body.get("tool_choice"@),
        with_supported_tools(body) is Obj <==> body is Obj,
{
    reveal_strlit("tools");
    reveal_strlit("tool_choice");
    if let Some(tools) = items_of(body.get("tools"@)) {
        let pass = |tool: Json| is_supported_tool(tool);
        let kept = supported_tools(tools);
        lemma_filter(tools, pass);
        lemma_filter(kept, pass);
        lemma_with(body, "tools"@, Json::Arr(kept));
        assert forall|i: int| 0 <= i < kept.len() implies is_supported_tool(
            #[trigger] kept[i],
        ) by {
            assert(pass(kept[i]));
        }
        if has_supported_tools(body) {
            assert forall|i: int| 0 <= i < tools.len() implies pass(#[trigger] tools[i]) by {}
        }
        if kept == tools {
            assert forall|i: int| 0 <= i < tools.len() implies is_supported_tool(
                #[trigger] tools[i],
            ) by {
                assert(pass(tools[i]));
            }
        }
    }
}

/// Copies the tools whose type xAI accepts.
fn keep_supported(tools: &Vec<serde_json::Value>) -> (kept: Vec<serde_json::Value>)
    ensures
        all_contents(kept@) == supported_tools(all_contents(tools@)),
{
    let ghost all = all_contents(tools@);
    let ghost pass = |tool: Json| is_supported_tool(tool);
    let mut kept: Vec<serde_json::Value> = Vec::new();
    let mut i: usize = 0;
    proof {
        reveal(Seq::filter);
        assert(all_contents(kept@) =~= all.take(0).filter(pass));
    }
    while i < tools.len()
        invariant
            i <= tools.len(),
            all == all_contents(tools@),
            pass == (|tool: Json| is_supported_tool(tool)),
            all_contents(kept@) == all.take(i as int).filter(pass),
        decreases tools.len() - i,
    {
        let ghost so_far = all_contents(kept@);
        let tool = &tools[i];
        proof {
            reveal(Seq::filter);
            assert(all.take(i + 1).drop_last() =~= all.take(i as int));
            assert(all.take(i + 1).last() == contents(*tool));
        }
        if supports_kind(kind_of(tool)) {
            kept.push(tool.clone());
            assert(all_contents(kept@) =~= so_far.push(contents(*tool)));
        }
        i += 1;
    }
    assert(all.take(i as int) =~= all);
    kept
}

/// Whether a list of tools has a function of that name.
fn declares_function(tools: &[serde_json::Value], name: &str) -> (yes: bool)
    ensures
        yes == has_function(all_contents(tools@), name@),
{
    let mut i: usize = 0;
    while i < tools.len()
        invariant
            i <= tools.len(),
            forall|j: int|
                0 <= j < i ==> !(kind(#[trigger] all_contents(tools@)[j]) == "function"@
                    && tool_name(all_contents(tools@)[j]) == name@),
        decreases tools.len() - i,
    {
        let tool = &tools[i];
        assert(all_contents(tools@)[i as int] == contents(*tool));
        if same_text(kind_of(tool), "function") && same_text(name_of(tool), name) {
            return true;
        }
        i += 1;
    }
    false
}

/// Whether the tool choice of a request points at none of the tools that are left.
///
/// A choice that is a text (`auto`, `none`, `required`) is always kept.
pub fn should_drop_tool_choice(body: &serde_json::Value, tools: &[serde_json::Value]) -> (drop:
    bool)
    ensures
        drop == choice_dangles(contents(*body), all_contents(tools@)),
{
    let choice = match member(body, "tool_choice") {
        Some(choice) => choice,
        None => return false,
    };
    if choice.is_string() {
        return false;
    }
    if tools.len() == 0 {
        return true;
    }
    if !choice.is_object() {
        return false;
    }
    let choice_type = kind_of(choice);
    if choice_type.is_empty() {
        return false;
    }
    if !supports_kind(choice_type) {
        return true;
    }
    if same_text(choice_type, "function") {
        let choice_name = name_of(choice);
        if choice_name.is_empty() {
            return false;
        }
        return !declares_function(tools, choice_name);
    }
    false
}

/// Keeps only the tools whose type xAI accepts, and drops a tool choice that then points at
/// none of them. Returns whether that changed the request.
pub fn filter_unsupported_tools(body: &mut serde_json::Value) -> (changed: bool)
    ensures
        contents(*final(body)) == with_supported_tools(contents(*old(body))),
        changed == (contents(*final(body)) != contents(*old(body))),
{
    let ghost whole = contents(*body);
    let tools = match member(body, "tools") {
        Some(listed) => match listed.as_array() {
            Some(tools) => tools,
            None => return false,
        },
        None => return false,
    };
    let original_len: usize = tools.len();
    let ghost all = all_contents(tools@);
    let kept = keep_supported(tools);
    let drops_choice = should_drop_tool_choice(body, kept.as_slice());
    let shortened = kept.len() != original_len;
    proof {
        reveal_strlit("tools");
        reveal_strlit("tool_choice");
        lemma_filter(all, |tool: Json| is_supported_tool(tool));
        lemma_with(whole, "tools"@, Json::Arr(supported_tools(all)));
    }
    if let Some(map) = body.as_object_mut() {
        if shortened {
            if kept.is_empty() {
                take_out(map, "tools");
            } else {
                map.insert("tools".to_string(), array(kept));
            }
        }
        if drops_choice {
            take_out(map, "tool_choice");
        }
    }
    shortened || drops_choice
}

/// After filtering the tools are those whose type is accepted, in their order and as often as
/// before: whether a tool stays depends on its own type alone. Where none of them stays, `tools`
/// goes. An empty list stays.
pub proof fn law_kept_tools(body: Json, tools: Seq<Json>, kept: Seq<Json>)
    requires
        body.get("tools"@) == Some(Json::Arr(tools)),
        kept == tools.filter(|tool: Json| is_supported_kind(kind(tool))),
    ensures
        kept.len() > 0 || tools.len() == 0 ==> with_supported_tools(body).get("tools"@) == Some(
            Json::Arr(kept),
        ),
        kept.len() == 0 && tools.len() > 0 ==> with_supported_tools(body).get("tools"@) is None,
{
    reveal_strlit("tools");
    reveal_strlit("tool_choice");
    assert("tools"@.len() == 5 && "tool_choice"@.len() == 11);
    let pass = |tool: Json| is_supported_kind(kind(tool));
    assert(pass =~= (|tool: Json| is_supported_tool(tool)));
    lemma_filter(tools, pass);
}

/// One more tool at the end of the tools is there after filtering too, at the end, if and only
/// if its own type is accepted. What becomes of the tools before it does not change.
pub proof fn law_one_more_tool_filtered(body: Json, tools: Seq<Json>, tool: Json)
    requires
        body is Obj,
    ensures
        supported_tools(tools.push(tool)) == (if is_supported_kind(kind(tool)) {
            supported_tools(tools).push(tool)
        } else {
            supported_tools(tools)
        }),
        supported_tools(Seq::empty()) == Seq::<Json>::empty(),
        is_supported_kind(kind(tool)) ==> with_supported_tools(
            body.with("tools"@, Json::Arr(tools.push(tool))),
        ).get("tools"@) == Some(
            Json::Arr(
                match with_supported_tools(body.with("tools"@, Json::Arr(tools))).get("tools"@) {
                    Some(Json::Arr(before)) => before.push(tool),
                    _ => seq![tool],
                },
            ),
        ),
        !is_supported_kind(kind(tool)) && tools.len() > 0 ==> with_supported_tools(
            body.with("tools"@, Json::Arr(tools.push(tool))),
        ).get("tools"@) == with_supported_tools(body.with("tools"@, Json::Arr(tools))).get(
            "tools"@,
        ),
        !is_supported_kind(kind(tool)) && tools.len() == 0 ==> with_supported_tools(
            body.with("tools"@, Json::Arr(tools.push(tool))),
        ).get("tools"@) is None,
{
    let pass = |tool: Json| is_supported_kind(kind(tool));
    assert(pass =~= (|tool: Json| is_supported_tool(tool)));
    reveal(Seq::filter);
    assert(tools.push(tool).drop_last() =~= tools);
    let kept = tools.filter(pass);
    law_kept_tools(body.with("tools"@, Json::Arr(tools)), tools, kept);
    law_kept_tools(
        body.with("tools"@, Json::Arr(tools.push(tool))),
        tools.push(tool),
        tools.push(tool).filter(pass),
    );
    lemma_filter(tools, pass);
    if kept.len() == 0 {
        assert(kept.push(tool) =~= seq![tool]);
    }
}

/// A tool choice dangles in three cases and in no other. It is no text, and there is no tool at
/// all. It is an object of a type that is not accepted. It is an object of type `function` with
/// a name that no function among the tools has.
pub proof fn law_dangling_choice(body: Json, choice: Json, tools: Seq<Json>)
    ensures
        body.get("tool_choice"@) is None ==> !choice_dangles(body, tools),
        body.get("tool_choice"@) == Some(choice) && choice is Str ==> !choice_dangles(body, tools),
        body.get("tool_choice"@) == Some(choice) && !(choice is Str) && tools.len() == 0
            ==> choice_dangles(body, tools),
        body.get("tool_choice"@) == Some(choice) && !(choice is Obj) && tools.len() > 0
            ==> !choice_dangles(body, tools),
        body.get("tool_choice"@) == Some(choice) && choice is Obj && tools.len() > 0 && kind(
            choice,
        ).len() == 0 ==> !choice_dangles(body, tools),
        body.get("tool_choice"@) == Some(choice) && kind(choice).len() > 0 && !is_supported_kind(
            kind(choice),
        ) ==> choice_dangles(body, tools),
        body.get("tool_choice"@) == Some(choice) && tools.len() > 0 && kind(choice) != "function"@
            && is_supported_kind(kind(choice)) ==> !choice_dangles(body, tools),
        body.get("tool_choice"@) == Some(choice) && tools.len() > 0 && kind(choice) == "function"@
            ==> (choice_dangles(body, tools) <==> tool_name(choice).len() > 0 && forall|i: int|
            0 <= i < tools.len() ==> kind(#[trigger] tools[i]) != "function"@ || tool_name(tools[i])
                != tool_name(choice)),
{
    reveal_strlit("function");
    assert("function"@.len() == 8);
}

/// After filtering the tool choice is there as before, unless it dangles among the tools that
/// are kept. All other members but `tools` are kept, and a request without a list of tools is
/// left as it is.
pub proof fn law_kept_choice(body: Json, key: Seq<char>)
    ensures
        match body.get("tools"@) {
            Some(Json::Arr(tools)) => with_supported_tools(body).get("tool_choice"@) == (
            if choice_dangles(body, tools.filter(|tool: Json| is_supported_kind(kind(tool)))) {
                None
            } else {
                body.get("tool_choice"@)
            }),
            _ => with_supported_tools(body) == body,
        },
        key != "tools"@ && key != "tool_choice"@ ==> with_supported_tools(body).get(key)
            == body.get(key),
        with_supported_tools(body) is Obj <==> body is Obj,
{
    law_supported_tools(body);
    reveal_strlit("tools");
    reveal_strlit("tool_choice");
    assert("tools"@.len() == 5 && "tool_choice"@.len() == 11);
    assert((|tool: Json| is_supported_kind(kind(tool))) =~= (|tool: Json| is_supported_tool(tool)));
}

} // verus!
