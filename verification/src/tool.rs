//! What tool declarations and input items say of themselves: their type and their name.

use vstd::prelude::*;
use crate::document::{contents, member};
use crate::json::{text_of, Json};
use crate::text::{same_text, trimmed};

verus! {

/// The text of a member without white space around it; empty where there is no such text.
pub open spec fn trimmed_text(document: Option<Json>) -> Seq<char> {
    match text_of(document) {
        Some(text) => trimmed(text),
        None => Seq::empty(),
    }
}

/// The `type` of a tool, a tool choice or an input item.
pub open spec fn kind(tool: Json) -> Seq<char> {
    trimmed_text(tool.get("type"@))
}

/// The member `name` of the wrapper `function`.
pub open spec fn wrapped_name(tool: Json) -> Option<Json> {
    match tool.get("function"@) {
        Some(function) => function.get("name"@),
        None => None,
    }
}

/// The name of a tool or a tool choice: its own, or that in its `function` wrapper.
pub open spec fn tool_name(tool: Json) -> Seq<char> {
    if text_of(tool.get("name"@)) is Some {
        trimmed_text(tool.get("name"@))
    } else {
        trimmed_text(wrapped_name(tool))
    }
}

/// The tool types that xAI accepts. Any other type is a private carrier.
pub open spec fn is_supported_kind(kind: Seq<char>) -> bool {
    ||| kind == "function"@
    ||| kind == "web_search"@
    ||| kind == "x_search"@
    ||| kind == "image_generation"@
    ||| kind == "collections_search"@
    ||| kind == "file_search"@
    ||| kind == "code_execution"@
    ||| kind == "code_interpreter"@
    ||| kind == "mcp"@
    ||| kind == "shell"@
}

/// Whether xAI accepts the type of a tool.
pub open spec fn is_supported_tool(tool: Json) -> bool {
    is_supported_kind(kind(tool))
}

/// The text of a member without white space around it.
pub(crate) fn trimmed_member<'a>(value: &'a serde_json::Value, key: &str) -> (text: &'a str)
    ensures
        text@ == trimmed_text(contents(*value).get(key@)),
{
    proof {
        reveal_strlit("");
    }
    match member(value, key) {
        Some(found) => match found.as_str() {
            Some(text) => text.trim(),
            None => "",
        },
        None => "",
    }
}

/// The type of a tool, a tool choice or an input item.
pub fn kind_of(tool: &serde_json::Value) -> (text: &str)
    ensures
        text@ == kind(contents(*tool)),
{
    trimmed_member(tool, "type")
}

/// The name of a tool or a tool choice.
pub fn name_of(tool: &serde_json::Value) -> (text: &str)
    ensures
        text@ == tool_name(contents(*tool)),
{
    if let Some(name) = member(tool, "name") {
        if name.is_string() {
            return trimmed_member(tool, "name");
        }
    }
    proof {
        reveal_strlit("");
    }
    match member(tool, "function") {
        Some(function) => trimmed_member(function, "name"),
        None => "",
    }
}

/// Whether xAI accepts a tool type.
pub fn supports_kind(kind: &str) -> (yes: bool)
    ensures
        yes == is_supported_kind(kind@),
{
    same_text(kind, "function") || same_text(kind, "web_search") || same_text(kind, "x_search")
        || same_text(kind, "image_generation") || same_text(kind, "collections_search")
        || same_text(kind, "file_search") || same_text(kind, "code_execution") || same_text(
        kind,
        "code_interpreter",
    ) || same_text(kind, "mcp") || same_text(kind, "shell")
}

/// The type of a tool is the trimmed text of its member `type`, whatever else it holds. Where
/// that is no text, the type is empty.
pub proof fn law_kind(tool: Json)
    ensures
        kind(tool) == match tool.get("type"@) {
            Some(Json::Str(text)) => trimmed(text),
            _ => Seq::empty(),
        },
{
}

/// The name of a tool is the trimmed text of its member `name`. Where that is no text, it is the
/// trimmed text of `name` in its member `function`, and where that is none either, it is empty.
pub proof fn law_tool_name(tool: Json)
    ensures
        tool.get("name"@) matches Some(Json::Str(text)) ==> tool_name(tool) == trimmed(text),
        !(tool.get("name"@) matches Some(Json::Str(_))) ==> match tool.get("function"@) {
            Some(function) => match function.get("name"@) {
                Some(Json::Str(text)) => tool_name(tool) == trimmed(text),
                _ => tool_name(tool) == Seq::<char>::empty(),
            },
            None => tool_name(tool) == Seq::<char>::empty(),
        },
{
}

/// Ten types are accepted, and no other.
pub proof fn law_supported_kinds(name: Seq<char>)
    ensures
        is_supported_kind(name) <==> seq![
            "function"@,
            "web_search"@,
            "x_search"@,
            "image_generation"@,
            "collections_search"@,
            "file_search"@,
            "code_execution"@,
            "code_interpreter"@,
            "mcp"@,
            "shell"@,
        ].contains(name),
{
    let names = seq![
        "function"@,
        "web_search"@,
        "x_search"@,
        "image_generation"@,
        "collections_search"@,
        "file_search"@,
        "code_execution"@,
        "code_interpreter"@,
        "mcp"@,
        "shell"@,
    ];
    assert(names[0] == "function"@ && names[1] == "web_search"@ && names[2] == "x_search"@);
    assert(names[3] == "image_generation"@ && names[4] == "collections_search"@);
    assert(names[5] == "file_search"@ && names[6] == "code_execution"@);
    assert(names[7] == "code_interpreter"@ && names[8] == "mcp"@ && names[9] == "shell"@);
}

} // verus!
