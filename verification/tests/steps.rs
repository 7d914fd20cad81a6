//! Each step of the sanitizer on its own.

use serde_json::Value;
use xai_sanitize::coerce::{
    coerce_input_item_tools, coerce_nested_tool_children, coerce_tool_entry_parameters,
    coerce_tool_parameters_to_object,
};
use xai_sanitize::fields::{
    remove_field_recursive, remove_top_level_field, request_targets_grok_45,
};
use xai_sanitize::filter::{filter_unsupported_tools, should_drop_tool_choice};
use xai_sanitize::input::{is_additional_tools_item, strip_null_reasoning_content};
use xai_sanitize::promote::{promote_additional_tools, spelled_key, tool_dedup_key};
use xai_sanitize::schema::coerce_parameter_root_to_object;
use xai_sanitize::text::{after_last_occurrence, same_text};
use xai_sanitize::tool::{kind_of, name_of, supports_kind};

fn json(text: &str) -> Value {
    serde_json::from_str(text).unwrap()
}

fn targets(model: &str) -> bool {
    let mut body = json("{}");
    body["model"] = Value::String(model.to_string());
    request_targets_grok_45(&body)
}

fn root(before: &str, after: &str, changed: bool) {
    let mut schema = json(before);
    assert_eq!(coerce_parameter_root_to_object(&mut schema), changed);
    assert_eq!(schema, json(after));
}

#[test]
fn model_names_that_count_as_grok_45() {
    assert!(targets("grok-4.5"));
    assert!(targets("GROK-4.5"));
    assert!(targets("  grok-4.5\u{3000}"));
    assert!(targets("xai/grok-4.5"));
    assert!(targets("a/b/Grok-4.5"));
    assert!(targets("xai/ grok-4.5 "));
}

#[test]
fn model_names_that_do_not_count_as_grok_45() {
    assert!(!targets("grok-4.5-fast"));
    assert!(!targets("grok-4"));
    assert!(!targets("grok-4.5/"));
    assert!(!targets("grok-4.5/mini"));
    assert!(!targets("my-grok-4.5"));
    assert!(!targets(""));
    assert!(!request_targets_grok_45(&json(r#"{"model": 45}"#)));
    assert!(!request_targets_grok_45(&json("{}")));
    assert!(!request_targets_grok_45(&json(r#"["model"]"#)));
}

#[test]
fn texts_behind_the_last_delimiter() {
    assert_eq!(after_last_occurrence("a/b/c", '/'), Some("c"));
    assert_eq!(after_last_occurrence("a/", '/'), Some(""));
    assert_eq!(after_last_occurrence("abc", '/'), None);
    assert!(same_text("ab", "ab"));
    assert!(!same_text("ab", "aB"));
}

#[test]
fn top_level_fields_go_one_at_a_time() {
    let mut body = json(r#"{"a": 1, "b": {"a": 2}}"#);
    assert!(remove_top_level_field(&mut body, "a"));
    assert_eq!(body, json(r#"{"b": {"a": 2}}"#));
    assert!(!remove_top_level_field(&mut body, "a"));
    let mut list = json("[1]");
    assert!(!remove_top_level_field(&mut list, "a"));
    assert_eq!(list, json("[1]"));
}

#[test]
fn fields_go_at_any_depth() {
    let mut body = json(r#"{"x": 1, "l": [{"x": null, "y": [[{"x": 2}]]}, "x"], "o": {"z": {"x": {}}}}"#);
    assert!(remove_field_recursive(&mut body, "x"));
    assert_eq!(body, json(r#"{"l": [{"y": [[{}]]}, "x"], "o": {"z": {}}}"#));
    assert!(!remove_field_recursive(&mut body, "x"));
    let mut text = json(r#""x""#);
    assert!(!remove_field_recursive(&mut text, "x"));
}

#[test]
fn kinds_and_names_are_trimmed() {
    let tool = json(r#"{"type": " function\n", "name": "\t run "}"#);
    assert_eq!(kind_of(&tool), "function");
    assert_eq!(name_of(&tool), "run");
    let wrapped = json(r#"{"type": 1, "name": null, "function": {"name": " inner "}}"#);
    assert_eq!(kind_of(&wrapped), "");
    assert_eq!(name_of(&wrapped), "inner");
    assert_eq!(name_of(&json(r#"{"name": "", "function": {"name": "inner"}}"#)), "");
    assert_eq!(name_of(&json("{}")), "");
    assert_eq!(kind_of(&json("7")), "");
}

#[test]
fn kinds_that_are_supported() {
    for kind in [
        "function",
        "web_search",
        "x_search",
        "image_generation",
        "collections_search",
        "file_search",
        "code_execution",
        "code_interpreter",
        "mcp",
        "shell",
    ] {
        assert!(supports_kind(kind));
    }
    for kind in ["custom", "namespace", "tool_search", "Function", ""] {
        assert!(!supports_kind(kind));
    }
}

#[test]
fn dedup_keys_by_name_label_and_text() {
    assert_eq!(
        tool_dedup_key(&json(r#"{"type": " function ", "name": " f "}"#)),
        "type:function\u{0}name:f"
    );
    assert_eq!(
        tool_dedup_key(&json(r#"{"type": "mcp", "name": " ", "server_label": " s "}"#)),
        "type:mcp\u{0}server_label:s"
    );
    assert_eq!(
        tool_dedup_key(&json(r#"{"type": "mcp", "name": "n", "server_label": "s"}"#)),
        "type:mcp\u{0}name:n"
    );
    assert_eq!(
        tool_dedup_key(&json(r#"{"type": "web_search", "server_label": "s"}"#)),
        "json:{\"server_label\":\"s\",\"type\":\"web_search\"}"
    );
    assert_eq!(tool_dedup_key(&json(r#"{"name": "f"}"#)), "json:{\"name\":\"f\"}");
    assert_eq!(tool_dedup_key(&json("[1, true]")), "json:[1,true]");
    assert_eq!(spelled_key("[1]"), "json:[1]");
}

#[test]
fn dedup_keys_tell_identities_apart() {
    let named = tool_dedup_key(&json(r#"{"type": "mcp", "name": "s"}"#));
    let labelled = tool_dedup_key(&json(r#"{"type": "mcp", "server_label": "s"}"#));
    let bare = tool_dedup_key(&json(r#"{"type": "mcp"}"#));
    assert_ne!(named, labelled);
    assert_ne!(named, bare);
    assert_ne!(labelled, bare);
    assert_eq!(
        named,
        tool_dedup_key(&json(r#"{"type": "mcp", "name": "s", "server_label": "t"}"#))
    );
}

#[test]
fn promotion_keeps_order_and_drops_duplicates() {
    let mut body = json(
        r#"{
            "tools": [{"type": "function", "name": "a"}, {"type": "function", "name": "a"}],
            "input": [
                {"type": " additional_tools ", "tools": [
                    {"type": "function", "name": "c"},
                    {"type": "function", "name": "a"},
                    {"type": "web_search"}
                ]},
                {"type": "message"},
                {"type": "additional_tools", "tools": [
                    {"type": "web_search"},
                    {"type": "function", "name": "b"},
                    {"type": "function", "name": "c", "description": "again"}
                ]},
                {"type": "additional_tools", "tools": "none"}
            ]
        }"#,
    );
    assert!(promote_additional_tools(&mut body));
    assert_eq!(
        body,
        json(
            r#"{
                "tools": [
                    {"type": "function", "name": "a"},
                    {"type": "function", "name": "a"},
                    {"type": "function", "name": "c"},
                    {"type": "web_search"},
                    {"type": "function", "name": "b"}
                ],
                "input": [{"type": "message"}]
            }"#
        )
    );
    assert!(!promote_additional_tools(&mut body));
}

#[test]
fn carriers_without_new_tools_leave_the_tools_alone() {
    let mut body = json(r#"{"tools": {}, "input": [{"type": "additional_tools", "tools": []}]}"#);
    assert!(promote_additional_tools(&mut body));
    assert_eq!(body, json(r#"{"tools": {}, "input": []}"#));
    let mut replaced =
        json(r#"{"tools": {}, "input": [{"type": "additional_tools", "tools": [1]}]}"#);
    assert!(promote_additional_tools(&mut replaced));
    assert_eq!(replaced, json(r#"{"tools": [1], "input": []}"#));
}

#[test]
fn input_without_carriers_is_not_promoted() {
    let mut body = json(r#"{"input": [{"type": "message", "tools": [1]}, "additional_tools"]}"#);
    let before = body.clone();
    assert!(!promote_additional_tools(&mut body));
    assert_eq!(body, before);
    let mut text = json(r#"{"input": "hi"}"#);
    assert!(!promote_additional_tools(&mut text));
    assert!(is_additional_tools_item(&json(r#"{"type": "additional_tools"}"#)));
    assert!(!is_additional_tools_item(&json(r#"{"type": "additional_tool"}"#)));
    assert!(!is_additional_tools_item(&json(r#""additional_tools""#)));
}

#[test]
fn only_null_contents_of_reasoning_items_go() {
    let mut body = json(
        r#"{"input": [
            {"type": " reasoning ", "content": null, "id": 1},
            {"type": "reasoning", "content": []},
            {"type": "reasoning"},
            {"type": "message", "content": null},
            null
        ]}"#,
    );
    assert!(strip_null_reasoning_content(&mut body));
    assert_eq!(
        body,
        json(
            r#"{"input": [
                {"type": " reasoning ", "id": 1},
                {"type": "reasoning", "content": []},
                {"type": "reasoning"},
                {"type": "message", "content": null},
                null
            ]}"#
        )
    );
    assert!(!strip_null_reasoning_content(&mut body));
    assert!(!strip_null_reasoning_content(&mut json(r#"{"input": {}}"#)));
    assert!(!strip_null_reasoning_content(&mut json("{}")));
}

#[test]
fn tool_choices_that_are_dropped_or_kept() {
    let tools = vec![
        json(r#"{"type": "function", "name": "run"}"#),
        json(r#"{"type": "function", "function": {"name": "inner"}}"#),
        json(r#"{"type": "web_search", "name": "seek"}"#),
    ];
    let drops = |choice: &str| {
        let mut body = json("{}");
        body["tool_choice"] = json(choice);
        should_drop_tool_choice(&body, &tools)
    };
    assert!(!drops(r#"{"type": "function", "name": " run "}"#));
    assert!(!drops(r#"{"type": "function", "function": {"name": "inner"}}"#));
    assert!(!drops(r#"{"type": "function", "name": "inner"}"#));
    assert!(drops(r#"{"type": "function", "name": "gone"}"#));
    assert!(drops(r#"{"type": "function", "name": "seek"}"#));
    assert!(!drops(r#"{"type": "function"}"#));
    assert!(drops(r#"{"type": "tool_search"}"#));
    assert!(!drops(r#"{"type": "shell"}"#));
    assert!(!drops(r#"{"type": " "}"#));
    assert!(!drops("{}"));
    assert!(!drops("null"));
    assert!(!drops(r#""required""#));
    assert!(!should_drop_tool_choice(&json("{}"), &tools));
    assert!(!should_drop_tool_choice(&json("{}"), &[]));
}

#[test]
fn without_tools_only_text_choices_stay() {
    let drops = |choice: &str| {
        let mut body = json("{}");
        body["tool_choice"] = json(choice);
        should_drop_tool_choice(&body, &[])
    };
    assert!(!drops(r#""auto""#));
    assert!(!drops(r#""none""#));
    assert!(!drops(r#""required""#));
    assert!(drops(r#"{"type": "web_search"}"#));
    assert!(drops("{}"));
    assert!(drops("null"));
}

#[test]
fn filtering_shortens_or_removes_the_tools() {
    let mut body = json(
        r#"{"tools": [{"type": " shell "}, {"type": "custom"}, 3], "tool_choice": {"type": "custom"}}"#,
    );
    assert!(filter_unsupported_tools(&mut body));
    assert_eq!(body, json(r#"{"tools": [{"type": " shell "}]}"#));
    assert!(!filter_unsupported_tools(&mut body));

    let mut none = json(r#"{"tools": [{"type": "custom"}], "tool_choice": "auto"}"#);
    assert!(filter_unsupported_tools(&mut none));
    assert_eq!(none, json(r#"{"tool_choice": "auto"}"#));

    let mut empty = json(r#"{"tools": [], "tool_choice": {"type": "shell"}}"#);
    assert!(filter_unsupported_tools(&mut empty));
    assert_eq!(empty, json(r#"{"tools": []}"#));

    let mut absent = json(r#"{"tool_choice": {"type": "custom"}}"#);
    assert!(!filter_unsupported_tools(&mut absent));
    assert_eq!(absent, json(r#"{"tool_choice": {"type": "custom"}}"#));
}

#[test]
fn unions_are_lifted_into_one_object_schema() {
    root(
        r#"{
            "description": "d",
            "title": "t",
            "anyOf": [
                {"type": "object", "properties": {"a": 1, "b": 1}, "required": ["b", "a", 7]},
                {"type": "string", "properties": {"c": 1}, "required": ["c"]},
                {"type": "object", "properties": {"b": 2}, "required": ["a", "z"]},
                {"type": " object", "properties": {"e": 1}},
                {"type": "object", "properties": [], "required": {}}
            ]
        }"#,
        r#"{
            "type": "object",
            "description": "d",
            "properties": {"a": 1, "b": 2},
            "required": ["b", "a", "z"],
            "additionalProperties": true
        }"#,
        true,
    );
}

#[test]
fn the_first_union_keyword_counts() {
    root(
        r#"{
            "allOf": [{"type": "object", "properties": {"c": 1}}],
            "oneOf": [{"type": "object", "properties": {"b": 1}}],
            "anyOf": "no branches"
        }"#,
        r#"{"type": "object", "additionalProperties": true}"#,
        true,
    );
    root(
        r#"{
            "allOf": [{"type": "object", "properties": {"c": 1}}],
            "oneOf": [{"type": "object", "properties": {"b": 1}}]
        }"#,
        r#"{"type": "object", "properties": {"b": 1}, "additionalProperties": true}"#,
        true,
    );
    root(
        r#"{"allOf": [{"type": "object", "properties": {}, "required": ["c", "c"]}]}"#,
        r#"{"type": "object", "required": ["c"], "additionalProperties": true}"#,
        true,
    );
}

#[test]
fn other_roots_become_objects() {
    root(
        r#"{"type": "string", "properties": {"a": 1}}"#,
        r#"{"type": "object", "properties": {"a": 1}, "additionalProperties": true}"#,
        true,
    );
    root(
        r#"{"type": "string", "additionalProperties": false}"#,
        r#"{"type": "object", "additionalProperties": false}"#,
        true,
    );
    root(r#"{"type": ["object", "null"]}"#, r#"{"type": "object"}"#, true);
    root(r#"{"required": []}"#, r#"{"type": "object", "required": []}"#, true);
    root("{}", r#"{"type": "object"}"#, true);
    root(r#"{"type": "object", "x": 1}"#, r#"{"type": "object", "x": 1}"#, false);
}

#[test]
fn what_is_no_schema_becomes_permissive() {
    let permissive = r#"{"type": "object", "properties": {}, "additionalProperties": true}"#;
    root("null", permissive, true);
    root("[1]", permissive, true);
    root(r#""object""#, permissive, true);
    root(permissive, permissive, false);
}

#[test]
fn tools_are_coerced_in_both_forms() {
    let mut tool = json(
        r#"{
            "type": "custom",
            "parameters": {},
            "function": {"name": "f", "parameters": null},
            "tools": [{"type": "function", "parameters": {}}]
        }"#,
    );
    assert!(coerce_tool_entry_parameters(&mut tool));
    assert_eq!(
        tool,
        json(
            r#"{
                "type": "custom",
                "parameters": {"type": "object"},
                "function": {
                    "name": "f",
                    "parameters": {"type": "object", "properties": {}, "additionalProperties": true}
                },
                "tools": [{"type": "function", "parameters": {}}]
            }"#
        )
    );
    assert!(!coerce_tool_entry_parameters(&mut tool));
    let mut bare = json(r#"{"type": "function", "function": "f"}"#);
    assert!(!coerce_tool_entry_parameters(&mut bare));
    assert_eq!(bare, json(r#"{"type": "function", "function": "f"}"#));
}

#[test]
fn carriers_are_searched_for_tools() {
    let mut deep = json(
        r#"{"type": "namespace", "children": [
            {"type": "namespace", "tools": [{"type": "function", "parameters": {}}]},
            {"parameters": {}},
            1
        ]}"#,
    );
    assert!(coerce_nested_tool_children(&mut deep));
    assert_eq!(
        deep,
        json(
            r#"{"type": "namespace", "children": [
                {"type": "namespace", "tools": [{"type": "function", "parameters": {"type": "object"}}]},
                {"parameters": {}},
                1
            ]}"#
        )
    );
    assert!(!coerce_nested_tool_children(&mut deep));

    let both = r#"{"tools": "none", "children": [{"type": "function", "parameters": {}}]}"#;
    let mut carrier = json(both);
    assert!(!coerce_nested_tool_children(&mut carrier));
    assert_eq!(carrier, json(both));
}

#[test]
fn input_items_are_searched_for_tools() {
    let mut item = json(r#"{"tools": [{"type": "function", "parameters": {}}]}"#);
    assert!(coerce_input_item_tools(&mut item));
    assert_eq!(item, json(r#"{"tools": [{"type": "function", "parameters": {"type": "object"}}]}"#));
    assert!(!coerce_input_item_tools(&mut item));
    let mut nested = json(r#"{"children": [{"type": "custom", "parameters": 1}]}"#);
    assert!(coerce_input_item_tools(&mut nested));
    assert_eq!(nested["children"][0]["parameters"]["type"], "object");
    assert!(!coerce_input_item_tools(&mut json(r#"{"type": "function", "parameters": 1}"#)));
}

#[test]
fn requests_are_coerced_at_the_top_and_in_the_input() {
    let mut body = json(
        r#"{
            "tools": [{"type": "function", "parameters": {}}],
            "input": [{"tools": [{"type": "function", "parameters": {}}]}, "hi"]
        }"#,
    );
    assert!(coerce_tool_parameters_to_object(&mut body));
    assert_eq!(
        body,
        json(
            r#"{
                "tools": [{"type": "function", "parameters": {"type": "object"}}],
                "input": [{"tools": [{"type": "function", "parameters": {"type": "object"}}]}, "hi"]
            }"#
        )
    );
    assert!(!coerce_tool_parameters_to_object(&mut body));
    assert!(!coerce_tool_parameters_to_object(&mut json(r#"{"tools": {}, "input": "hi"}"#)));
}
