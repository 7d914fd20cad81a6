//! The sanitizer on whole requests.

use serde_json::Value;
use xai_sanitize::input::is_additional_tools_item;
use xai_sanitize::sanitize::sanitize_xai_responses_request;

fn json(text: &str) -> Value {
    serde_json::from_str(text).unwrap()
}

#[test]
fn strips_external_web_access_recursively() {
    let mut body = json(r#"{
        "model": "grok-4.5",
        "external_web_access": true,
        "tools": [
            {"type": "function", "name": "f", "external_web_access": true,
             "parameters": {"type": "object", "q": {"external_web_access": true}}}
        ],
        "metadata": {"external_web_access": false}
    }"#);
    assert!(sanitize_xai_responses_request(&mut body));
    let s = body.to_string();
    assert!(!s.contains("external_web_access"), "left over: {s}");
}

#[test]
fn strips_top_level_unsupported_fields() {
    let mut body = json(r#"{
        "model": "grok-4.5",
        "prompt_cache_retention": "24h",
        "safety_identifier": "abc"
    }"#);
    assert!(sanitize_xai_responses_request(&mut body));
    assert!(body.get("prompt_cache_retention").is_none());
    assert!(body.get("safety_identifier").is_none());
}

#[test]
fn strips_grok_45_only_sampling_fields() {
    let mut body = json(r#"{
        "model": "grok-4.5",
        "presence_penalty": 0.1,
        "frequency_penalty": 0.2,
        "stop": ["x"]
    }"#);
    assert!(sanitize_xai_responses_request(&mut body));
    assert!(body.get("presence_penalty").is_none());
    assert!(body.get("frequency_penalty").is_none());
    assert!(body.get("stop").is_none());
}

#[test]
fn keeps_sampling_fields_for_non_grok_45() {
    let mut body = json(r#"{
        "model": "grok-4-fast",
        "presence_penalty": 0.1,
        "stop": ["x"]
    }"#);
    // No unsupported fields present, so no change and knobs preserved.
    assert!(!sanitize_xai_responses_request(&mut body));
    assert_eq!(body.get("presence_penalty"), Some(&json(r#"0.1"#)));
    assert_eq!(body.get("stop"), Some(&json(r#"["x"]"#)));
}

#[test]
fn matches_grok_45_with_provider_prefix() {
    let mut body = json(r#"{"model": "xai/grok-4.5", "stop": ["x"]}"#);
    assert!(sanitize_xai_responses_request(&mut body));
    assert!(body.get("stop").is_none());
}

#[test]
fn promotes_additional_tools_dedup() {
    let mut body = json(r#"{
        "model": "grok-4.5",
        "tools": [{"type": "function", "name": "kept"}],
        "input": [
            {"type": "message", "role": "user", "content": "hi"},
            {"type": "additional_tools", "tools": [
                {"type": "function", "name": "kept"},
                {"type": "function", "name": "extra"}
            ]}
        ]
    }"#);
    assert!(sanitize_xai_responses_request(&mut body));
    // carrier removed from input
    let input = body.get("input").unwrap().as_array().unwrap();
    assert_eq!(input.len(), 1);
    assert!(input.iter().all(|i| !is_additional_tools_item(i)));
    // extra promoted, kept not duplicated
    let tools = body.get("tools").unwrap().as_array().unwrap();
    let names: Vec<&str> = tools
        .iter()
        .map(|t| t.get("name").and_then(Value::as_str).unwrap())
        .collect();
    assert_eq!(names, vec!["kept", "extra"]);
}

#[test]
fn strips_null_reasoning_content() {
    let mut body = json(r#"{
        "model": "grok-4.5",
        "input": [
            {"type": "reasoning", "content": null, "id": "r1"},
            {"type": "reasoning", "content": [{"text": "keep"}], "id": "r2"}
        ]
    }"#);
    assert!(sanitize_xai_responses_request(&mut body));
    let input = body.get("input").unwrap().as_array().unwrap();
    assert!(input[0].get("content").is_none());
    assert!(input[1].get("content").is_some());
}

#[test]
fn filters_unsupported_tool_types() {
    let mut body = json(r#"{
        "model": "grok-4.5",
        "tools": [
            {"type": "function", "name": "f"},
            {"type": "tool_search"},
            {"type": "custom", "name": "c"},
            {"type": "mcp", "server_label": "s"}
        ]
    }"#);
    assert!(sanitize_xai_responses_request(&mut body));
    let types: Vec<&str> = body
        .get("tools")
        .unwrap()
        .as_array()
        .unwrap()
        .iter()
        .map(|t| t.get("type").and_then(Value::as_str).unwrap())
        .collect();
    assert_eq!(types, vec!["function", "mcp"]);
}

#[test]
fn drops_dangling_function_tool_choice() {
    let mut body = json(r#"{
        "model": "grok-4.5",
        "tools": [{"type": "tool_search"}],
        "tool_choice": {"type": "function", "name": "gone"}
    }"#);
    assert!(sanitize_xai_responses_request(&mut body));
    // tool_search filtered → no tools → tool_choice dropped
    assert!(body.get("tools").is_none());
    assert!(body.get("tool_choice").is_none());
}

#[test]
fn keeps_valid_function_tool_choice() {
    let mut body = json(r#"{
        "model": "grok-4.5",
        "tools": [{"type": "function", "name": "run"}],
        "tool_choice": {"type": "function", "name": "run"}
    }"#);
    assert!(!sanitize_xai_responses_request(&mut body));
    assert_eq!(
        body.get("tool_choice").unwrap(),
        &json(r#"{"type": "function", "name": "run"}"#)
    );
}

#[test]
fn keeps_string_tool_choice() {
    let mut body = json(r#"{
        "model": "grok-4.5",
        "tools": [{"type": "function", "name": "run"}],
        "tool_choice": "auto"
    }"#);
    assert!(!sanitize_xai_responses_request(&mut body));
    assert_eq!(body.get("tool_choice").unwrap(), &json(r#""auto""#));
}

#[test]
fn noop_on_clean_request() {
    let mut body = json(r#"{
        "model": "grok-4.5",
        "input": [{"type": "message", "role": "user", "content": "hi"}],
        "tools": [{"type": "function", "name": "f"}]
    }"#);
    assert!(!sanitize_xai_responses_request(&mut body));
}

#[test]
fn idempotent_second_pass() {
    let mut body = json(r#"{
        "model": "grok-4.5",
        "external_web_access": true,
        "prompt_cache_retention": "24h",
        "tools": [{"type": "function", "name": "f"}, {"type": "tool_search"}]
    }"#);
    assert!(sanitize_xai_responses_request(&mut body));
    // second pass finds nothing left to change
    assert!(!sanitize_xai_responses_request(&mut body));
}

#[test]
fn coerces_anyof_union_parameter_root_to_object() {
    // The exact shape that triggers xAI's
    // `[invalid_client_tool_schema] ... root schema is an anyOf/oneOf union
    // with a non-object branch`: an optional object argument expressed as
    // `anyOf:[object, null]`.
    let mut body = json(r#"{
        "model": "grok-4.5",
        "tools": [{
            "type": "function",
            "name": "mcp__codex_app__automation_update",
            "parameters": {
                "anyOf": [
                    {"type": "object", "properties": {"x": {"type": "string"}}, "required": ["x"]},
                    {"type": "null"}
                ]
            }
        }]
    }"#);
    assert!(sanitize_xai_responses_request(&mut body));
    let params = &body["tools"][0]["parameters"];
    assert_eq!(params["type"], "object");
    assert_eq!(params["properties"]["x"]["type"], "string");
    assert_eq!(params["required"], json(r#"["x"]"#));
    assert_eq!(params["additionalProperties"], true);
    assert!(params.get("anyOf").is_none());
}

#[test]
fn coerces_oneof_union_merging_multiple_object_branches() {
    let mut body = json(r#"{
        "model": "grok-4.5",
        "tools": [{
            "type": "function",
            "name": "t",
            "parameters": {
                "oneOf": [
                    {"type": "object", "properties": {"a": {"type": "string"}}, "required": ["a"]},
                    {"type": "object", "properties": {"b": {"type": "number"}}, "required": ["b"]},
                    {"type": "string"}
                ]
            }
        }]
    }"#);
    assert!(sanitize_xai_responses_request(&mut body));
    let props = &body["tools"][0]["parameters"]["properties"];
    assert!(props.get("a").is_some());
    assert!(props.get("b").is_some());
    let required: Vec<&str> = body["tools"][0]["parameters"]["required"]
        .as_array()
        .unwrap()
        .iter()
        .map(|v| v.as_str().unwrap())
        .collect();
    assert!(required.contains(&"a"));
    assert!(required.contains(&"b"));
    assert_eq!(body["tools"][0]["parameters"]["type"], "object");
}

#[test]
fn coerces_union_with_no_object_branch_to_permissive_object() {
    let mut body = json(r#"{
        "model": "grok-4.5",
        "tools": [{
            "type": "function",
            "name": "t",
            "parameters": {"anyOf": [{"type": "string"}, {"type": "null"}]}
        }]
    }"#);
    assert!(sanitize_xai_responses_request(&mut body));
    let params = &body["tools"][0]["parameters"];
    assert_eq!(params["type"], "object");
    assert_eq!(params["additionalProperties"], true);
    assert!(params.get("anyOf").is_none());
}

#[test]
fn coerces_non_object_typed_parameters_to_object() {
    let mut body = json(r#"{
        "model": "grok-4.5",
        "tools": [{
            "type": "function",
            "name": "t",
            "parameters": {"type": "string"}
        }]
    }"#);
    assert!(sanitize_xai_responses_request(&mut body));
    let params = &body["tools"][0]["parameters"];
    assert_eq!(params["type"], "object");
    assert_eq!(params["additionalProperties"], true);
}

#[test]
fn coerces_null_parameters_to_permissive_object() {
    let mut body = json(r#"{
        "model": "grok-4.5",
        "tools": [{
            "type": "function",
            "name": "t",
            "parameters": null
        }]
    }"#);
    assert!(sanitize_xai_responses_request(&mut body));
    let params = &body["tools"][0]["parameters"];
    assert_eq!(params["type"], "object");
    assert_eq!(params["additionalProperties"], true);
}

#[test]
fn leaves_absent_parameters_untouched() {
    // A function tool with no `parameters` field must not gain one — keeps
    // the sanitizer a noop on clean, parameterless tool declarations.
    let mut body = json(r#"{
        "model": "grok-4.5",
        "tools": [{"type": "function", "name": "f"}]
    }"#);
    assert!(!sanitize_xai_responses_request(&mut body));
    assert!(body["tools"][0].get("parameters").is_none());
}

#[test]
fn leaves_already_object_parameters_untouched() {
    let mut body = json(r#"{
        "model": "grok-4.5",
        "tools": [{
            "type": "function",
            "name": "f",
            "parameters": {"type": "object", "properties": {"x": {"type": "string"}}}
        }]
    }"#);
    assert!(!sanitize_xai_responses_request(&mut body));
    assert_eq!(
        body["tools"][0]["parameters"]["properties"]["x"]["type"],
        "string"
    );
}

#[test]
fn parameter_coercion_is_idempotent() {
    let mut body = json(r#"{
        "model": "grok-4.5",
        "tools": [{
            "type": "function",
            "name": "t",
            "parameters": {"anyOf": [{"type": "object", "properties": {"x": {"type": "string"}}}, {"type": "null"}]}
        }]
    }"#);
    assert!(sanitize_xai_responses_request(&mut body));
    assert!(!sanitize_xai_responses_request(&mut body));
}

#[test]
fn coerces_union_parameters_even_with_type_object_present() {
    // Some schemas emit both `type: object` AND `anyOf` at the root.
    // xAI still sees the union and rejects it, so we must coerce.
    let mut body = json(r#"{
        "model": "grok-4.5",
        "tools": [{
            "type": "function",
            "name": "t",
            "parameters": {
                "type": "object",
                "anyOf": [
                    {"type": "object", "properties": {"x": {"type": "string"}}},
                    {"type": "null"}
                ]
            }
        }]
    }"#);
    assert!(sanitize_xai_responses_request(&mut body));
    let params = &body["tools"][0]["parameters"];
    assert_eq!(params["type"], "object");
    assert!(params.get("anyOf").is_none());
    assert_eq!(params["properties"]["x"]["type"], "string");
}

#[test]
fn coerces_nested_function_wrapper_parameters() {
    // Chat-style nested format: parameters inside `function`.
    let mut body = json(r#"{
        "model": "grok-4.5",
        "tools": [{
            "type": "function",
            "function": {
                "name": "t",
                "parameters": {"anyOf": [{"type": "object", "properties": {"x": {"type": "string"}}}, {"type": "null"}]}
            }
        }]
    }"#);
    assert!(sanitize_xai_responses_request(&mut body));
    let params = &body["tools"][0]["function"]["parameters"];
    assert_eq!(params["type"], "object");
    assert!(params.get("anyOf").is_none());
}

#[test]
fn coerces_tools_nested_in_input_tool_search_output() {
    // Tool declarations inside `input` items (tool_search_output) are also
    // validated by xAI's strict parser.
    let mut body = json(r#"{
        "model": "grok-4.5",
        "tools": [{"type": "function", "name": "top", "parameters": {"type": "object"}}],
        "input": [{
            "type": "tool_search_output",
            "call_id": "c1",
            "tools": [{
                "type": "namespace",
                "name": "mcp__codex_app__",
                "tools": [{
                    "type": "function",
                    "name": "automation_update",
                    "parameters": {"anyOf": [{"type": "object", "properties": {"x": {"type": "string"}}}, {"type": "null"}]}
                }]
            }]
        }]
    }"#);
    assert!(sanitize_xai_responses_request(&mut body));
    let params = &body["input"][0]["tools"][0]["tools"][0]["parameters"];
    assert_eq!(params["type"], "object");
    assert!(params.get("anyOf").is_none());
}
