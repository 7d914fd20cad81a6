//! What holds of the sanitizer as a whole, on one request that needs every step.

use serde_json::Value;
use xai_sanitize::sanitize::sanitize_xai_responses_request;

fn json(text: &str) -> Value {
    serde_json::from_str(text).unwrap()
}

fn dirty() -> Value {
    json(
        r#"{
            "model": " xai/GROK-4.5 ",
            "stream": true,
            "prompt_cache_retention": "24h",
            "safety_identifier": "abc",
            "presence_penalty": 1,
            "presencePenalty": 1,
            "frequency_penalty": 1,
            "frequencyPenalty": 1,
            "stop": "x",
            "metadata": {"stop": "kept", "external_web_access": 1},
            "tools": [
                {"type": "tool_search"},
                {"type": "function", "name": "f", "external_web_access": true,
                 "parameters": {"anyOf": [
                     {"type": "object", "properties": {"external_web_access": {}, "p": {}},
                      "required": ["external_web_access"]},
                     {"type": "null"}
                 ]}}
            ],
            "tool_choice": {"type": "function", "name": "gone"},
            "input": [
                {"type": "reasoning", "content": null},
                {"type": "additional_tools", "tools": [
                    {"type": "function", "name": "f"},
                    {"type": "mcp", "server_label": "s",
                     "tools": [{"type": "function", "parameters": null}]},
                    {"type": "custom", "name": "c"}
                ]},
                {"type": "tool_search_output", "tools": [{"type": "custom", "parameters": {}}]}
            ]
        }"#,
    )
}

fn clean() -> Value {
    json(
        r#"{
            "model": " xai/GROK-4.5 ",
            "stream": true,
            "metadata": {"stop": "kept"},
            "tools": [
                {"type": "function", "name": "f",
                 "parameters": {
                     "type": "object",
                     "properties": {"p": {}},
                     "required": ["external_web_access"],
                     "additionalProperties": true
                 }},
                {"type": "mcp", "server_label": "s",
                 "tools": [{"type": "function", "parameters":
                     {"type": "object", "properties": {}, "additionalProperties": true}}]}
            ],
            "input": [
                {"type": "reasoning"},
                {"type": "tool_search_output",
                 "tools": [{"type": "custom", "parameters": {"type": "object"}}]}
            ]
        }"#,
    )
}

#[test]
fn every_step_does_its_part() {
    let mut body = dirty();
    assert!(sanitize_xai_responses_request(&mut body));
    assert_eq!(body, clean());
}

#[test]
fn second_pass_changes_nothing() {
    let mut body = clean();
    assert!(!sanitize_xai_responses_request(&mut body));
    assert_eq!(body, clean());
}

#[test]
fn same_request_gives_same_text() {
    let mut first = dirty();
    let mut second = dirty();
    sanitize_xai_responses_request(&mut first);
    sanitize_xai_responses_request(&mut second);
    assert_eq!(first.to_string(), second.to_string());
}

#[test]
fn change_is_reported_if_and_only_if_there_is_one() {
    for text in [
        r#"{"tools": []}"#,
        r#"{"tools": [], "tool_choice": null}"#,
        r#"{"input": [{"type": "additional_tools"}]}"#,
        r#"{"input": []}"#,
        r#"{"external_web_access": 1}"#,
        r#"{"model": "grok-4.5", "stop": null}"#,
        r#"{"model": "grok-4", "stop": null}"#,
        r#"{"tools": [{"type": "function", "parameters": {"type": "object"}}]}"#,
        r#"{"tools": [{"type": "function", "parameters": {"type": "null"}}]}"#,
    ] {
        let before = json(text);
        let mut body = before.clone();
        let changed = sanitize_xai_responses_request(&mut body);
        assert_eq!(changed, body != before, "{text}");
    }
}

#[test]
fn what_is_no_object_stays() {
    for text in ["null", "true", "1", r#""external_web_access""#, r#"[{"external_web_access": 1}]"#] {
        let mut body = json(text);
        assert!(!sanitize_xai_responses_request(&mut body));
        assert_eq!(body, json(text));
    }
}

#[test]
fn text_choices_stay_without_tools() {
    let mut body = json(r#"{"tools": [{"type": "custom"}], "tool_choice": "auto"}"#);
    assert!(sanitize_xai_responses_request(&mut body));
    assert_eq!(body, json(r#"{"tool_choice": "auto"}"#));
    assert!(!sanitize_xai_responses_request(&mut body));
}

#[test]
fn sampling_fields_stay_for_other_models() {
    let text = r#"{
        "model": "grok-4",
        "presence_penalty": 1,
        "presencePenalty": 1,
        "frequency_penalty": 1,
        "frequencyPenalty": 1,
        "stop": "x"
    }"#;
    let mut body = json(text);
    assert!(!sanitize_xai_responses_request(&mut body));
    assert_eq!(body, json(text));
}
