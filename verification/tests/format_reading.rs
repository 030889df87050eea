//! Reading providers' messages, the guard against leaks, and the errors of formatting.

use ghostwriter::format::error::{FormatError, ToolCallRecovery, ToolSignal};
use ghostwriter::format::ingest::{ingest_openrouter, strip_channel_tokens};
use ghostwriter::format::validate::{control_tokens, first_control_token, validate_clean};
use ghostwriter::json::{parse_json, Json};
use ghostwriter::schema::message::{
    Content, ContentPart, Message, ReasoningDetail, Role, TrlFormat,
};

fn json(text: &str) -> Json {
    parse_json(text).expect("the text is JSON")
}

fn read(text: &str) -> Result<Message, FormatError> {
    ingest_openrouter(&json(text))
}

fn msg(role: Role, content: &str, reasoning: Option<&str>) -> Message {
    Message {
        role,
        content: Content::Text(content.into()),
        reasoning: reasoning.map(str::to_owned),
        reasoning_details: None,
        tool_calls: None,
        tool_call_id: None,
        name: None,
    }
}

#[test]
fn strips_think_block() {
    let (clean, r) = strip_channel_tokens("<think>step</think>42");
    assert_eq!(clean, "42");
    assert_eq!(r.as_deref(), Some("step"));
}

#[test]
fn strips_gemma_thought_channel() {
    let (clean, r) = strip_channel_tokens("<|channel>thought\nstep\n<channel|>42");
    assert_eq!(clean, "42");
    assert_eq!(r.as_deref(), Some("step"));
}

#[test]
fn strips_harmony_analysis() {
    let s = "<|start|>assistant<|channel|>analysis<|message|>step<|end|>\
             <|start|>assistant<|channel|>final<|message|>42<|return|>";
    let (clean, r) = strip_channel_tokens(s);
    assert_eq!(clean, "42");
    assert_eq!(r.as_deref(), Some("step"));
}

#[test]
fn clean_content_unchanged() {
    let (clean, r) = strip_channel_tokens("42");
    assert_eq!(clean, "42");
    assert!(r.is_none());
}

#[test]
fn markup_that_is_not_closed_or_not_first_stays() {
    for text in ["<think>open", "42<think>x</think>", "<|channel>thought\nx", "<think"] {
        let (clean, r) = strip_channel_tokens(text);
        assert_eq!(clean, text);
        assert!(r.is_none());
    }
    let unclosed = "<|start|>assistant<|channel|>analysis<|message|>a<|end|>\
                    <|start|>assistant<|channel|>final<|message|>b";
    assert_eq!(strip_channel_tokens(unclosed), ("b".into(), Some("a".into())));
    let answerless = "<|start|>assistant<|channel|>analysis<|message|>a<|end|>b";
    assert_eq!(strip_channel_tokens(answerless), (answerless.into(), None));
}

#[test]
fn ingest_full_response() {
    let m = read(
        r#"{"choices": [{"message": {
            "role": "assistant",
            "content": "The answer is 42.",
            "reasoning": "Let me work through this.",
            "reasoning_details": [
                {"type": "reasoning.text", "text": "Let me work through this.", "index": 0}
            ]}}]}"#,
    )
    .unwrap();
    assert_eq!(m.role, Role::Assistant);
    assert_eq!(m.content, Content::Text("The answer is 42.".into()));
    assert_eq!(m.reasoning.as_deref(), Some("Let me work through this."));
    assert!(m.reasoning_details.is_some());
}

#[test]
fn ingest_bare_message_and_strips_inline_cot() {
    let m = read(r#"{"role": "assistant", "content": "<think>3*4</think>12"}"#).unwrap();
    assert_eq!(m.content, Content::Text("12".into()));
    assert_eq!(m.reasoning.as_deref(), Some("3*4"));
}

#[test]
fn ingest_reasoning_content_alias() {
    let m = read(r#"{"role": "assistant", "content": "ok", "reasoning_content": "think"}"#).unwrap();
    assert_eq!(m.reasoning.as_deref(), Some("think"));
}

#[test]
fn ingest_missing_message_errors() {
    assert!(matches!(read(r#"{"choices": []}"#), Err(FormatError::Ingest(_))));
}

#[test]
fn ingest_errors_when_clean_content_retains_control_token() {
    let err = read(
        r#"{"role": "assistant", "content": "<think>a</think>answer <|im_end|> trailing"}"#,
    )
    .unwrap_err();
    assert!(matches!(err, FormatError::Ingest(_)));
    assert!(err.message().contains("<|im_end|>"));
}

#[test]
fn chatml_reasoning_trailing_newline_is_preserved() {
    let (clean, r) = strip_channel_tokens("<think>step\n</think>42");
    assert_eq!(clean, "42");
    assert_eq!(r.as_deref(), Some("step\n"));
}

#[test]
fn gemma_reasoning_trailing_newline_is_trimmed_once() {
    let (clean, r) = strip_channel_tokens("<|channel>thought\nstep\n<channel|>42");
    assert_eq!(clean, "42");
    assert_eq!(r.as_deref(), Some("step"));
}

#[test]
fn emitted_empty_channel_round_trips_to_some_empty() {
    let (clean, r) = strip_channel_tokens("<|channel>thought\n<channel|>96");
    assert_eq!(clean, "96");
    assert_eq!(r.as_deref(), Some(""));

    let m = read(r#"{"role": "assistant", "content": "<|channel>thought\n<channel|>96"}"#).unwrap();
    assert_eq!(m.reasoning.as_deref(), Some(""));
}

#[test]
fn empty_provider_reasoning_collapses_to_none() {
    let m = read(r#"{"role": "assistant", "content": "ok", "reasoning": ""}"#).unwrap();
    assert!(m.reasoning.is_none());
}

fn with_calls(calls: &str) -> String {
    format!(r#"{{"role": "assistant", "content": null, "tool_calls": {calls}}}"#)
}

#[test]
fn tool_calls_are_populated_with_ids_names_and_object_arguments() {
    let m = read(&with_calls(
        r#"[
        {"id": "read-a", "type": "function", "function": {
            "name": "read_file", "arguments": {"filepath": "toy.py", "start_line": 1}}},
        {"id": "read-b", "type": "function", "function": {
            "name": "read_file", "arguments": {}}}
        ]"#,
    ))
    .unwrap();
    let calls = m.tool_calls.expect("tool_calls populated at ingest");
    assert_eq!(calls.len(), 2);
    assert_eq!(calls[0].id.as_deref(), Some("read-a"));
    assert_eq!(calls[0].function.name, "read_file");
    assert_eq!(
        calls[0].function.arguments.get("start_line").and_then(|n| n.as_unsigned()),
        Some(1)
    );
    assert_eq!(calls[0].function.raw_arguments, None);
    assert_eq!(calls[1].function.arguments, json("{}"));
}

#[test]
fn string_encoded_arguments_normalize_once_and_keep_the_raw_wire_text() {
    let raw = "{\"filepath\": \"toy.py\", \"start_line\": 20}";
    let m = read(&with_calls(
        r#"[{"id": "read-b", "type": "function", "function": {"name": "read_file",
            "arguments": "{\"filepath\": \"toy.py\", \"start_line\": 20}"}}]"#,
    ))
    .unwrap();
    let call = &m.tool_calls.expect("calls")[0];
    assert_eq!(
        call.function.arguments,
        json(r#"{"filepath": "toy.py", "start_line": 20}"#)
    );
    assert_eq!(call.function.raw_arguments.as_deref(), Some(raw));
}

#[test]
fn null_content_is_preserved_and_not_coerced_to_empty_text() {
    let m = read(&with_calls("[]")).unwrap();
    assert_eq!(m.content, Content::Null);
    assert_ne!(m.content, Content::Text(String::new()));
    assert_eq!(m.tool_calls, None);

    let empty = read(r#"{"role": "assistant", "content": ""}"#).unwrap();
    assert_eq!(empty.content, Content::Text(String::new()));
}

#[test]
fn absent_content_ingests_as_null() {
    let m = read(r#"{"role": "assistant", "reasoning": "think"}"#).unwrap();
    assert_eq!(m.content, Content::Null);
    assert_eq!(m.reasoning.as_deref(), Some("think"));
}

#[test]
fn tool_result_keeps_its_explicit_link_and_role() {
    let m = read(
        r#"{"role": "tool", "tool_call_id": "read-b", "name": "read_file",
            "content": "{\"status\": \"error\"}"}"#,
    )
    .unwrap();
    assert_eq!(m.role, Role::Tool, "a result turn must not be labelled assistant");
    assert_eq!(m.tool_call_id.as_deref(), Some("read-b"));
    assert_eq!(m.name.as_deref(), Some("read_file"));
}

#[test]
fn role_defaults_to_assistant_when_absent_or_unknown() {
    assert_eq!(read(r#"{"content": "hi"}"#).unwrap().role, Role::Assistant);
    assert_eq!(read(r#"{"content": "hi", "role": "wizard"}"#).unwrap().role, Role::Assistant);
}

#[test]
fn malformed_and_non_object_arguments_are_rejected() {
    for bad in [
        r#"{"id": "x", "function": {"name": "f", "arguments": "{not json"}}"#,
        r#"{"id": "x", "function": {"name": "f", "arguments": "[1, 2]"}}"#,
        r#"{"id": "x", "function": {"name": "f", "arguments": 7}}"#,
        r#"{"id": "x", "function": {"name": "f", "arguments": true}}"#,
    ] {
        let err = read(&with_calls(&format!("[{bad}]"))).unwrap_err();
        assert!(
            matches!(err, FormatError::Ingest(_)),
            "malformed arguments must be rejected, got {err:?}"
        );
    }
}

#[test]
fn malformed_tool_call_shapes_are_rejected() {
    for bad in [
        r#"{"id": "x", "function": "read_file"}"#,
        r#"{"id": 7, "function": {"name": "f", "arguments": {}}}"#,
        r#"{"id": "x", "function": {"arguments": {}}}"#,
        r#""not-an-object""#,
    ] {
        assert!(
            read(&with_calls(&format!("[{bad}]"))).is_err(),
            "malformed call must be rejected"
        );
    }
    assert!(read(&with_calls(r#"{"id": "x"}"#)).is_err());
}

#[test]
fn rejected_calls_are_named_by_their_place() {
    let good = r#"{"id": "x", "function": {"name": "f", "arguments": {}}}"#;
    let bad = r#"{"id": "y", "function": {"name": "f", "arguments": [1]}}"#;
    let err = read(&with_calls(&format!("[{good}, {bad}]"))).unwrap_err();
    assert!(err.message().contains("tool_calls[1]: "), "{}", err.message());
}

#[test]
fn non_string_non_null_content_is_rejected_not_coerced() {
    for bad in ["7", "true", r#"{"text": "hi"}"#] {
        let err = read(&format!(r#"{{"role": "assistant", "content": {bad}}}"#)).unwrap_err();
        assert!(matches!(err, FormatError::Ingest(_)), "got {err:?}");
    }
}

#[test]
fn content_parts_array_ingests_as_parts() {
    let m = read(
        r#"{"role": "user",
            "content": [{"type": "text", "text": "look"}, {"type": "image_url", "image_url": "u"}]}"#,
    )
    .unwrap();
    let Content::Parts(parts) = m.content else {
        panic!("expected parts");
    };
    assert_eq!(parts.len(), 2);
    assert_eq!(parts[0], ContentPart::Text { text: "look".into() });
    assert!(read(r#"{"role": "user", "content": [{"type": "nope"}]}"#).is_err());
}

#[test]
fn absent_arguments_become_the_empty_object() {
    let m = read(&with_calls(r#"[{"id": "x", "function": {"name": "now"}}]"#)).unwrap();
    assert_eq!(m.tool_calls.expect("calls")[0].function.arguments, json("{}"));
}

#[test]
fn reasoning_blocks_are_kept_in_order_and_strangers_left_out() {
    let m = read(
        r#"{"content": "x", "reasoning_details": [
            {"type": "reasoning.summary", "summary": "s", "index": 0},
            {"type": "reasoning.novel", "text": "?", "index": 1},
            {"type": "reasoning.text", "text": "no index"},
            {"type": "reasoning.encrypted", "data": "d", "id": "i", "index": 2}]}"#,
    )
    .unwrap();
    assert_eq!(
        m.reasoning_details.unwrap(),
        vec![
            ReasoningDetail::Summary { summary: "s".into(), id: None, format: None, index: 0 },
            ReasoningDetail::Encrypted {
                data: "d".into(),
                id: Some("i".into()),
                format: None,
                index: 2
            },
        ]
    );
}

#[test]
fn clean_messages_pass() {
    let m = vec![
        msg(Role::User, "What is 2+2?", None),
        msg(Role::Assistant, "4", Some("2+2=4")),
    ];
    assert!(validate_clean(&m).is_ok());
}

#[test]
fn control_token_in_reasoning_fails_for_every_delimiter() {
    for tok in control_tokens() {
        let m = vec![msg(Role::Assistant, "ans", Some(&format!("x{tok}y")))];
        match validate_clean(&m).unwrap_err() {
            FormatError::ControlTokenInContent { role, .. } => assert_eq!(role, Role::Assistant),
            other => panic!("expected ControlTokenInContent for {tok}, got {other:?}"),
        }
    }
}

#[test]
fn control_token_in_content_fails() {
    let m = vec![msg(Role::User, "hi <|im_end|> there", None)];
    assert!(matches!(
        validate_clean(&m),
        Err(FormatError::ControlTokenInContent { token: "<|im_end|>", role: Role::User })
    ));
}

#[test]
fn the_first_token_of_the_list_is_named() {
    assert_eq!(first_control_token("<bos> and <think>"), Some("<think>"));
    assert_eq!(first_control_token("< think >"), None);
    assert_eq!(control_tokens().len(), 15);
}

#[test]
fn unsupported_role_names_role_and_target() {
    let e = FormatError::UnsupportedRole { role: Role::Developer, target: "sharegpt" };
    assert!(e.message().contains("Developer"));
    assert!(e.message().contains("sharegpt"));
}

#[test]
fn serde_error_converts() {
    let bad = serde_json::from_str::<i32>("not json").unwrap_err();
    let words = bad.to_string();
    let e: FormatError = bad.into();
    assert!(matches!(e, FormatError::Serde(_)));
    assert!(e.message().contains(&words));
}

#[test]
fn control_token_names_token_and_role() {
    let e = FormatError::ControlTokenInContent { token: "<think>", role: Role::Assistant };
    assert!(e.message().contains("<think>"));
    assert!(e.message().contains("Assistant"));
}

#[test]
fn ingest_and_projection_render_message() {
    assert!(FormatError::Ingest("no message".into()).message().contains("no message"));
    assert!(
        FormatError::Projection("prompt_hash mismatch".into()).message().contains("mismatch")
    );
}

#[test]
fn tool_identity_renders_message() {
    let e = FormatError::ToolIdentity("messages[2] is a dangling result link".into());
    assert!(e.message().contains("tool identity error"));
    assert!(e.message().contains("messages[2]"));
}

#[test]
fn unsupported_tool_calls_exposes_structured_fields_and_a_human_message() {
    let e = FormatError::UnsupportedToolCalls {
        target: TrlFormat::Gemma4,
        signals: vec![ToolSignal::ToolCalls, ToolSignal::ToolRole],
        index: 2,
        recovery: ToolCallRecovery::CanonicalExportAndOfficialTemplate,
    };
    match &e {
        FormatError::UnsupportedToolCalls { target, signals, index, recovery } => {
            assert_eq!(*target, TrlFormat::Gemma4);
            assert_eq!(signals, &vec![ToolSignal::ToolCalls, ToolSignal::ToolRole]);
            assert_eq!(*index, 2);
            assert_eq!(*recovery, ToolCallRecovery::CanonicalExportAndOfficialTemplate);
        }
        other => panic!("expected UnsupportedToolCalls, got {other:?}"),
    }
    let msg = e.message();
    assert!(msg.contains("Gemma4"), "{msg}");
    assert!(msg.contains("messages[2]"), "{msg}");
    assert!(msg.contains("ToolCalls"), "{msg}");
    assert!(msg.contains("messages_json"), "{msg}");
}

#[test]
fn a_bare_message_needs_no_content() {
    let m = read(
        r#"{"role":"assistant","tool_calls":[{"id":"x","function":{"name":"now","arguments":{}}}]}"#,
    )
    .unwrap();
    assert_eq!(m.role, Role::Assistant);
    assert_eq!(m.content, Content::Null);
    assert_eq!(m.reasoning, None);
    let calls = m.tool_calls.unwrap();
    assert_eq!(calls.len(), 1);
    assert_eq!(calls[0].id.as_deref(), Some("x"));

    let m = read(r#"{"reasoning_content":"think"}"#).unwrap();
    assert_eq!(m.content, Content::Null);
    assert_eq!(m.reasoning.as_deref(), Some("think"));

    let m = read(r#"{"role":"tool","tool_call_id":"x"}"#).unwrap();
    assert_eq!(m.role, Role::Tool);
    assert_eq!(m.content, Content::Null);
}

#[test]
fn what_tells_nothing_of_a_message_is_none() {
    for text in [
        "{}",
        r#"{"error":{"code":500}}"#,
        "[]",
        "7",
        r#"{"choices":null,"role":"assistant"}"#,
        r#"{"choices":[{}]}"#,
    ] {
        assert!(matches!(read(text), Err(FormatError::Ingest(_))), "{text}");
    }
}
