//! Tool trajectories: the links between calls and results, and the targets that cannot keep them.

use ghostwriter::format::error::{FormatError, ToolCallRecovery, ToolSignal};
use ghostwriter::format::ingest::ingest_openrouter;
use ghostwriter::format::render::render;
use ghostwriter::format::tool_links::validate_tool_links;
use ghostwriter::json::{parse_json, Json};
use ghostwriter::schema::message::{
    Content, ContentPart, CotPolicy, FunctionCall, Message, ReasoningDetail, Role, ToolCall,
    TrlFormat,
};
use serde_json::Value;

fn json(text: &str) -> Json {
    parse_json(text).expect("the text is JSON")
}

fn value(text: &str) -> Value {
    serde_json::from_str(text).expect("the text is JSON")
}

fn call(id: Option<&str>, name: &str, args: &str) -> ToolCall {
    ToolCall {
        id: id.map(str::to_owned),
        function: FunctionCall {
            name: name.into(),
            arguments: json(&format!(r#"{{"path": "{args}"}}"#)),
            raw_arguments: None,
        },
    }
}

fn assistant_calls(calls: Vec<ToolCall>) -> Message {
    Message {
        role: Role::Assistant,
        content: Content::Null,
        reasoning: None,
        reasoning_details: None,
        tool_calls: Some(calls),
        tool_call_id: None,
        name: None,
    }
}

fn result(id: Option<&str>, name: &str) -> Message {
    Message {
        role: Role::Tool,
        content: Content::Text("ok".into()),
        reasoning: None,
        reasoning_details: None,
        tool_calls: None,
        tool_call_id: id.map(str::to_owned),
        name: Some(name.into()),
    }
}

fn text_turn(role: Role, text: &str, reasoning: Option<&str>) -> Message {
    Message {
        role,
        content: Content::Text(text.into()),
        reasoning: reasoning.map(str::to_owned),
        reasoning_details: None,
        tool_calls: None,
        tool_call_id: None,
        name: None,
    }
}

fn refused(msgs: &[Message], words: &str) {
    let err = validate_tool_links(msgs).unwrap_err();
    assert!(err.message().contains(words), "{}", err.message());
}

#[test]
fn text_only_conversation_is_never_rejected() {
    let turns = vec![
        text_turn(Role::User, "hi", None),
        text_turn(Role::Assistant, "42", Some("6*7")),
    ];
    assert!(validate_tool_links(&turns).is_ok());
    assert!(validate_tool_links(&[]).is_ok());
}

#[test]
fn two_same_name_calls_with_explicit_links_resolve() {
    let msgs = vec![
        assistant_calls(vec![
            call(Some("a"), "read_file", "toy.py"),
            call(Some("b"), "read_file", "toy.py"),
        ]),
        result(Some("b"), "read_file"),
        result(Some("a"), "read_file"),
    ];
    assert!(validate_tool_links(&msgs).is_ok());
}

#[test]
fn a_single_declared_call_left_unanswered_is_allowed() {
    let msgs = vec![assistant_calls(vec![call(Some("a"), "read_file", "toy.py")])];
    assert!(validate_tool_links(&msgs).is_ok());
}

#[test]
fn dangling_result_id_is_rejected() {
    refused(
        &[
            assistant_calls(vec![call(Some("a"), "read_file", "toy.py")]),
            result(Some("nope"), "read_file"),
        ],
        "nope",
    );
}

#[test]
fn duplicate_call_ids_are_rejected() {
    refused(
        &[
            assistant_calls(vec![
                call(Some("a"), "read_file", "x"),
                call(Some("a"), "read_file", "y"),
            ]),
            result(Some("a"), "read_file"),
        ],
        "duplicate tool call id",
    );
}

#[test]
fn ambiguous_missing_id_across_repeated_names_is_rejected() {
    refused(
        &[
            assistant_calls(vec![
                call(Some("a"), "read_file", "x"),
                call(Some("b"), "read_file", "y"),
            ]),
            result(None, "read_file"),
        ],
        "refusing to guess",
    );
}

#[test]
fn missing_id_with_a_unique_named_call_is_accepted() {
    let msgs = vec![
        assistant_calls(vec![call(Some("a"), "read_file", "x")]),
        result(None, "read_file"),
    ];
    assert!(validate_tool_links(&msgs).is_ok());
}

#[test]
fn missing_id_whose_only_call_has_no_id_is_rejected() {
    refused(
        &[
            assistant_calls(vec![call(None, "read_file", "x")]),
            result(None, "read_file"),
        ],
        "declares no id",
    );
}

#[test]
fn result_with_no_matching_name_is_rejected() {
    refused(
        &[
            assistant_calls(vec![call(Some("a"), "read_file", "x")]),
            result(None, "write_file"),
        ],
        "cannot be linked",
    );
}

#[test]
fn result_before_its_call_is_rejected_as_partial() {
    refused(
        &[
            result(Some("a"), "read_file"),
            assistant_calls(vec![call(Some("a"), "read_file", "x")]),
        ],
        "partial",
    );
}

#[test]
fn two_results_for_one_call_are_rejected() {
    refused(
        &[
            assistant_calls(vec![call(Some("a"), "read_file", "x")]),
            result(Some("a"), "read_file"),
            result(Some("a"), "read_file"),
        ],
        "second result",
    );
}

/// Two calls of one tool with distinct arguments, one of them encoded as text, a turn without
/// content, escapes, and the results in reversed order.
const SYSTEM: &str =
    r#"{"role": "system", "content": "Inspect a toy module and preserve tool-result identity."}"#;
const USER: &str = r#"{"role": "user",
    "content": "Read two regions; quoted text: \"\u03bb\"; newline follows\nend."}"#;
const CALLS: &str = r#"{"role": "assistant", "content": null,
    "reasoning": "Two regions; the ids distinguish them.",
    "tool_calls": [
        {"id": "read-a", "type": "function", "function": {"name": "read_file",
            "arguments": {"filepath": "toy.py", "start_line": 1, "end_line": 3}}},
        {"id": "read-b", "type": "function", "function": {"name": "read_file",
            "arguments": "{\"filepath\": \"toy.py\", \"start_line\": 20, \"end_line\": 22}"}}
    ]}"#;
const RESULT_B: &str = r#"{"role": "tool", "tool_call_id": "read-b", "name": "read_file",
    "content": "{\"status\": \"error\", \"message\": \"no such lines\"}"}"#;
const RESULT_A: &str = r#"{"role": "tool", "tool_call_id": "read-a", "name": "read_file",
    "content": "{\"status\": \"ok\", \"text\": \"x = \\\"λ\\\"\\n\"}"}"#;
const CLOSING: &str = r#"{"role": "assistant",
    "content": "The second read failed; no repair or verification is claimed."}"#;

fn wire_conversation() -> Vec<String> {
    [SYSTEM, USER, CALLS, RESULT_B, RESULT_A, CLOSING]
        .iter()
        .map(|s| s.to_string())
        .collect()
}

fn ingest_all(wire: &[String]) -> Result<Vec<Message>, FormatError> {
    let mut out = Vec::new();
    for text in wire {
        out.push(ingest_openrouter(&json(text))?);
    }
    Ok(out)
}

fn tool_trajectory() -> Vec<Message> {
    ingest_all(&wire_conversation()).expect("the conversation is read")
}

#[test]
fn fixture_ingests_into_the_expected_canonical_conversation() {
    let msgs = tool_trajectory();
    assert_eq!(msgs.len(), 6);

    assert_eq!(msgs[0].role, Role::System);
    assert_eq!(
        msgs[0].content,
        Content::Text("Inspect a toy module and preserve tool-result identity.".into())
    );
    assert_eq!(
        msgs[1].content,
        Content::Text("Read two regions; quoted text: \"λ\"; newline follows\nend.".into())
    );

    let calls_turn = &msgs[2];
    assert_eq!(calls_turn.role, Role::Assistant);
    assert_eq!(calls_turn.content, Content::Null, "null content must not become \"\"");
    assert_eq!(
        calls_turn.reasoning.as_deref(),
        Some("Two regions; the ids distinguish them.")
    );
    let calls = calls_turn.tool_calls.as_ref().expect("tool_calls populated at ingest");
    assert_eq!(calls.len(), 2);
    assert_eq!(calls[0].id.as_deref(), Some("read-a"));
    assert_eq!(calls[1].id.as_deref(), Some("read-b"));
    assert_eq!(calls[0].function.name, "read_file");
    assert_eq!(calls[1].function.name, "read_file");
    let start = |c: &ToolCall| {
        c.function.arguments.get("start_line").and_then(|n| n.as_unsigned())
    };
    assert_eq!(start(&calls[0]), Some(1));
    assert_eq!(start(&calls[1]), Some(20));
    assert_eq!(calls[0].function.raw_arguments, None);
    assert_eq!(
        calls[1].function.raw_arguments.as_deref(),
        Some("{\"filepath\": \"toy.py\", \"start_line\": 20, \"end_line\": 22}")
    );

    assert_eq!(msgs[3].role, Role::Tool);
    assert_eq!(msgs[3].tool_call_id.as_deref(), Some("read-b"));
    assert_eq!(msgs[3].name.as_deref(), Some("read_file"));
    assert_eq!(msgs[4].role, Role::Tool);
    assert_eq!(msgs[4].tool_call_id.as_deref(), Some("read-a"));
    assert_eq!(msgs[4].name.as_deref(), Some("read_file"));
    assert_ne!(msgs[3], msgs[4], "reversed results must stay distinguishable");

    assert_eq!(
        msgs[5].content,
        Content::Text("The second read failed; no repair or verification is claimed.".into())
    );
    assert!(
        matches!(&msgs[4].content, Content::Text(t) if t.contains("λ")),
        "the escaped payload inside the read-a result survives ingest"
    );
}

#[test]
fn swapping_the_two_links_produces_a_different_conversation() {
    let msgs = tool_trajectory();
    let mut swapped = tool_trajectory();
    let (a, b) = (swapped[3].tool_call_id.take(), swapped[4].tool_call_id.take());
    swapped[3].tool_call_id = b;
    swapped[4].tool_call_id = a;
    assert_ne!(swapped, msgs);
}

#[test]
fn the_whole_trajectory_passes_identity_admission() {
    assert!(validate_tool_links(&tool_trajectory()).is_ok());
}

#[test]
fn openai_messages_render_emits_the_result_link_for_each_tool_turn() {
    let out =
        render(&tool_trajectory(), TrlFormat::OpenAiMessages, CotPolicy::Supervised).unwrap();
    let v = value(&out);
    let msgs = v["messages"].as_array().unwrap();

    let assistant = &msgs[2];
    assert_eq!(assistant["role"], "assistant");
    assert_eq!(assistant["content"], "");
    assert_eq!(assistant["tool_calls"][0]["id"], "read-a");
    assert_eq!(assistant["tool_calls"][1]["id"], "read-b");
    assert_eq!(assistant["tool_calls"][1]["function"]["arguments"]["start_line"], 20);
    assert_eq!(
        assistant["tool_calls"][1]["function"]["raw_arguments"],
        "{\"filepath\": \"toy.py\", \"start_line\": 20, \"end_line\": 22}"
    );

    assert_eq!(msgs[3]["role"], "tool");
    assert_eq!(msgs[3]["tool_call_id"], "read-b");
    assert_eq!(msgs[3]["name"], "read_file");
    assert_eq!(msgs[4]["tool_call_id"], "read-a");

    assert!(msgs[1].get("tool_call_id").is_none());
    assert!(msgs[0].get("tool_call_id").is_none());
}

#[test]
fn reasoning_kinds_stay_distinct_on_a_null_content_tool_turn() {
    let calls = r#""tool_calls": [{"id": "c", "type": "function",
        "function": {"name": "f", "arguments": {}}}]"#;
    let absent = format!(r#"{{"role": "assistant", "content": null, {calls}}}"#);
    let exposed = format!(
        r#"{{"role": "assistant", "content": null, {calls},
        "reasoning": "exposed plaintext chain of thought",
        "reasoning_details": [{{"type": "reasoning.text",
            "text": "exposed plaintext chain of thought", "index": 0}}]}}"#
    );
    let summary = format!(
        r#"{{"role": "assistant", "content": null, {calls},
        "reasoning_details": [{{"type": "reasoning.summary",
            "summary": "a summary", "index": 0}}]}}"#
    );
    let read = |text: &str| ingest_openrouter(&json(text)).expect("variant ingests");
    for text in [&absent, &exposed, &summary] {
        let m = read(text);
        assert_eq!(m.content, Content::Null, "tool turn keeps null content");
        assert_eq!(m.tool_call_id, None, "an assistant turn declares no result link");
    }

    let absent = read(&absent);
    assert_eq!(absent.reasoning, None);
    assert_eq!(absent.reasoning_details, None);

    let exposed = read(&exposed);
    assert_eq!(exposed.reasoning.as_deref(), Some("exposed plaintext chain of thought"));
    assert!(matches!(
        exposed.reasoning_details.as_ref().unwrap()[0],
        ReasoningDetail::Text { .. }
    ));

    let summary = read(&summary);
    assert_eq!(summary.reasoning, None, "no plaintext CoT was exposed");
    assert!(matches!(
        summary.reasoning_details.as_ref().unwrap()[0],
        ReasoningDetail::Summary { .. }
    ));
}

#[test]
fn a_result_linking_an_undeclared_call_is_rejected() {
    let mut wire = wire_conversation();
    wire[3] = wire[3].replace("\"read-b\"", "\"read-z\"");
    let msgs = ingest_all(&wire).expect("the wire is well formed");
    let err = validate_tool_links(&msgs).unwrap_err();
    assert!(matches!(err, FormatError::ToolIdentity(_)), "{err:?}");
    assert!(err.message().contains("read-z"));
}

#[test]
fn two_declared_calls_sharing_one_id_are_rejected() {
    let mut wire = wire_conversation();
    wire[2] = wire[2].replace("\"read-b\"", "\"read-a\"");
    refused(&ingest_all(&wire).expect("ingest is fine"), "duplicate tool call id");
}

#[test]
fn a_result_with_no_link_among_repeated_names_is_rejected_rather_than_guessed() {
    let mut wire = wire_conversation();
    wire[3] = wire[3].replace("\"read-b\"", "null");
    refused(&ingest_all(&wire).expect("ingest is fine"), "refusing to guess");
}

#[test]
fn a_result_whose_only_call_declares_no_id_is_rejected() {
    let wire = vec![
        r#"{"role": "assistant", "content": null, "tool_calls": [{"id": null, "type": "function",
            "function": {"name": "read_file", "arguments": {}}}]}"#
            .to_string(),
        r#"{"role": "tool", "name": "read_file", "content": "ok"}"#.to_string(),
    ];
    refused(&ingest_all(&wire).unwrap(), "declares no id");
}

#[test]
fn a_result_arriving_before_its_call_is_rejected_as_partial() {
    let mut wire = wire_conversation();
    let moved = wire.remove(3);
    wire.insert(2, moved);
    refused(&ingest_all(&wire).expect("ingest is fine"), "partial");
}

#[test]
fn two_results_answering_one_call_are_rejected() {
    let mut wire = wire_conversation();
    let dup = wire[3].clone();
    wire.insert(4, dup);
    refused(&ingest_all(&wire).expect("ingest is fine"), "second result");
}

#[test]
fn malformed_tool_arguments_are_rejected_at_ingest() {
    for bad in ["{not json", "[1, 2]", "7", "null"] {
        let wire = format!(
            r#"{{"role": "assistant", "content": null, "tool_calls": [{{"id": "x",
            "type": "function", "function": {{"name": "read_file", "arguments": "{bad}"}}}}]}}"#
        );
        let err = ingest_openrouter(&json(&wire)).unwrap_err();
        assert!(matches!(err, FormatError::Ingest(_)), "{bad}: {err:?}");
    }
    let wire = r#"{"role": "assistant", "content": null, "tool_calls": [{"id": "x",
        "type": "function", "function": {"name": "read_file", "arguments": 7}}]}"#;
    assert!(ingest_openrouter(&json(wire)).is_err());
}

#[test]
fn a_non_string_result_link_is_rejected_rather_than_dropped() {
    let wire = RESULT_B.replace("\"read-b\"", "7");
    let err = ingest_openrouter(&json(&wire)).unwrap_err();
    assert!(err.message().contains("tool_call_id"));
}

#[test]
fn a_text_only_conversation_is_unchanged_and_still_ingests_and_renders() {
    let msgs = ingest_all(&[
        r#"{"role": "user", "content": "What is 12 * 8?"}"#.to_string(),
        r#"{"role": "assistant", "content": "<think>10*8+2*8</think>96"}"#.to_string(),
    ])
    .unwrap();
    assert_eq!(msgs[1].content, Content::Text("96".into()));
    assert_eq!(msgs[1].reasoning.as_deref(), Some("10*8+2*8"));
    assert!(msgs.iter().all(|m| m.tool_calls.is_none()));
    assert!(msgs.iter().all(|m| m.tool_call_id.is_none()));
    assert!(validate_tool_links(&msgs).is_ok());
    let out = render(&msgs, TrlFormat::OpenAiMessages, CotPolicy::Supervised).unwrap();
    for m in value(&out)["messages"].as_array().unwrap() {
        assert!(m.get("tool_call_id").is_none());
    }
}

const DROPPING: [TrlFormat; 4] =
    [TrlFormat::Gemma4, TrlFormat::ChatML, TrlFormat::ShareGpt, TrlFormat::Harmony];

const PRESERVING: [TrlFormat; 2] = [TrlFormat::OpenAiMessages, TrlFormat::TrlPromptCompletion];

const ALL: [TrlFormat; 6] = [
    TrlFormat::Gemma4,
    TrlFormat::ChatML,
    TrlFormat::ShareGpt,
    TrlFormat::OpenAiMessages,
    TrlFormat::Harmony,
    TrlFormat::TrlPromptCompletion,
];

fn text_only() -> Vec<Message> {
    vec![
        text_turn(Role::User, "What is 12 * 8?", None),
        text_turn(Role::Assistant, "96", Some("10*8=80, 2*8=16, 80+16=96")),
    ]
}

#[test]
fn every_dropping_target_refuses_the_tool_trajectory_with_a_precise_diagnostic() {
    for target in DROPPING {
        let err = render(&tool_trajectory(), target, CotPolicy::Supervised)
            .expect_err("a target with no tool representation must not render a tool trajectory");
        match err {
            FormatError::UnsupportedToolCalls { target: refused, signals, index, recovery } => {
                assert_eq!(refused, target);
                assert_eq!(index, 2, "{target:?} named the wrong message");
                assert_eq!(
                    signals,
                    vec![ToolSignal::ToolCalls, ToolSignal::ToolCallId, ToolSignal::ToolRole],
                    "{target:?}"
                );
                assert_eq!(recovery, ToolCallRecovery::CanonicalExportAndOfficialTemplate);
            }
            other => panic!("{target:?} returned the wrong error class: {other:?}"),
        }
    }
}

#[test]
fn the_refusal_does_not_depend_on_the_cot_policy() {
    for cot in [CotPolicy::Supervised, CotPolicy::Masked, CotPolicy::Stripped] {
        let err = render(&tool_trajectory(), TrlFormat::Gemma4, cot).unwrap_err();
        assert!(
            matches!(
                err,
                FormatError::UnsupportedToolCalls { target: TrlFormat::Gemma4, .. }
            ),
            "{cot:?}: {err:?}"
        );
    }
}

#[test]
fn a_bare_tool_result_turn_is_refused_even_with_no_calls_and_no_link() {
    let msgs = vec![
        text_turn(Role::User, "read it", None),
        text_turn(Role::Tool, "ok", None),
        text_turn(Role::Assistant, "done", None),
    ];
    for target in DROPPING {
        match render(&msgs, target, CotPolicy::Supervised).unwrap_err() {
            FormatError::UnsupportedToolCalls { target: refused, signals, index, .. } => {
                assert_eq!(refused, target);
                assert_eq!(index, 1);
                assert_eq!(signals, vec![ToolSignal::ToolRole], "{target:?}");
            }
            other => panic!("{target:?} returned the wrong error class: {other:?}"),
        }
    }
}

#[test]
fn the_control_token_leak_is_still_reported_ahead_of_the_tool_guard() {
    let mut msgs = tool_trajectory();
    msgs[5].reasoning = Some("leaked <think> tag".into());
    let err = render(&msgs, TrlFormat::Gemma4, CotPolicy::Supervised).unwrap_err();
    assert!(matches!(
        err,
        FormatError::ControlTokenInContent { token: "<think>", role: Role::Assistant }
    ));
}

#[test]
fn the_human_message_names_the_route_the_position_and_the_way_out() {
    let err = render(&tool_trajectory(), TrlFormat::Gemma4, CotPolicy::Supervised).unwrap_err();
    let msg = err.message();
    assert!(msg.contains("Gemma4"), "{msg}");
    assert!(msg.contains("messages[2]"), "{msg}");
    assert!(msg.contains("ToolCalls"), "{msg}");
    assert!(msg.contains("messages_json"), "{msg}");
}

#[test]
fn both_tool_faithful_targets_render_the_trajectory_with_the_call_ids_present() {
    for target in PRESERVING {
        let out = render(&tool_trajectory(), target, CotPolicy::Supervised)
            .unwrap_or_else(|e| panic!("{target:?} must render a tool trajectory: {e:?}"));
        for id in ["read-a", "read-b"] {
            assert!(out.contains(id), "{target:?} dropped call id {id}");
        }
    }
}

#[test]
fn openai_messages_keeps_the_calls_and_the_result_links() {
    let out = render(&tool_trajectory(), TrlFormat::OpenAiMessages, CotPolicy::Supervised)
        .expect("a tool-faithful target is never refused");
    let v = value(&out);
    let msgs = v["messages"].as_array().unwrap();
    assert_eq!(msgs[2]["tool_calls"][0]["id"], "read-a");
    assert_eq!(msgs[2]["tool_calls"][1]["id"], "read-b");
    assert_eq!(msgs[2]["tool_calls"][1]["function"]["arguments"]["start_line"], 20);
    assert_eq!(msgs[3]["tool_call_id"], "read-b");
    assert_eq!(msgs[3]["name"], "read_file");
    assert_eq!(msgs[4]["tool_call_id"], "read-a");
    assert_eq!(msgs[2]["content"], "");
}

#[test]
fn trl_prompt_completion_keeps_the_tool_trajectory_across_the_split() {
    let out = render(&tool_trajectory(), TrlFormat::TrlPromptCompletion, CotPolicy::Supervised)
        .expect("a tool-faithful target is never refused");
    let v = value(&out);
    let prompt = v["prompt"].as_array().unwrap();
    let completion = v["completion"].as_array().unwrap();
    assert_eq!(prompt.len(), 5, "everything before the final assistant turn");
    assert_eq!(completion.len(), 1);
    assert_eq!(prompt[2]["tool_calls"][0]["id"], "read-a");
    assert_eq!(prompt[2]["tool_calls"][1]["id"], "read-b");
    assert_eq!(prompt[3]["tool_call_id"], "read-b");
    assert_eq!(prompt[4]["tool_call_id"], "read-a");
    assert!(completion[0].get("tool_calls").is_none());
    assert!(completion[0].get("tool_call_id").is_none());
    assert_eq!(completion[0]["role"], "assistant");
}

#[test]
fn a_text_only_conversation_still_renders_on_every_target() {
    let msgs = text_only();
    for target in ALL {
        let out = render(&msgs, target, CotPolicy::Supervised)
            .unwrap_or_else(|e| panic!("{target:?} must still render text-only: {e:?}"));
        assert!(!out.is_empty(), "{target:?} produced nothing");
    }
}

#[test]
fn a_text_only_conversation_matches_the_golden_gemma4_bytes() {
    let out = render(&text_only(), TrlFormat::Gemma4, CotPolicy::Supervised).unwrap();
    assert!(out.starts_with("<bos><|turn>user\nWhat is 12 * 8?<turn|>"), "{out}");
    assert!(
        out.contains("<|channel>thought\n10*8=80, 2*8=16, 80+16=96\n<channel|>96<turn|>"),
        "{out}"
    );
}

#[test]
fn an_empty_conversation_and_a_single_assistant_turn_are_unaffected() {
    assert!(render(&[], TrlFormat::Gemma4, CotPolicy::Stripped).is_ok());
    let single = vec![Message {
        role: Role::Assistant,
        content: Content::Parts(vec![ContentPart::Text { text: "parts flatten".into() }]),
        reasoning: None,
        reasoning_details: None,
        tool_calls: None,
        tool_call_id: None,
        name: None,
    }];
    for target in ALL {
        assert!(render(&single, target, CotPolicy::Stripped).is_ok(), "{target:?}");
    }
}

#[test]
fn a_second_result_by_name_is_rejected() {
    let calls = || assistant_calls(vec![call(Some("a"), "read_file", "x")]);
    let words = "second result for tool_call_id `a`";
    // Answered by link, then by name.
    refused(
        &[calls(), result(Some("a"), "read_file"), result(None, "read_file")],
        words,
    );
    // Answered by name, then by link.
    refused(
        &[calls(), result(None, "read_file"), result(Some("a"), "read_file")],
        words,
    );
    // Answered by name twice.
    refused(
        &[calls(), result(None, "read_file"), result(None, "read_file")],
        words,
    );
    assert!(validate_tool_links(&[calls(), result(None, "read_file")]).is_ok());
    // Another tool's call is another call.
    let two = assistant_calls(vec![
        call(Some("a"), "read_file", "x"),
        call(Some("b"), "list", "y"),
    ]);
    assert!(
        validate_tool_links(&[two, result(None, "read_file"), result(None, "list")]).is_ok()
    );
}
