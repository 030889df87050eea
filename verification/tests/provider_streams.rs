//! Streams of chunks, requests on the wire, and the decoder of server-sent events.

use ghostwriter::double::Double;
use ghostwriter::providers::delta::{parse_chunk, StreamDelta};
use ghostwriter::providers::error::ProviderError;
use ghostwriter::providers::request::{ChatRequest, ProviderRouting, ReasoningParam};
use ghostwriter::providers::sse::{Decoder, Step};
use ghostwriter::schema::message::{
    Content, Message, ReasoningDetail, ReasoningEffort, Role,
};
use ghostwriter::wire::Outbound;

fn d64(x: f64) -> Double {
    Double { bits: x.to_bits() }
}

#[test]
fn content_only_chunk() {
    let j = r#"{"choices":[{"delta":{"content":"hi"}}]}"#;
    let d = parse_chunk(j).unwrap();
    assert_eq!(d.content.as_deref(), Some("hi"));
    assert!(d.reasoning.is_none());
    assert!(!d.is_empty_payload());
}

#[test]
fn flat_reasoning_chunk() {
    let j = r#"{"choices":[{"delta":{"reasoning":"let me think"}}]}"#;
    let d = parse_chunk(j).unwrap();
    assert_eq!(d.reasoning.as_deref(), Some("let me think"));
    assert!(d.content.is_none());
}

#[test]
fn structured_reasoning_details_chunk() {
    let j = r#"{"choices":[{"delta":{"reasoning_details":[
        {"type":"reasoning.text","text":"step one","index":0}]}}]}"#;
    let d = parse_chunk(j).unwrap();
    let details = d.reasoning_details.expect("details present");
    assert_eq!(details.len(), 1);
    match &details[0] {
        ReasoningDetail::Text { text, index, .. } => {
            assert_eq!(text, "step one");
            assert_eq!(*index, 0);
        }
        other => panic!("expected reasoning.text, got {other:?}"),
    }
}

#[test]
fn unknown_fields_ignored() {
    let j = r#"{"id":"gen-1","object":"chat.completion.chunk","created":1,
        "choices":[{"index":0,"delta":{"role":"assistant","content":"x"},
        "logprobs":null,"native_finish_reason":"stop"}],"system_fingerprint":"fp"}"#;
    let d = parse_chunk(j).unwrap();
    assert_eq!(d.content.as_deref(), Some("x"));
}

#[test]
fn role_only_chunk_is_empty_payload() {
    let j = r#"{"choices":[{"delta":{"role":"assistant"}}]}"#;
    let d = parse_chunk(j).unwrap();
    assert!(d.is_empty_payload());
    assert!(d.finish_reason.is_none());
}

#[test]
fn final_chunk_captures_provenance_and_usage() {
    let j = r#"{"model":"z-ai/glm-5.2","provider":"Parasail",
        "choices":[{"delta":{},"finish_reason":"stop"}],
        "usage":{"prompt_tokens":10,"completion_tokens":42,"total_tokens":52}}"#;
    let d = parse_chunk(j).unwrap();
    assert_eq!(d.finish_reason.as_deref(), Some("stop"));
    let prov = d.provenance.expect("provenance present");
    assert_eq!(prov.served_by.as_deref(), Some("Parasail"));
    assert_eq!(prov.model.as_deref(), Some("z-ai/glm-5.2"));
    let usage = d.usage.expect("usage present");
    assert_eq!(usage.completion_tokens, Some(42));
    assert_eq!(usage.total_tokens, Some(52));
}

#[test]
fn empty_choices_yields_default_delta() {
    let j = r#"{"choices":[],"model":"m"}"#;
    let d = parse_chunk(j).unwrap();
    assert!(d.is_empty_payload());
    assert_eq!(d.provenance.unwrap().model.as_deref(), Some("m"));
}

#[test]
fn reasoning_text_fragment_missing_index_still_decodes() {
    let j = r#"{"choices":[{"delta":{"content":"after",
        "reasoning_details":[{"type":"reasoning.text","text":"no index here"}]}}]}"#;
    let d = parse_chunk(j).unwrap();
    assert_eq!(d.content.as_deref(), Some("after"));
    let details = d.reasoning_details.expect("details present");
    match &details[0] {
        ReasoningDetail::Text { text, index, .. } => {
            assert_eq!(text, "no index here");
            assert_eq!(*index, 0);
        }
        other => panic!("expected reasoning.text, got {other:?}"),
    }
}

#[test]
fn unknown_reasoning_type_is_skipped_not_aborted() {
    let j = r#"{"choices":[{"delta":{"reasoning":"flat cot here",
        "reasoning_details":[{"type":"reasoning.foo","blah":1,"index":0}]}}]}"#;
    let d = parse_chunk(j).unwrap();
    assert_eq!(d.reasoning.as_deref(), Some("flat cot here"));
    assert!(d.reasoning_details.is_none());
}

#[test]
fn null_or_absent_text_does_not_abort() {
    let j = r#"{"choices":[{"delta":{"reasoning_details":
        [{"type":"reasoning.text","text":null,"index":2}]}}]}"#;
    let d = parse_chunk(j).unwrap();
    let details = d.reasoning_details.expect("details present");
    match &details[0] {
        ReasoningDetail::Text { text, index, .. } => {
            assert_eq!(text, "");
            assert_eq!(*index, 2);
        }
        other => panic!("expected reasoning.text, got {other:?}"),
    }
}

#[test]
fn mixed_bad_and_good_fragment_keeps_the_good_one() {
    let j = r#"{"choices":[{"delta":{"reasoning_details":[
        {"type":"reasoning.weird","x":true},
        {"type":"reasoning.text","text":"keep me","index":1}]}}]}"#;
    let d = parse_chunk(j).unwrap();
    let details = d.reasoning_details.expect("the good fragment survives");
    assert_eq!(details.len(), 1);
    match &details[0] {
        ReasoningDetail::Text { text, index, .. } => {
            assert_eq!(text, "keep me");
            assert_eq!(*index, 1);
        }
        other => panic!("expected reasoning.text, got {other:?}"),
    }
}

#[test]
fn summary_and_encrypted_fragments_decode_leniently() {
    let j = r#"{"choices":[{"delta":{"reasoning_details":[
        {"type":"reasoning.summary","summary":"sum"},
        {"type":"reasoning.encrypted","data":"abc"}]}}]}"#;
    let d = parse_chunk(j).unwrap();
    let details = d.reasoning_details.expect("details present");
    assert_eq!(details.len(), 2);
    assert!(
        matches!(&details[0], ReasoningDetail::Summary { summary, index, .. }
        if summary == "sum" && *index == 0)
    );
    assert!(
        matches!(&details[1], ReasoningDetail::Encrypted { data, index, .. }
        if data == "abc" && *index == 0)
    );
}

#[test]
fn all_fragments_bad_yields_none_not_error() {
    let j = r#"{"choices":[{"delta":{"reasoning_details":[
        {"type":"reasoning.foo"},{"type":"reasoning.bar"}]}}]}"#;
    let d = parse_chunk(j).unwrap();
    assert!(d.reasoning_details.is_none());
}

#[test]
fn reasoning_details_object_shape_does_not_abort() {
    let j = r#"{"choices":[{"delta":{"content":"keep me",
        "reasoning_details":{"oops":"object not array"}}}]}"#;
    let d = parse_chunk(j).unwrap();
    assert_eq!(d.content.as_deref(), Some("keep me"));
    assert!(d.reasoning_details.is_none());
}

#[test]
fn reasoning_details_string_shape_does_not_abort() {
    let j = r#"{"choices":[{"delta":{"content":"keep me",
        "reasoning_details":"a bare string"}}]}"#;
    let d = parse_chunk(j).unwrap();
    assert_eq!(d.content.as_deref(), Some("keep me"));
    assert!(d.reasoning_details.is_none());
}

#[test]
fn reasoning_details_number_shape_does_not_abort() {
    let j = r#"{"choices":[{"delta":{"content":"keep me","reasoning_details":42}}]}"#;
    let d = parse_chunk(j).unwrap();
    assert_eq!(d.content.as_deref(), Some("keep me"));
    assert!(d.reasoning_details.is_none());
}

#[test]
fn reasoning_tokens_parsed_from_completion_tokens_details() {
    let j = r#"{"choices":[{"delta":{},"finish_reason":"stop"}],
        "usage":{"prompt_tokens":10,"completion_tokens":200,"total_tokens":210,
        "completion_tokens_details":{"reasoning_tokens":150}}}"#;
    let d = parse_chunk(j).unwrap();
    let usage = d.usage.expect("usage present");
    assert_eq!(usage.reasoning_tokens(), Some(150));
    assert_eq!(
        usage.completion_tokens_details.unwrap().reasoning_tokens,
        Some(150)
    );
}

#[test]
fn usage_without_details_has_no_reasoning_tokens() {
    let j = r#"{"choices":[{"delta":{}}],
        "usage":{"prompt_tokens":1,"completion_tokens":2,"total_tokens":3}}"#;
    let d = parse_chunk(j).unwrap();
    assert_eq!(d.usage.unwrap().reasoning_tokens(), None);
}

#[test]
fn top_level_cost_parsed_from_usage() {
    let j = r#"{"choices":[{"delta":{},"finish_reason":"stop"}],
        "usage":{"prompt_tokens":10,"completion_tokens":20,"total_tokens":30,"cost":0.0042}}"#;
    let d = parse_chunk(j).unwrap();
    assert_eq!(d.usage.unwrap().cost, Some(d64(0.0042)));
}

#[test]
fn native_finish_reason_captured_on_finish_chunk() {
    let j = r#"{"choices":[{"delta":{},"finish_reason":"stop",
        "native_finish_reason":"end_turn"}]}"#;
    let d = parse_chunk(j).unwrap();
    assert_eq!(d.finish_reason.as_deref(), Some("stop"));
    assert_eq!(d.native_finish_reason.as_deref(), Some("end_turn"));
}

#[test]
fn refusal_captured_and_refusal_only_chunk_not_empty() {
    let j = r#"{"choices":[{"delta":{"refusal":"I can't help with that."}}]}"#;
    let d = parse_chunk(j).unwrap();
    assert_eq!(d.refusal.as_deref(), Some("I can't help with that."));
    assert!(!d.is_empty_payload());
}

#[test]
fn generation_id_captured_into_provenance() {
    let j = r#"{"id":"gen-abc123","model":"z-ai/glm-5.2","provider":"Parasail",
        "choices":[{"delta":{},"finish_reason":"stop"}]}"#;
    let d = parse_chunk(j).unwrap();
    let prov = d.provenance.expect("provenance present");
    assert_eq!(prov.id.as_deref(), Some("gen-abc123"));
    assert_eq!(prov.served_by.as_deref(), Some("Parasail"));
    assert_eq!(prov.model.as_deref(), Some("z-ai/glm-5.2"));
}

#[test]
fn id_alone_produces_provenance() {
    let j = r#"{"id":"gen-xyz","choices":[{"delta":{"content":"x"}}]}"#;
    let d = parse_chunk(j).unwrap();
    assert_eq!(d.provenance.unwrap().id.as_deref(), Some("gen-xyz"));
}

#[test]
fn role_only_chunk_still_empty_with_new_fields() {
    let j = r#"{"choices":[{"delta":{"role":"assistant"}}]}"#;
    let d = parse_chunk(j).unwrap();
    assert!(d.is_empty_payload());
    assert!(d.refusal.is_none());
    assert!(d.native_finish_reason.is_none());
}

#[test]
fn cost_as_string_does_not_abort_terminal_chunk() {
    let j = r#"{"choices":[{"delta":{},"finish_reason":"stop"}],
        "usage":{"prompt_tokens":10,"completion_tokens":42,"cost":"0.00043"}}"#;
    let d = parse_chunk(j).unwrap();
    assert_eq!(d.finish_reason.as_deref(), Some("stop"));
    let usage = d.usage.expect("usage present");
    assert_eq!(usage.cost, Some(d64(0.00043)));
    assert_eq!(usage.completion_tokens, Some(42));
    assert_eq!(usage.prompt_tokens, Some(10));
}

#[test]
fn completion_tokens_as_float_is_truncated() {
    let j = r#"{"choices":[{"delta":{},"finish_reason":"stop"}],
        "usage":{"completion_tokens":42.0}}"#;
    let d = parse_chunk(j).unwrap();
    assert_eq!(d.usage.unwrap().completion_tokens, Some(42));
}

#[test]
fn reasoning_tokens_as_float_is_coerced() {
    let j = r#"{"choices":[{"delta":{},"finish_reason":"stop"}],
        "usage":{"completion_tokens":200,"completion_tokens_details":{"reasoning_tokens":150.0}}}"#;
    let d = parse_chunk(j).unwrap();
    assert_eq!(d.usage.unwrap().reasoning_tokens(), Some(150));
}

#[test]
fn garbage_usage_string_yields_none_but_keeps_finish_reason() {
    let j = r#"{"choices":[{"delta":{},"finish_reason":"stop"}],"usage":"nope"}"#;
    let d = parse_chunk(j).unwrap();
    assert_eq!(d.finish_reason.as_deref(), Some("stop"));
    assert!(d.usage.is_none());
}

#[test]
fn numeric_string_token_count_is_parsed() {
    let j = r#"{"choices":[{"delta":{}}],"usage":{"total_tokens":"52"}}"#;
    let d = parse_chunk(j).unwrap();
    assert_eq!(d.usage.unwrap().total_tokens, Some(52));
}

#[test]
fn integer_zero_cost_is_preserved() {
    let j = r#"{"choices":[{"delta":{},"finish_reason":"stop"}],
        "usage":{"completion_tokens":1,"cost":0}}"#;
    let d = parse_chunk(j).unwrap();
    assert_eq!(d.usage.unwrap().cost, Some(d64(0.0)));
}

#[test]
fn partially_bad_usage_keeps_coercible_fields() {
    let j = r#"{"choices":[{"delta":{},"finish_reason":"stop"}],
        "usage":{"prompt_tokens":7,"completion_tokens":"abc","cost":0.001}}"#;
    let d = parse_chunk(j).unwrap();
    let usage = d
        .usage
        .expect("usage present (prompt_tokens + cost coercible)");
    assert_eq!(usage.prompt_tokens, Some(7));
    assert_eq!(usage.completion_tokens, None);
    assert_eq!(usage.cost, Some(d64(0.001)));
}

#[test]
fn fully_uncoercible_usage_object_degrades_to_none() {
    let j = r#"{"choices":[{"delta":{}}],
        "usage":{"prompt_tokens":"x","completion_tokens":true,"cost":[1,2]}}"#;
    let d = parse_chunk(j).unwrap();
    assert!(d.usage.is_none());
}

#[test]
fn counts_and_prices_are_read_however_they_come() {
    let usage = |u: &str| {
        parse_chunk(&format!(r#"{{"choices":[],"usage":{u}}}"#)).unwrap().usage
    };
    assert_eq!(usage(r#"{"prompt_tokens":-3,"total_tokens":1}"#).unwrap().prompt_tokens, None);
    assert_eq!(usage(r#"{"total_tokens":3.99}"#).unwrap().total_tokens, Some(3));
    assert_eq!(usage(r#"{"cost":-0.5}"#).unwrap().cost, Some(d64(-0.5)));
    assert!(usage("null").is_none());
    assert!(usage("[1]").is_none());
}

#[test]
fn chunks_of_the_wrong_shape_are_refused() {
    assert!(parse_chunk("7").is_err());
    assert!(parse_chunk(r#"{"choices":7}"#).is_err());
    assert!(parse_chunk(r#"{"choices":[{"delta":{"content":7}}]}"#).is_err());
}

// Requests.

fn user_msg(text: &str) -> Message {
    Message {
        role: Role::User,
        content: Content::Text(text.into()),
        reasoning: None,
        reasoning_details: None,
        tool_calls: None,
        tool_call_id: None,
        name: None,
    }
}

/// The wire form as compact JSON, in the order of its members.
fn compact(o: &Outbound) -> String {
    match o {
        Outbound::Null => "null".into(),
        Outbound::Bool(b) => b.to_string(),
        Outbound::Unsigned(n) => n.to_string(),
        Outbound::Signed(n) => n.to_string(),
        Outbound::Double(x) => format!("{:?}", f64::from_bits(x.bits)),
        Outbound::Text(t) => format!("{t:?}"),
        Outbound::Array(items) => {
            format!("[{}]", items.iter().map(compact).collect::<Vec<_>>().join(","))
        }
        Outbound::Object(members) => format!(
            "{{{}}}",
            members
                .iter()
                .map(|(k, v)| format!("{k:?}:{}", compact(v)))
                .collect::<Vec<_>>()
                .join(",")
        ),
        Outbound::Raw(_) => "raw".into(),
    }
}

fn value(req: &ChatRequest) -> serde_json::Value {
    serde_json::from_str(&compact(&req.to_wire())).unwrap()
}

fn request() -> ChatRequest {
    ChatRequest::new("m".into(), vec![user_msg("q")])
}

#[test]
fn minimal_request_streams_and_omits_none() {
    let req = ChatRequest::new("z-ai/glm-5.2".into(), vec![user_msg("hi")]);
    let v = value(&req);
    assert_eq!(v["stream"], true);
    assert_eq!(v["model"], "z-ai/glm-5.2");
    assert!(v.get("temperature").is_none());
    assert!(v.get("top_p").is_none());
    assert!(v.get("seed").is_none());
    assert!(v.get("reasoning").is_none());
    assert!(v.get("usage").is_none());
}

#[test]
fn reasoning_xhigh_serializes_to_effort_object() {
    let s = compact(&request().with_reasoning(ReasoningParam::xhigh()).to_wire());
    assert!(s.contains("\"stream\":true"));
    assert!(s.contains("\"reasoning\":{\"effort\":\"xhigh\"}"));
    assert!(!s.contains("\"max\""));
}

#[test]
fn reasoning_max_tokens_serializes_to_max_tokens_object() {
    let v = value(&request().with_reasoning(ReasoningParam::max_tokens(2000)));
    assert_eq!(v["reasoning"]["max_tokens"], 2000);
    assert!(v["reasoning"].get("effort").is_none());
}

#[test]
fn sampling_fields_serialize_when_set() {
    let req = request()
        .with_temperature(d64(0.6))
        .with_top_p(d64(0.95))
        .with_seed(42)
        .with_max_tokens(8192)
        .with_usage_accounting();
    let v = value(&req);
    assert_eq!(v["temperature"], 0.6);
    assert_eq!(v["top_p"], 0.95);
    assert_eq!(v["seed"], 42);
    assert_eq!(v["max_tokens"], 8192);
    assert_eq!(v["usage"]["include"], true);
}

#[test]
fn effort_levels_round_trip_spellings() {
    for (eff, want) in [
        (ReasoningEffort::Xhigh, "xhigh"),
        (ReasoningEffort::High, "high"),
        (ReasoningEffort::Medium, "medium"),
        (ReasoningEffort::Low, "low"),
        (ReasoningEffort::Minimal, "minimal"),
        (ReasoningEffort::Off, "none"),
    ] {
        let w = ReasoningParam::effort(eff).to_wire();
        assert!(matches!(w.get("effort"), Some(Outbound::Text(t)) if t == want));
    }
}

#[test]
fn pin_serializes_to_order_and_no_fallbacks() {
    let req = ChatRequest::new("minimax/minimax-m3".into(), vec![user_msg("q")])
        .with_provider(ProviderRouting::pin("novita".into()));
    let s = compact(&req.to_wire());
    assert!(s.contains("\"provider\":{\"order\":[\"novita\"],\"allow_fallbacks\":false}"));
    let v = value(&req);
    assert_eq!(v["provider"]["order"][0], "novita");
    assert_eq!(v["provider"]["allow_fallbacks"], false);
    assert!(v["provider"].get("only").is_none());
    assert!(v["provider"].get("sort").is_none());
}

#[test]
fn request_without_provider_emits_no_provider_key() {
    assert!(value(&request()).get("provider").is_none());
}

#[test]
fn empty_routing_serializes_to_empty_object() {
    assert_eq!(compact(&ProviderRouting::default().to_wire()), "{}");
}

#[test]
fn sorted_serializes_sort_only() {
    let v = value(&request().with_provider(ProviderRouting::sorted("throughput".into())));
    assert_eq!(v["provider"]["sort"], "throughput");
    assert!(v["provider"].get("order").is_none());
    assert!(v["provider"].get("allow_fallbacks").is_none());
}

#[test]
fn only_serializes_as_array() {
    let routing = ProviderRouting {
        only: Some(vec!["parasail".into(), "deepseek".into()]),
        ..ProviderRouting::default()
    };
    let v = value(&request().with_provider(routing));
    assert_eq!(v["provider"]["only"][0], "parasail");
    assert_eq!(v["provider"]["only"][1], "deepseek");
    assert!(v["provider"].get("order").is_none());
}

#[test]
fn ordered_serializes_order_without_fallback_override() {
    let v = value(
        &request().with_provider(ProviderRouting::ordered(vec!["novita".into(), "parasail".into()])),
    );
    assert_eq!(v["provider"]["order"][0], "novita");
    assert_eq!(v["provider"]["order"][1], "parasail");
    assert!(v["provider"].get("allow_fallbacks").is_none());
}

// The decoder.

fn decode(chunks: &[&[u8]]) -> Vec<Result<StreamDelta, ProviderError>> {
    let mut decoder = Decoder::new();
    let mut out = Vec::new();
    let mut pieces = chunks.iter();
    loop {
        match decoder.next_item() {
            Step::Item(item) => out.push(item),
            Step::NeedBytes => match pieces.next() {
                Some(bytes) => decoder.feed(bytes),
                None => decoder.end(),
            },
            Step::Finished => return out,
        }
    }
}

fn collect(chunks: Vec<&str>) -> Vec<Result<StreamDelta, ProviderError>> {
    let bytes: Vec<&[u8]> = chunks.iter().map(|s| s.as_bytes()).collect();
    decode(&bytes)
}

fn text_of(item: &Result<StreamDelta, ProviderError>) -> Option<&str> {
    item.as_ref().unwrap().content.as_deref()
}

#[test]
fn single_line_per_chunk() {
    let out = collect(vec![
        "data: {\"choices\":[{\"delta\":{\"content\":\"a\"}}]}\n\n",
        "data: [DONE]\n\n",
    ]);
    assert_eq!(out.len(), 1);
    assert_eq!(text_of(&out[0]), Some("a"));
}

#[test]
fn multi_line_in_one_chunk() {
    let blob = "data: {\"choices\":[{\"delta\":{\"content\":\"a\"}}]}\n\
                data: {\"choices\":[{\"delta\":{\"content\":\"b\"}}]}\n\
                data: [DONE]\n";
    let out = collect(vec![blob]);
    assert_eq!(out.len(), 2);
    assert_eq!(text_of(&out[0]), Some("a"));
    assert_eq!(text_of(&out[1]), Some("b"));
}

#[test]
fn split_mid_line_across_chunks() {
    let out = collect(vec![
        "data: {\"choi",
        "ces\":[{\"delta\":{\"con",
        "tent\":\"hello\"}}]}\n\ndata: [DONE]\n\n",
    ]);
    assert_eq!(out.len(), 1);
    assert_eq!(text_of(&out[0]), Some("hello"));
}

#[test]
fn split_mid_json_byte_for_byte() {
    let full = "data: {\"choices\":[{\"delta\":{\"reasoning\":\"hi\"}}]}\n\ndata: [DONE]\n";
    let chunks: Vec<&str> = full.split("").filter(|s| !s.is_empty()).collect();
    let out = collect(chunks);
    assert_eq!(out.len(), 1);
    assert_eq!(out[0].as_ref().unwrap().reasoning.as_deref(), Some("hi"));
}

#[test]
fn ignores_comment_keepalive_and_blank_lines() {
    let out = collect(vec![
        ": OPENROUTER PROCESSING\n\n",
        "\n",
        "data: {\"choices\":[{\"delta\":{\"content\":\"x\"}}]}\n\n",
        ": OPENROUTER PROCESSING\n",
        "data: [DONE]\n",
    ]);
    assert_eq!(out.len(), 1);
    assert_eq!(text_of(&out[0]), Some("x"));
}

#[test]
fn reasoning_details_chunk_decodes() {
    let line = "data: {\"choices\":[{\"delta\":{\"reasoning_details\":\
        [{\"type\":\"reasoning.text\",\"text\":\"step\",\"index\":0}]}}]}\n\n";
    let out = collect(vec![line, "data: [DONE]\n\n"]);
    assert_eq!(out.len(), 1);
    let delta = out[0].as_ref().unwrap();
    match &delta.reasoning_details.as_ref().unwrap()[0] {
        ReasoningDetail::Text { text, index, .. } => {
            assert_eq!(text, "step");
            assert_eq!(*index, 0);
        }
        other => panic!("expected reasoning.text, got {other:?}"),
    }
}

#[test]
fn crlf_line_endings_tolerated() {
    let out = collect(vec![
        "data: {\"choices\":[{\"delta\":{\"content\":\"c\"}}]}\r\n\r\n",
        "data: [DONE]\r\n",
    ]);
    assert_eq!(out.len(), 1);
    assert_eq!(text_of(&out[0]), Some("c"));
}

#[test]
fn missing_done_yields_stream_reset() {
    let out = collect(vec!["data: {\"choices\":[{\"delta\":{\"content\":\"a\"}}]}\n\n"]);
    assert_eq!(out.len(), 2);
    assert!(out[0].is_ok());
    match &out[1] {
        Err(ProviderError::StreamReset(_)) => {}
        other => panic!("expected StreamReset, got {other:?}"),
    }
}

#[test]
fn malformed_json_is_decode_error_and_terminates() {
    let out = collect(vec![
        "data: {not json}\n\n",
        "data: {\"choices\":[{\"delta\":{\"content\":\"unreached\"}}]}\n\n",
    ]);
    assert_eq!(out.len(), 1);
    match &out[0] {
        Err(ProviderError::Decode(_)) => {}
        other => panic!("expected Decode error, got {other:?}"),
    }
}

#[test]
fn done_without_trailing_newline_is_clean() {
    let out = collect(vec![
        "data: {\"choices\":[{\"delta\":{\"content\":\"a\"}}]}\n\n",
        "data: [DONE]",
    ]);
    assert_eq!(out.len(), 1);
    assert!(out[0].is_ok());
}

#[test]
fn good_chunk_then_end_decodes_then_resets() {
    let out = decode(&[b"data: {\"choices\":[{\"delta\":{\"content\":\"a\"}}]}\n\n"]);
    assert_eq!(out.len(), 2);
    assert!(out[0].is_ok());
    assert!(matches!(out[1], Err(ProviderError::StreamReset(_))));
}

#[test]
fn newline_less_complete_line_without_done_resets() {
    let out = collect(vec!["data: {\"choices\":[{\"delta\":{\"content\":\"a\"}}]}"]);
    assert_eq!(out.len(), 2);
    assert_eq!(text_of(&out[0]), Some("a"));
    assert!(matches!(out[1], Err(ProviderError::StreamReset(_))));
}

#[test]
fn data_after_done_is_not_yielded() {
    let out = collect(vec![
        "data: {\"choices\":[{\"delta\":{\"content\":\"a\"}}]}\n\n",
        "data: [DONE]\n\n",
        "data: {\"choices\":[{\"delta\":{\"content\":\"ghost\"}}]}\n\n",
    ]);
    assert_eq!(out.len(), 1);
    assert_eq!(text_of(&out[0]), Some("a"));
}

#[test]
fn empty_data_heartbeat_is_ignored_not_decode_error() {
    let out = collect(vec![
        "data:\n\n",
        "data: \n\n",
        "data: {\"choices\":[{\"delta\":{\"content\":\"x\"}}]}\n\n",
        "data: [DONE]\n\n",
    ]);
    assert_eq!(out.len(), 1);
    assert_eq!(text_of(&out[0]), Some("x"));
}

#[test]
fn a_broken_connection_is_the_last_item() {
    let mut decoder = Decoder::new();
    decoder.feed(b"data: {\"choices\":[{\"delta\":{\"content\":\"a\"}}]}\ndata: {\"cho");
    decoder.fail("eof".into());
    decoder.feed(b"data: [DONE]\n");
    assert!(matches!(decoder.next_item(), Step::Item(Ok(_))));
    match decoder.next_item() {
        Step::Item(Err(e)) => assert!(e.message().contains("eof")),
        other => panic!("unexpected {other:?}"),
    }
    assert!(matches!(decoder.next_item(), Step::Finished));
}

#[test]
fn letters_split_between_chunks_are_put_together() {
    let line = "data: {\"choices\":[{\"delta\":{\"content\":\"é😀\"}}]}\n\ndata: [DONE]\n".as_bytes();
    let pieces: Vec<&[u8]> = line.chunks(1).collect();
    let out = decode(&pieces);
    assert_eq!(out.len(), 1);
    assert_eq!(text_of(&out[0]), Some("é😀"));
}

/// An answer with a chain of thought in both forms, an account, and comments in between.
const CAPTURE: &str = ": OPENROUTER PROCESSING\n\n\
data: {\"id\":\"gen-1\",\"provider\":\"Novita\",\"model\":\"minimax/minimax-m3\",\"choices\":[{\"index\":0,\"delta\":{\"role\":\"assistant\",\"content\":\"\",\"reasoning\":\"Let me \",\"reasoning_details\":[{\"type\":\"reasoning.text\",\"text\":\"Let me \",\"format\":\"unknown\",\"index\":0}]},\"finish_reason\":null}]}\n\n\
data: {\"id\":\"gen-1\",\"choices\":[{\"delta\":{\"reasoning\":\"think.\",\"reasoning_details\":[{\"type\":\"reasoning.text\",\"text\":\"think.\",\"index\":0}]}}]}\n\n\
data: {\"id\":\"gen-1\",\"choices\":[{\"delta\":{\"content\":\"42\"}}]}\n\n\
data: {\"id\":\"gen-1\",\"choices\":[{\"delta\":{\"content\":\"\"},\"finish_reason\":\"stop\",\"native_finish_reason\":\"stop\"}]}\n\n\
data: {\"id\":\"gen-1\",\"choices\":[{\"delta\":{\"content\":\"\"}}],\"usage\":{\"prompt_tokens\":9,\"completion_tokens\":12,\"total_tokens\":21,\"cost\":0.0001,\"completion_tokens_details\":{\"reasoning_tokens\":8}}}\n\n\
data: [DONE]\n\n";

#[test]
fn a_whole_answer_decodes_in_any_pieces() {
    let bytes = CAPTURE.as_bytes();
    for chunk_size in [bytes.len(), 7, 1] {
        let pieces: Vec<&[u8]> = bytes.chunks(chunk_size).collect();
        let mut content = String::new();
        let mut reasoning = String::new();
        let mut fragments = 0;
        let mut finish_reason = None;
        let mut reasoning_tokens = None;
        let mut cost = None;
        for item in decode(&pieces) {
            let delta = item.expect("no decode errors");
            content.push_str(delta.content.as_deref().unwrap_or(""));
            reasoning.push_str(delta.reasoning.as_deref().unwrap_or(""));
            fragments += delta.reasoning_details.map_or(0, |f| f.len());
            finish_reason = delta.finish_reason.or(finish_reason);
            if let Some(u) = delta.usage {
                reasoning_tokens = u.reasoning_tokens().or(reasoning_tokens);
                cost = u.cost.or(cost);
            }
        }
        assert_eq!(content, "42");
        assert_eq!(reasoning, "Let me think.");
        assert_eq!(fragments, 2);
        assert_eq!(finish_reason.as_deref(), Some("stop"));
        assert_eq!(reasoning_tokens, Some(8));
        assert_eq!(cost, Some(d64(0.0001)));
    }
}

#[test]
fn a_record_may_be_written_by_place() {
    assert_eq!(parse_chunk("[]").unwrap(), StreamDelta::default());
    assert_eq!(parse_chunk(" [ [ ] ] ").unwrap(), StreamDelta::default());
    let d = parse_chunk(
        r#"[[[["hi","thought",[["reasoning.text","step","sig",null,null,7]],null],"stop","done"]],"gen-1"]"#,
    )
    .unwrap();
    assert_eq!(d.content.as_deref(), Some("hi"));
    assert_eq!(d.reasoning.as_deref(), Some("thought"));
    assert_eq!(d.finish_reason.as_deref(), Some("stop"));
    assert_eq!(d.native_finish_reason.as_deref(), Some("done"));
    assert_eq!(d.provenance.unwrap().id.as_deref(), Some("gen-1"));
    assert_eq!(
        d.reasoning_details,
        Some(vec![ReasoningDetail::Text {
            text: "step".into(),
            signature: Some("sig".into()),
            id: None,
            format: None,
            index: 7,
        }])
    );
    // An object inside an array and an array inside an object.
    let d = parse_chunk(r#"{"choices":[["hi"],{"delta":[null]}]}"#);
    assert!(d.is_err(), "a text is no change");
    let d = parse_chunk(r#"{"choices":[{"delta":["hi"]}]}"#).unwrap();
    assert_eq!(d.content.as_deref(), Some("hi"));
    let d = parse_chunk(r#"[[{"delta":{"content":"hi"}}],null,null,"Up",{"cost":0.5}]"#).unwrap();
    assert_eq!(d.provenance.unwrap().served_by.as_deref(), Some("Up"));
    assert_eq!(d.usage.unwrap().cost, Some(d64(0.5)));
    for more in ["[[],null,null,null,null,null]", "[[[[],null,null,1]]]", "[[[[null,null,null,null,null]]]]"] {
        assert!(parse_chunk(more).is_err(), "{more}");
    }
}

#[test]
fn fragments_by_place_stop_at_their_fields() {
    let kept = |fragment: &str| {
        let text = format!(r#"{{"choices":[{{"delta":{{"reasoning_details":[{fragment}]}}}}]}}"#);
        parse_chunk(&text).unwrap().reasoning_details
    };
    assert_eq!(
        kept(r#"["reasoning.summary","s","i","f",2]"#),
        Some(vec![ReasoningDetail::Summary {
            summary: "s".into(),
            id: Some("i".into()),
            format: Some("f".into()),
            index: 2,
        }])
    );
    assert_eq!(
        kept(r#"["reasoning.encrypted"]"#),
        Some(vec![ReasoningDetail::Encrypted { data: "".into(), id: None, format: None, index: 0 }])
    );
    for dropped in [
        r#"["reasoning.summary","s","i","f",2,3]"#,
        r#"["reasoning.text","t","s","i","f",2,3]"#,
        r#"["reasoning.text",1]"#,
        r#"["other"]"#,
        "[1]",
        "[]",
        "\"reasoning.text\"",
    ] {
        assert_eq!(kept(dropped), None, "{dropped}");
    }
}

#[test]
fn a_field_given_twice_is_refused() {
    for twice in [
        r#"{"id":"a","id":"b"}"#,
        r#"{"id":"a","\u0069d":"b"}"#,
        r#"{"id":null,"id":null}"#,
        r#"{"usage":1,"usage":1}"#,
        r#"{"choices":[],"choices":[]}"#,
        r#"{"choices":[{"delta":{},"delta":{}}]}"#,
        r#"{"choices":[{"delta":{"content":"a","content":"a"}}]}"#,
        r#"{"choices":[{},{"finish_reason":"a","finish_reason":"b"}]}"#,
    ] {
        assert!(parse_chunk(twice).is_err(), "{twice}");
    }
    // What has no field, and what is inside a value, may be given twice.
    let d = parse_chunk(r#"{"x":1,"id":"a","x":2,"usage":{"cost":1,"cost":2}}"#).unwrap();
    assert_eq!(d.provenance.unwrap().id.as_deref(), Some("a"));
    assert_eq!(d.usage.unwrap().cost, Some(d64(2.0)));
}

#[test]
fn what_is_not_read_need_only_be_json() {
    let deep = format!("{}{}", "[".repeat(300), "]".repeat(300));
    for passed in [
        r#"{"x":1e999,"id":"a"}"#.to_owned(),
        r#"{"id":"a","x":{"y":"\ud800"}}"#.to_owned(),
        format!(r#"{{"x":{deep},"id":"a"}}"#),
        "\t{ \"x\" : [ { } , -0.5e3 ] ,\r\n \"id\" : \"a\" } \n".to_owned(),
    ] {
        let d = parse_chunk(&passed).unwrap();
        assert_eq!(d.provenance.unwrap().id.as_deref(), Some("a"));
    }
    for refused in [
        r#"{"usage":1e999}"#,
        r#"{"id":"\ud800"}"#,
        r#"{"\ud800":1}"#,
        r#"{"x":01}"#,
        r#"{"x":1,}"#,
        r#"{"x":[1,]}"#,
        r#"{"x" 1}"#,
        r#"{x:1}"#,
        r#"{"x":1 "y":2}"#,
        r#"{"x":1} {}"#,
        r#"{"x":1"#,
        r#"[[],]"#,
        r#"[[]"#,
        r#"[[] []]"#,
        r#"{"choices":null}"#,
        r#"{"choices":{}}"#,
        r#"{"choices":[{"delta":null}]}"#,
        "null",
        "",
        " ",
    ] {
        assert!(parse_chunk(refused).is_err(), "{refused}");
    }
}

#[test]
fn what_is_read_nests_only_so_deep() {
    let nested = |n: usize| format!("{}{}", "[".repeat(n), "]".repeat(n));
    let usage = |n: usize| format!(r#"{{"usage":{}}}"#, nested(n));
    assert!(parse_chunk(&usage(126)).is_ok());
    assert!(parse_chunk(&usage(127)).is_err());
    let blocks =
        |n: usize| format!(r#"{{"choices":[{{"delta":{{"reasoning_details":{}}}}}]}}"#, nested(n));
    assert!(parse_chunk(&blocks(123)).is_ok());
    assert!(parse_chunk(&blocks(124)).is_err());
}

#[test]
fn the_first_of_several_members_is_found() {
    let o = Outbound::Object(vec![
        ("a".into(), Outbound::Text("1".into())),
        ("b".into(), Outbound::Text("2".into())),
        ("b".into(), Outbound::Text("3".into())),
    ]);
    assert_eq!(o.get("b"), Some(&Outbound::Text("2".into())));
    assert_eq!(o.get("c"), None);
}
