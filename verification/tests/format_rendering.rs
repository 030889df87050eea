//! Rendering conversations, reading them back, and projecting records.

use ghostwriter::double::Double;
use ghostwriter::format::error::{FormatError, ToolSignal};
use ghostwriter::format::ingest::{ingest_openrouter, strip_channel_tokens};
use ghostwriter::format::projection::{project_preference, project_sft};
use ghostwriter::format::render::{effective_reasoning, render};
use ghostwriter::json::{parse_json, Json, JsonObject};
use ghostwriter::schema::judging::Judging;
use ghostwriter::schema::message::{
    content_text, Content, ContentPart, CotPolicy, FunctionCall, Message, MultiTurnLoss, Role,
    ToolCall, TrlFormat,
};
use ghostwriter::schema::record::{
    Cost, Generation, Hashes, Lifecycle, LifecycleState, Provenance, TeacherRef, TrainingRecord,
};
use ghostwriter::schema::verification::Verification;
use serde_json::Value;

fn value(text: &str) -> Value {
    serde_json::from_str(text).expect("the text is JSON")
}

fn json(text: &str) -> Json {
    parse_json(text).expect("the text is JSON")
}

fn m(role: Role, content: &str, reasoning: Option<&str>) -> Message {
    Message {
        role,
        content: Content::Text(content.into()),
        reasoning: reasoning.map(str::to_owned),
        reasoning_details: None,
        tool_calls: None,
        tool_call_id: None,
        name: None,
    }
}

fn canonical() -> Vec<Message> {
    vec![
        m(Role::System, "You are a precise math tutor.", None),
        m(Role::User, "What is 12 * 8, and why?", None),
        m(
            Role::Assistant,
            "96. Break it into 10*8=80 and 2*8=16, then add.",
            Some("12 * 8: 10*8=80, 2*8=16, 80+16=96."),
        ),
    ]
}

fn multiturn() -> Vec<Message> {
    vec![
        m(Role::User, "Hi", None),
        m(Role::Assistant, "Hello! How can I help?", Some("Greet the user.")),
        m(Role::User, "What is 2+2?", None),
        m(Role::Assistant, "4", Some("2+2=4.")),
    ]
}

fn bare(body: &str) -> Json {
    let mut o = JsonObject::new();
    o.put_text("role", "assistant");
    o.put_text("content", body);
    o.finish()
}

#[test]
fn content_text_flattens_parts() {
    let c = Content::Parts(vec![
        ContentPart::Text { text: "a".into() },
        ContentPart::ImageUrl { image_url: "x".into() },
        ContentPart::Text { text: "b".into() },
    ]);
    assert_eq!(content_text(&c), "ab");
}

#[test]
fn effective_reasoning_respects_policy() {
    let msg = m(Role::Assistant, "ans", Some("cot"));
    assert_eq!(effective_reasoning(&msg, CotPolicy::Supervised), Some("cot"));
    assert_eq!(effective_reasoning(&msg, CotPolicy::Masked), Some("cot"));
    assert_eq!(effective_reasoning(&msg, CotPolicy::Stripped), None);
}

#[test]
fn gemma4_supervised_golden() {
    let out = render(&canonical(), TrlFormat::Gemma4, CotPolicy::Supervised).unwrap();
    assert_eq!(
        out,
        "<bos><|turn>user\nYou are a precise math tutor.\n\nWhat is 12 * 8, and why?<turn|>\n\
         <|turn>model\n<|channel>thought\n12 * 8: 10*8=80, 2*8=16, 80+16=96.\n<channel|>\
         96. Break it into 10*8=80 and 2*8=16, then add.<turn|>\n"
    );
    assert!(out.starts_with("<bos><|turn>user\n"));
    assert!(out.contains("<|channel>thought\n12 * 8: 10*8=80, 2*8=16, 80+16=96.\n<channel|>96."));
    assert!(out.trim_end().ends_with("<turn|>"));
}

#[test]
fn gemma4_stripped_golden() {
    let out = render(&canonical(), TrlFormat::Gemma4, CotPolicy::Stripped).unwrap();
    assert_eq!(
        out,
        "<bos><|turn>user\nYou are a precise math tutor.\n\nWhat is 12 * 8, and why?<turn|>\n\
         <|turn>model\n<|channel>thought\n<channel|>\
         96. Break it into 10*8=80 and 2*8=16, then add.<turn|>\n"
    );
    assert!(out.contains("<|channel>thought\n<channel|>96."));
    assert!(!out.contains("80+16"));
}

#[test]
fn gemma4_multiturn_golden() {
    let out = render(&multiturn(), TrlFormat::Gemma4, CotPolicy::Supervised).unwrap();
    assert_eq!(
        out,
        "<bos><|turn>user\nHi<turn|>\n\
         <|turn>model\n<|channel>thought\nGreet the user.\n<channel|>Hello! How can I help?<turn|>\n\
         <|turn>user\nWhat is 2+2?<turn|>\n\
         <|turn>model\n<|channel>thought\n2+2=4.\n<channel|>4<turn|>\n"
    );
    assert_eq!(out.matches("<|turn>model\n").count(), 2);
    assert_eq!(out.matches("<channel|>").count(), 2);
}

#[test]
fn chatml_supervised_golden() {
    let out = render(&canonical(), TrlFormat::ChatML, CotPolicy::Supervised).unwrap();
    assert_eq!(
        out,
        "<|im_start|>system\nYou are a precise math tutor.<|im_end|>\n\
         <|im_start|>user\nWhat is 12 * 8, and why?<|im_end|>\n\
         <|im_start|>assistant\n<think>12 * 8: 10*8=80, 2*8=16, 80+16=96.</think>\
         96. Break it into 10*8=80 and 2*8=16, then add.<|im_end|>\n"
    );
    assert!(out.contains("<|im_start|>assistant\n<think>"));
}

#[test]
fn sharegpt_supervised_golden() {
    let out = render(&canonical(), TrlFormat::ShareGpt, CotPolicy::Supervised).unwrap();
    assert_eq!(
        out,
        r#"{
  "conversations": [
    {
      "from": "system",
      "value": "You are a precise math tutor."
    },
    {
      "from": "human",
      "value": "What is 12 * 8, and why?"
    },
    {
      "from": "gpt",
      "reasoning": "12 * 8: 10*8=80, 2*8=16, 80+16=96.",
      "value": "96. Break it into 10*8=80 and 2*8=16, then add."
    }
  ]
}"#
    );
    let v = value(&out);
    let gpt = &v["conversations"][2];
    assert_eq!(gpt["from"], "gpt");
    assert!(!gpt["value"].as_str().unwrap().contains("80+16"));
    assert!(gpt["reasoning"].is_string());
}

#[test]
fn openai_supervised_golden() {
    let out = render(&canonical(), TrlFormat::OpenAiMessages, CotPolicy::Supervised).unwrap();
    assert_eq!(
        out,
        r#"{
  "messages": [
    {
      "content": "You are a precise math tutor.",
      "role": "system"
    },
    {
      "content": "What is 12 * 8, and why?",
      "role": "user"
    },
    {
      "content": "96. Break it into 10*8=80 and 2*8=16, then add.",
      "reasoning": "12 * 8: 10*8=80, 2*8=16, 80+16=96.",
      "role": "assistant"
    }
  ]
}"#
    );
    let v = value(&out);
    assert_eq!(v["messages"][2]["role"], "assistant");
    assert!(v["messages"][2]["reasoning"].is_string());
}

#[test]
fn harmony_supervised_golden() {
    let out = render(&canonical(), TrlFormat::Harmony, CotPolicy::Supervised).unwrap();
    assert_eq!(
        out,
        "<|start|>system<|message|>You are a precise math tutor.<|end|>\
         <|start|>user<|message|>What is 12 * 8, and why?<|end|>\
         <|start|>assistant<|channel|>analysis<|message|>\
         12 * 8: 10*8=80, 2*8=16, 80+16=96.<|end|>\
         <|start|>assistant<|channel|>final<|message|>\
         96. Break it into 10*8=80 and 2*8=16, then add.<|return|>"
    );
    assert!(out.contains("<|channel|>analysis<|message|>"));
    assert!(out.contains("<|channel|>final<|message|>"));
    assert!(out.ends_with("<|return|>"));
}

#[test]
fn prompt_completion_supervised_golden() {
    let out =
        render(&canonical(), TrlFormat::TrlPromptCompletion, CotPolicy::Supervised).unwrap();
    assert_eq!(
        out,
        r#"{
  "completion": [
    {
      "content": "96. Break it into 10*8=80 and 2*8=16, then add.",
      "reasoning": "12 * 8: 10*8=80, 2*8=16, 80+16=96.",
      "role": "assistant"
    }
  ],
  "prompt": [
    {
      "content": "You are a precise math tutor.",
      "role": "system"
    },
    {
      "content": "What is 12 * 8, and why?",
      "role": "user"
    }
  ]
}"#
    );
    let v = value(&out);
    assert_eq!(v["prompt"].as_array().unwrap().len(), 2);
    assert_eq!(v["completion"].as_array().unwrap().len(), 1);
    assert_eq!(v["completion"][0]["role"], "assistant");
}

#[test]
fn round_trip_chatml_recovers_messages_and_reasoning() {
    let assistant = m(
        Role::Assistant,
        "The answer is 42.",
        Some("Sum the digits, carry the one."),
    );
    let chatml = render(
        std::slice::from_ref(&assistant),
        TrlFormat::ChatML,
        CotPolicy::Supervised,
    )
    .unwrap();
    let body = chatml
        .strip_prefix("<|im_start|>assistant\n")
        .unwrap()
        .strip_suffix("<|im_end|>\n")
        .unwrap();
    let ingested = ingest_openrouter(&bare(body)).unwrap();
    assert_eq!(ingested.content, assistant.content);
    assert_eq!(ingested.reasoning, assistant.reasoning);
}

#[test]
fn round_trip_gemma4_recovers_messages_and_reasoning() {
    let assistant = m(Role::Assistant, "96", Some("12*8=96"));
    let out = render(
        std::slice::from_ref(&assistant),
        TrlFormat::Gemma4,
        CotPolicy::Supervised,
    )
    .unwrap();
    let body = out
        .split("<|turn>model\n")
        .nth(1)
        .unwrap()
        .strip_suffix("<turn|>\n")
        .unwrap();
    let ingested = ingest_openrouter(&bare(body)).unwrap();
    assert_eq!(ingested.content, Content::Text("96".into()));
    assert_eq!(ingested.reasoning.as_deref(), Some("12*8=96"));
}

#[test]
fn round_trip_harmony_recovers_messages_and_reasoning() {
    let assistant = m(Role::Assistant, "42", Some("deep thought"));
    let out = render(
        std::slice::from_ref(&assistant),
        TrlFormat::Harmony,
        CotPolicy::Supervised,
    )
    .unwrap();
    let ingested = ingest_openrouter(&bare(&out)).unwrap();
    assert_eq!(ingested.content, Content::Text("42".into()));
    assert_eq!(ingested.reasoning.as_deref(), Some("deep thought"));
}

#[test]
fn reading_back_keeps_line_ends_and_absent_thoughts() {
    let body = |msg: &Message| {
        let out = render(std::slice::from_ref(msg), TrlFormat::ChatML, CotPolicy::Supervised);
        out.unwrap()
            .strip_prefix("<|im_start|>assistant\n")
            .unwrap()
            .strip_suffix("<|im_end|>\n")
            .unwrap()
            .to_owned()
    };
    let trailing = m(Role::Assistant, "\n42 < 43", Some("a < b\n"));
    assert_eq!(
        strip_channel_tokens(&body(&trailing)),
        ("\n42 < 43".into(), Some("a < b\n".into()))
    );
    let plain = m(Role::Assistant, "42", None);
    assert_eq!(strip_channel_tokens(&body(&plain)), ("42".into(), None));
    let final_only = render(&[plain], TrlFormat::Harmony, CotPolicy::Supervised).unwrap();
    assert!(ingest_openrouter(&bare(&final_only)).is_err());
}

#[test]
fn masked_and_supervised_render_alike() {
    for target in [
        TrlFormat::Gemma4,
        TrlFormat::ChatML,
        TrlFormat::ShareGpt,
        TrlFormat::OpenAiMessages,
        TrlFormat::Harmony,
        TrlFormat::TrlPromptCompletion,
    ] {
        assert_eq!(
            render(&canonical(), target, CotPolicy::Masked).unwrap(),
            render(&canonical(), target, CotPolicy::Supervised).unwrap()
        );
    }
}

#[test]
fn stripped_drops_reasoning_every_target() {
    let convo = canonical();
    let needle = "80+16";
    for target in [
        TrlFormat::Gemma4,
        TrlFormat::ChatML,
        TrlFormat::ShareGpt,
        TrlFormat::OpenAiMessages,
        TrlFormat::Harmony,
        TrlFormat::TrlPromptCompletion,
    ] {
        let out = render(&convo, target, CotPolicy::Stripped).unwrap();
        assert!(!out.contains(needle), "stripped render for {target:?} leaked reasoning");
    }
}

#[test]
fn roles_are_placed_as_each_target_names_them() {
    let turns = vec![
        m(Role::Developer, "d", None),
        m(Role::System, "s", Some("never rendered")),
        m(Role::User, "u", Some("never rendered")),
    ];
    assert_eq!(
        render(&turns, TrlFormat::ChatML, CotPolicy::Supervised).unwrap(),
        "<|im_start|>system\nd<|im_end|>\n<|im_start|>system\ns<|im_end|>\n\
         <|im_start|>user\nu<|im_end|>\n"
    );
    assert_eq!(
        render(&turns, TrlFormat::Harmony, CotPolicy::Supervised).unwrap(),
        "<|start|>developer<|message|>d<|end|><|start|>system<|message|>s<|end|>\
         <|start|>user<|message|>u<|end|>"
    );
    assert_eq!(
        render(&turns, TrlFormat::Gemma4, CotPolicy::Supervised).unwrap(),
        "<bos><|turn>user\nd\n\ns\n\nu<turn|>\n"
    );
    let openai = value(&render(&turns, TrlFormat::OpenAiMessages, CotPolicy::Supervised).unwrap());
    assert_eq!(openai["messages"][0]["role"], "developer");
    assert!(openai["messages"][1].get("reasoning").is_none());
    let share = value(&render(&turns, TrlFormat::ShareGpt, CotPolicy::Supervised).unwrap());
    assert_eq!(share["conversations"][0]["from"], "system");
}

#[test]
fn gemma_folds_systems_over_assistants_and_keeps_a_last_one() {
    let turns = vec![
        m(Role::System, "s", None),
        m(Role::Assistant, "a", None),
        m(Role::User, "u", None),
        m(Role::System, "t", None),
    ];
    assert_eq!(
        render(&turns, TrlFormat::Gemma4, CotPolicy::Supervised).unwrap(),
        "<bos><|turn>model\n<|channel>thought\n<channel|>a<turn|>\n\
         <|turn>user\ns\n\nu<turn|>\n<|turn>user\nt<turn|>\n"
    );
    let empty = vec![m(Role::System, "", None), m(Role::User, "u", None)];
    assert_eq!(
        render(&empty, TrlFormat::Gemma4, CotPolicy::Supervised).unwrap(),
        "<bos><|turn>user\nu<turn|>\n"
    );
}

#[test]
fn prompt_completion_needs_an_answer_at_the_end() {
    let turns = vec![m(Role::Assistant, "a", None), m(Role::User, "u", None)];
    let err = render(&turns, TrlFormat::TrlPromptCompletion, CotPolicy::Supervised).unwrap_err();
    assert!(matches!(&err, FormatError::Projection(_)));
    assert!(err.message().contains("end on an assistant turn"));
    assert!(render(&[], TrlFormat::TrlPromptCompletion, CotPolicy::Supervised).is_err());
}

fn record(id: &str, prompt_hash: &str, answer: &str, reasoning: &str, agg: f64) -> TrainingRecord {
    TrainingRecord {
        record_id: id.into(),
        schema_version: semver::Version::new(1, 0, 0),
        dataset_version: None,
        training_area: "t".into(),
        tags: vec![],
        messages: vec![m(Role::User, "q", None), m(Role::Assistant, answer, Some(reasoning))],
        tools: None,
        provenance: Provenance {
            run_id: "r".into(),
            parent_ids: vec![],
            teacher: TeacherRef {
                provider: "openrouter".into(),
                slug: "z-ai/glm-5.2".into(),
                served_by: None,
                model_card_revision: None,
            },
            user_synth_model: None,
            user_turn_kind: None,
            in_scope_safe: None,
            judge_models: vec![],
            harness_version: "0.1.0".into(),
            git_commit: None,
        },
        generation: Generation::default(),
        verification_contract: None,
        execution_evidence: None,
        verification: Verification::default(),
        judging: Judging {
            aggregate: Some(Double { bits: agg.to_bits() }),
            ..Judging::default()
        },
        reasoning_quality: None,
        lifecycle: Lifecycle {
            state: LifecycleState::AssistantGenerated,
            history: vec![],
            error: None,
            attempts: 0,
        },
        hashes: Hashes { prompt_hash: prompt_hash.into(), ..Hashes::default() },
        cost: Cost {
            prompt_tokens: 0,
            completion_tokens: 0,
            reasoning_tokens: 0,
            usd: Double { bits: 0 },
            latency_ms: 0,
        },
    }
}

#[test]
fn sft_projection_carries_masking_metadata() {
    let rec = record("a", "h1", "96", "12*8", 0.9);
    let p = project_sft(&rec, TrlFormat::Gemma4, CotPolicy::Masked, MultiTurnLoss::AllAssistant)
        .unwrap();
    assert!(p.cot_masked);
    assert_eq!(p.cot_policy, CotPolicy::Masked);
    assert!(p.rendered.contains("<|channel>thought"));
}

#[test]
fn sft_stripped_drops_reasoning() {
    let rec = record("a", "h1", "96", "12*8", 0.9);
    let p = project_sft(&rec, TrlFormat::ChatML, CotPolicy::Stripped, MultiTurnLoss::default())
        .unwrap();
    assert!(!p.rendered.contains("<think>"));
    assert!(!p.cot_masked);
}

#[test]
fn sft_without_an_answer_is_refused() {
    let mut rec = record("a", "h1", "96", "12*8", 0.9);
    rec.messages.truncate(1);
    let err = project_sft(&rec, TrlFormat::ChatML, CotPolicy::Masked, MultiTurnLoss::default())
        .unwrap_err();
    assert!(err.message().contains("record has no assistant turn to project"));
}

#[test]
fn preference_pairs_on_shared_prompt_hash() {
    let chosen = record("a", "h1", "96", "good cot", 0.9);
    let rejected = record("b", "h1", "97", "bad cot", 0.3);
    let pref = project_preference(&chosen, &rejected, CotPolicy::Supervised).unwrap();
    assert_eq!(pref.prompt_hash, "h1");
    assert_eq!(pref.chosen.content, "96");
    assert_eq!(pref.rejected.content, "97");
    assert_eq!(pref.chosen.reasoning.as_deref(), Some("good cot"));
    assert_eq!(pref.chosen.aggregate.map(|d| f64::from_bits(d.bits)), Some(0.9));
    assert_eq!(pref.prompt.len(), 1);
    assert_eq!(pref.prompt[0].role, Role::User);
}

#[test]
fn preference_stripped_drops_reasoning() {
    let chosen = record("a", "h1", "96", "good cot", 0.9);
    let rejected = record("b", "h1", "97", "bad cot", 0.3);
    let pref = project_preference(&chosen, &rejected, CotPolicy::Stripped).unwrap();
    assert!(pref.chosen.reasoning.is_none());
    assert!(pref.rejected.reasoning.is_none());
}

#[test]
fn preference_mismatched_prompt_hash_errors() {
    let chosen = record("a", "h1", "96", "c", 0.9);
    let rejected = record("b", "h2", "97", "c", 0.3);
    assert!(matches!(
        project_preference(&chosen, &rejected, CotPolicy::Supervised),
        Err(FormatError::Projection(_))
    ));
}

#[test]
fn preference_errors_name_hashes_and_records() {
    let chosen = record("a", "h\"1", "96", "c", 0.9);
    let rejected = record("b", "h2", "97", "c", 0.3);
    let err = project_preference(&chosen, &rejected, CotPolicy::Supervised).unwrap_err();
    assert!(
        err.message().contains(r#"(chosen="h\"1", rejected="h2")"#),
        "{}",
        err.message()
    );
    let unhashed = record("a", "", "96", "c", 0.9);
    let other = record("b", "", "97", "c", 0.3);
    assert!(project_preference(&unhashed, &other, CotPolicy::Supervised).is_err());
    let mut silent = record("silent-one", "h1", "96", "c", 0.9);
    silent.messages.truncate(1);
    let good = record("b", "h1", "97", "c", 0.3);
    let err = project_preference(&good, &silent, CotPolicy::Supervised).unwrap_err();
    assert!(err.message().contains("record silent-one has no assistant turn"));
}

#[test]
fn preference_takes_the_last_answer_of_each_record() {
    let mut chosen = two_turn_record();
    chosen.messages.push(m(Role::User, "trailing", None));
    let rejected = record("b", "h1", "97", "c", 0.3);
    let pref = project_preference(&chosen, &rejected, CotPolicy::Masked).unwrap();
    assert_eq!(pref.chosen.content, "second");
    assert_eq!(pref.chosen.reasoning.as_deref(), Some("r2"));
    assert_eq!(pref.prompt.len(), 3);
    assert_eq!(pref.chosen.record_id, "a");
    assert_eq!(pref.rejected.record_id, "b");
}

fn two_turn_record() -> TrainingRecord {
    let mut rec = record("a", "h1", "first", "r1", 0.9);
    rec.messages = vec![
        m(Role::User, "q1", None),
        m(Role::Assistant, "first", Some("r1")),
        m(Role::User, "q2", None),
        m(Role::Assistant, "second", Some("r2")),
    ];
    rec
}

#[test]
fn sft_prompt_completion_all_assistant_multi_turn_errors() {
    let rec = two_turn_record();
    let err = project_sft(
        &rec,
        TrlFormat::TrlPromptCompletion,
        CotPolicy::Supervised,
        MultiTurnLoss::AllAssistant,
    )
    .unwrap_err();
    assert!(matches!(err, FormatError::Projection(_)));
    assert!(err.message().contains("final assistant turn"));
    assert!(err.message().contains("with 2 assistant turns"));
}

#[test]
fn sft_prompt_completion_final_turn_only_multi_turn_ok() {
    let rec = two_turn_record();
    let p = project_sft(
        &rec,
        TrlFormat::TrlPromptCompletion,
        CotPolicy::Supervised,
        MultiTurnLoss::FinalTurnOnly,
    )
    .unwrap();
    let v = value(&p.rendered);
    assert_eq!(v["prompt"].as_array().unwrap().len(), 3);
    assert_eq!(v["completion"].as_array().unwrap().len(), 1);
}

#[test]
fn sft_conversational_all_assistant_multi_turn_ok() {
    let rec = two_turn_record();
    assert!(project_sft(
        &rec,
        TrlFormat::OpenAiMessages,
        CotPolicy::Supervised,
        MultiTurnLoss::AllAssistant,
    )
    .is_ok());
}

#[test]
fn sft_projection_fails_closed_on_a_tool_trajectory_for_a_dropping_target() {
    let mut rec = record("a", "h1", "96", "12*8", 0.9);
    rec.messages = vec![
        m(Role::User, "read two regions", None),
        Message {
            role: Role::Assistant,
            content: Content::Null,
            reasoning: Some("two reads".into()),
            reasoning_details: None,
            tool_calls: Some(vec![ToolCall {
                id: Some("read-a".into()),
                function: FunctionCall {
                    name: "read_file".into(),
                    arguments: json(r#"{"start_line": 1}"#),
                    raw_arguments: None,
                },
            }]),
            tool_call_id: None,
            name: None,
        },
        Message {
            role: Role::Tool,
            content: Content::Text("ok".into()),
            reasoning: None,
            reasoning_details: None,
            tool_calls: None,
            tool_call_id: Some("read-a".into()),
            name: Some("read_file".into()),
        },
        m(Role::Assistant, "the second read failed", Some("report it")),
    ];
    for target in [TrlFormat::Gemma4, TrlFormat::ChatML, TrlFormat::ShareGpt, TrlFormat::Harmony] {
        let err =
            project_sft(&rec, target, CotPolicy::Supervised, MultiTurnLoss::AllAssistant)
                .unwrap_err();
        assert!(
            matches!(
                err,
                FormatError::UnsupportedToolCalls { target: t, ref signals, index: 1, .. }
                    if t == target
                        && signals.contains(&ToolSignal::ToolCalls)
                        && signals.contains(&ToolSignal::ToolRole)
            ),
            "{target:?}: {err:?}"
        );
    }
    assert!(project_sft(
        &rec,
        TrlFormat::OpenAiMessages,
        CotPolicy::Supervised,
        MultiTurnLoss::AllAssistant,
    )
    .is_ok());
}
