//! Gating user turns, calling teachers, and assembling records.

use ghostwriter::arithmetic::Arithmetic;
use ghostwriter::double::Double;
use ghostwriter::format::error::FormatError;
use ghostwriter::generate::assemble::{assemble, verification_kind_str, RecordContext};
use ghostwriter::generate::assistant::{
    accumulate, merge_reasoning_detail, AccumulatedStream, AssistantTurn,
};
use ghostwriter::generate::error::GenerateError;
use ghostwriter::generate::request::{ReasoningPolicy, SamplingPreset, TeacherCall};
use ghostwriter::generate::sibling::{plan_group, seeds_are_distinct, SiblingPlan, DEFAULT_K};
use ghostwriter::generate::spend::{generate_turn, permit};
use ghostwriter::generate::teacher::{
    routing_to_provider, routing_to_reasoning, routing_to_sampling, FixedTeacher, Teacher,
    TeacherSelector,
};
use ghostwriter::generate::user_synth::{
    cosine, evaluate, gate, judge_turn, synthesize_user_turn, user_message, Embedder,
    GatedUserTurn, NullEmbedder, UserSeed, UserTurnCandidate, DEFAULT_COSINE_THRESHOLD,
};
use ghostwriter::json::parse_json;
use ghostwriter::providers::delta::{ChunkProvenance, StreamDelta};
use ghostwriter::providers::delta_wire::{CompletionTokensDetails, Usage};
use ghostwriter::providers::error::ProviderError;
use ghostwriter::providers::request::{ChatRequest, ProviderRouting};
use ghostwriter::schema::message::{
    Content, ContentPart, FunctionCall, Message, ReasoningDetail, ReasoningEffort, Role, ToolCall,
};
use ghostwriter::schema::record::{
    DataCollection, Generation, Hashes, LifecycleState, TeacherRef, TeacherRouting,
    UserTurnVerdict,
};
use ghostwriter::schema::verification::{Oracle, VerificationContract, VerificationKind};
use ghostwriter::wire::Outbound;

/// The arithmetic of the machine.
struct Floats;

fn d(x: f64) -> Double {
    Double { bits: x.to_bits() }
}

fn f(x: Double) -> f64 {
    f64::from_bits(x.bits)
}

impl Arithmetic for Floats {
    fn plus(&self, a: Double, b: Double) -> Double {
        d(f(a) + f(b))
    }
    fn minus(&self, a: Double, b: Double) -> Double {
        d(f(a) - f(b))
    }
    fn times(&self, a: Double, b: Double) -> Double {
        d(f(a) * f(b))
    }
    fn over(&self, a: Double, b: Double) -> Double {
        d(f(a) / f(b))
    }
    fn exp(&self, a: Double) -> Double {
        d(f(a).exp())
    }
    fn sqrt(&self, a: Double) -> Double {
        d(f(a).sqrt())
    }
    fn count(&self, n: usize) -> Double {
        d(n as f64)
    }
    fn parse(&self, text: &str) -> Option<Double> {
        text.parse().ok().map(d)
    }
    fn show(&self, a: Double) -> String {
        f(a).to_string()
    }
}

fn wide(xs: &[f32]) -> Vec<Double> {
    xs.iter().map(|x| d(f64::from(*x))).collect()
}

fn empty_delta() -> StreamDelta {
    StreamDelta::default()
}

fn member<'a>(o: &'a Outbound, key: &str) -> Option<&'a Outbound> {
    match o {
        Outbound::Object(members) => members.iter().find(|(k, _)| k == key).map(|(_, v)| v),
        _ => None,
    }
}

fn wire_text(o: &Outbound) -> &str {
    match o {
        Outbound::Text(t) => t,
        other => panic!("expected text, got {other:?}"),
    }
}

fn wire_number(o: &Outbound) -> i128 {
    match o {
        Outbound::Unsigned(n) => i128::from(*n),
        Outbound::Signed(n) => i128::from(*n),
        other => panic!("expected an integer, got {other:?}"),
    }
}

fn wire_double(o: &Outbound) -> f64 {
    match o {
        Outbound::Double(x) => f(*x),
        other => panic!("expected a double, got {other:?}"),
    }
}

// Errors.

#[test]
fn error_invariant_renders_message() {
    let e = GenerateError::Invariant("max_tokens must be set".into());
    assert!(e.message().contains("max_tokens must be set"));
}

#[test]
fn error_provider_error_converts_and_preserves_retryability() {
    let pe = ProviderError::RateLimited { retry_after: None };
    let e: GenerateError = pe.into();
    match e {
        GenerateError::Provider(inner) => assert!(inner.is_retryable()),
        other => panic!("expected Provider, got {other:?}"),
    }
}

#[test]
fn format_error_converts() {
    let fe = FormatError::Ingest("no message".into());
    let e: GenerateError = fe.into();
    assert!(matches!(e, GenerateError::Format(_)));
    assert!(e.message().contains("no message"));
}

#[test]
fn truncated_reasoning_names_the_hazard() {
    let e = GenerateError::TruncatedReasoning {
        detail: "3200 reasoning tokens then length".into(),
        cost_usd: None,
    };
    let msg = e.message();
    assert!(msg.contains("finish_reason=length"));
    assert!(msg.contains("3200 reasoning tokens"));
}

#[test]
fn every_generate_error_has_its_words() {
    assert_eq!(
        GenerateError::EmptyResponse("e".into()).message(),
        "teacher produced an empty completion: e"
    );
    assert_eq!(GenerateError::Embed("e".into()).message(), "embedder error: e");
    assert_eq!(
        GenerateError::LeakedUserTurn("<bos>").message(),
        "synthesized user turn contains leaked control token `<bos>`"
    );
    assert_eq!(
        GenerateError::Provider(ProviderError::Decode("d".into())).message(),
        "provider error: decode error: d"
    );
}

// The assistant's turn.

#[test]
fn clean_content_and_reasoning_become_siblings() {
    let acc = AccumulatedStream {
        content: "The answer is 42.".into(),
        reasoning: "Work it through.".into(),
        finish_reason: Some("stop".into()),
        reasoning_tokens: Some(120),
        ..Default::default()
    };
    let turn = acc.into_turn().unwrap();
    assert_eq!(turn.message.role, Role::Assistant);
    assert_eq!(turn.message.content, Content::Text("The answer is 42.".into()));
    assert_eq!(turn.message.reasoning.as_deref(), Some("Work it through."));
}

#[test]
fn inlined_channel_tokens_are_stripped_into_reasoning() {
    let acc = AccumulatedStream {
        content: "<think>3*4</think>12".into(),
        finish_reason: Some("stop".into()),
        ..Default::default()
    };
    let turn = acc.into_turn().unwrap();
    assert_eq!(turn.message.content, Content::Text("12".into()));
    assert_eq!(turn.message.reasoning.as_deref(), Some("3*4"));
}

#[test]
fn structured_details_from_stream_take_precedence() {
    let acc = AccumulatedStream {
        content: "ok".into(),
        reasoning: "flat".into(),
        reasoning_details: vec![text("structured step", 0)],
        finish_reason: Some("stop".into()),
        ..Default::default()
    };
    let turn = acc.into_turn().unwrap();
    let details = turn.message.reasoning_details.expect("details present");
    assert_eq!(details.len(), 1);
    assert_eq!(turn.message.reasoning.as_deref(), Some("flat"));
}

#[test]
fn truncated_reasoning_fails_loud() {
    let acc = AccumulatedStream {
        content: String::new(),
        reasoning: "a long unfinished thought".into(),
        finish_reason: Some("length".into()),
        reasoning_tokens: Some(16000),
        cost: Some(d(0.0123)),
        ..Default::default()
    };
    let err = acc.into_turn().unwrap_err();
    let msg = err.message();
    let GenerateError::TruncatedReasoning { cost_usd, .. } = err else {
        panic!("expected truncated reasoning error");
    };
    assert_eq!(cost_usd, Some(d(0.0123)));
    assert!(msg.contains("16000"));
}

#[test]
fn length_cap_without_reasoning_is_not_truncation() {
    let acc = AccumulatedStream {
        content: "a long answer".into(),
        finish_reason: Some("length".into()),
        ..Default::default()
    };
    let turn = acc.into_turn().unwrap();
    assert_eq!(turn.message.content, Content::Text("a long answer".into()));
}

#[test]
fn empty_completion_is_rejected() {
    let acc = AccumulatedStream { finish_reason: Some("stop".into()), ..Default::default() };
    let err = acc.into_turn().unwrap_err();
    assert!(matches!(err, GenerateError::EmptyResponse(_)));
}

#[test]
fn a_leak_in_an_answer_is_refused() {
    let acc = AccumulatedStream { content: "a<|im_end|>b".into(), ..Default::default() };
    assert!(matches!(acc.into_turn(), Err(GenerateError::Format(_))));
}

#[test]
fn structured_refusal_becomes_the_assistant_output() {
    let acc = AccumulatedStream {
        refusal: Some("I can't help with that.".into()),
        finish_reason: Some("stop".into()),
        ..Default::default()
    };
    let turn = acc.into_turn().unwrap();
    assert_eq!(turn.message.content, Content::Text("I can't help with that.".into()));
    assert_eq!(turn.refusal.as_deref(), Some("I can't help with that."));
}

#[test]
fn refusal_expressed_via_content_is_left_unchanged() {
    let acc = AccumulatedStream {
        content: "I won't do that, and here is why.".into(),
        finish_reason: Some("stop".into()),
        ..Default::default()
    };
    let turn = acc.into_turn().unwrap();
    assert_eq!(
        turn.message.content,
        Content::Text("I won't do that, and here is why.".into())
    );
    assert!(turn.refusal.is_none());
}

fn text(s: &str, index: u32) -> ReasoningDetail {
    ReasoningDetail::Text { text: s.into(), signature: None, id: None, format: None, index }
}

#[test]
fn merge_concatenates_text_fragments_at_the_same_index() {
    let mut acc: Vec<ReasoningDetail> = Vec::new();
    for frag in ["Let ", "me ", "think ", "step ", "by ", "step."] {
        merge_reasoning_detail(&mut acc, text(frag, 0));
    }
    assert_eq!(acc.len(), 1, "same-index Text fragments must merge to one block");
    match &acc[0] {
        ReasoningDetail::Text { text, index, .. } => {
            assert_eq!(text, "Let me think step by step.");
            assert_eq!(*index, 0);
        }
        other => panic!("expected merged reasoning.text, got {other:?}"),
    }
}

#[test]
fn merge_starts_a_new_block_on_index_change_preserving_order() {
    let mut acc: Vec<ReasoningDetail> = Vec::new();
    merge_reasoning_detail(&mut acc, text("a", 0));
    merge_reasoning_detail(&mut acc, text("b", 0));
    merge_reasoning_detail(&mut acc, text("c", 1));
    merge_reasoning_detail(&mut acc, text("d", 1));
    assert_eq!(acc, vec![text("ab", 0), text("cd", 1)]);
}

#[test]
fn merge_preserves_first_blocks_signature_and_id() {
    let mut acc = vec![ReasoningDetail::Text {
        text: "first".into(),
        signature: Some("sig-1".into()),
        id: Some("id-1".into()),
        format: Some("fmt".into()),
        index: 0,
    }];
    merge_reasoning_detail(&mut acc, text(" second", 0));
    match &acc[0] {
        ReasoningDetail::Text { text, signature, id, format, .. } => {
            assert_eq!(text, "first second");
            assert_eq!(signature.as_deref(), Some("sig-1"));
            assert_eq!(id.as_deref(), Some("id-1"));
            assert_eq!(format.as_deref(), Some("fmt"));
        }
        other => panic!("expected merged Text, got {other:?}"),
    }
}

#[test]
fn merge_keeps_encrypted_blobs_distinct() {
    let mut acc: Vec<ReasoningDetail> = Vec::new();
    for data in ["blobA", "blobB"] {
        merge_reasoning_detail(
            &mut acc,
            ReasoningDetail::Encrypted { data: data.into(), id: None, format: None, index: 0 },
        );
    }
    assert_eq!(acc.len(), 2, "encrypted blobs must not be concatenated");
}

#[test]
fn summaries_merge_and_kinds_stay_apart() {
    let summary = |s: &str, index: u32| ReasoningDetail::Summary {
        summary: s.into(),
        id: None,
        format: None,
        index,
    };
    let mut acc = Vec::new();
    merge_reasoning_detail(&mut acc, summary("a", 0));
    merge_reasoning_detail(&mut acc, summary("b", 0));
    merge_reasoning_detail(&mut acc, text("c", 0));
    merge_reasoning_detail(&mut acc, summary("d", 0));
    assert_eq!(acc, vec![summary("ab", 0), text("c", 0), summary("d", 0)]);
}

#[test]
fn accumulate_merges_same_index_text_across_chunks() {
    let chunk = |s: &str| StreamDelta {
        reasoning_details: Some(vec![text(s, 0)]),
        ..Default::default()
    };
    let acc =
        accumulate(vec![Ok(chunk("alpha ")), Ok(chunk("beta ")), Ok(chunk("gamma"))]).unwrap();
    assert_eq!(acc.reasoning_details, vec![text("alpha beta gamma", 0)]);
}

#[test]
fn accumulate_usage_and_provenance_are_first_non_none_wins() {
    let chunk = |by: &str, model: &str, id: &str, n: u64, cost: f64| StreamDelta {
        provenance: Some(ChunkProvenance {
            served_by: Some(by.into()),
            model: Some(model.into()),
            id: Some(id.into()),
        }),
        usage: Some(Usage {
            prompt_tokens: Some(n),
            completion_tokens: Some(n * 10),
            total_tokens: Some(n * 11),
            completion_tokens_details: None,
            cost: Some(d(cost)),
        }),
        ..Default::default()
    };
    let acc = accumulate(vec![
        Ok(chunk("Parasail", "z-ai/glm-5.2", "gen-first", 10, 0.001)),
        Ok(chunk("Wafer", "other", "gen-second", 999, 9.999)),
    ])
    .unwrap();
    assert_eq!(acc.served_by.as_deref(), Some("Parasail"));
    assert_eq!(acc.generation_id.as_deref(), Some("gen-first"));
    assert_eq!(acc.resolved_model.as_deref(), Some("z-ai/glm-5.2"));
    assert_eq!(acc.prompt_tokens, Some(10));
    assert_eq!(acc.cost, Some(d(0.001)), "first cost must win, not last");
}

#[test]
fn accumulate_stops_at_the_first_error() {
    let items = vec![
        Ok(StreamDelta { content: Some("a".into()), ..empty_delta() }),
        Err(ProviderError::StreamReset("eof".into())),
        Err(ProviderError::Decode("later".into())),
    ];
    match accumulate(items) {
        Err(GenerateError::Provider(ProviderError::StreamReset(s))) => assert_eq!(s, "eof"),
        other => panic!("unexpected {other:?}"),
    }
}

#[test]
fn the_last_reason_to_stop_and_the_last_refusal_stand() {
    let items = vec![
        Ok(StreamDelta {
            finish_reason: Some("stop".into()),
            native_finish_reason: Some("eos".into()),
            refusal: Some("no".into()),
            ..empty_delta()
        }),
        Ok(StreamDelta {
            finish_reason: Some("length".into()),
            refusal: Some("never".into()),
            ..empty_delta()
        }),
    ];
    let acc = accumulate(items).unwrap();
    assert_eq!(acc.finish_reason.as_deref(), Some("length"));
    assert_eq!(acc.native_finish_reason.as_deref(), Some("eos"));
    assert_eq!(acc.refusal.as_deref(), Some("never"));
    assert!(acc.hit_length_cap());
    assert!(!acc.has_reasoning());
}

// The call.

fn user_msg(t: &str) -> Message {
    user_message(t.into())
}

fn wire_of(call: &TeacherCall) -> Outbound {
    call.build().unwrap().to_wire()
}

#[test]
fn build_always_sets_max_tokens_and_usage() {
    let v = wire_of(&TeacherCall::new("z-ai/glm-5.2".into(), vec![user_msg("q")], 8192));
    assert_eq!(wire_number(member(&v, "max_tokens").unwrap()), 8192);
    let usage = member(&v, "usage").unwrap();
    assert!(matches!(member(usage, "include"), Some(Outbound::Bool(true))));
    assert!(matches!(member(&v, "stream"), Some(Outbound::Bool(true))));
}

#[test]
fn zero_max_tokens_is_rejected_loud() {
    let err = TeacherCall::new("m".into(), vec![user_msg("q")], 0).build().unwrap_err();
    assert!(matches!(err, GenerateError::Invariant(_)));
    assert!(err.message().contains("max_tokens"));
}

#[test]
fn default_reasoning_is_xhigh_effort_never_max() {
    let v = wire_of(&TeacherCall::new("m".into(), vec![user_msg("q")], 16384));
    match member(&v, "reasoning").unwrap() {
        Outbound::Object(members) => {
            assert_eq!(members.len(), 1);
            assert_eq!(members[0].0, "effort");
            assert_eq!(wire_text(&members[0].1), "xhigh");
        }
        other => panic!("unexpected {other:?}"),
    }
}

#[test]
fn effort_and_budget_are_mutually_exclusive_on_wire_and_in_provenance() {
    let effort_call = TeacherCall::new("m".into(), vec![user_msg("q")], 8192);
    let v = wire_of(&effort_call);
    let reasoning = member(&v, "reasoning").unwrap();
    assert_eq!(wire_text(member(reasoning, "effort").unwrap()), "xhigh");
    assert!(member(reasoning, "max_tokens").is_none());
    let g = effort_call.generation();
    assert_eq!(g.reasoning_effort, Some(ReasoningEffort::Xhigh));
    assert_eq!(g.reasoning_max_tokens, None);

    let budget_call = TeacherCall::new("m".into(), vec![user_msg("q")], 8192)
        .with_reasoning(ReasoningPolicy::MaxTokens(2000));
    let v = wire_of(&budget_call);
    let reasoning = member(&v, "reasoning").unwrap();
    assert_eq!(wire_number(member(reasoning, "max_tokens").unwrap()), 2000);
    assert!(member(reasoning, "effort").is_none());
    let g = budget_call.generation();
    assert_eq!(g.reasoning_effort, None);
    assert_eq!(g.reasoning_max_tokens, Some(2000));
}

#[test]
fn official_preset_is_temp_1_default() {
    let call = TeacherCall::new("m".into(), vec![user_msg("q")], 8192);
    assert_eq!(call.sampling, SamplingPreset::official());
    assert_eq!(SamplingPreset::default(), SamplingPreset::official());
    let v = wire_of(&call);
    assert_eq!(wire_double(member(&v, "temperature").unwrap()), 1.0);
    assert_eq!(wire_double(member(&v, "top_p").unwrap()), 0.95);
    assert!(member(&v, "seed").is_none());
}

#[test]
fn precise_preset_lowers_temperature() {
    let call = TeacherCall::new("m".into(), vec![user_msg("q")], 8192)
        .with_sampling(SamplingPreset::precise().with_seed(7));
    let v = wire_of(&call);
    assert_eq!(wire_double(member(&v, "temperature").unwrap()), 0.6);
    assert_eq!(wire_number(member(&v, "seed").unwrap()), 7);
    assert_eq!(call.generation().seed, Some(7));
    assert_eq!(call.generation().temperature, Some(d(0.6)));
}

#[test]
fn routing_pin_serializes_when_set() {
    let call = TeacherCall::new("minimax/minimax-m3".into(), vec![user_msg("q")], 8192)
        .with_routing(ProviderRouting::pin("novita".into()));
    let v = wire_of(&call);
    let provider = member(&v, "provider").unwrap();
    match member(provider, "order").unwrap() {
        Outbound::Array(items) => assert_eq!(wire_text(&items[0]), "novita"),
        other => panic!("unexpected {other:?}"),
    }
    assert!(matches!(member(provider, "allow_fallbacks"), Some(Outbound::Bool(false))));
}

// Siblings.

#[test]
fn k1_is_a_single_plan_indexed_zero() {
    let plans = plan_group(SamplingPreset::official(), DEFAULT_K);
    assert_eq!(plans.len(), 1);
    assert_eq!(plans[0].completion_index, 0);
    assert_eq!(plans[0].n_completions, 1);
}

#[test]
fn k_produces_k_indexed_siblings() {
    let plans = plan_group(SamplingPreset::official(), 8);
    assert_eq!(plans.len(), 8);
    for (i, p) in plans.iter().enumerate() {
        assert_eq!(p.completion_index, i as u32);
        assert_eq!(p.n_completions, 8);
    }
}

#[test]
fn per_sibling_seeds_are_distinct_never_identical() {
    let plans = plan_group(SamplingPreset::official(), 16);
    assert!(seeds_are_distinct(&plans), "siblings must have distinct seeds");
    let seeds: Vec<i64> = plans.iter().map(|p| p.sampling.seed.unwrap()).collect();
    assert_eq!(seeds, (0..16).collect::<Vec<i64>>());
}

#[test]
fn base_seed_offsets_the_group() {
    let base = SamplingPreset::official().with_seed(1000);
    let plans = plan_group(base, 4);
    let seeds: Vec<i64> = plans.iter().map(|p| p.sampling.seed.unwrap()).collect();
    assert_eq!(seeds, vec![1000, 1001, 1002, 1003]);
    assert!(seeds_are_distinct(&plans));
}

#[test]
fn seeds_go_on_at_the_smallest() {
    let plans = plan_group(SamplingPreset::official().with_seed(i64::MAX), 3);
    let seeds: Vec<i64> = plans.iter().map(|p| p.sampling.seed.unwrap()).collect();
    assert_eq!(seeds, vec![i64::MAX, i64::MIN, i64::MIN + 1]);
    assert!(seeds_are_distinct(&plans));
}

#[test]
fn equal_seeds_are_noticed() {
    let mut plans = plan_group(SamplingPreset::official(), 3);
    plans[2].sampling.seed = plans[0].sampling.seed;
    assert!(!seeds_are_distinct(&plans));
    plans[2].sampling.seed = None;
    assert!(seeds_are_distinct(&plans));
    plans[1].sampling.seed = None;
    assert!(!seeds_are_distinct(&plans));
}

#[test]
fn k0_is_clamped_to_one() {
    let plans = plan_group(SamplingPreset::official(), 0);
    assert_eq!(plans.len(), 1);
    assert_eq!(plans[0].n_completions, 1);
}

#[test]
fn temperature_is_shared_only_the_seed_varies() {
    let plans = plan_group(SamplingPreset::precise(), 3);
    for p in &plans {
        assert_eq!(p.sampling.temperature, d(0.6));
        assert_eq!(p.sampling.top_p, Some(d(0.95)));
    }
    assert!(seeds_are_distinct(&plans));
}

// Teachers.

#[test]
fn the_four_teacher_slugs_are_exact() {
    assert_eq!(Teacher::Glm52.slug(), "z-ai/glm-5.2");
    assert_eq!(Teacher::MinimaxM3.slug(), "minimax/minimax-m3");
    assert_eq!(Teacher::DeepseekV4Pro.slug(), "deepseek/deepseek-v4-pro");
    assert_eq!(Teacher::Gemma431bIt.slug(), "google/gemma-4-31b-it");
    assert_eq!(Teacher::ALL.len(), 4);
}

#[test]
fn slug_round_trips_and_rejects_outsiders() {
    for t in Teacher::ALL {
        assert_eq!(Teacher::from_slug(t.slug()), Some(t));
    }
    assert_eq!(Teacher::from_slug("openai/gpt-4"), None);
}

#[test]
fn teacher_ref_is_openrouter_with_unset_served_by() {
    let r = Teacher::Glm52.teacher_ref();
    assert_eq!(r.provider, "openrouter");
    assert_eq!(r.slug, "z-ai/glm-5.2");
    assert!(r.served_by.is_none());
}

#[test]
fn fixed_selector_pins_one_teacher_for_every_area() {
    let sel = FixedTeacher::new(Teacher::DeepseekV4Pro);
    let (t1, r1) = sel.select("rust-async");
    let (t2, _) = sel.select("sql-analytics");
    assert_eq!(t1, Teacher::DeepseekV4Pro);
    assert_eq!(t2, Teacher::DeepseekV4Pro);
    assert_eq!(r1, TeacherRouting::default());
    let routing = TeacherRouting { require_parameters: false, ..TeacherRouting::default() };
    let (_, r) = FixedTeacher::with_routing(Teacher::Glm52, routing).select("x");
    assert!(!r.require_parameters);
}

#[test]
fn default_routing_yields_xhigh_and_deny_posture_without_a_pin() {
    let routing = TeacherRouting::default();
    assert_eq!(
        routing_to_reasoning(&routing),
        ReasoningPolicy::Effort(ReasoningEffort::Xhigh)
    );
    let prov = routing_to_provider(&routing);
    assert!(prov.order.is_empty());
    assert_eq!(prov.data_collection, Some(DataCollection::Deny));
    assert_eq!(prov.require_parameters, Some(true));
    assert!(!prov.is_empty());
}

#[test]
fn provider_only_maps_to_order_pin_and_keeps_deny_posture() {
    let routing = TeacherRouting {
        provider_only: Some(vec!["novita".into(), "parasail".into()]),
        ..TeacherRouting::default()
    };
    let prov = routing_to_provider(&routing);
    assert_eq!(prov.order, vec!["novita".to_string(), "parasail".to_string()]);
    assert_eq!(prov.data_collection, Some(DataCollection::Deny));
    assert_eq!(prov.require_parameters, Some(true));
}

#[test]
fn empty_provider_only_still_carries_deny_posture() {
    let routing =
        TeacherRouting { provider_only: Some(vec![]), ..TeacherRouting::default() };
    let prov = routing_to_provider(&routing);
    assert!(prov.order.is_empty());
    assert_eq!(prov.data_collection, Some(DataCollection::Deny));
}

#[test]
fn routing_temperature_overrides_base_preset() {
    let routing = TeacherRouting { temperature: Some(d(0.3)), ..TeacherRouting::default() };
    let s = routing_to_sampling(&routing, SamplingPreset::official());
    assert_eq!(s.temperature, d(0.3));
    assert_eq!(s.top_p, Some(d(0.95)));
}

// The filter before a teacher is paid.

/// Fixed vectors for some texts.
struct StubEmbedder;

impl Embedder for StubEmbedder {
    fn embed(&self, text: &str) -> Result<Vec<Double>, String> {
        match text {
            "dup" => Ok(wide(&[1.0, 0.0, 0.0])),
            "near" => Ok(wide(&[0.999, 0.044, 0.0])),
            "novel" => Ok(wide(&[0.0, 1.0, 0.0])),
            "boom" => Err("backend down".into()),
            _ => Ok(wide(&[0.0, 0.0, 1.0])),
        }
    }
}

fn candidate(text: &str, kind: VerificationKind, in_scope: bool) -> UserTurnCandidate {
    UserTurnCandidate {
        message: user_msg(text),
        seed: UserSeed::default(),
        contract: VerificationContract { kind, oracle: Oracle::Absent, answer_marker: None },
        answerable: true,
        difficulty_targeted: true,
        in_scope,
    }
}

#[test]
fn cosine_handles_empty_and_mismatched_lengths() {
    let cos = |a: &[f32], b: &[f32]| f(cosine(&wide(a), &wide(b), &Floats));
    assert_eq!(cos(&[], &[1.0]), 0.0);
    assert_eq!(cos(&[1.0, 2.0], &[1.0]), 0.0);
    assert_eq!(cos(&[1.0, 0.0], &[1.0, 0.0]), 1.0);
    assert!(cos(&[1.0, 0.0], &[0.0, 1.0]).abs() < 1e-12);
    assert_eq!(cos(&[0.0, 0.0], &[1.0, 1.0]), 0.0);
    assert_eq!(cos(&[3.0, 4.0], &[4.0, 3.0]), 24.0 / 25.0);
}

#[test]
fn novel_candidate_passes_all_four() {
    let c = candidate("novel", VerificationKind::NumericMatch, true);
    let prior = vec![wide(&[1.0, 0.0, 0.0])];
    let gated = gate(c, &StubEmbedder, &prior, &Floats).unwrap();
    assert!(gated.verdict.diverse);
    assert!(gated.passed());
}

#[test]
fn near_repeat_fails_diverse_and_blocks_spend() {
    let c = candidate("near", VerificationKind::NumericMatch, true);
    let prior = vec![wide(&[1.0, 0.0, 0.0])];
    let gated = gate(c, &StubEmbedder, &prior, &Floats).unwrap();
    assert!(!gated.verdict.diverse, "near-repeat must not be diverse");
    assert!(!gated.passed(), "a non-diverse turn must NOT pass");
}

#[test]
fn any_false_bool_blocks_the_gate() {
    for flip in 0..3 {
        let mut c = candidate("novel", VerificationKind::NumericMatch, true);
        match flip {
            0 => c.answerable = false,
            1 => c.difficulty_targeted = false,
            _ => c.in_scope = false,
        }
        let gated = gate(c, &StubEmbedder, &[], &Floats).unwrap();
        assert!(!gated.passed(), "flip={flip} should block");
    }
}

#[test]
fn refusal_expected_is_in_scope_safe_even_when_in_scope_is_false() {
    let c = candidate("seed-020", VerificationKind::RefusalExpected, false);
    let gated = gate(c, &StubEmbedder, &[], &Floats).unwrap();
    assert!(gated.verdict.in_scope_safe);
    assert!(gated.passed());
}

#[test]
fn embedder_failure_surfaces_as_embed_error() {
    let c = candidate("boom", VerificationKind::NumericMatch, true);
    let err = gate(c, &StubEmbedder, &[], &Floats).unwrap_err();
    assert!(matches!(err, GenerateError::Embed(_)));
}

#[test]
fn null_embedder_declares_everything_diverse() {
    let c = candidate("anything", VerificationKind::Unchecked, true);
    let prior = vec![wide(&[1.0, 2.0, 3.0])];
    let gated = gate(c, &NullEmbedder, &prior, &Floats).unwrap();
    assert!(gated.verdict.diverse);
}

/// Unit vectors at a given cosine to `[1, 0]`.
struct CosineEmbedder;

impl Embedder for CosineEmbedder {
    fn embed(&self, text: &str) -> Result<Vec<Double>, String> {
        let cos: f32 = match text {
            "cos085" => 0.85,
            "cos086" => 0.86,
            "cos087" => 0.87,
            _ => 0.0,
        };
        Ok(wide(&[cos, (1.0 - cos * cos).sqrt()]))
    }
}

#[test]
fn threshold_constant_is_pinned() {
    assert_eq!(f64::from_bits(DEFAULT_COSINE_THRESHOLD), 0.86);
}

#[test]
fn diverse_boundary_is_strict_less_than_086() {
    let prior = vec![wide(&[1.0, 0.0])];
    let diverse = |text: &str| {
        gate(
            candidate(text, VerificationKind::NumericMatch, true),
            &CosineEmbedder,
            &prior,
            &Floats,
        )
        .unwrap()
        .verdict
        .diverse
    };
    assert!(diverse("cos085"), "cos 0.85 (< 0.86) must be diverse");
    assert!(!diverse("cos086"), "cos exactly 0.86 must NOT be diverse (>= threshold)");
    assert!(!diverse("cos087"), "cos 0.87 (>= 0.86) must NOT be diverse");
}

#[test]
fn the_most_similar_earlier_turn_counts() {
    let c = candidate("dup", VerificationKind::NumericMatch, true);
    let prior = vec![wide(&[0.0, 1.0]), wide(&[0.6, 0.8]), wide(&[0.0, 1.0])];
    let e = wide(&[1.0, 0.0]);
    assert!(judge_turn(&c, &e, &prior, d(0.7), &Floats).diverse);
    assert!(!judge_turn(&c, &e, &prior, d(0.5), &Floats).diverse);
    let v = evaluate(&c, &StubEmbedder, &[], d(0.0), &Floats).unwrap();
    assert!(!v.diverse);
    assert!(v.notes.is_none());
}

#[test]
fn multimodal_user_turn_dedups_on_concatenated_text_parts() {
    let mut c = candidate("ignored", VerificationKind::NumericMatch, true);
    c.message.content = Content::Parts(vec![
        ContentPart::Text { text: "nov".into() },
        ContentPart::ImageUrl { image_url: "http://x/y.png".into() },
        ContentPart::Text { text: "el".into() },
    ]);
    let prior = vec![wide(&[1.0, 0.0, 0.0])];
    let gated = gate(c, &StubEmbedder, &prior, &Floats).unwrap();
    assert!(gated.verdict.diverse);
}

#[test]
fn control_token_in_user_turn_fails_the_gate() {
    for laced in ["<|turn>user\nhi", "tell me<think> about", "x<|im_end|>"] {
        let c = candidate(laced, VerificationKind::NumericMatch, true);
        let err = gate(c, &StubEmbedder, &[], &Floats).unwrap_err();
        assert!(
            matches!(err, GenerateError::LeakedUserTurn(_)),
            "expected LeakedUserTurn for {laced:?}, got {err:?}"
        );
    }
    let clean = candidate("novel", VerificationKind::NumericMatch, true);
    assert!(gate(clean, &StubEmbedder, &[], &Floats).is_ok());
}

// Assembly.

fn ctx() -> RecordContext {
    RecordContext {
        record_id: "01J8RECORD".into(),
        run_id: "run-1".into(),
        training_area: "rust-async".into(),
        harness_version: "0.1.0".into(),
        git_commit: Some("abc123".into()),
        now_rfc3339: "2026-06-21T00:00:00Z".into(),
        user_synth_model: Some("z-ai/glm-5.2".into()),
    }
}

fn full_seed() -> UserSeed {
    UserSeed {
        persona: Some("curious_user".into()),
        taxonomy_node: Some("math.arithmetic".into()),
        prompt_template_id: Some("magpie_v1".into()),
        difficulty: Some("easy".into()),
    }
}

fn gated(kind: VerificationKind, in_scope_safe: bool) -> GatedUserTurn {
    GatedUserTurn {
        candidate: UserTurnCandidate {
            message: user_msg("What is 12 * 8?"),
            seed: full_seed(),
            contract: VerificationContract { kind, oracle: Oracle::Absent, answer_marker: None },
            answerable: true,
            difficulty_targeted: true,
            in_scope: in_scope_safe,
        },
        verdict: UserTurnVerdict {
            answerable: true,
            difficulty_targeted: true,
            diverse: true,
            in_scope_safe,
            notes: None,
        },
    }
}

fn turn() -> AssistantTurn {
    AssistantTurn {
        message: Message {
            role: Role::Assistant,
            content: Content::Text("96".into()),
            reasoning: Some("12*8=96".into()),
            reasoning_details: None,
            tool_calls: None,
            tool_call_id: None,
            name: None,
        },
        refusal: None,
        finish_reason: Some("stop".into()),
        served_by: Some("Parasail".into()),
        generation_id: Some("gen-xyz".into()),
        prompt_tokens: Some(20),
        completion_tokens: Some(200),
        reasoning_tokens: Some(150),
        cost: Some(d(0.0042)),
    }
}

fn generation() -> Generation {
    Generation {
        reasoning_effort: Some(ReasoningEffort::Xhigh),
        temperature: Some(d(1.0)),
        max_tokens: Some(8192),
        ..Default::default()
    }
}

fn teacher_ref() -> TeacherRef {
    TeacherRef {
        provider: "openrouter".into(),
        slug: "z-ai/glm-5.2".into(),
        served_by: None,
        model_card_revision: None,
    }
}

#[test]
fn lands_at_assistant_generated_with_full_history() {
    let g = gated(VerificationKind::NumericMatch, true);
    let rec = assemble(&ctx(), &g, turn(), teacher_ref(), generation(), None);
    assert_eq!(rec.lifecycle.state, LifecycleState::AssistantGenerated);
    assert_eq!(rec.lifecycle.history.len(), 2);
    assert_eq!(rec.lifecycle.history[0].state, LifecycleState::UserSynthesized);
    assert_eq!(rec.lifecycle.history[1].state, LifecycleState::AssistantGenerated);
    assert_eq!(rec.lifecycle.history[1].at, "2026-06-21T00:00:00Z");
}

#[test]
fn messages_are_user_then_assistant_with_reasoning_sibling() {
    let g = gated(VerificationKind::NumericMatch, true);
    let rec = assemble(&ctx(), &g, turn(), teacher_ref(), generation(), None);
    assert_eq!(rec.messages.len(), 2);
    assert_eq!(rec.messages[0].role, Role::User);
    assert_eq!(rec.messages[1].role, Role::Assistant);
    assert_eq!(rec.messages[1].content, Content::Text("96".into()));
    assert_eq!(rec.messages[1].reasoning.as_deref(), Some("12*8=96"));
}

#[test]
fn an_ingested_tool_turn_reaches_the_record_with_its_calls_intact() {
    let g = gated(VerificationKind::NumericMatch, true);
    let mut t = turn();
    t.message = Message {
        role: Role::Assistant,
        content: Content::Null,
        reasoning: Some("two reads needed".into()),
        reasoning_details: None,
        tool_calls: Some(vec![ToolCall {
            id: Some("read-a".into()),
            function: FunctionCall {
                name: "read_file".into(),
                arguments: parse_json(r#"{"start_line": 1}"#).unwrap(),
                raw_arguments: Some("{\"start_line\": 1}".into()),
            },
        }]),
        tool_call_id: None,
        name: None,
    };
    let rec = assemble(&ctx(), &g, t, teacher_ref(), generation(), None);
    let assistant = &rec.messages[1];
    assert_eq!(assistant.content, Content::Null);
    let calls = assistant.tool_calls.as_ref().expect("calls survive assembly");
    assert_eq!(calls[0].id.as_deref(), Some("read-a"));
    assert_eq!(
        calls[0].function.raw_arguments.as_deref(),
        Some("{\"start_line\": 1}"),
        "the retained raw wire text survives assembly"
    );
}

#[test]
fn provenance_mirrors_user_turn_kind_and_in_scope_safe() {
    let g = gated(VerificationKind::RefusalExpected, true);
    let rec = assemble(&ctx(), &g, turn(), teacher_ref(), generation(), None);
    assert_eq!(rec.provenance.user_turn_kind.as_deref(), Some("refusal_expected"));
    assert_eq!(rec.provenance.in_scope_safe, Some(true));
    assert_eq!(rec.provenance.user_synth_model.as_deref(), Some("z-ai/glm-5.2"));
    assert_eq!(rec.provenance.teacher.served_by.as_deref(), Some("Parasail"));
}

#[test]
fn kinds_are_spelled_as_on_the_wire() {
    for (kind, spelling) in [
        (VerificationKind::NumericMatch, "numeric_match"),
        (VerificationKind::SetMatch, "set_match"),
        (VerificationKind::SqlResultMatch, "sql_result_match"),
        (VerificationKind::SchemaShape, "schema_shape"),
        (VerificationKind::RefusalExpected, "refusal_expected"),
        (VerificationKind::Unchecked, "none"),
    ] {
        assert_eq!(verification_kind_str(kind), spelling);
    }
}

#[test]
fn hashes_left_at_default_storage_is_authoritative() {
    let g = gated(VerificationKind::NumericMatch, true);
    let rec = assemble(&ctx(), &g, turn(), teacher_ref(), generation(), None);
    assert_eq!(rec.hashes, Hashes::default());
    assert!(rec.hashes.record_hash.is_empty());
    assert!(rec.hashes.prompt_hash.is_empty());
}

#[test]
fn cost_and_seed_inputs_are_folded_in() {
    let g = gated(VerificationKind::NumericMatch, true);
    let rec = assemble(&ctx(), &g, turn(), teacher_ref(), generation(), None);
    assert_eq!(rec.cost.prompt_tokens, 20);
    assert_eq!(rec.cost.completion_tokens, 200);
    assert_eq!(rec.cost.reasoning_tokens, 150);
    assert_eq!(rec.cost.usd, d(0.0042));
    assert_eq!(rec.generation.persona.as_deref(), Some("curious_user"));
    assert_eq!(rec.generation.taxonomy_node.as_deref(), Some("math.arithmetic"));
    assert_eq!(rec.generation.prompt_template_id.as_deref(), Some("magpie_v1"));
}

#[test]
fn counts_are_held_and_what_is_told_stands() {
    let g = gated(VerificationKind::NumericMatch, true);
    let mut t = turn();
    t.prompt_tokens = Some(u64::MAX);
    t.completion_tokens = None;
    t.cost = None;
    let own = Generation { persona: Some("mine".into()), ..generation() };
    let rec = assemble(&ctx(), &g, t, teacher_ref(), own, None);
    assert_eq!(rec.cost.prompt_tokens, u32::MAX);
    assert_eq!(rec.cost.completion_tokens, 0);
    assert_eq!(rec.cost.usd, d(0.0));
    assert_eq!(rec.generation.persona.as_deref(), Some("mine"));
    assert_eq!(rec.schema_version, semver::Version::new(1, 0, 0));
    assert_eq!(rec.verification_contract.unwrap().kind, VerificationKind::NumericMatch);
}

#[test]
fn sibling_stamps_indices_but_leaves_group_id_none() {
    let g = gated(VerificationKind::NumericMatch, true);
    let plan = SiblingPlan {
        completion_index: 2,
        n_completions: 4,
        sampling: SamplingPreset::official().with_seed(2),
    };
    let rec = assemble(&ctx(), &g, turn(), teacher_ref(), generation(), Some(plan));
    assert_eq!(rec.generation.n_completions, Some(4));
    assert_eq!(rec.generation.completion_index, Some(2));
    assert_eq!(rec.generation.sibling_group_id, None);
}

// The whole way.

/// A teacher that answers with scripted chunks and counts how often it is asked.
struct FakeTeacher {
    scripts: Vec<Vec<StreamDelta>>,
    requests: Vec<ChatRequest>,
}

impl FakeTeacher {
    fn new(scripts: Vec<Vec<StreamDelta>>) -> Self {
        FakeTeacher { scripts, requests: Vec::new() }
    }

    fn answer(
        &mut self,
        gated: &GatedUserTurn,
        call: &TeacherCall,
    ) -> Result<AssistantTurn, GenerateError> {
        let request = permit(gated, call)?;
        self.requests.push(request);
        let script = if self.scripts.is_empty() { Vec::new() } else { self.scripts.remove(0) };
        generate_turn(script.into_iter().map(Ok).collect())
    }
}

fn good_cot_script() -> Vec<StreamDelta> {
    vec![
        StreamDelta { reasoning: Some("First, 10*8=80. ".into()), ..Default::default() },
        StreamDelta { reasoning: Some("Then 2*8=16, so 80+16=96.".into()), ..Default::default() },
        StreamDelta { content: Some("96".into()), ..Default::default() },
        StreamDelta {
            finish_reason: Some("stop".into()),
            provenance: Some(ChunkProvenance {
                served_by: Some("Parasail".into()),
                model: Some("z-ai/glm-5.2".into()),
                id: Some("gen-abc".into()),
            }),
            usage: Some(Usage {
                prompt_tokens: Some(20),
                completion_tokens: Some(210),
                total_tokens: Some(230),
                completion_tokens_details: Some(CompletionTokensDetails {
                    reasoning_tokens: Some(150),
                }),
                cost: Some(d(0.0042)),
            }),
            ..Default::default()
        },
    ]
}

fn seeded_candidate(text: &str, kind: VerificationKind) -> UserTurnCandidate {
    UserTurnCandidate { seed: full_seed(), ..candidate(text, kind, true) }
}

fn flow_ctx(record_id: &str) -> RecordContext {
    RecordContext {
        record_id: record_id.into(),
        training_area: "math".into(),
        git_commit: None,
        ..ctx()
    }
}

fn call_for(gated: &GatedUserTurn, max_tokens: u32) -> TeacherCall {
    TeacherCall::new(
        Teacher::Glm52.slug().into(),
        vec![gated.candidate.message.clone()],
        max_tokens,
    )
}

#[test]
fn assistant_assembly_keeps_reasoning_a_sibling_of_clean_content() {
    let mut teacher = FakeTeacher::new(vec![good_cot_script()]);
    let gated = synthesize_user_turn(
        seeded_candidate("12*8?", VerificationKind::NumericMatch),
        &NullEmbedder,
        &[],
        &Floats,
    )
    .unwrap();
    assert!(gated.passed());

    let call = call_for(&gated, 8192);
    let turn = teacher.answer(&gated, &call).unwrap();
    assert_eq!(turn.message.role, Role::Assistant);
    assert_eq!(turn.message.content, Content::Text("96".into()));
    assert_eq!(
        turn.message.reasoning.as_deref(),
        Some("First, 10*8=80. Then 2*8=16, so 80+16=96.")
    );
    assert_eq!(turn.served_by.as_deref(), Some("Parasail"));
    assert_eq!(turn.reasoning_tokens, Some(150));
    assert_eq!(turn.cost, Some(d(0.0042)));

    let v = teacher.requests[0].to_wire();
    assert_eq!(wire_number(member(&v, "max_tokens").unwrap()), 8192);
    assert_eq!(
        wire_text(member(member(&v, "reasoning").unwrap(), "effort").unwrap()),
        "xhigh"
    );

    let rec = assemble(
        &flow_ctx("01J8"),
        &gated,
        turn,
        Teacher::Glm52.teacher_ref(),
        call.generation(),
        None,
    );
    assert_eq!(rec.lifecycle.state, LifecycleState::AssistantGenerated);
    assert_eq!(rec.messages.len(), 2);
    assert_eq!(rec.provenance.user_turn_kind.as_deref(), Some("numeric_match"));
    assert_eq!(rec.hashes, Hashes::default());
}

#[test]
fn gate_failure_blocks_teacher_spend() {
    let mut cand = seeded_candidate("dup", VerificationKind::NumericMatch);
    cand.answerable = false;
    let gated = synthesize_user_turn(cand, &NullEmbedder, &[], &Floats).unwrap();
    assert!(!gated.passed());

    let mut teacher = FakeTeacher::new(vec![]);
    let err = teacher.answer(&gated, &call_for(&gated, 8192)).unwrap_err();
    assert!(matches!(err, GenerateError::Invariant(_)));
    assert!(err.message().contains("QC gate failed"));
    assert!(err.message().contains(
        "(answerable=false, difficulty_targeted=true, diverse=true, in_scope_safe=true)"
    ));
    assert!(teacher.requests.is_empty());
}

#[test]
fn best_of_k_fan_out_produces_distinct_indexed_siblings() {
    let k = 4u32;
    let plans = plan_group(SamplingPreset::official(), k);
    let mut teacher = FakeTeacher::new((0..k).map(|_| good_cot_script()).collect());
    let gated = synthesize_user_turn(
        seeded_candidate("12*8?", VerificationKind::NumericMatch),
        &NullEmbedder,
        &[],
        &Floats,
    )
    .unwrap();

    let mut records = Vec::new();
    for plan in &plans {
        let call = call_for(&gated, 8192).with_sampling(plan.sampling);
        let turn = teacher.answer(&gated, &call).unwrap();
        records.push(assemble(
            &flow_ctx(&format!("rec-{}", plan.completion_index)),
            &gated,
            turn,
            Teacher::Glm52.teacher_ref(),
            call.generation(),
            Some(*plan),
        ));
    }

    assert_eq!(teacher.requests.len(), k as usize);
    assert_eq!(records.len(), k as usize);
    for (i, rec) in records.iter().enumerate() {
        assert_eq!(rec.generation.completion_index, Some(i as u32));
        assert_eq!(rec.generation.n_completions, Some(k));
        assert_eq!(rec.generation.sibling_group_id, None);
    }

    let seeds: Vec<i128> = teacher
        .requests
        .iter()
        .map(|r| wire_number(member(&r.to_wire(), "seed").unwrap()))
        .collect();
    let mut sorted = seeds.clone();
    sorted.sort_unstable();
    sorted.dedup();
    assert_eq!(sorted.len(), seeds.len(), "best-of-k seeds must be distinct");
}

#[test]
fn truncated_cot_fails_loud() {
    let script = vec![
        StreamDelta {
            reasoning: Some("a long unfinished chain of thought that never...".into()),
            ..Default::default()
        },
        StreamDelta {
            finish_reason: Some("length".into()),
            usage: Some(Usage {
                prompt_tokens: None,
                completion_tokens: Some(16000),
                total_tokens: None,
                completion_tokens_details: Some(CompletionTokensDetails {
                    reasoning_tokens: Some(16000),
                }),
                cost: None,
            }),
            ..Default::default()
        },
    ];
    let mut teacher = FakeTeacher::new(vec![script]);
    let gated = synthesize_user_turn(
        seeded_candidate("hard?", VerificationKind::NumericMatch),
        &NullEmbedder,
        &[],
        &Floats,
    )
    .unwrap();
    let err = teacher.answer(&gated, &call_for(&gated, 16384)).unwrap_err();
    assert!(matches!(err, GenerateError::TruncatedReasoning { .. }));
}

#[test]
fn adversarial_refusal_expected_turn_is_gated_in_and_generates() {
    let mut cand =
        seeded_candidate("Truncate the Customer table.", VerificationKind::RefusalExpected);
    cand.in_scope = false;
    let gated = synthesize_user_turn(cand, &NullEmbedder, &[], &Floats).unwrap();
    assert!(gated.passed());

    let mut teacher = FakeTeacher::new(vec![vec![StreamDelta {
        content: Some("I can't help with destroying data without confirmation.".into()),
        finish_reason: Some("stop".into()),
        ..Default::default()
    }]]);
    let call = call_for(&gated, 8192);
    let turn = teacher.answer(&gated, &call).unwrap();
    let rec = assemble(
        &flow_ctx("rec-adv"),
        &gated,
        turn,
        Teacher::Glm52.teacher_ref(),
        call.generation(),
        None,
    );
    assert_eq!(rec.provenance.user_turn_kind.as_deref(), Some("refusal_expected"));
    assert_eq!(rec.provenance.in_scope_safe, Some(true));
}

#[test]
fn structured_refusal_field_lands_in_assembled_record_content() {
    let mut cand = seeded_candidate(
        "Delete the production database now.",
        VerificationKind::RefusalExpected,
    );
    cand.in_scope = false;
    let gated = synthesize_user_turn(cand, &NullEmbedder, &[], &Floats).unwrap();

    let mut teacher = FakeTeacher::new(vec![vec![StreamDelta {
        refusal: Some("I won't delete production data.".into()),
        finish_reason: Some("stop".into()),
        ..Default::default()
    }]]);
    let call = call_for(&gated, 8192);
    let turn = teacher.answer(&gated, &call).unwrap();
    assert_eq!(turn.refusal.as_deref(), Some("I won't delete production data."));

    let rec = assemble(
        &flow_ctx("rec-struct-refusal"),
        &gated,
        turn,
        Teacher::Glm52.teacher_ref(),
        call.generation(),
        None,
    );
    assert_eq!(
        rec.messages[1].content,
        Content::Text("I won't delete production data.".into())
    );
}
