//! Grading: the panel, its cache, and the decision over both rails.

use ghostwriter::arithmetic::Arithmetic;
use ghostwriter::double::Double;
use ghostwriter::json::{compact_json, parse_json, Json};
use ghostwriter::judge::cache::{
    after_answer, after_lookup, cache_key, folded_rubric_key, grade_from_cache_value,
    grade_to_cache_value, require_cached_judges, verdict_token, CacheKey, Lookup,
};
use ghostwriter::judge::checks::VerifierGrade;
use ghostwriter::judge::consensus::CorrelationMatrix;
use ghostwriter::judge::decision::{Decision, DecisionReason, Verdict};
use ghostwriter::judge::error::JudgeError;
use ghostwriter::judge::grader::{rederive_verdict, AreaThresholds, GradeOutcome, HybridGrader};
use ghostwriter::judge::panel::{
    build_judge_request, extract_json, grade_completion, normalize_score, parse_grade,
    parse_verdict, require_judges, DrainedContent, Grade, JudgeSampling, JudgeScoring, PanelJudge,
    DEFAULT_JUDGE_MAX_TOKENS, DEFAULT_JUDGE_REASONING_MAX_TOKENS, MIN_JUDGE_VERDICT_TOKENS,
};
use ghostwriter::providers::delta::StreamDelta;
use ghostwriter::providers::request::{ChatRequest, ReasoningParam};
use ghostwriter::schema::judging::{Judging, Verdict as SchemaVerdict};
use ghostwriter::schema::message::ReasoningEffort;
use ghostwriter::schema::verification::Verification;
use ghostwriter::wire::Outbound;

/// The arithmetic of the machine.
struct Floats;

fn d(x: f64) -> Double {
    Double { bits: x.to_bits() }
}

fn f(x: Double) -> f64 {
    f64::from_bits(x.bits)
}

impl Arithmetic for Floats {
    fn plus(&self, a: Double, b: Double) -> Double {
        d(f(a) + f(b))
    }
    fn minus(&self, a: Double, b: Double) -> Double {
        d(f(a) - f(b))
    }
    fn times(&self, a: Double, b: Double) -> Double {
        d(f(a) * f(b))
    }
    fn over(&self, a: Double, b: Double) -> Double {
        d(f(a) / f(b))
    }
    fn exp(&self, a: Double) -> Double {
        d(f(a).exp())
    }
    fn sqrt(&self, a: Double) -> Double {
        d(f(a).sqrt())
    }
    fn count(&self, n: usize) -> Double {
        d(n as f64)
    }
    fn parse(&self, text: &str) -> Option<Double> {
        text.parse().ok().map(d)
    }
    fn show(&self, a: Double) -> String {
        f(a).to_string()
    }
}

fn grade(slug: &str, score: f64, verdict: Verdict) -> Grade {
    Grade {
        judge_model: slug.into(),
        score: d(score),
        verdict,
        confidence: d(0.5),
        meta_prediction: None,
        dimensions: None,
        rationale: None,
        raw: Json::Null,
        temperature: d(0.0),
        top_p: None,
        seed: None,
        rubric_id: None,
    }
}

fn verifier_pass() -> VerifierGrade {
    VerifierGrade {
        verdict: Verdict::Accept,
        verification: Verification {
            all_passed: true,
            ..Default::default()
        },
    }
}

fn verifier_fail() -> VerifierGrade {
    VerifierGrade {
        verdict: Verdict::Reject,
        verification: Verification {
            all_passed: false,
            ..Default::default()
        },
    }
}

fn decide(
    verifier: Option<&VerifierGrade>,
    panel: &[Grade],
    area: Option<&str>,
    r: &CorrelationMatrix,
) -> Result<GradeOutcome, JudgeError> {
    HybridGrader::new(AreaThresholds::default()).grade(verifier, panel, &[], area, r, &Floats)
}

fn again(out: &GradeOutcome, thresholds: AreaThresholds) -> Decision {
    rederive_verdict(&out.judging, thresholds, &Floats).unwrap()
}

#[test]
fn verifier_undecided_escalates_and_never_admits_on_a_high_panel() {
    let verifier = VerifierGrade {
        verdict: Verdict::Accept,
        verification: Verification {
            checks: vec![],
            all_passed: true,
            needs_review: Some("execution_evidence: undecided".into()),
        },
    };
    let panel = vec![
        grade("a", 0.99, Verdict::Accept),
        grade("b", 0.99, Verdict::Accept),
        grade("c", 0.99, Verdict::Accept),
    ];
    let r = CorrelationMatrix::uniform_offdiagonal(3, d(0.7));
    let out = decide(Some(&verifier), &panel, Some("math"), &r).unwrap();
    assert!(
        matches!(out.decision, Decision::Escalate { .. }),
        "an undecidable deterministic axis must escalate, got {:?}",
        out.decision
    );
    assert_eq!(out.judging.verdict, Some(SchemaVerdict::NeedsReview));
    assert_eq!(
        out.judging.aggregate, None,
        "no aggregate is persisted, so reconciling cannot band the score again"
    );
    assert_eq!(again(&out, AreaThresholds::default()), out.decision);
}

#[test]
fn a_plain_verifier_pass_still_hands_the_record_to_the_panel() {
    let panel = vec![
        grade("a", 0.9, Verdict::Accept),
        grade("b", 0.85, Verdict::Accept),
        grade("c", 0.88, Verdict::Accept),
    ];
    let r = CorrelationMatrix::identity(3);
    let out = decide(Some(&verifier_pass()), &panel, Some("math"), &r).unwrap();
    assert!(matches!(out.decision, Decision::Accept { .. }));
}

#[test]
fn verifier_reject_sinks_high_panel_score() {
    let panel = vec![
        grade("a", 1.0, Verdict::Accept),
        grade("b", 1.0, Verdict::Accept),
        grade("c", 1.0, Verdict::Accept),
    ];
    let r = CorrelationMatrix::identity(3);
    let out = decide(Some(&verifier_fail()), &panel, None, &r).unwrap();
    assert!(matches!(out.decision, Decision::Reject { .. }));
    assert_eq!(out.judging.verdict, Some(SchemaVerdict::Reject));
    assert_eq!(
        out.judging.verdict_reason.as_deref(),
        Some("verifier_reject")
    );
    // The votes are still recorded, but the aggregate was never trusted.
    assert_eq!(out.judging.panel.len(), 3);
    assert!(out.judging.aggregate.is_none());
}

#[test]
fn independent_high_panel_admits() {
    let panel = vec![
        grade("a", 0.9, Verdict::Accept),
        grade("b", 0.85, Verdict::Accept),
        grade("c", 0.88, Verdict::Accept),
    ];
    let r = CorrelationMatrix::identity(3);
    let out = decide(Some(&verifier_pass()), &panel, None, &r).unwrap();
    assert!(matches!(out.decision, Decision::Accept { .. }));
    assert_eq!(out.judging.verdict, Some(SchemaVerdict::Admit));
    assert!((f(out.judging.n_eff.unwrap()) - 3.0).abs() < 1e-6);
}

#[test]
fn correlated_panel_escalates_even_when_high() {
    let panel = vec![
        grade("a", 0.95, Verdict::Accept),
        grade("b", 0.95, Verdict::Accept),
        grade("c", 0.95, Verdict::Accept),
    ];
    let r = CorrelationMatrix::uniform_offdiagonal(3, d(1.0));
    let out = decide(Some(&verifier_pass()), &panel, None, &r).unwrap();
    assert!(matches!(
        out.decision,
        Decision::Escalate {
            reason: DecisionReason::CorrelatedJudges,
            ..
        }
    ));
    assert_eq!(out.judging.verdict, Some(SchemaVerdict::NeedsReview));
}

#[test]
fn below_threshold_rejects() {
    let panel = vec![
        grade("a", 0.3, Verdict::Reject),
        grade("b", 0.4, Verdict::Reject),
        grade("c", 0.2, Verdict::Reject),
    ];
    let r = CorrelationMatrix::identity(3);
    let out = decide(None, &panel, None, &r).unwrap();
    assert!(matches!(out.decision, Decision::Reject { .. }));
}

#[test]
fn revise_band_routes_to_revise() {
    let panel = vec![
        grade("a", 0.7, Verdict::Revise),
        grade("b", 0.65, Verdict::Revise),
        grade("c", 0.72, Verdict::Revise),
    ];
    let r = CorrelationMatrix::identity(3);
    let out = decide(None, &panel, None, &r).unwrap();
    assert!(matches!(out.decision, Decision::Revise { .. }));
    // A revision is transient: nothing terminal is persisted.
    assert_eq!(out.judging.verdict, None);
}

#[test]
fn all_uncertain_panel_conservatively_rejects() {
    let panel = vec![
        grade("a", 0.9, Verdict::Uncertain),
        grade("b", 0.9, Verdict::Uncertain),
        grade("c", 0.9, Verdict::Uncertain),
    ];
    let r = CorrelationMatrix::identity(3);
    let out = decide(None, &panel, None, &r).unwrap();
    assert!(matches!(
        out.decision,
        Decision::Reject {
            reason: DecisionReason::ConservativeTie
        }
    ));
    assert_eq!(out.judging.aggregate, None);
    assert_eq!(out.judging.n_eff, None);
}

#[test]
fn one_uncertain_does_not_drag_the_aggregate() {
    let panel = vec![
        grade("a", 0.9, Verdict::Accept),
        grade("b", 0.9, Verdict::Accept),
        grade("c", 0.0, Verdict::Uncertain),
    ];
    let r = CorrelationMatrix::identity(3);
    let out = decide(None, &panel, None, &r).unwrap();
    assert!(
        matches!(out.decision, Decision::Accept { .. }),
        "decisive 0.9s must still be accepted, got {:?}",
        out.decision
    );
    assert!((f(out.judging.aggregate.unwrap()) - 0.9).abs() < 1e-9);
    assert!((f(out.judging.n_eff.unwrap()) - 2.0).abs() < 1e-9);
    assert_eq!(out.judging.panel.len(), 3);
}

#[test]
fn partial_uncertain_escalates_when_too_few_decisive() {
    let panel = vec![
        grade("a", 0.95, Verdict::Accept),
        grade("b", 0.0, Verdict::Uncertain),
        grade("c", 0.0, Verdict::Uncertain),
    ];
    let r = CorrelationMatrix::identity(3);
    let out = decide(None, &panel, None, &r).unwrap();
    assert!(matches!(
        out.decision,
        Decision::Escalate {
            reason: DecisionReason::CorrelatedJudges,
            ..
        }
    ));
}

#[test]
fn conservative_tie_survives_round_trip() {
    let panel = vec![
        grade("a", 0.9, Verdict::Uncertain),
        grade("b", 0.9, Verdict::Uncertain),
    ];
    let r = CorrelationMatrix::identity(2);
    let out = decide(None, &panel, None, &r).unwrap();
    assert!(matches!(out.decision, Decision::Reject { .. }));
    let red = again(&out, AreaThresholds::default());
    assert!(
        matches!(red, Decision::Reject { .. }),
        "a conservative rejection must round-trip, got {red:?}"
    );
}

#[test]
fn no_verifier_reject_and_empty_panel_errors() {
    let r = CorrelationMatrix::identity(0);
    let err = decide(None, &[], None, &r).unwrap_err();
    assert!(matches!(err, JudgeError::EmptyPanel(_)));
}

#[test]
fn threshold_rederivation_changes_verdict_without_rejudging() {
    let panel = vec![
        grade("a", 0.72, Verdict::Revise),
        grade("b", 0.74, Verdict::Revise),
        grade("c", 0.73, Verdict::Revise),
    ];
    let r = CorrelationMatrix::identity(3);
    let out = decide(None, &panel, None, &r).unwrap();
    assert!(matches!(out.decision, Decision::Revise { .. }));

    let lenient = AreaThresholds {
        accept_threshold: d(0.70),
        reject_below: d(0.50),
        ..AreaThresholds::default()
    };
    assert!(matches!(again(&out, lenient), Decision::Accept { .. }));

    let strict = AreaThresholds {
        accept_threshold: d(0.90),
        reject_below: d(0.75),
        ..AreaThresholds::default()
    };
    assert!(matches!(again(&out, strict), Decision::Reject { .. }));
}

#[test]
fn rederive_keeps_correlated_escalation() {
    let panel = vec![
        grade("a", 0.95, Verdict::Accept),
        grade("b", 0.95, Verdict::Accept),
    ];
    let r = CorrelationMatrix::uniform_offdiagonal(2, d(1.0));
    let out = decide(None, &panel, None, &r).unwrap();
    assert!(matches!(out.decision, Decision::Escalate { .. }));
    let lenient = AreaThresholds {
        accept_threshold: d(0.10),
        reject_below: d(0.05),
        ..AreaThresholds::default()
    };
    assert!(matches!(again(&out, lenient), Decision::Escalate { .. }));
}

#[test]
fn rederive_verifier_reject_stays_rejected() {
    let panel = vec![grade("a", 1.0, Verdict::Accept)];
    let r = CorrelationMatrix::identity(1);
    let out = decide(Some(&verifier_fail()), &panel, None, &r).unwrap();
    let red = again(&out, AreaThresholds::default());
    assert!(matches!(red, Decision::Reject { .. }));
}

#[test]
fn a_block_that_records_nothing_cannot_be_decided_again() {
    let err = rederive_verdict(&Judging::default(), AreaThresholds::default(), &Floats);
    assert!(matches!(err, Err(JudgeError::Invariant(_))));
}

#[test]
fn a_matrix_that_lacks_a_judge_is_refused() {
    let panel = vec![grade("a", 0.9, Verdict::Accept), grade("b", 0.9, Verdict::Accept)];
    let err = decide(None, &panel, None, &CorrelationMatrix::identity(1)).unwrap_err();
    assert!(matches!(err, JudgeError::Invariant(_)));
}

/// A judge that answers every request the same way and counts what it is asked.
struct Counting {
    calls: usize,
    body: &'static str,
}

impl Counting {
    fn answer(&mut self) -> DrainedContent {
        self.calls += 1;
        let mut drained = DrainedContent::new();
        drained.ingest(StreamDelta {
            content: Some(self.body.into()),
            finish_reason: Some("stop".into()),
            ..Default::default()
        });
        drained
    }
}

fn value_of(o: &Outbound) -> serde_json::Value {
    match o {
        Outbound::Null => serde_json::Value::Null,
        Outbound::Bool(b) => serde_json::Value::from(*b),
        Outbound::Unsigned(n) => serde_json::Value::from(*n),
        Outbound::Signed(n) => serde_json::Value::from(*n),
        Outbound::Double(x) => serde_json::Value::from(f(*x)),
        Outbound::Text(t) => serde_json::Value::from(t.as_str()),
        Outbound::Array(items) => items.iter().map(value_of).collect(),
        Outbound::Object(members) => members
            .iter()
            .map(|(k, v)| (k.clone(), value_of(v)))
            .collect(),
        Outbound::Raw(j) => serde_json::from_str(&compact_json(j)).unwrap(),
    }
}

fn stored(g: &Grade) -> String {
    value_of(&grade_to_cache_value(g)).to_string()
}

/// A cache in memory: what is stored is text.
struct Store {
    rows: Vec<(CacheKey, String)>,
}

impl Store {
    fn new() -> Store {
        Store { rows: Vec::new() }
    }
}

fn grade_kept(
    kept: &mut Store,
    provider: &mut Counting,
    judge: &PanelJudge,
    hash: &str,
) -> Result<Grade, JudgeError> {
    let key = cache_key(judge, hash);
    let row = kept.rows.iter().find(|(k, _)| *k == key).map(|(_, v)| parse_json(v).unwrap());
    match after_lookup(row.as_ref()) {
        Lookup::Hit(g) => Ok(g),
        Lookup::Miss => {
            let req = build_judge_request(judge, "rubric", "trace");
            let drained = provider.answer();
            let answer = after_answer(judge, hash, &req, &drained, &Floats)?;
            assert_eq!(answer.key, key);
            kept.rows.push((answer.key, value_of(&answer.value).to_string()));
            Ok(answer.grade)
        }
    }
}

#[test]
fn temperature_folds_into_the_rubric_key() {
    let a = folded_rubric_key(Some("math"), d(0.0));
    let b = folded_rubric_key(Some("math"), d(0.7));
    assert_ne!(a, b, "different temperatures must produce different keys");
    assert!(a.starts_with("math#t"));
    assert!(folded_rubric_key(None, d(0.0)).starts_with("#t"));
    // The bit pattern, not the printed float, is used.
    assert!(a.contains(&0.0f64.to_bits().to_string()));
    assert_eq!(b, format!("math#t{}", 0.7f64.to_bits()));
}

#[test]
fn grade_round_trips_through_cache_value() {
    let g = Grade {
        judge_model: "m".into(),
        score: d(0.82),
        verdict: Verdict::Accept,
        confidence: d(0.5),
        meta_prediction: Some(d(0.7)),
        dimensions: None,
        rationale: Some("ok".into()),
        raw: parse_json("{\"x\":1}").unwrap(),
        temperature: d(0.3),
        top_p: Some(d(0.9)),
        seed: Some(42),
        rubric_id: Some("math".into()),
    };
    let back = grade_from_cache_value(&parse_json(&stored(&g)).unwrap());
    assert_eq!(back.score, g.score);
    assert_eq!(back.verdict, g.verdict);
    assert_eq!(back.temperature, g.temperature);
    assert_eq!(back.seed, g.seed);
    assert_eq!(back, g);
}

#[test]
fn every_verdict_round_trips_through_its_token() {
    for v in [Verdict::Accept, Verdict::Revise, Verdict::Reject, Verdict::Uncertain] {
        let g = grade("m", 0.25, v);
        assert_eq!(grade_from_cache_value(&parse_json(&stored(&g)).unwrap()), g);
        assert_eq!(parse_verdict(verdict_token(v)), v);
    }
    // What cannot be read decides nothing.
    let g = grade_from_cache_value(&parse_json("{\"verdict\":\"great\",\"score\":\"9\"}").unwrap());
    assert_eq!(g.verdict, Verdict::Uncertain);
    assert_eq!(g.score, d(0.0));
}

#[test]
fn cache_hit_skips_the_provider() {
    let mut kept = Store::new();
    let mut provider = Counting { calls: 0, body: "{\"score\":0.9,\"verdict\":\"accept\"}" };
    let judge = PanelJudge::new("z-ai/glm-5.2".into(), "glm".into())
        .with_rubric("math".into())
        .with_scoring(JudgeScoring::IntegerLikert);

    let first = grade_kept(&mut kept, &mut provider, &judge, "hash-1").unwrap();
    assert_eq!(first.verdict, Verdict::Accept);

    let second = grade_kept(&mut kept, &mut provider, &judge, "hash-1").unwrap();
    assert_eq!(second.verdict, Verdict::Accept);
    assert!((f(second.score) - 0.9).abs() < 1e-12);
    assert_eq!(provider.calls, 1);
}

#[test]
fn different_temperature_misses_the_cache() {
    let mut kept = Store::new();
    let mut provider = Counting { calls: 0, body: "{\"score\":0.6,\"verdict\":\"revise\"}" };

    let cold = PanelJudge::new("m".into(), "fam".into())
        .with_rubric("r".into())
        .with_sampling(JudgeSampling {
            temperature: d(0.0),
            ..JudgeSampling::default()
        });
    let warm = PanelJudge::new("m".into(), "fam".into())
        .with_rubric("r".into())
        .with_sampling(JudgeSampling {
            temperature: d(0.7),
            ..JudgeSampling::default()
        });

    grade_kept(&mut kept, &mut provider, &cold, "h").unwrap();
    grade_kept(&mut kept, &mut provider, &warm, "h").unwrap();
    assert_eq!(provider.calls, 2);
}

#[test]
fn cached_panel_replays_without_respend() {
    let mut kept = Store::new();
    let mut provider = Counting { calls: 0, body: "{\"score\":0.8,\"verdict\":\"accept\"}" };
    let judges = vec![
        PanelJudge::new("a".into(), "fa".into()).with_rubric("r".into()),
        PanelJudge::new("b".into(), "fb".into()).with_rubric("r".into()),
    ];
    require_cached_judges(&judges).unwrap();
    let mut run = || -> Vec<Grade> {
        judges
            .iter()
            .map(|j| grade_kept(&mut kept, &mut provider, j, "hp").unwrap())
            .collect()
    };
    let first = run();
    assert_eq!(first.len(), 2);
    let second = run();
    assert_eq!(second.len(), 2);
    assert_eq!(provider.calls, 2);
}

#[test]
fn unparseable_grade_is_not_cached_and_re_spends_on_retry() {
    let mut kept = Store::new();
    let mut provider = Counting { calls: 0, body: "this is not json" };
    let judge = PanelJudge::new("m".into(), "fam".into()).with_rubric("r".into());

    let e1 = grade_kept(&mut kept, &mut provider, &judge, "h").unwrap_err();
    assert!(matches!(e1, JudgeError::JudgeParse(_)));
    let e2 = grade_kept(&mut kept, &mut provider, &judge, "h").unwrap_err();
    assert!(matches!(e2, JudgeError::JudgeParse(_)));
    assert_eq!(
        provider.calls, 2,
        "an unparseable grade must not be kept: the provider is asked again"
    );
}

fn likert(judge: &PanelJudge, text: &str) -> Result<Grade, JudgeError> {
    parse_grade(judge, text, JudgeScoring::IntegerLikert, &Floats)
}

fn judge_m() -> PanelJudge {
    PanelJudge::new("m".into(), "fam".into())
}

#[test]
fn normalize_handles_likert_and_unit() {
    let norm = |x: f64| f(normalize_score(d(x), d(x / 10.0)));
    assert!((norm(0.8) - 0.8).abs() < 1e-12);
    assert!((norm(8.0) - 0.8).abs() < 1e-12);
    assert!((norm(11.0) - 1.0).abs() < 1e-12);
    assert!((norm(-1.0) - 0.0).abs() < 1e-12);
    assert_eq!(norm(f64::NAN), 0.0);
}

#[test]
fn parse_verdict_tokens() {
    assert_eq!(parse_verdict("accept"), Verdict::Accept);
    assert_eq!(parse_verdict("ADMIT"), Verdict::Accept);
    assert_eq!(parse_verdict("reject"), Verdict::Reject);
    assert_eq!(parse_verdict("revise"), Verdict::Revise);
    assert_eq!(parse_verdict("nonsense"), Verdict::Uncertain);
}

#[test]
fn parse_grade_reads_full_response() {
    let judge = PanelJudge::new("deepseek/deepseek-v4-pro".into(), "deepseek".into());
    let g = likert(
        &judge,
        "{\"score\":0.9,\"verdict\":\"accept\",\"confidence\":0.8,\"meta_prediction\":0.7,\"rationale\":\"clean\"}",
    )
    .unwrap();
    assert_eq!(g.verdict, Verdict::Accept);
    assert!((f(g.score) - 0.9).abs() < 1e-12);
    assert!((f(g.confidence) - 0.8).abs() < 1e-12);
    assert_eq!(g.meta_prediction, Some(d(0.7)));
    assert_eq!(
        g.raw.get("scoring_used").unwrap().as_text(),
        Some("integer_likert")
    );
}

#[test]
fn a_grade_on_a_scale_of_ten_is_scaled_down() {
    let g = likert(
        &judge_m(),
        "{\"score\":8,\"verdict\":\"accept\",\"meta_prediction\":7.5,\"dimensions\":{\"depth\":0.5}}",
    )
    .unwrap();
    assert_eq!(g.score, d(0.8));
    assert_eq!(g.meta_prediction, Some(d(0.75)));
    assert_eq!(g.dimensions, Some(vec![("depth".to_string(), d(0.5))]));
    // Unstated, the confidence is none.
    assert_eq!(g.confidence, d(0.0));
    let vote = g.to_vote();
    assert_eq!(vote.judge_model, "m");
    assert_eq!(vote.score, d(0.8));
}

#[test]
fn unparseable_response_errors_not_frozen() {
    let err = parse_grade(
        &judge_m(),
        "not json at all",
        JudgeScoring::GEvalLogprob,
        &Floats,
    )
    .unwrap_err();
    assert!(matches!(err, JudgeError::JudgeParse(_)));
}

#[test]
fn fenced_json_parses() {
    let fenced = "```json\n{\"score\":0.85,\"verdict\":\"accept\"}\n```";
    let g = likert(&judge_m(), fenced).unwrap();
    assert_eq!(g.verdict, Verdict::Accept);
    assert!((f(g.score) - 0.85).abs() < 1e-12);
}

#[test]
fn prose_wrapped_json_parses() {
    let prose = "Here is my grade:\n{\"score\":0.4,\"verdict\":\"reject\"}\nHope that helps!";
    let g = likert(&judge_m(), prose).unwrap();
    assert_eq!(g.verdict, Verdict::Reject);
    assert_eq!(
        extract_json(prose).as_deref(),
        Some("{\"score\":0.4,\"verdict\":\"reject\"}")
    );
}

#[test]
fn legitimate_uncertain_vote_parses_and_is_not_an_error() {
    let g = likert(&judge_m(), "{\"score\":0.5,\"verdict\":\"uncertain\"}").unwrap();
    assert_eq!(g.verdict, Verdict::Uncertain);
}

#[test]
fn grade_one_streams_and_parses() {
    let mut provider = Counting { calls: 0, body: "{\"score\":0.85,\"verdict\":\"accept\"}" };
    let judge = PanelJudge::new("z-ai/glm-5.2".into(), "glm".into());
    let drained = provider.answer();
    let g = grade_completion(&judge, &drained, None, None, &Floats).unwrap();
    assert_eq!(g.verdict, Verdict::Accept);
    assert!((f(g.score) - 0.85).abs() < 1e-12);
}

#[test]
fn grade_panel_is_sealed_no_cross_leak() {
    let judges = vec![
        PanelJudge::new("a".into(), "fa".into()),
        PanelJudge::new("b".into(), "fb".into()),
    ];
    let bodies = [
        "{\"score\":0.9,\"verdict\":\"accept\"}",
        "{\"score\":0.2,\"verdict\":\"reject\"}",
    ];
    let mut seen: Vec<String> = Vec::new();
    let mut grades: Vec<Grade> = Vec::new();
    for (judge, body) in judges.iter().zip(bodies) {
        let req = build_judge_request(judge, "rubric", "trace");
        seen.push(value_of(&req.to_wire()).to_string());
        let drained = Counting { calls: 0, body }.answer();
        grades.push(
            grade_completion(judge, &drained, req.max_tokens, req.reasoning, &Floats).unwrap(),
        );
    }
    assert_eq!(grades.len(), 2);
    for body in &seen {
        assert!(body.contains("trace"));
        assert!(!body.contains("\\\"verdict\\\":\\\"accept\\\""));
        assert!(!body.contains("\\\"verdict\\\":\\\"reject\\\""));
    }
}

#[test]
fn empty_panel_is_an_error() {
    let err = require_judges(&[]).unwrap_err();
    assert!(matches!(err, JudgeError::EmptyPanel(_)));
    assert_eq!(
        require_cached_judges(&[]).unwrap_err(),
        JudgeError::EmptyPanel("grade_panel_cached requires at least one judge".into())
    );
}

#[test]
fn empty_completion_is_a_parse_error() {
    let mut drained = DrainedContent::new();
    drained.ingest(StreamDelta {
        finish_reason: Some("stop".into()),
        ..Default::default()
    });
    let err = grade_completion(&judge_m(), &drained, Some(10), None, &Floats).unwrap_err();
    assert_eq!(
        err.message(),
        "could not parse judge response into a grade: judge m returned an empty completion \
         (finish_reason=Some(\"stop\"), native_finish_reason=None)"
    );
    assert!(matches!(err, JudgeError::JudgeParse(_)));
}

#[test]
fn judge_request_defaults_to_bounded_reasoning_with_verdict_headroom() {
    let req = build_judge_request(&judge_m(), "rubric", "trace");
    assert_eq!(req.max_tokens, Some(DEFAULT_JUDGE_MAX_TOKENS));
    assert_eq!(
        req.reasoning,
        Some(ReasoningParam::max_tokens(
            DEFAULT_JUDGE_REASONING_MAX_TOKENS
        ))
    );
    assert_eq!(req.temperature, Some(d(0.0)));
}

#[test]
fn judge_request_clamps_explicit_reasoning_to_verdict_headroom() {
    let judge = judge_m().with_max_tokens(1_000).with_reasoning_max_tokens(800);
    let req = build_judge_request(&judge, "rubric", "trace");
    assert_eq!(req.max_tokens, Some(800 + MIN_JUDGE_VERDICT_TOKENS));
    assert_eq!(req.reasoning, Some(ReasoningParam::max_tokens(800)));
}

#[test]
fn judge_request_keeps_effort_mode_max_tokens_unfloored() {
    let judge = judge_m()
        .with_max_tokens(1_000)
        .with_reasoning_effort(ReasoningEffort::Xhigh);
    let req = build_judge_request(&judge, "rubric", "trace");
    assert_eq!(req.max_tokens, Some(1_000));
    assert_eq!(
        req.reasoning,
        Some(ReasoningParam::effort(ReasoningEffort::Xhigh))
    );
}

/// What a provider that honours the token budget of `req` streams.
fn within_budget(req: &ChatRequest) -> DrainedContent {
    let long_trace = value_of(&req.to_wire()).to_string().len() > 4_000;
    let max_tokens = req.max_tokens.unwrap_or_default();
    let starved = match req.reasoning {
        Some(ReasoningParam::MaxTokens { max_tokens: r }) => max_tokens <= r,
        Some(ReasoningParam::Effort { .. }) => long_trace,
        None => false,
    };
    let mut drained = DrainedContent::new();
    if starved {
        drained.ingest(StreamDelta {
            reasoning: Some("reasoning consumed the whole cap".into()),
            finish_reason: Some("length".into()),
            ..Default::default()
        });
    } else {
        drained.ingest(StreamDelta {
            reasoning: Some("bounded judge reasoning".into()),
            ..Default::default()
        });
        drained.ingest(StreamDelta {
            content: Some("{\"score\":0.9,\"verdict\":\"accept\",\"confidence\":0.8}".into()),
            finish_reason: Some("stop".into()),
            ..Default::default()
        });
    }
    drained
}

#[test]
fn long_trace_judge_request_preserves_verdict_headroom() {
    let judge = PanelJudge::new("deepseek/deepseek-v4-pro".into(), "deepseek".into());
    let long_trace = "HVAC diagnostic step. ".repeat(4_500);
    let req = build_judge_request(&judge, "rubric", &long_trace);
    let drained = within_budget(&req);
    let grade = grade_completion(&judge, &drained, req.max_tokens, req.reasoning, &Floats)
        .expect("bounded judge reasoning leaves room for verdict JSON");

    assert_eq!(grade.verdict, Verdict::Accept);
    assert_eq!(req.max_tokens, Some(DEFAULT_JUDGE_MAX_TOKENS));
    assert_eq!(
        req.reasoning,
        Some(ReasoningParam::max_tokens(
            DEFAULT_JUDGE_REASONING_MAX_TOKENS
        ))
    );
}

#[test]
fn length_truncated_empty_judge_completion_names_budget_fix() {
    let judge = PanelJudge::new("deepseek/deepseek-v4-pro".into(), "deepseek".into());
    let mut drained = DrainedContent::new();
    drained.ingest(StreamDelta {
        reasoning: Some("no visible verdict".into()),
        finish_reason: Some("length".into()),
        ..Default::default()
    });
    let req = build_judge_request(&judge, "rubric", "trace");
    let err = grade_completion(&judge, &drained, req.max_tokens, req.reasoning, &Floats)
        .expect_err("length-truncated empty content errors");

    let JudgeError::JudgeParse(msg) = err else {
        panic!("expected JudgeParse");
    };
    assert!(msg.contains("truncated at max_tokens"), "got: {msg}");
    assert!(msg.contains("raise judge max_tokens"), "got: {msg}");
    assert!(
        msg.contains("lower the judge reasoning budget"),
        "got: {msg}"
    );
    assert!(msg.contains("max_tokens=Some(3500)"), "got: {msg}");
}

#[test]
fn an_object_on_the_line_of_the_fence_is_found() {
    for text in [
        "```json {\"a\":1}\n```",
        "```json{\"a\":1}```",
        "```\n{\"a\":1}\n```",
        "``` {\"a\":1}",
        "Sure: {\"a\":1} done",
    ] {
        assert_eq!(extract_json(text).as_deref(), Some("{\"a\":1}"), "{text}");
    }
    assert_eq!(
        extract_json("```json {\"a\":1,\n\"b\":{\"c\":2}}\n```").as_deref(),
        Some("{\"a\":1,\n\"b\":{\"c\":2}}")
    );
    for text in ["", "no braces", "} {", "```json\n```", "{", "}"] {
        assert_eq!(extract_json(text), None, "{text}");
    }
    let g = likert(&judge_m(), "```json {\"score\":0.85,\"verdict\":\"accept\"}\n```").unwrap();
    assert_eq!(g.verdict, Verdict::Accept);
}

#[test]
fn a_matrix_larger_than_the_panel_is_refused() {
    let panel = vec![grade("a", 0.9, Verdict::Accept), grade("b", 0.9, Verdict::Accept)];
    let err = decide(None, &panel, None, &CorrelationMatrix::identity(3)).unwrap_err();
    assert_eq!(
        err,
        JudgeError::Invariant("panel size 2 != correlation matrix dim 3".into())
    );
    // The deterministic rail decides before the panel is looked at.
    let out = decide(Some(&verifier_fail()), &panel, None, &CorrelationMatrix::identity(3));
    assert!(matches!(out.unwrap().decision, Decision::Reject { .. }));
}

#[test]
fn a_decision_of_some_decisive_judges_is_reproduced() {
    let panel = vec![
        grade("a", 0.9, Verdict::Accept),
        grade("b", 0.9, Verdict::Accept),
        grade("c", 0.0, Verdict::Uncertain),
        grade("d", 0.0, Verdict::Uncertain),
        grade("e", 0.0, Verdict::Uncertain),
    ];
    let out = decide(None, &panel, None, &CorrelationMatrix::identity(5)).unwrap();
    assert_eq!(
        out.decision,
        Decision::Accept { reason: DecisionReason::AboveThreshold }
    );
    assert_eq!(out.judging.decisive, Some(2));
    assert_eq!(again(&out, AreaThresholds::default()), out.decision);
    // A block that does not tell how many decided is held against all that voted.
    let mut untold = out.clone();
    untold.judging.decisive = None;
    assert!(matches!(again(&untold, AreaThresholds::default()), Decision::Escalate { .. }));
}

#[test]
fn an_escalation_stays_under_other_bands() {
    let panel = vec![
        grade("a", 0.95, Verdict::Accept),
        grade("b", 0.95, Verdict::Accept),
        grade("c", 0.0, Verdict::Uncertain),
    ];
    let r = CorrelationMatrix::uniform_offdiagonal(3, d(1.0));
    let out = decide(None, &panel, None, &r.clone()).unwrap();
    assert!(matches!(out.decision, Decision::Escalate { .. }));
    let lenient = AreaThresholds {
        accept_threshold: d(0.10),
        reject_below: d(0.05),
        ..AreaThresholds::default()
    };
    assert_eq!(again(&out, lenient), out.decision);
}

#[test]
fn a_written_object_is_sorted_and_the_last_of_a_key_stands() {
    let o = Json::Object(vec![
        ("b".into(), Json::Bool(true)),
        ("a".into(), Json::Null),
        ("b".into(), Json::Bool(false)),
        ("ab".into(), Json::Text("x".into())),
        ("\u{e9}".into(), Json::Null),
    ]);
    assert_eq!(compact_json(&o), "{\"a\":null,\"ab\":\"x\",\"b\":false,\"\u{e9}\":null}");
}

#[test]
fn the_tag_of_a_fence_may_hold_braces() {
    for text in [
        "```{.json}\n{\"a\":1}\n```",
        "  ```json {#reply}\n{\"a\":1}\n```  ",
        "```}{}\n{\"a\":1}",
    ] {
        assert_eq!(extract_json(text).as_deref(), Some("{\"a\":1}"), "{text}");
    }
    // Where nothing follows, the line itself is all there is.
    assert_eq!(extract_json("```{.json}\n```").as_deref(), Some("{.json}"));
    let g = likert(
        &judge_m(),
        "```{.json}\n{\"score\":0.85,\"verdict\":\"accept\"}\n```",
    )
    .unwrap();
    assert_eq!(g.verdict, Verdict::Accept);
}

#[test]
fn a_reply_may_be_written_by_place() {
    let g = likert(&judge_m(), r#"[0.9,"accept",0.5,null,{"b":1,"a":0.5,"b":0.25},"fine"]"#).unwrap();
    assert_eq!(g.score, d(0.9));
    assert_eq!(g.verdict, Verdict::Accept);
    assert_eq!(g.confidence, d(0.5));
    assert_eq!(g.meta_prediction, None);
    assert_eq!(g.dimensions, Some(vec![("a".into(), d(0.5)), ("b".into(), d(0.25))]));
    assert_eq!(g.rationale.as_deref(), Some("fine"));
    assert_eq!(likert(&judge_m(), r#"[9,"reject"]"#).unwrap().verdict, Verdict::Reject);
    for refused in ["[]", "[0.9]", r#"["accept",0.9]"#, r#"[1,"accept",1,1,null,"x",1]"#] {
        assert!(likert(&judge_m(), refused).is_err(), "{refused}");
    }
}

#[test]
fn a_reply_gives_no_field_twice() {
    for refused in [
        r#"{"score":0.9,"score":0.9,"verdict":"accept"}"#,
        r#"{"score":0.9,"verdict":"accept","verdict":"reject"}"#,
        r#"{"score":0.9,"verdict":"accept","rationale":null,"rationale":"x"}"#,
    ] {
        assert!(matches!(likert(&judge_m(), refused), Err(JudgeError::JudgeParse(_))), "{refused}");
    }
    let g = likert(&judge_m(), r#"{"x":1e999,"score":0.9,"x":[],"verdict":"accept"}"#).unwrap();
    assert_eq!(g.verdict, Verdict::Accept);
}
