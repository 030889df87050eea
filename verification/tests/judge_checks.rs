//! The deterministic rail: answers, execution reports, refusals and reasoning.

use ghostwriter::arithmetic::Arithmetic;
use ghostwriter::double::Double;
use ghostwriter::judge::checks::answer::{compare_answer, AnswerComparison};
use ghostwriter::judge::checks::evidence::{
    classify, execution_evidence_check, EvidenceVerdict, EXECUTION_EVIDENCE_CHECK,
};
use ghostwriter::judge::checks::{
    reasoning_present_check, run_verifier, NullSandboxOracle, SandboxOracle, VerifierGrade,
    VerifierInput,
};
use ghostwriter::judge::decision::Verdict;
use ghostwriter::schema::message::{Content, Message, ReasoningDetail, Role};
use ghostwriter::schema::verification::{
    EvidenceBinding, ExecutionEvidence, ExecutionOutcome, Oracle, TestCase, TestStatus,
    VerificationContract, VerificationKind,
};

/// The arithmetic of the machine.
struct Floats;

fn d(x: f64) -> Double {
    Double { bits: x.to_bits() }
}

fn f(x: Double) -> f64 {
    f64::from_bits(x.bits)
}

impl Arithmetic for Floats {
    fn plus(&self, a: Double, b: Double) -> Double {
        d(f(a) + f(b))
    }
    fn minus(&self, a: Double, b: Double) -> Double {
        d(f(a) - f(b))
    }
    fn times(&self, a: Double, b: Double) -> Double {
        d(f(a) * f(b))
    }
    fn over(&self, a: Double, b: Double) -> Double {
        d(f(a) / f(b))
    }
    fn exp(&self, a: Double) -> Double {
        d(f(a).exp())
    }
    fn sqrt(&self, a: Double) -> Double {
        d(f(a).sqrt())
    }
    fn count(&self, n: usize) -> Double {
        d(n as f64)
    }
    fn parse(&self, text: &str) -> Option<Double> {
        text.parse().ok().map(d)
    }
    fn show(&self, a: Double) -> String {
        f(a).to_string()
    }
}

fn compare(kind: VerificationKind, answer: &str, expected: Option<&str>) -> AnswerComparison {
    compare_answer(kind, answer, expected, &Floats)
}

#[test]
fn numeric_tolerates_formatting() {
    assert_eq!(
        compare(VerificationKind::NumericMatch, "42.0", Some("42")),
        AnswerComparison::Match
    );
    assert_eq!(
        compare(VerificationKind::NumericMatch, "1,000", Some("1000")),
        AnswerComparison::Match
    );
    assert_eq!(
        compare(VerificationKind::NumericMatch, "$3.50", Some("3.5")),
        AnswerComparison::Match
    );
}

#[test]
fn numeric_clear_mismatch_is_nonmatch() {
    assert_eq!(
        compare(VerificationKind::NumericMatch, "41", Some("42")),
        AnswerComparison::NonMatch
    );
}

#[test]
fn numeric_parse_failure_is_undecided() {
    assert_eq!(
        compare(
            VerificationKind::NumericMatch,
            "about forty-two",
            Some("42")
        ),
        AnswerComparison::Undecided
    );
}

#[test]
fn set_is_order_insensitive() {
    assert_eq!(
        compare(VerificationKind::SetMatch, "c, b, a", Some("a, b, c")),
        AnswerComparison::Match
    );
    assert_eq!(
        compare(VerificationKind::SetMatch, "a, b, z", Some("a, b, c")),
        AnswerComparison::NonMatch
    );
}

#[test]
fn empty_set_is_undecided() {
    assert_eq!(
        compare(VerificationKind::SetMatch, "", Some("a, b")),
        AnswerComparison::Undecided
    );
}

#[test]
fn conservative_match_and_nonmatch_routes_to_rescue() {
    assert_eq!(
        compare(VerificationKind::SchemaShape, "{a,b,c}", Some("{a,b,c}")),
        AnswerComparison::Match
    );
    assert_eq!(
        compare(VerificationKind::SchemaShape, "{a,b}", Some("{a,b,c}")),
        AnswerComparison::Undecided
    );
    assert_eq!(
        compare(VerificationKind::SqlResultMatch, "7", Some("8")),
        AnswerComparison::Undecided
    );
}

#[test]
fn no_expected_is_undecided() {
    assert_eq!(
        compare(VerificationKind::NumericMatch, "42", None),
        AnswerComparison::Undecided
    );
}

const NODE: &str = "tests.test_demo::test_behavior";

fn key() -> EvidenceBinding {
    EvidenceBinding {
        task: "run-1".into(),
        attempt: "rec-1".into(),
        patch_hash: "patch-1".into(),
    }
}

fn passing_evidence() -> ExecutionEvidence {
    ExecutionEvidence {
        outcome: ExecutionOutcome::Passed,
        required_tests: vec![NODE.into()],
        cases: vec![TestCase {
            node: NODE.into(),
            status: TestStatus::Passed,
        }],
        exit_code: Some(0),
        errors: vec![],
        source_ref: None,
        binding: key(),
    }
}

#[test]
fn required_test_passing_is_a_pass() {
    assert_eq!(
        classify(&passing_evidence(), &key()),
        EvidenceVerdict::Passed
    );
}

#[test]
fn nonzero_exit_is_a_failure_not_a_pass() {
    let mut e = passing_evidence();
    e.exit_code = Some(1);
    e.outcome = ExecutionOutcome::Failed;
    assert_eq!(classify(&e, &key()), EvidenceVerdict::Failed);
}

#[test]
fn unreadable_or_empty_report_is_unknown() {
    for mutate in [
        (|e: &mut ExecutionEvidence| e.cases.clear()) as fn(&mut ExecutionEvidence),
        |e: &mut ExecutionEvidence| e.exit_code = None,
        |e: &mut ExecutionEvidence| e.cases[0].node = "other::test".into(),
    ] {
        let mut e = passing_evidence();
        e.outcome = ExecutionOutcome::Unknown;
        mutate(&mut e);
        let v = classify(&e, &key());
        assert_eq!(v, EvidenceVerdict::Unknown, "expected Unknown, got {v:?}");
    }
}

#[test]
fn skipped_required_test_is_a_failure() {
    let mut e = passing_evidence();
    e.cases[0].status = TestStatus::Skipped;
    e.outcome = ExecutionOutcome::Failed;
    assert_eq!(classify(&e, &key()), EvidenceVerdict::Failed);
}

#[test]
fn missing_required_test_is_a_failure() {
    let mut e = passing_evidence();
    e.required_tests = vec!["other::test".into()];
    e.outcome = ExecutionOutcome::Failed;
    assert_eq!(classify(&e, &key()), EvidenceVerdict::Failed);
}

#[test]
fn failing_node_fails_even_with_a_zero_exit() {
    let mut e = passing_evidence();
    e.cases[0].status = TestStatus::Failed;
    assert_eq!(
        classify(&e, &key()),
        EvidenceVerdict::Failed,
        "a claimed pass contradicted by its own failing node must fail"
    );
}

#[test]
fn an_infrastructure_fault_stays_unknown_whatever_the_detail_shows() {
    let mut e = passing_evidence();
    e.outcome = ExecutionOutcome::Unknown;
    e.exit_code = Some(1);
    assert_eq!(classify(&e, &key()), EvidenceVerdict::Unknown);
}

#[test]
fn a_reported_suite_error_fails_the_run() {
    let mut e = passing_evidence();
    e.errors = vec!["collection error: could not load fixture".into()];
    assert_eq!(classify(&e, &key()), EvidenceVerdict::Failed);
}

#[test]
fn an_absent_required_test_contract_is_unknown() {
    let mut e = passing_evidence();
    e.required_tests.clear();
    assert_eq!(classify(&e, &key()), EvidenceVerdict::Unknown);
}

#[test]
fn a_duplicate_node_key_makes_the_report_unreadable() {
    let mut e = passing_evidence();
    e.cases.push(TestCase {
        node: NODE.into(),
        status: TestStatus::Failed,
    });
    assert_eq!(classify(&e, &key()), EvidenceVerdict::Unknown);
}

#[test]
fn a_reported_failure_is_never_softened_by_its_detail() {
    let mut e = passing_evidence();
    e.outcome = ExecutionOutcome::Failed;
    assert_eq!(classify(&e, &key()), EvidenceVerdict::Failed);
}

#[test]
fn a_bare_pass_claim_with_no_detail_is_unknown_not_a_pass() {
    let mut e = passing_evidence();
    e.cases.clear();
    assert_eq!(classify(&e, &key()), EvidenceVerdict::Unknown);
}

#[test]
fn another_tasks_or_attempts_report_is_a_failure() {
    let mut e = passing_evidence();
    e.binding.attempt = "rec-other".into();
    assert_eq!(classify(&e, &key()), EvidenceVerdict::Failed);
    let mut e = passing_evidence();
    e.binding.task = "run-other".into();
    assert_eq!(classify(&e, &key()), EvidenceVerdict::Failed);
}

#[test]
fn a_moved_patch_is_stale_unknown_never_followed() {
    let mut e = passing_evidence();
    e.binding.patch_hash = "patch-older".into();
    assert_eq!(classify(&e, &key()), EvidenceVerdict::Unknown);
    e.outcome = ExecutionOutcome::Failed;
    assert_eq!(classify(&e, &key()), EvidenceVerdict::Unknown);
}

#[test]
fn binding_is_checked_before_the_outcome() {
    let mut e = passing_evidence();
    e.binding.attempt = "rec-other".into();
    e.outcome = ExecutionOutcome::Failed;
    assert_eq!(classify(&e, &key()), EvidenceVerdict::Failed);
}

fn patch_turn() -> Message {
    Message {
        role: Role::Assistant,
        content: Content::Text("here is the patch".into()),
        reasoning: Some("worked through it".into()),
        reasoning_details: Some(vec![ReasoningDetail::Text {
            text: "worked through it".into(),
            signature: None,
            id: None,
            format: None,
            index: 0,
        }]),
        tool_calls: None,
        tool_call_id: None,
        name: None,
    }
}

fn rail_input<'a>(
    messages: &'a [Message],
    e: Option<&'a ExecutionEvidence>,
) -> VerifierInput<'a> {
    VerifierInput {
        messages,
        reasoning_tokens: 50,
        cot_required: true,
        contract: None,
        rule_only_authoritative: false,
        execution_evidence: e,
        evidence_key: key(),
    }
}

fn check_present(g: &VerifierGrade) -> bool {
    g.verification
        .checks
        .iter()
        .any(|c| c.name == EXECUTION_EVIDENCE_CHECK)
}

#[test]
fn a_proven_execution_failure_is_an_authoritative_reject() {
    let msgs = vec![patch_turn()];
    let mut e = passing_evidence();
    e.outcome = ExecutionOutcome::Failed;
    e.cases[0].status = TestStatus::Failed;
    let g = run_verifier(&rail_input(&msgs, Some(&e)), &NullSandboxOracle, &Floats);
    assert_eq!(g.verdict, Verdict::Reject);
    assert!(g.is_hard_reject());
    assert!(check_present(&g));
}

#[test]
fn an_undecidable_report_blocks_admission_without_rejecting() {
    let msgs = vec![patch_turn()];
    let mut e = passing_evidence();
    e.outcome = ExecutionOutcome::Unknown;
    e.exit_code = None;
    let g = run_verifier(&rail_input(&msgs, Some(&e)), &NullSandboxOracle, &Floats);
    assert_eq!(g.verdict, Verdict::Uncertain);
    assert!(
        !g.is_hard_reject(),
        "an undecidable report must not sink the record"
    );
    assert!(g.blocks_admission());
    assert!(g.verification.needs_review.is_some());
}

#[test]
fn a_corroborated_pass_hands_the_remainder_to_the_panel() {
    let msgs = vec![patch_turn()];
    let e = passing_evidence();
    let g = run_verifier(&rail_input(&msgs, Some(&e)), &NullSandboxOracle, &Floats);
    assert_eq!(g.verdict, Verdict::Accept);
    assert!(!g.blocks_admission());
    assert!(g.verification.all_passed);
    assert!(check_present(&g));
}

#[test]
fn an_absent_report_leaves_the_execution_axis_inert() {
    let msgs = vec![patch_turn()];
    let g = run_verifier(&rail_input(&msgs, None), &NullSandboxOracle, &Floats);
    assert_eq!(g.verdict, Verdict::Accept);
    assert!(!g.blocks_admission());
    assert!(!check_present(&g), "no evidence, no check");
}

#[test]
fn the_execution_axis_composes_with_the_reasoning_gate() {
    let mut no_cot = patch_turn();
    no_cot.reasoning = None;
    no_cot.reasoning_details = None;
    let msgs = vec![no_cot];
    let passing = passing_evidence();
    let mut input = rail_input(&msgs, Some(&passing));
    input.reasoning_tokens = 0;
    assert_eq!(
        run_verifier(&input, &NullSandboxOracle, &Floats).verdict,
        Verdict::Reject
    );
}

fn assistant(content: &str, reasoning: Option<&str>, with_text_detail: bool) -> Message {
    Message {
        role: Role::Assistant,
        content: Content::Text(content.into()),
        reasoning: reasoning.map(str::to_string),
        reasoning_details: if with_text_detail {
            Some(vec![ReasoningDetail::Text {
                text: reasoning.unwrap_or("step").into(),
                signature: None,
                id: None,
                format: None,
                index: 0,
            }])
        } else {
            None
        },
        tool_calls: None,
        tool_call_id: None,
        name: None,
    }
}

fn input<'a>(
    messages: &'a [Message],
    tokens: u32,
    cot: bool,
    contract: Option<&'a VerificationContract>,
) -> VerifierInput<'a> {
    VerifierInput {
        messages,
        reasoning_tokens: tokens,
        cot_required: cot,
        contract,
        rule_only_authoritative: false,
        execution_evidence: None,
        evidence_key: EvidenceBinding::default(),
    }
}

fn input_rule_only<'a>(
    messages: &'a [Message],
    tokens: u32,
    cot: bool,
    contract: Option<&'a VerificationContract>,
) -> VerifierInput<'a> {
    VerifierInput {
        rule_only_authoritative: true,
        ..input(messages, tokens, cot, contract)
    }
}

#[test]
fn reasoning_present_passes_full_conjunction() {
    let msgs = vec![assistant("42", Some("12*8=96... actually 42"), true)];
    let c = reasoning_present_check(&input(&msgs, 120, true, None));
    assert!(c.passed);
}

#[test]
fn empty_reasoning_hard_fails() {
    let msgs = vec![assistant("42", None, false)];
    let c = reasoning_present_check(&input(&msgs, 120, true, None));
    assert!(!c.passed);
}

#[test]
fn summary_or_encrypted_only_hard_fails_even_with_tokens() {
    let mut m = assistant("42", Some("present"), false);
    m.reasoning_details = Some(vec![ReasoningDetail::Encrypted {
        data: "blob".into(),
        id: None,
        format: None,
        index: 0,
    }]);
    let msgs = vec![m];
    let c = reasoning_present_check(&input(&msgs, 9999, true, None));
    assert!(!c.passed, "encrypted-only must fail despite tokens>0");
}

#[test]
fn zero_reasoning_tokens_hard_fails() {
    let msgs = vec![assistant("42", Some("work"), true)];
    let c = reasoning_present_check(&input(&msgs, 0, true, None));
    assert!(!c.passed, "reasoning_tokens==0 must hard-fail");
}

#[test]
fn reasoning_gate_inert_when_cot_not_required() {
    let msgs = vec![assistant("42", None, false)];
    let c = reasoning_present_check(&input(&msgs, 0, false, None));
    assert!(c.passed, "non-CoT area must not fail for lacking CoT");
}

fn contract(kind: VerificationKind, oracle: Oracle) -> VerificationContract {
    VerificationContract {
        kind,
        oracle,
        answer_marker: None,
    }
}

#[test]
fn refusal_expected_passes_a_refusal() {
    let msgs = vec![assistant(
        "I can't help with that request.",
        Some("policy"),
        true,
    )];
    let ct = contract(
        VerificationKind::RefusalExpected,
        Oracle::RefusalPolicy {
            policy_id: "p1".into(),
        },
    );
    let g = run_verifier(&input(&msgs, 50, true, Some(&ct)), &NullSandboxOracle, &Floats);
    assert_eq!(g.verdict, Verdict::Accept);
    assert!(g.verification.all_passed);
}

#[test]
fn refusal_expected_fails_a_compliance() {
    let msgs = vec![assistant(
        "Sure! Here are the step-by-step instructions you asked for.",
        Some("complying"),
        true,
    )];
    let ct = contract(
        VerificationKind::RefusalExpected,
        Oracle::RefusalPolicy {
            policy_id: "p1".into(),
        },
    );
    let g = run_verifier(&input(&msgs, 50, true, Some(&ct)), &NullSandboxOracle, &Floats);
    assert_eq!(g.verdict, Verdict::Reject);
    assert!(g.is_hard_reject());
}

#[test]
fn refusal_expected_passes_broadened_lead_in() {
    let msgs = vec![assistant(
        "As an AI, I must decline to help with that.",
        Some("policy"),
        true,
    )];
    let ct = contract(
        VerificationKind::RefusalExpected,
        Oracle::RefusalPolicy {
            policy_id: "p1".into(),
        },
    );
    let g = run_verifier(&input(&msgs, 50, true, Some(&ct)), &NullSandboxOracle, &Floats);
    assert_eq!(g.verdict, Verdict::Accept);
    assert!(!g.is_hard_reject());
}

#[test]
fn refusal_expected_ambiguous_routes_to_uncertain_not_hard_fail() {
    let msgs = vec![assistant(
        "That's an interesting question about the topic in general.",
        Some("hedging"),
        true,
    )];
    let ct = contract(
        VerificationKind::RefusalExpected,
        Oracle::RefusalPolicy {
            policy_id: "p1".into(),
        },
    );
    let g = run_verifier(&input(&msgs, 50, true, Some(&ct)), &NullSandboxOracle, &Floats);
    assert_eq!(g.verdict, Verdict::Uncertain);
    assert!(!g.is_hard_reject(), "ambiguous refusal must NOT hard-gate");
    assert!(g.verification.all_passed);
}

#[test]
fn literal_oracle_answer_match_accepts() {
    let msgs = vec![assistant("42", Some("work"), true)];
    let ct = contract(
        VerificationKind::NumericMatch,
        Oracle::Literal {
            expected: "42".into(),
        },
    );
    let g = run_verifier(&input(&msgs, 50, true, Some(&ct)), &NullSandboxOracle, &Floats);
    assert_eq!(g.verdict, Verdict::Accept);
}

#[test]
fn numeric_answer_mismatch_routes_to_uncertain_not_hard_reject() {
    let msgs = vec![assistant("41", Some("work"), true)];
    let ct = contract(
        VerificationKind::NumericMatch,
        Oracle::Literal {
            expected: "42".into(),
        },
    );
    let g = run_verifier(&input(&msgs, 50, true, Some(&ct)), &NullSandboxOracle, &Floats);
    assert_eq!(g.verdict, Verdict::Uncertain);
    assert!(
        !g.is_hard_reject(),
        "a rule non-match must NOT hard-gate by default"
    );
}

#[test]
fn numeric_mismatch_hard_rejects_only_when_rule_only_authoritative() {
    let msgs = vec![assistant("41", Some("work"), true)];
    let ct = contract(
        VerificationKind::NumericMatch,
        Oracle::Literal {
            expected: "42".into(),
        },
    );
    let g = run_verifier(
        &input_rule_only(&msgs, 50, true, Some(&ct)),
        &NullSandboxOracle,
        &Floats,
    );
    assert_eq!(g.verdict, Verdict::Reject);
    assert!(g.is_hard_reject());
}

#[test]
fn numeric_match_tolerates_formatting() {
    for (answer, expected) in [("42.0", "42"), ("1,000", "1000"), ("$3.50", "3.5")] {
        let msgs = vec![assistant(answer, Some("work"), true)];
        let ct = contract(
            VerificationKind::NumericMatch,
            Oracle::Literal {
                expected: expected.into(),
            },
        );
        let g = run_verifier(&input(&msgs, 50, true, Some(&ct)), &NullSandboxOracle, &Floats);
        assert_eq!(
            g.verdict,
            Verdict::Accept,
            "{answer} vs {expected} must match"
        );
    }
}

#[test]
fn set_match_is_order_insensitive() {
    let msgs = vec![assistant("c, b, a", Some("work"), true)];
    let ct = contract(
        VerificationKind::SetMatch,
        Oracle::Literal {
            expected: "a, b, c".into(),
        },
    );
    let g = run_verifier(&input(&msgs, 50, true, Some(&ct)), &NullSandboxOracle, &Floats);
    assert_eq!(g.verdict, Verdict::Accept);
    let msgs2 = vec![assistant("a, b, z", Some("work"), true)];
    let g2 = run_verifier(&input(&msgs2, 50, true, Some(&ct)), &NullSandboxOracle, &Floats);
    assert_eq!(g2.verdict, Verdict::Uncertain);
}

#[test]
fn numeric_parse_failure_routes_to_uncertain() {
    let msgs = vec![assistant("about forty-two", Some("work"), true)];
    let ct = contract(
        VerificationKind::NumericMatch,
        Oracle::Literal {
            expected: "42".into(),
        },
    );
    let g = run_verifier(&input(&msgs, 50, true, Some(&ct)), &NullSandboxOracle, &Floats);
    assert_eq!(g.verdict, Verdict::Uncertain);
}

#[test]
fn schema_shape_nonmatch_routes_to_rescue() {
    let msgs = vec![assistant("{cols: a,b}", Some("work"), true)];
    let ct = contract(
        VerificationKind::SchemaShape,
        Oracle::Literal {
            expected: "{cols: a,b,c}".into(),
        },
    );
    let g = run_verifier(&input(&msgs, 50, true, Some(&ct)), &NullSandboxOracle, &Floats);
    assert_eq!(g.verdict, Verdict::Uncertain);
    assert!(g.verification.all_passed);
}

#[test]
fn sandbox_execution_with_no_expected_and_null_oracle_is_uncertain() {
    let msgs = vec![assistant("some answer", Some("work"), true)];
    let ct = contract(
        VerificationKind::SqlResultMatch,
        Oracle::SandboxExecution {
            tool_or_sql: "SELECT count(*) FROM t".into(),
            expected: None,
        },
    );
    let g = run_verifier(&input(&msgs, 50, true, Some(&ct)), &NullSandboxOracle, &Floats);
    assert_eq!(g.verdict, Verdict::Uncertain);
    assert!(g.verification.all_passed);
}

struct FixedOracle(&'static str);
impl SandboxOracle for FixedOracle {
    fn execute(&self, _q: &str) -> Result<String, String> {
        Ok(self.0.to_string())
    }
}

#[test]
fn sandbox_oracle_supplies_ground_truth() {
    let msgs = vec![assistant("7", Some("work"), true)];
    let ct = contract(
        VerificationKind::SqlResultMatch,
        Oracle::SandboxExecution {
            tool_or_sql: "SELECT 7".into(),
            expected: None,
        },
    );
    let g = run_verifier(&input(&msgs, 50, true, Some(&ct)), &FixedOracle("7"), &Floats);
    assert_eq!(g.verdict, Verdict::Accept);
    let g2 = run_verifier(&input(&msgs, 50, true, Some(&ct)), &FixedOracle("8"), &Floats);
    assert_eq!(g2.verdict, Verdict::Uncertain);
}

#[test]
fn reasoning_gate_rejects_before_any_answer_check() {
    let msgs = vec![assistant("42", None, false)];
    let ct = contract(
        VerificationKind::NumericMatch,
        Oracle::Literal {
            expected: "42".into(),
        },
    );
    let g = run_verifier(&input(&msgs, 0, true, Some(&ct)), &NullSandboxOracle, &Floats);
    assert_eq!(g.verdict, Verdict::Reject);
    assert!(g.is_hard_reject());
}

#[test]
fn none_kind_is_judge_only_and_accepts_the_reasoning_gate() {
    let msgs = vec![assistant("open-ended answer", Some("work"), true)];
    let ct = contract(VerificationKind::Unchecked, Oracle::Absent);
    let g = run_verifier(&input(&msgs, 50, true, Some(&ct)), &NullSandboxOracle, &Floats);
    assert_eq!(g.verdict, Verdict::Accept);
}

#[test]
fn no_report_yields_no_check() {
    let msgs = vec![patch_turn()];
    assert!(execution_evidence_check(&rail_input(&msgs, None)).is_none());
    let e = passing_evidence();
    let (check, verdict, blocked) =
        execution_evidence_check(&rail_input(&msgs, Some(&e))).unwrap();
    assert_eq!(check.name, "execution_evidence");
    assert!(check.passed);
    assert_eq!(verdict, EvidenceVerdict::Passed);
    assert!(!blocked);
}

#[test]
fn a_repeated_member_counts() {
    assert_eq!(
        compare(VerificationKind::SetMatch, "a, a, b", Some("a, b, b")),
        AnswerComparison::NonMatch
    );
    assert_eq!(
        compare(VerificationKind::SetMatch, "B; a", Some("a,b")),
        AnswerComparison::Match
    );
}

#[test]
fn a_turn_without_an_answer_fails_the_reasoning_check() {
    let c = reasoning_present_check(&input(&[], 10, true, None));
    assert!(!c.passed);
}

#[test]
fn an_unreadable_report_outranks_a_suite_error() {
    let mut e = passing_evidence();
    e.outcome = ExecutionOutcome::Failed;
    e.exit_code = Some(1);
    e.errors = vec!["boom".into()];
    assert_eq!(classify(&e, &key()), EvidenceVerdict::Failed);
    let case = e.cases.pop().unwrap();
    assert_eq!(classify(&e, &key()), EvidenceVerdict::Unknown);
    e.cases = vec![case.clone(), case];
    assert_eq!(classify(&e, &key()), EvidenceVerdict::Unknown);
}

#[test]
fn the_sides_of_a_set_comparison_do_not_matter() {
    for (a, b) in [("c, b, a", "a b c"), ("a, a, b", "a, b"), ("", "a"), ("x", "y"), ("", "")] {
        assert_eq!(
            compare(VerificationKind::SetMatch, a, Some(b)),
            compare(VerificationKind::SetMatch, b, Some(a)),
            "{a} / {b}"
        );
    }
    assert_eq!(
        compare(VerificationKind::SetMatch, "a, a, b", Some("a, b")),
        AnswerComparison::NonMatch
    );
}
