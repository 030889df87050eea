//! Decisions, their reasons, and the errors of judging.

use ghostwriter::judge::decision::{Decision, DecisionReason, EscalateTo};
use ghostwriter::judge::error::JudgeError;
use ghostwriter::providers::error::ProviderError;
use ghostwriter::schema::judging::Verdict as SchemaVerdict;
use ghostwriter::schema::record::LifecycleState;

#[test]
fn every_reason_token_round_trips() {
    for r in [
        DecisionReason::VerifierReject,
        DecisionReason::AboveThreshold,
        DecisionReason::ReviseBand,
        DecisionReason::BelowThreshold,
        DecisionReason::CorrelatedJudges,
        DecisionReason::MinorityVeto,
        DecisionReason::ConservativeTie,
    ] {
        assert!(!r.as_str().is_empty());
    }
}

#[test]
fn accept_maps_to_admit_and_admitted() {
    let d = Decision::Accept { reason: DecisionReason::AboveThreshold };
    assert_eq!(d.to_schema_verdict(), Some(SchemaVerdict::Admit));
    assert_eq!(d.to_lifecycle(), LifecycleState::Admitted);
}

#[test]
fn reject_maps_to_reject_and_rejected() {
    let d = Decision::Reject { reason: DecisionReason::BelowThreshold };
    assert_eq!(d.to_schema_verdict(), Some(SchemaVerdict::Reject));
    assert_eq!(d.to_lifecycle(), LifecycleState::Rejected);
}

#[test]
fn escalate_maps_to_needs_review() {
    let d = Decision::Escalate { to: EscalateTo::Human, reason: DecisionReason::CorrelatedJudges };
    assert_eq!(d.to_schema_verdict(), Some(SchemaVerdict::NeedsReview));
    assert_eq!(d.to_lifecycle(), LifecycleState::NeedsReview);
}

#[test]
fn revise_is_transient_and_persists_no_verdict() {
    let d = Decision::Revise { reason: DecisionReason::ReviseBand };
    assert_eq!(d.to_schema_verdict(), None);
    assert_eq!(d.to_lifecycle(), LifecycleState::Revising);
}

#[test]
fn reason_token_is_stable() {
    assert_eq!(DecisionReason::VerifierReject.as_str(), "verifier_reject");
    assert_eq!(DecisionReason::CorrelatedJudges.as_str(), "correlated_judges");
}

#[test]
fn reason_tokens_are_all_different() {
    let all = [
        DecisionReason::VerifierReject,
        DecisionReason::VerifierUndecided,
        DecisionReason::AboveThreshold,
        DecisionReason::ReviseBand,
        DecisionReason::BelowThreshold,
        DecisionReason::CorrelatedJudges,
        DecisionReason::MinorityVeto,
        DecisionReason::ConservativeTie,
    ];
    for (i, a) in all.iter().enumerate() {
        for b in &all[i + 1..] {
            assert_ne!(a.as_str(), b.as_str());
        }
    }
}

#[test]
fn decisions_carry_their_reason() {
    let d = Decision::Escalate { to: EscalateTo::Verifier, reason: DecisionReason::MinorityVeto };
    assert_eq!(d.reason(), DecisionReason::MinorityVeto);
}

#[test]
fn provider_error_converts_and_preserves_retryability() {
    let pe = ProviderError::RateLimited { retry_after: None };
    let e: JudgeError = pe.into();
    match e {
        JudgeError::Provider(inner) => assert!(inner.is_retryable()),
        other => panic!("expected Provider, got {other:?}"),
    }
}

#[test]
fn empty_panel_names_the_hazard() {
    let e = JudgeError::EmptyPanel("no judges routed for area math_cot".into());
    assert!(e.message().contains("empty panel"));
}

#[test]
fn invariant_renders_message() {
    let e = JudgeError::Invariant("weights.len() != panel.len()".into());
    assert!(e.message().contains("weights.len()"));
}

#[test]
fn every_judge_error_has_its_words() {
    assert_eq!(
        JudgeError::Provider(ProviderError::Decode("x".into())).message(),
        "provider error: decode error: x"
    );
    assert_eq!(JudgeError::Storage("s".into()).message(), "storage error: s");
    assert_eq!(
        JudgeError::JudgeParse("p".into()).message(),
        "could not parse judge response into a grade: p"
    );
    assert_eq!(
        JudgeError::EmptyPanel("e".into()).message(),
        "consensus called on an empty panel: e"
    );
    assert_eq!(JudgeError::Invariant("i".into()).message(), "judge invariant violated: i");
}
