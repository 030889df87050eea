//! Verdicts of single judges, decisions of the whole, and what a record keeps of them.

use vstd::prelude::*;

use crate::schema::judging::Verdict as SchemaVerdict;
use crate::schema::record::LifecycleState;

verus! {

/// The verdict of one judge.
#[derive(Debug, Clone, Copy, PartialEq, Eq, Hash, Structural)]
pub enum Verdict {
    /// Good enough to admit.
    Accept,
    /// Worth one revision.
    Revise,
    /// Bad.
    Reject,
    /// The judge could not decide; counts neither way.
    Uncertain,
}

/// Who settles a record that the panel cannot settle.
#[derive(Debug, Clone, Copy, PartialEq, Eq, Hash, Structural)]
pub enum EscalateTo {
    /// A person.
    Human,
    /// A deterministic check that could not be run.
    Verifier,
}

/// Why a decision was reached.
#[derive(Debug, Clone, Copy, PartialEq, Eq, Structural)]
pub enum DecisionReason {
    /// A deterministic check failed; no panel score counts against that.
    VerifierReject,
    /// A deterministic check could not decide, so nothing may be admitted.
    VerifierUndecided,
    /// The aggregate reached the accept threshold.
    AboveThreshold,
    /// The aggregate lies between the two thresholds.
    ReviseBand,
    /// The aggregate lies below the reject threshold.
    BelowThreshold,
    /// The judges are too few or too alike to be trusted.
    CorrelatedJudges,
    /// A minority of judges sent the record to review.
    MinorityVeto,
    /// No judge could decide.
    ConservativeTie,
}

impl DecisionReason {
    /// The token that a record keeps of the reason.
    pub open spec fn token(self) -> Seq<char> {
        match self {
            DecisionReason::VerifierReject => "verifier_reject"@,
            DecisionReason::VerifierUndecided => "verifier_undecided"@,
            DecisionReason::AboveThreshold => "above_threshold"@,
            DecisionReason::ReviseBand => "revise_band"@,
            DecisionReason::BelowThreshold => "below_threshold"@,
            DecisionReason::CorrelatedJudges => "correlated_judges"@,
            DecisionReason::MinorityVeto => "minority_veto"@,
            DecisionReason::ConservativeTie => "conservative_tie"@,
        }
    }

    /// The token that a record keeps of the reason.
    #[must_use]
    pub fn as_str(self) -> (r: &'static str)
        ensures
            r@ == self.token(),
    {
        match self {
            DecisionReason::VerifierReject => "verifier_reject",
            DecisionReason::VerifierUndecided => "verifier_undecided",
            DecisionReason::AboveThreshold => "above_threshold",
            DecisionReason::ReviseBand => "revise_band",
            DecisionReason::BelowThreshold => "below_threshold",
            DecisionReason::CorrelatedJudges => "correlated_judges",
            DecisionReason::MinorityVeto => "minority_veto",
            DecisionReason::ConservativeTie => "conservative_tie",
        }
    }
}

/// Different reasons have different tokens, so the token alone tells the reason.
pub proof fn reason_tokens_are_distinct(a: DecisionReason, b: DecisionReason)
    ensures
        a.token() == b.token() ==> a == b,
{
    reveal_strlit("verifier_reject");
    reveal_strlit("verifier_undecided");
    reveal_strlit("above_threshold");
    reveal_strlit("revise_band");
    reveal_strlit("below_threshold");
    reveal_strlit("correlated_judges");
    reveal_strlit("minority_veto");
    reveal_strlit("conservative_tie");
    assert("verifier_reject"@.len() == 15);
    assert("verifier_undecided"@.len() == 18);
    assert("above_threshold"@.len() == 15);
    assert("revise_band"@.len() == 11);
    assert("below_threshold"@.len() == 15);
    assert("correlated_judges"@.len() == 17);
    assert("minority_veto"@.len() == 13);
    assert("conservative_tie"@.len() == 16);
    assert("verifier_reject"@[0] == 'v');
    assert("above_threshold"@[0] == 'a');
    assert("below_threshold"@[0] == 'b');
}

/// What is decided about a candidate.
#[derive(Debug, Clone, Copy, PartialEq, Eq, Structural)]
pub enum Decision {
    /// It is admitted.
    Accept {
        /// Why.
        reason: DecisionReason,
    },
    /// It gets one revision.
    Revise {
        /// Why.
        reason: DecisionReason,
    },
    /// It is rejected.
    Reject {
        /// Why.
        reason: DecisionReason,
    },
    /// Someone else settles it.
    Escalate {
        /// Who.
        to: EscalateTo,
        /// Why.
        reason: DecisionReason,
    },
}

impl Decision {
    /// The reason carried.
    pub open spec fn why(self) -> DecisionReason {
        match self {
            Decision::Accept { reason } => reason,
            Decision::Revise { reason } => reason,
            Decision::Reject { reason } => reason,
            Decision::Escalate { to: _, reason } => reason,
        }
    }

    /// The verdict that a record keeps; a revision leaves none.
    pub open spec fn kept_verdict(self) -> Option<SchemaVerdict> {
        match self {
            Decision::Accept { .. } => Some(SchemaVerdict::Admit),
            Decision::Reject { .. } => Some(SchemaVerdict::Reject),
            Decision::Escalate { .. } => Some(SchemaVerdict::NeedsReview),
            Decision::Revise { .. } => None,
        }
    }

    /// The reason carried.
    #[must_use]
    pub fn reason(&self) -> (r: DecisionReason)
        ensures
            r == self.why(),
    {
        match self {
            Decision::Accept { reason } => *reason,
            Decision::Revise { reason } => *reason,
            Decision::Reject { reason } => *reason,
            Decision::Escalate { to: _, reason } => *reason,
        }
    }

    /// The verdict that a record keeps: admitted, rejected or held for review. A revision is
    /// transient and leaves none.
    #[must_use]
    pub fn to_schema_verdict(&self) -> (r: Option<SchemaVerdict>)
        ensures
            r == self.kept_verdict(),
    {
        match self {
            Decision::Accept { .. } => Some(SchemaVerdict::Admit),
            Decision::Reject { .. } => Some(SchemaVerdict::Reject),
            Decision::Escalate { .. } => Some(SchemaVerdict::NeedsReview),
            Decision::Revise { .. } => None,
        }
    }

    /// The state that the record goes to.
    #[must_use]
    pub fn to_lifecycle(&self) -> (r: LifecycleState)
        ensures
            r == (match self {
                Decision::Accept { .. } => LifecycleState::Admitted,
                Decision::Reject { .. } => LifecycleState::Rejected,
                Decision::Revise { .. } => LifecycleState::Revising,
                Decision::Escalate { .. } => LifecycleState::NeedsReview,
            }),
    {
        match self {
            Decision::Accept { .. } => LifecycleState::Admitted,
            Decision::Reject { .. } => LifecycleState::Rejected,
            Decision::Revise { .. } => LifecycleState::Revising,
            Decision::Escalate { .. } => LifecycleState::NeedsReview,
        }
    }
}

} // verus!
