//! What a carried execution report means for a candidate.
//!
//! Nothing is executed here. A report counts only for the candidate it was computed for, and a
//! claim counts only as far as the report's own detail bears it out: of the claim and the outcome
//! derived from the detail, the more conservative stands.

use vstd::prelude::*;

use crate::double::Double;
use crate::judge::checks::VerifierInput;
use crate::schema::verification::{
    Check,
    CheckKind,
    CheckView,
    EvidenceBinding,
    EvidenceBindingView,
    ExecutionEvidence,
    ExecutionEvidenceView,
    ExecutionOutcome,
    TestCase,
    TestCaseView,
    TestStatus,
};
use crate::text::{debug_number_text, debug_text, decimal_text, joined, same_text};
use crate::text::{debug_number, debug_of, decimal};

verus! {

/// What a report proves about a candidate.
#[derive(Debug, Clone, Copy, PartialEq, Eq, Structural)]
pub enum EvidenceVerdict {
    /// That it failed.
    Failed,
    /// Nothing.
    Unknown,
    /// That it passed.
    Passed,
}

impl EvidenceVerdict {
    /// How little is claimed: nothing proven outranks a failure, a failure outranks a pass.
    pub open spec fn caution(self) -> int {
        match self {
            EvidenceVerdict::Unknown => 2,
            EvidenceVerdict::Failed => 1,
            EvidenceVerdict::Passed => 0,
        }
    }

    /// The more conservative of two outcomes.
    pub open spec fn stricter(self, other: EvidenceVerdict) -> EvidenceVerdict {
        if self.caution() >= other.caution() {
            self
        } else {
            other
        }
    }

    /// The more conservative of two outcomes.
    fn more_conservative(self, other: EvidenceVerdict) -> (r: EvidenceVerdict)
        ensures
            r == self.stricter(other),
    {
        match (self, other) {
            (EvidenceVerdict::Unknown, _) => EvidenceVerdict::Unknown,
            (_, EvidenceVerdict::Unknown) => EvidenceVerdict::Unknown,
            (EvidenceVerdict::Failed, _) => EvidenceVerdict::Failed,
            (_, EvidenceVerdict::Failed) => EvidenceVerdict::Failed,
            (EvidenceVerdict::Passed, EvidenceVerdict::Passed) => EvidenceVerdict::Passed,
        }
    }
}

/// Whether some test is reported twice.
pub open spec fn has_repeated_node(cases: Seq<TestCaseView>) -> bool {
    exists|i: int, j: int| 0 <= i < j < cases.len() && cases[i].node == cases[j].node
}

/// Whether some test is reported as failed.
pub open spec fn has_failed_case(cases: Seq<TestCaseView>) -> bool {
    exists|i: int| 0 <= i < cases.len() && (#[trigger] cases[i]).status == TestStatus::Failed
}

/// Whether the test `node` is reported as passed.
pub open spec fn node_passed(cases: Seq<TestCaseView>, node: Seq<char>) -> bool {
    exists|i: int|
        0 <= i < cases.len() && (#[trigger] cases[i]).node == node && cases[i].status
            == TestStatus::Passed
}

/// Whether every required test is reported as passed.
pub open spec fn all_required_passed(e: ExecutionEvidenceView) -> bool {
    forall|i: int|
        0 <= i < e.required_tests.len() ==> node_passed(e.cases, #[trigger] e.required_tests[i])
}

/// Whether a report says too little to prove anything: it requires nothing, names no exit status, or
/// reports no test or one test twice.
pub open spec fn unreadable(e: ExecutionEvidenceView) -> bool {
    e.required_tests.len() == 0 || e.exit_code is None || e.cases.len() == 0 || has_repeated_node(
        e.cases,
    )
}

/// What the detail of a report proves, whatever the report claims. A report that says too little
/// proves nothing, before everything else; otherwise a suite error, a bad exit, a failed test or a
/// required test that did not pass is a failure.
pub open spec fn detail_verdict(e: ExecutionEvidenceView) -> EvidenceVerdict {
    if unreadable(e) {
        EvidenceVerdict::Unknown
    } else if e.errors.len() > 0 || e.exit_code != Some(0i32) || has_failed_case(e.cases)
        || !all_required_passed(e) {
        EvidenceVerdict::Failed
    } else {
        EvidenceVerdict::Passed
    }
}

/// What a report claims.
pub open spec fn claimed(outcome: ExecutionOutcome) -> EvidenceVerdict {
    match outcome {
        ExecutionOutcome::Passed => EvidenceVerdict::Passed,
        ExecutionOutcome::Failed => EvidenceVerdict::Failed,
        ExecutionOutcome::Unknown => EvidenceVerdict::Unknown,
    }
}

/// What a report means for the candidate `key`. Another task's or attempt's report is a failure of
/// the evidence; a report on older content is stale and proves nothing.
pub open spec fn report_verdict(
    e: ExecutionEvidenceView,
    key: EvidenceBindingView,
) -> EvidenceVerdict {
    if e.binding.task != key.task || e.binding.attempt != key.attempt {
        EvidenceVerdict::Failed
    } else if e.binding.patch_hash != key.patch_hash {
        EvidenceVerdict::Unknown
    } else {
        claimed(e.outcome).stricter(detail_verdict(e))
    }
}

fn repeats_a_node(cases: &Vec<TestCase>) -> (r: bool)
    ensures
        r == has_repeated_node(cases.deep_view()),
{
    let ghost view = cases.deep_view();
    let mut j: usize = 0;
    while j < cases.len()
        invariant
            j <= cases@.len(),
            view == cases.deep_view(),
            forall|a: int, b: int| 0 <= a < b < j ==> view[a].node != view[b].node,
        decreases cases@.len() - j,
    {
        let mut i: usize = 0;
        while i < j
            invariant
                i <= j < cases@.len(),
                view == cases.deep_view(),
                forall|a: int| 0 <= a < i ==> view[a].node != view[j as int].node,
            decreases j - i,
        {
            if same_text(cases[i].node.as_str(), cases[j].node.as_str()) {
                proof {
                    assert(view[i as int].node == view[j as int].node);
                }
                return true;
            }
            i += 1;
        }
        j += 1;
    }
    false
}

fn reports_a_failure(cases: &Vec<TestCase>) -> (r: bool)
    ensures
        r == has_failed_case(cases.deep_view()),
{
    let ghost view = cases.deep_view();
    let mut i: usize = 0;
    while i < cases.len()
        invariant
            i <= cases@.len(),
            view == cases.deep_view(),
            forall|a: int| 0 <= a < i ==> (#[trigger] view[a]).status != TestStatus::Failed,
        decreases cases@.len() - i,
    {
        if cases[i].status == TestStatus::Failed {
            proof {
                assert(view[i as int].status == TestStatus::Failed);
            }
            return true;
        }
        i += 1;
    }
    false
}

fn reports_passed(cases: &Vec<TestCase>, node: &str) -> (r: bool)
    ensures
        r == node_passed(cases.deep_view(), node@),
{
    let ghost view = cases.deep_view();
    let mut i: usize = 0;
    while i < cases.len()
        invariant
            i <= cases@.len(),
            view == cases.deep_view(),
            forall|a: int|
                0 <= a < i ==> !((#[trigger] view[a]).node == node@ && view[a].status
                    == TestStatus::Passed),
        decreases cases@.len() - i,
    {
        if cases[i].status == TestStatus::Passed && same_text(cases[i].node.as_str(), node) {
            proof {
                assert(view[i as int].node == node@);
            }
            return true;
        }
        i += 1;
    }
    false
}

fn passes_required(e: &ExecutionEvidence) -> (r: bool)
    ensures
        r == all_required_passed(e.deep_view()),
{
    let ghost view = e.deep_view();
    let mut i: usize = 0;
    while i < e.required_tests.len()
        invariant
            i <= e.required_tests@.len(),
            view == e.deep_view(),
            forall|a: int|
                0 <= a < i ==> node_passed(view.cases, #[trigger] view.required_tests[a]),
        decreases e.required_tests@.len() - i,
    {
        if !reports_passed(&e.cases, e.required_tests[i].as_str()) {
            proof {
                assert(!node_passed(view.cases, view.required_tests[i as int]));
            }
            return false;
        }
        i += 1;
    }
    true
}

/// What the detail of a report proves, whatever the report claims.
fn derive_from_detail(e: &ExecutionEvidence) -> (r: EvidenceVerdict)
    ensures
        r == detail_verdict(e.deep_view()),
{
    if e.required_tests.len() == 0 {
        return EvidenceVerdict::Unknown;
    }
    let exit: i32 = match e.exit_code {
        Some(code) => code,
        None => {
            return EvidenceVerdict::Unknown;
        },
    };
    if e.cases.len() == 0 || repeats_a_node(&e.cases) {
        return EvidenceVerdict::Unknown;
    }
    if e.errors.len() > 0 || exit != 0 || reports_a_failure(&e.cases) || !passes_required(e) {
        return EvidenceVerdict::Failed;
    }
    EvidenceVerdict::Passed
}

/// What a report means for the candidate `key`: the binding first, then the more conservative of
/// what it claims and what its detail proves.
#[must_use]
pub fn classify(e: &ExecutionEvidence, key: &EvidenceBinding) -> (r: EvidenceVerdict)
    ensures
        r == report_verdict(e.deep_view(), key.deep_view()),
{
    if !same_text(e.binding.task.as_str(), key.task.as_str()) || !same_text(
        e.binding.attempt.as_str(),
        key.attempt.as_str(),
    ) {
        return EvidenceVerdict::Failed;
    }
    if !same_text(e.binding.patch_hash.as_str(), key.patch_hash.as_str()) {
        return EvidenceVerdict::Unknown;
    }
    let reported = match e.outcome {
        ExecutionOutcome::Passed => EvidenceVerdict::Passed,
        ExecutionOutcome::Failed => EvidenceVerdict::Failed,
        ExecutionOutcome::Unknown => EvidenceVerdict::Unknown,
    };
    reported.more_conservative(derive_from_detail(e))
}

/// How many tests are reported as failed.
pub open spec fn failing_count(cases: Seq<TestCaseView>) -> nat
    decreases cases.len(),
{
    if cases.len() == 0 {
        0
    } else {
        failing_count(cases.drop_last()) + if cases.last().status == TestStatus::Failed {
            1nat
        } else {
            0nat
        }
    }
}

/// The words for where the report is kept.
pub open spec fn source_words(source: Option<Seq<char>>) -> Seq<char> {
    match source {
        Some(r) => " (source: "@ + r + ")"@,
        None => Seq::empty(),
    }
}

/// The words for a report on another candidate.
pub open spec fn foreign_words(e: EvidenceBindingView, key: EvidenceBindingView) -> Seq<char> {
    "bound to task="@ + debug_of(e.task) + "/attempt="@ + debug_of(e.attempt)
        + ", not this candidate (task="@ + debug_of(key.task) + "/attempt="@ + debug_of(key.attempt)
        + ")"@
}

/// The words for an optional exit status.
pub open spec fn exit_words(code: Option<i32>) -> Seq<char> {
    debug_number(
        match code {
            Some(c) => Some(c as int),
            None => None,
        },
    )
}

/// The words for a claim.
pub open spec fn outcome_words(outcome: ExecutionOutcome) -> Seq<char> {
    match outcome {
        ExecutionOutcome::Passed => "Passed"@,
        ExecutionOutcome::Failed => "Failed"@,
        ExecutionOutcome::Unknown => "Unknown"@,
    }
}

/// The figures that every explanation of a report gives.
pub open spec fn figures(lead: Seq<char>, e: ExecutionEvidenceView) -> Seq<char> {
    lead + "required="@ + decimal(e.required_tests.len()) + ", reported="@ + decimal(e.cases.len())
        + ", exit="@ + exit_words(e.exit_code) + ", errors="@ + decimal(e.errors.len())
}

/// The explanation that goes with a verdict on a report.
pub open spec fn explanation(
    e: ExecutionEvidenceView,
    key: EvidenceBindingView,
    verdict: EvidenceVerdict,
) -> Seq<char> {
    match verdict {
        EvidenceVerdict::Passed => "execution evidence passed"@ + source_words(e.source_ref),
        EvidenceVerdict::Failed => "execution evidence "@ + (if e.binding.task != key.task
            || e.binding.attempt != key.attempt {
            foreign_words(e.binding, key)
        } else {
            figures("failed: "@, e) + ", failing_nodes="@ + decimal(failing_count(e.cases))
        }) + source_words(e.source_ref),
        EvidenceVerdict::Unknown => "execution evidence "@ + (if e.binding.patch_hash
            != key.patch_hash {
            "stale: evidence patch_hash does not match this candidate's content"@
        } else {
            figures("undecided: "@, e) + ", outcome="@ + outcome_words(e.outcome)
        }) + " — routed to review, never admitted"@ + source_words(e.source_ref),
    }
}

fn count_failing(cases: &Vec<TestCase>) -> (r: u64)
    ensures
        r == failing_count(cases.deep_view()),
{
    let ghost view = cases.deep_view();
    let mut n: u64 = 0;
    let mut i: usize = 0;
    while i < cases.len()
        invariant
            i <= cases@.len(),
            view == cases.deep_view(),
            n == failing_count(view.take(i as int)),
            n <= i,
        decreases cases@.len() - i,
    {
        proof {
            assert(view.take(i + 1).drop_last() =~= view.take(i as int));
            assert(view.take(i + 1).last() == view[i as int]);
        }
        if cases[i].status == TestStatus::Failed {
            n += 1;
        }
        i += 1;
    }
    proof {
        assert(view.take(i as int) =~= view);
    }
    n
}

fn figures_text(lead: &str, e: &ExecutionEvidence) -> (r: String)
    ensures
        r@ == figures(lead@, e.deep_view()),
{
    let mut out = lead.to_owned();
    out.append("required=");
    let required = decimal_text(e.required_tests.len() as u64);
    out.append(required.as_str());
    out.append(", reported=");
    let reported = decimal_text(e.cases.len() as u64);
    out.append(reported.as_str());
    out.append(", exit=");
    let code: Option<i64> = match e.exit_code {
        Some(c) => Some(c as i64),
        None => None,
    };
    let exit = debug_number_text(code);
    out.append(exit.as_str());
    out.append(", errors=");
    let errors = decimal_text(e.errors.len() as u64);
    out.append(errors.as_str());
    out
}

fn foreign_text(e: &EvidenceBinding, key: &EvidenceBinding) -> (r: String)
    ensures
        r@ == foreign_words(e.deep_view(), key.deep_view()),
{
    let mut out = "bound to task=".to_owned();
    let task = debug_text(e.task.as_str());
    out.append(task.as_str());
    out.append("/attempt=");
    let attempt = debug_text(e.attempt.as_str());
    out.append(attempt.as_str());
    out.append(", not this candidate (task=");
    let wanted_task = debug_text(key.task.as_str());
    out.append(wanted_task.as_str());
    out.append("/attempt=");
    let wanted_attempt = debug_text(key.attempt.as_str());
    out.append(wanted_attempt.as_str());
    out.append(")");
    out
}

/// The explanation that goes with a verdict on a report.
fn detail_for(e: &ExecutionEvidence, key: &EvidenceBinding, verdict: EvidenceVerdict) -> (r: String)
    ensures
        r@ == explanation(e.deep_view(), key.deep_view(), verdict),
{
    let tail = match &e.source_ref {
        Some(source) => {
            let mut t = " (source: ".to_owned();
            t.append(source.as_str());
            t.append(")");
            t
        },
        None => String::new(),
    };
    match verdict {
        EvidenceVerdict::Passed => joined("execution evidence passed", tail.as_str()),
        EvidenceVerdict::Failed => {
            let reason = if !same_text(e.binding.task.as_str(), key.task.as_str()) || !same_text(
                e.binding.attempt.as_str(),
                key.attempt.as_str(),
            ) {
                foreign_text(&e.binding, key)
            } else {
                let mut t = figures_text("failed: ", e);
                t.append(", failing_nodes=");
                let failing = decimal_text(count_failing(&e.cases));
                t.append(failing.as_str());
                t
            };
            let mut out = "execution evidence ".to_owned();
            out.append(reason.as_str());
            out.append(tail.as_str());
            out
        },
        EvidenceVerdict::Unknown => {
            let reason = if !same_text(e.binding.patch_hash.as_str(), key.patch_hash.as_str()) {
                "stale: evidence patch_hash does not match this candidate's content".to_owned()
            } else {
                let mut t = figures_text("undecided: ", e);
                t.append(", outcome=");
                match e.outcome {
                    ExecutionOutcome::Passed => t.append("Passed"),
                    ExecutionOutcome::Failed => t.append("Failed"),
                    ExecutionOutcome::Unknown => t.append("Unknown"),
                }
                t
            };
            let mut out = "execution evidence ".to_owned();
            out.append(reason.as_str());
            out.append(" — routed to review, never admitted");
            out.append(tail.as_str());
            out
        },
    }
}

/// The name of the check that an execution report contributes.
pub const EXECUTION_EVIDENCE_CHECK: &'static str = "execution_evidence";

/// The check that a report contributes. Only a proven failure fails it.
pub open spec fn evidence_check(e: ExecutionEvidenceView, key: EvidenceBindingView) -> CheckView {
    let verdict = report_verdict(e, key);
    CheckView {
        name: EXECUTION_EVIDENCE_CHECK@,
        kind: CheckKind::UnitTest,
        passed: verdict != EvidenceVerdict::Failed,
        score: match verdict {
            EvidenceVerdict::Passed => Some(Double { bits: 0x3ff0_0000_0000_0000 }),
            EvidenceVerdict::Failed => Some(Double { bits: 0 }),
            EvidenceVerdict::Unknown => None,
        },
        detail: Some(explanation(e, key, verdict)),
    }
}

/// The check that the input's execution report contributes, what the report means, and whether it
/// keeps the record from being admitted. A record without a report gets no check.
#[must_use]
pub fn execution_evidence_check(input: &VerifierInput<'_>) -> (r: Option<
    (Check, EvidenceVerdict, bool),
>)
    ensures
        match (input.execution_evidence, r) {
            (None, None) => true,
            (Some(e), Some((check, verdict, blocked))) => {
                &&& check.deep_view() == evidence_check(e.deep_view(), input.evidence_key.deep_view())
                &&& verdict == report_verdict(e.deep_view(), input.evidence_key.deep_view())
                &&& blocked == (verdict == EvidenceVerdict::Unknown)
            },
            _ => false,
        },
{
    match input.execution_evidence {
        None => None,
        Some(e) => {
            let verdict = classify(e, &input.evidence_key);
            let check = Check {
                name: EXECUTION_EVIDENCE_CHECK.to_owned(),
                kind: CheckKind::UnitTest,
                passed: verdict != EvidenceVerdict::Failed,
                score: match verdict {
                    EvidenceVerdict::Passed => Some(Double::one()),
                    EvidenceVerdict::Failed => Some(Double::zero()),
                    EvidenceVerdict::Unknown => None,
                },
                detail: Some(detail_for(e, &input.evidence_key, verdict)),
            };
            Some((check, verdict, verdict == EvidenceVerdict::Unknown))
        },
    }
}

/// Being stricter is taking the greater of two in the order in which a pass comes before a failure and
/// a failure before nothing proven: the order and the grouping of outcomes do not matter, an outcome
/// adds nothing to itself, a pass nothing to any outcome, and nothing proven stands above all.
pub proof fn stricter_is_the_greater(a: EvidenceVerdict, b: EvidenceVerdict, c: EvidenceVerdict)
    ensures
        a.stricter(b) == b.stricter(a),
        a.stricter(b).stricter(c) == a.stricter(b.stricter(c)),
        a.stricter(a) == a,
        EvidenceVerdict::Unknown.stricter(a) == EvidenceVerdict::Unknown,
        EvidenceVerdict::Passed.stricter(a) == a,
        EvidenceVerdict::Failed.stricter(EvidenceVerdict::Passed) == EvidenceVerdict::Failed,
{
}

/// A report about this candidate that says too little proves nothing, whatever it claims and whatever
/// errors it reports.
pub proof fn an_unreadable_report_proves_nothing(e: ExecutionEvidenceView, key: EvidenceBindingView)
    requires
        e.binding == key,
        unreadable(e),
    ensures
        report_verdict(e, key) == EvidenceVerdict::Unknown,
{
}

/// A pass is never taken on trust: the report must be about this candidate, claim a pass, name a
/// zero exit and show every required test, at least one of them, as passed.
pub proof fn a_pass_is_corroborated(e: ExecutionEvidenceView, key: EvidenceBindingView)
    requires
        report_verdict(e, key) == EvidenceVerdict::Passed,
    ensures
        e.binding == key,
        e.outcome == ExecutionOutcome::Passed,
        e.exit_code == Some(0i32),
        e.errors.len() == 0,
        e.required_tests.len() > 0,
        forall|i: int|
            0 <= i < e.required_tests.len() ==> node_passed(e.cases, #[trigger] e.required_tests[i]),
        !has_failed_case(e.cases),
{
}

/// A claimed failure is never softened into a pass, and a claim that nothing is known is never
/// hardened, whatever the detail shows.
pub proof fn a_claim_is_never_improved(e: ExecutionEvidenceView, key: EvidenceBindingView)
    requires
        e.binding == key,
    ensures
        e.outcome == ExecutionOutcome::Unknown ==> report_verdict(e, key)
            == EvidenceVerdict::Unknown,
        e.outcome == ExecutionOutcome::Failed ==> report_verdict(e, key)
            != EvidenceVerdict::Passed,
{
}

/// When a report decides, and what: one of another task or attempt proves a failure, one of other
/// content proves nothing. One of this candidate passes it exactly where it claims so and is readable,
/// ended well, without errors and without a failed case, and every required test passed in it; it proves
/// nothing where it is not readable or claims nothing; otherwise it proves a failure.
pub proof fn a_report_decides_by_its_details(e: ExecutionEvidenceView, key: EvidenceBindingView)
    ensures
        ({
            let own = e.binding.task == key.task && e.binding.attempt == key.attempt;
            let fresh = e.binding.patch_hash == key.patch_hash;
            let twice = exists|i: int, j: int|
                0 <= i < j < e.cases.len() && (#[trigger] e.cases[i]).node == (
                #[trigger] e.cases[j]).node;
            let readable = e.required_tests.len() > 0 && e.exit_code is Some && e.cases.len() > 0
                && !twice;
            let sound = e.exit_code == Some(0i32) && e.errors.len() == 0 && (forall|i: int|
                0 <= i < e.cases.len() ==> (#[trigger] e.cases[i]).status != TestStatus::Failed) && (
            exists|at: Seq<int>|
                #[trigger] at.len() == e.required_tests.len() && forall|r: int|
                    0 <= r < at.len() ==> 0 <= #[trigger] at[r] < e.cases.len() && e.cases[at[r]].node
                        == e.required_tests[r] && e.cases[at[r]].status == TestStatus::Passed);
            let v = report_verdict(e, key);
            &&& !own ==> v == EvidenceVerdict::Failed
            &&& own && !fresh ==> v == EvidenceVerdict::Unknown
            &&& own && fresh && (!readable || e.outcome == ExecutionOutcome::Unknown) ==> v
                == EvidenceVerdict::Unknown
            &&& own && fresh && readable && e.outcome == ExecutionOutcome::Failed ==> v
                == EvidenceVerdict::Failed
            &&& own && fresh && readable && e.outcome == ExecutionOutcome::Passed && sound ==> v
                == EvidenceVerdict::Passed
            &&& own && fresh && readable && e.outcome == ExecutionOutcome::Passed && !sound ==> v
                == EvidenceVerdict::Failed
        }),
{
    let twice = exists|i: int, j: int|
        0 <= i < j < e.cases.len() && (#[trigger] e.cases[i]).node == (#[trigger] e.cases[j]).node;
    assert(twice == has_repeated_node(e.cases));
    if all_required_passed(e) {
        let at = Seq::new(
            e.required_tests.len(),
            |r: int|
                choose|i: int|
                    0 <= i < e.cases.len() && (#[trigger] e.cases[i]).node == e.required_tests[r]
                        && e.cases[i].status == TestStatus::Passed,
        );
        assert forall|r: int| 0 <= r < at.len() implies 0 <= #[trigger] at[r] < e.cases.len()
            && e.cases[at[r]].node == e.required_tests[r] && e.cases[at[r]].status
            == TestStatus::Passed by {
            assert(node_passed(e.cases, e.required_tests[r]));
        }
        assert(at.len() == e.required_tests.len());
    } else {
        let r = choose|r: int|
            0 <= r < e.required_tests.len() && !node_passed(e.cases, #[trigger] e.required_tests[r]);
        assert forall|at: Seq<int>|
            #[trigger] at.len() == e.required_tests.len() implies !(0 <= at[r] < e.cases.len()
            && e.cases[at[r]].node == e.required_tests[r] && e.cases[at[r]].status
            == TestStatus::Passed) by {}
    }
}

/// What a report proves is told by its check: a failure fails it with a score of zero, a pass passes it
/// with a full score, and what proves nothing passes without a score.
pub proof fn a_report_is_told_by_its_check(e: ExecutionEvidenceView, key: EvidenceBindingView)
    ensures
        evidence_check(e, key).name == EXECUTION_EVIDENCE_CHECK@,
        evidence_check(e, key).kind == CheckKind::UnitTest,
        match report_verdict(e, key) {
            EvidenceVerdict::Passed => evidence_check(e, key).passed && evidence_check(e, key).score
                == Some(Double { bits: 0x3ff0_0000_0000_0000 }),
            EvidenceVerdict::Failed => !evidence_check(e, key).passed && evidence_check(e, key).score
                == Some(Double { bits: 0 }),
            EvidenceVerdict::Unknown => evidence_check(e, key).passed && evidence_check(e, key).score
                is None,
        },
{
}

} // verus!
