//! Verification contracts, the checks that were run, and execution reports.

use vstd::prelude::*;

use crate::double::Double;

verus! {

/// How the answer of a task can be checked.
#[derive(Debug, Clone, Copy, PartialEq, Eq, Structural)]
pub enum VerificationKind {
    /// The answer is a number.
    NumericMatch,
    /// The answer is a collection whose order does not matter.
    SetMatch,
    /// The answer is the result of a query.
    SqlResultMatch,
    /// The answer has a given shape.
    SchemaShape,
    /// The correct answer is a refusal.
    RefusalExpected,
    /// No rule can check the answer.
    Unchecked,
}

/// Where the ground truth of a task comes from.
#[derive(Debug, PartialEq)]
#[allow(inconsistent_fields)]
pub enum Oracle {
    /// It is known.
    Literal {
        /// The expected answer.
        expected: String,
    },
    /// It is the result of running a reference tool or query.
    SandboxExecution {
        /// What is run.
        tool_or_sql: String,
        /// The result, where it is already known.
        expected: Option<String>,
    },
    /// It is a policy that demands a refusal.
    RefusalPolicy {
        /// The policy.
        policy_id: String,
    },
    /// There is none.
    Absent,
}

/// What an oracle is, as mathematics.
#[verifier::ext_equal]
#[allow(inconsistent_fields)]
pub enum OracleView {
    Literal { expected: Seq<char> },
    SandboxExecution { tool_or_sql: Seq<char>, expected: Option<Seq<char>> },
    RefusalPolicy { policy_id: Seq<char> },
    Absent,
}

impl DeepView for Oracle {
    type V = OracleView;

    open spec fn deep_view(&self) -> OracleView {
        match self {
            Oracle::Literal { expected } => OracleView::Literal { expected: expected@ },
            Oracle::SandboxExecution { tool_or_sql, expected } => OracleView::SandboxExecution {
                tool_or_sql: tool_or_sql@,
                expected: expected.deep_view(),
            },
            Oracle::RefusalPolicy { policy_id } => OracleView::RefusalPolicy {
                policy_id: policy_id@,
            },
            Oracle::Absent => OracleView::Absent,
        }
    }
}

impl Clone for Oracle {
    fn clone(&self) -> (r: Oracle)
        ensures
            r.deep_view() == self.deep_view(),
    {
        match self {
            Oracle::Literal { expected } => Oracle::Literal { expected: expected.clone() },
            Oracle::SandboxExecution { tool_or_sql, expected } => Oracle::SandboxExecution {
                tool_or_sql: tool_or_sql.clone(),
                expected: expected.clone(),
            },
            Oracle::RefusalPolicy { policy_id } => Oracle::RefusalPolicy {
                policy_id: policy_id.clone(),
            },
            Oracle::Absent => Oracle::Absent,
        }
    }
}

/// What an area promises about checking its answers.
#[derive(Debug, PartialEq)]
pub struct VerificationContract {
    /// How the answer is checked.
    pub kind: VerificationKind,
    /// Where the ground truth comes from.
    pub oracle: Oracle,
    /// The marker that introduces the answer.
    pub answer_marker: Option<String>,
}

/// What a contract is, as mathematics.
#[verifier::ext_equal]
pub struct VerificationContractView {
    pub kind: VerificationKind,
    pub oracle: OracleView,
    pub answer_marker: Option<Seq<char>>,
}

impl DeepView for VerificationContract {
    type V = VerificationContractView;

    open spec fn deep_view(&self) -> VerificationContractView {
        VerificationContractView {
            kind: self.kind,
            oracle: self.oracle.deep_view(),
            answer_marker: self.answer_marker.deep_view(),
        }
    }
}

impl Clone for VerificationContract {
    fn clone(&self) -> (r: VerificationContract)
        ensures
            r.deep_view() == self.deep_view(),
    {
        VerificationContract {
            kind: self.kind,
            oracle: self.oracle.clone(),
            answer_marker: self.answer_marker.clone(),
        }
    }
}

/// What a check looked at.
#[derive(Debug, Clone, Copy, PartialEq, Eq, Structural)]
pub enum CheckKind {
    /// Whether a chain of thought is there.
    ReasoningPresent,
    /// Whether the text matches a pattern.
    Regex,
    /// Whether the answer is right.
    MathCheck,
    /// Whether the required tests passed.
    UnitTest,
}

/// One deterministic check of a candidate.
#[derive(Debug, PartialEq)]
pub struct Check {
    /// The check's name.
    pub name: String,
    /// What it looked at.
    pub kind: CheckKind,
    /// Whether it passed.
    pub passed: bool,
    /// Its score, where it has one.
    pub score: Option<Double>,
    /// What it found.
    pub detail: Option<String>,
}

/// What a check is, as mathematics.
#[verifier::ext_equal]
pub struct CheckView {
    pub name: Seq<char>,
    pub kind: CheckKind,
    pub passed: bool,
    pub score: Option<Double>,
    pub detail: Option<Seq<char>>,
}

impl DeepView for Check {
    type V = CheckView;

    open spec fn deep_view(&self) -> CheckView {
        CheckView {
            name: self.name@,
            kind: self.kind,
            passed: self.passed,
            score: self.score,
            detail: self.detail.deep_view(),
        }
    }
}

impl Clone for Check {
    fn clone(&self) -> (r: Check)
        ensures
            r.deep_view() == self.deep_view(),
    {
        Check {
            name: self.name.clone(),
            kind: self.kind,
            passed: self.passed,
            score: self.score,
            detail: self.detail.clone(),
        }
    }
}

/// The outcome of the deterministic checks.
#[derive(Debug, PartialEq)]
pub struct Verification {
    /// The checks, in the order they were run.
    pub checks: Vec<Check>,
    /// Whether all of them passed.
    pub all_passed: bool,
    /// Why the record must be held for review, where it must.
    pub needs_review: Option<String>,
}

/// What a verification is, as mathematics.
#[verifier::ext_equal]
pub struct VerificationView {
    pub checks: Seq<CheckView>,
    pub all_passed: bool,
    pub needs_review: Option<Seq<char>>,
}

/// The verification of a record that was not verified.
pub open spec fn no_verification() -> VerificationView {
    VerificationView { checks: Seq::empty(), all_passed: false, needs_review: None }
}

impl DeepView for Verification {
    type V = VerificationView;

    open spec fn deep_view(&self) -> VerificationView {
        VerificationView {
            checks: self.checks.deep_view(),
            all_passed: self.all_passed,
            needs_review: self.needs_review.deep_view(),
        }
    }
}

impl Clone for Verification {
    fn clone(&self) -> (r: Verification)
        ensures
            r.deep_view() == self.deep_view(),
    {
        let checks = self.checks.clone();
        assert(checks.deep_view() =~= self.checks.deep_view());
        Verification { checks, all_passed: self.all_passed, needs_review: self.needs_review.clone() }
    }
}

impl Default for Verification {
    fn default() -> (r: Verification)
        ensures
            r.deep_view() == no_verification(),
    {
        let r = Verification { checks: Vec::new(), all_passed: false, needs_review: None };
        assert(r.checks.deep_view() =~= Seq::empty());
        r
    }
}

/// What an execution report was computed for.
#[derive(Debug, PartialEq)]
pub struct EvidenceBinding {
    /// The task.
    pub task: String,
    /// The attempt at it.
    pub attempt: String,
    /// The content of the attempt.
    pub patch_hash: String,
}

/// What a binding is, as mathematics.
#[verifier::ext_equal]
pub struct EvidenceBindingView {
    pub task: Seq<char>,
    pub attempt: Seq<char>,
    pub patch_hash: Seq<char>,
}

impl DeepView for EvidenceBinding {
    type V = EvidenceBindingView;

    open spec fn deep_view(&self) -> EvidenceBindingView {
        EvidenceBindingView {
            task: self.task@,
            attempt: self.attempt@,
            patch_hash: self.patch_hash@,
        }
    }
}

impl Default for EvidenceBinding {
    fn default() -> (r: EvidenceBinding)
        ensures
            r.task@ == Seq::<char>::empty(),
            r.attempt@ == Seq::<char>::empty(),
            r.patch_hash@ == Seq::<char>::empty(),
    {
        EvidenceBinding { task: String::new(), attempt: String::new(), patch_hash: String::new() }
    }
}

impl Clone for EvidenceBinding {
    fn clone(&self) -> (r: EvidenceBinding)
        ensures
            r.deep_view() == self.deep_view(),
    {
        EvidenceBinding {
            task: self.task.clone(),
            attempt: self.attempt.clone(),
            patch_hash: self.patch_hash.clone(),
        }
    }
}

/// What an execution report claims.
#[derive(Debug, Clone, Copy, PartialEq, Eq, Structural)]
pub enum ExecutionOutcome {
    /// The candidate passed.
    Passed,
    /// The candidate failed.
    Failed,
    /// Nothing can be said.
    Unknown,
}

/// How one test ended.
#[derive(Debug, Clone, Copy, PartialEq, Eq, Structural)]
pub enum TestStatus {
    /// It passed.
    Passed,
    /// It failed.
    Failed,
    /// It was not run.
    Skipped,
}

/// One test of an execution report.
#[derive(Debug, PartialEq)]
pub struct TestCase {
    /// The test's name.
    pub node: String,
    /// How it ended.
    pub status: TestStatus,
}

/// What a test case is, as mathematics.
#[verifier::ext_equal]
pub struct TestCaseView {
    pub node: Seq<char>,
    pub status: TestStatus,
}

impl DeepView for TestCase {
    type V = TestCaseView;

    open spec fn deep_view(&self) -> TestCaseView {
        TestCaseView { node: self.node@, status: self.status }
    }
}

impl Clone for TestCase {
    fn clone(&self) -> (r: TestCase)
        ensures
            r.deep_view() == self.deep_view(),
    {
        TestCase { node: self.node.clone(), status: self.status }
    }
}

/// The report of an evaluator that ran a candidate.
#[derive(Debug, PartialEq)]
pub struct ExecutionEvidence {
    /// What it claims.
    pub outcome: ExecutionOutcome,
    /// The tests that had to pass.
    pub required_tests: Vec<String>,
    /// The tests that were reported.
    pub cases: Vec<TestCase>,
    /// The exit status of the run.
    pub exit_code: Option<i32>,
    /// Errors of the suite as a whole.
    pub errors: Vec<String>,
    /// Where the report is kept.
    pub source_ref: Option<String>,
    /// What it was computed for.
    pub binding: EvidenceBinding,
}

/// What an execution report is, as mathematics.
#[verifier::ext_equal]
pub struct ExecutionEvidenceView {
    pub outcome: ExecutionOutcome,
    pub required_tests: Seq<Seq<char>>,
    pub cases: Seq<TestCaseView>,
    pub exit_code: Option<i32>,
    pub errors: Seq<Seq<char>>,
    pub source_ref: Option<Seq<char>>,
    pub binding: EvidenceBindingView,
}

impl DeepView for ExecutionEvidence {
    type V = ExecutionEvidenceView;

    open spec fn deep_view(&self) -> ExecutionEvidenceView {
        ExecutionEvidenceView {
            outcome: self.outcome,
            required_tests: self.required_tests.deep_view(),
            cases: self.cases.deep_view(),
            exit_code: self.exit_code,
            errors: self.errors.deep_view(),
            source_ref: self.source_ref.deep_view(),
            binding: self.binding.deep_view(),
        }
    }
}

impl Clone for ExecutionEvidence {
    fn clone(&self) -> (r: ExecutionEvidence)
        ensures
            r.deep_view() == self.deep_view(),
    {
        let r = ExecutionEvidence {
            outcome: self.outcome,
            required_tests: self.required_tests.clone(),
            cases: self.cases.clone(),
            exit_code: self.exit_code,
            errors: self.errors.clone(),
            source_ref: self.source_ref.clone(),
            binding: self.binding.clone(),
        };
        assert(r.required_tests.deep_view() =~= self.required_tests.deep_view());
        assert(r.cases.deep_view() =~= self.cases.deep_view());
        assert(r.errors.deep_view() =~= self.errors.deep_view());
        r
    }
}

} // verus!
