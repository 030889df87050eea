//! What can go wrong when a candidate is judged.

use vstd::prelude::*;

use crate::providers::error::{provider_message, ProviderErrorView};
use crate::providers::error::ProviderError;
use crate::text::joined;

verus! {

/// What can go wrong when a candidate is judged.
#[derive(Debug, PartialEq)]
#[non_exhaustive]
pub enum JudgeError {
    /// A judge could not be reached.
    Provider(ProviderError),
    /// The cache of grades failed.
    Storage(String),
    /// A judge's reply could not be read.
    JudgeParse(String),
    /// There was no judge to form a consensus.
    EmptyPanel(String),
    /// The caller broke a rule.
    Invariant(String),
}

/// What an error is, as mathematics.
#[verifier::ext_equal]
pub enum JudgeErrorView {
    Provider(ProviderErrorView),
    Storage(Seq<char>),
    JudgeParse(Seq<char>),
    EmptyPanel(Seq<char>),
    Invariant(Seq<char>),
}

impl DeepView for JudgeError {
    type V = JudgeErrorView;

    open spec fn deep_view(&self) -> JudgeErrorView {
        match self {
            JudgeError::Provider(e) => JudgeErrorView::Provider(e.deep_view()),
            JudgeError::Storage(s) => JudgeErrorView::Storage(s@),
            JudgeError::JudgeParse(s) => JudgeErrorView::JudgeParse(s@),
            JudgeError::EmptyPanel(s) => JudgeErrorView::EmptyPanel(s@),
            JudgeError::Invariant(s) => JudgeErrorView::Invariant(s@),
        }
    }
}

/// The message of an error.
pub open spec fn judge_message(e: JudgeErrorView) -> Seq<char> {
    match e {
        JudgeErrorView::Provider(p) => "provider error: "@ + provider_message(p),
        JudgeErrorView::Storage(s) => "storage error: "@ + s,
        JudgeErrorView::JudgeParse(s) => "could not parse judge response into a grade: "@ + s,
        JudgeErrorView::EmptyPanel(s) => "consensus called on an empty panel: "@ + s,
        JudgeErrorView::Invariant(s) => "judge invariant violated: "@ + s,
    }
}

impl JudgeError {
    /// The message of the error.
    pub fn message(&self) -> (m: String)
        ensures
            m@ == judge_message(self.deep_view()),
    {
        match self {
            JudgeError::Provider(p) => {
                let inner = p.message();
                joined("provider error: ", inner.as_str())
            },
            JudgeError::Storage(s) => joined("storage error: ", s.as_str()),
            JudgeError::JudgeParse(s) => joined(
                "could not parse judge response into a grade: ",
                s.as_str(),
            ),
            JudgeError::EmptyPanel(s) => joined("consensus called on an empty panel: ", s.as_str()),
            JudgeError::Invariant(s) => joined("judge invariant violated: ", s.as_str()),
        }
    }
}

impl From<ProviderError> for JudgeError {
    fn from(e: ProviderError) -> (r: JudgeError) {
        JudgeError::Provider(e)
    }
}

impl vstd::std_specs::convert::FromSpecImpl<ProviderError> for JudgeError {
    open spec fn obeys_from_spec() -> bool {
        true
    }

    open spec fn from_spec(e: ProviderError) -> JudgeError {
        JudgeError::Provider(e)
    }
}

} // verus!
