//! What can go wrong when a turn is produced.

use vstd::prelude::*;

use crate::double::Double;
use crate::format::error::{format_message, FormatErrorView};
use crate::format::error::FormatError;
use crate::providers::error::{provider_message, ProviderErrorView};
use crate::providers::error::ProviderError;
use crate::text::joined;

verus! {

/// What can go wrong when a turn is produced. No variant holds a secret.
#[derive(Debug)]
#[non_exhaustive]
pub enum GenerateError {
    /// The caller broke a rule.
    Invariant(String),
    /// A model could not be reached.
    Provider(ProviderError),
    /// A model's answer could not be read.
    Format(FormatError),
    /// A model answered nothing.
    EmptyResponse(String),
    /// The chain of thought broke off at the token cap.
    TruncatedReasoning {
        /// How far it came.
        detail: String,
        /// What it cost nevertheless.
        cost_usd: Option<Double>,
    },
    /// The embedder failed.
    Embed(String),
    /// A user turn holds a control token.
    LeakedUserTurn(&'static str),
}

/// What an error is, as mathematics.
#[verifier::ext_equal]
pub enum GenerateErrorView {
    Invariant(Seq<char>),
    Provider(ProviderErrorView),
    Format(FormatErrorView),
    EmptyResponse(Seq<char>),
    TruncatedReasoning { detail: Seq<char>, cost_usd: Option<Double> },
    Embed(Seq<char>),
    LeakedUserTurn(Seq<char>),
}

impl DeepView for GenerateError {
    type V = GenerateErrorView;

    open spec fn deep_view(&self) -> GenerateErrorView {
        match self {
            GenerateError::Invariant(s) => GenerateErrorView::Invariant(s@),
            GenerateError::Provider(e) => GenerateErrorView::Provider(e.deep_view()),
            GenerateError::Format(e) => GenerateErrorView::Format(e.deep_view()),
            GenerateError::EmptyResponse(s) => GenerateErrorView::EmptyResponse(s@),
            GenerateError::TruncatedReasoning { detail, cost_usd } =>
                GenerateErrorView::TruncatedReasoning { detail: detail@, cost_usd: *cost_usd },
            GenerateError::Embed(s) => GenerateErrorView::Embed(s@),
            GenerateError::LeakedUserTurn(t) => GenerateErrorView::LeakedUserTurn(t@),
        }
    }
}

/// The message of an error.
pub open spec fn generate_message(e: GenerateErrorView) -> Seq<char> {
    match e {
        GenerateErrorView::Invariant(s) => "generation invariant violated: "@ + s,
        GenerateErrorView::Provider(p) => "provider error: "@ + provider_message(p),
        GenerateErrorView::Format(f) => "format/ingest error: "@ + format_message(f),
        GenerateErrorView::EmptyResponse(s) => "teacher produced an empty completion: "@ + s,
        GenerateErrorView::TruncatedReasoning { detail, .. } =>
            "reasoning truncated (finish_reason=length): "@ + detail,
        GenerateErrorView::Embed(s) => "embedder error: "@ + s,
        GenerateErrorView::LeakedUserTurn(t) =>
            "synthesized user turn contains leaked control token `"@ + t + "`"@,
    }
}

impl GenerateError {
    /// The message of the error.
    pub fn message(&self) -> (m: String)
        ensures
            m@ == generate_message(self.deep_view()),
    {
        match self {
            GenerateError::Invariant(s) => joined("generation invariant violated: ", s.as_str()),
            GenerateError::Provider(p) => {
                let inner = p.message();
                joined("provider error: ", inner.as_str())
            },
            GenerateError::Format(f) => {
                let inner = f.message();
                joined("format/ingest error: ", inner.as_str())
            },
            GenerateError::EmptyResponse(s) => joined(
                "teacher produced an empty completion: ",
                s.as_str(),
            ),
            GenerateError::TruncatedReasoning { detail, .. } => joined(
                "reasoning truncated (finish_reason=length): ",
                detail.as_str(),
            ),
            GenerateError::Embed(s) => joined("embedder error: ", s.as_str()),
            GenerateError::LeakedUserTurn(t) => {
                let mut m = joined("synthesized user turn contains leaked control token `", t);
                m.append("`");
                m
            },
        }
    }
}

impl From<ProviderError> for GenerateError {
    fn from(e: ProviderError) -> (r: GenerateError) {
        GenerateError::Provider(e)
    }
}

impl vstd::std_specs::convert::FromSpecImpl<ProviderError> for GenerateError {
    open spec fn obeys_from_spec() -> bool {
        true
    }

    open spec fn from_spec(e: ProviderError) -> GenerateError {
        GenerateError::Provider(e)
    }
}

impl From<FormatError> for GenerateError {
    fn from(e: FormatError) -> (r: GenerateError) {
        GenerateError::Format(e)
    }
}

impl vstd::std_specs::convert::FromSpecImpl<FormatError> for GenerateError {
    open spec fn obeys_from_spec() -> bool {
        true
    }

    open spec fn from_spec(e: FormatError) -> GenerateError {
        GenerateError::Format(e)
    }
}

} // verus!
