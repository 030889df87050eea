//! What can go wrong when a conversation is rendered, read or projected.

use vstd::prelude::*;

use crate::json::error_text;
use crate::json::error_words;
use crate::schema::message::{Role, TrlFormat};
use crate::text::{decimal_text, joined};
use crate::text::decimal;

verus! {

/// A sign of a tool trajectory that a template may have no place for.
#[derive(Debug, Clone, Copy, PartialEq, Eq, Structural)]
pub enum ToolSignal {
    /// A turn calls tools.
    ToolCalls,
    /// A turn links to a call.
    ToolCallId,
    /// A turn is the result of a call.
    ToolRole,
}

impl ToolSignal {
    /// What `{:?}` writes for the signal.
    pub open spec fn name(self) -> Seq<char> {
        match self {
            ToolSignal::ToolCalls => "ToolCalls"@,
            ToolSignal::ToolCallId => "ToolCallId"@,
            ToolSignal::ToolRole => "ToolRole"@,
        }
    }

    fn word(self) -> (r: &'static str)
        ensures
            r@ == self.name(),
    {
        match self {
            ToolSignal::ToolCalls => "ToolCalls",
            ToolSignal::ToolCallId => "ToolCallId",
            ToolSignal::ToolRole => "ToolRole",
        }
    }
}

/// How to obtain a target that keeps a tool trajectory.
#[derive(Debug, Clone, Copy, PartialEq, Eq, Structural)]
pub enum ToolCallRecovery {
    /// Export the conversation as it is stored and apply the model's own template elsewhere.
    CanonicalExportAndOfficialTemplate,
}

impl ToolCallRecovery {
    /// The advice in words.
    pub open spec fn advice(self) -> Seq<char> {
        "export the canonical `messages_json` conversation (tool calls and result links intact) and apply the model's official chat template in an external consumer"@
    }

    /// The advice in words.
    pub fn message(self) -> (r: String)
        ensures
            r@ == self.advice(),
    {
        "export the canonical `messages_json` conversation (tool calls and result links intact) and apply the model's official chat template in an external consumer".to_owned()
    }
}

/// What can go wrong when a conversation is rendered, read or projected.
#[derive(Debug)]
#[allow(inconsistent_fields)]
#[non_exhaustive]
pub enum FormatError {
    /// A document could not be written as JSON.
    Serde(serde_json::Error),
    /// The target has no place for a role.
    UnsupportedRole {
        /// The role.
        role: Role,
        /// The target.
        target: &'static str,
    },
    /// The target has no place for a tool trajectory.
    UnsupportedToolCalls {
        /// The target.
        target: TrlFormat,
        /// What would have been lost.
        signals: Vec<ToolSignal>,
        /// The first message that shows a sign of a tool trajectory.
        index: usize,
        /// The way out.
        recovery: ToolCallRecovery,
    },
    /// A field that should be clean holds a control token.
    ControlTokenInContent {
        /// The token.
        token: &'static str,
        /// The role of the message.
        role: Role,
    },
    /// A provider's message could not be read.
    Ingest(String),
    /// A record could not be projected.
    Projection(String),
    /// A tool result does not go with a call.
    ToolIdentity(String),
}

/// What an error is, as mathematics.
#[verifier::ext_equal]
#[allow(inconsistent_fields)]
pub enum FormatErrorView {
    Serde(Seq<char>),
    UnsupportedRole { role: Role, target: Seq<char> },
    UnsupportedToolCalls {
        format: TrlFormat,
        signals: Seq<ToolSignal>,
        index: usize,
        recovery: ToolCallRecovery,
    },
    ControlTokenInContent { token: Seq<char>, role: Role },
    Ingest(Seq<char>),
    Projection(Seq<char>),
    ToolIdentity(Seq<char>),
}

impl DeepView for FormatError {
    type V = FormatErrorView;

    open spec fn deep_view(&self) -> FormatErrorView {
        match self {
            FormatError::Serde(e) => FormatErrorView::Serde(error_words(*e)),
            FormatError::UnsupportedRole { role, target } => FormatErrorView::UnsupportedRole {
                role: *role,
                target: target@,
            },
            FormatError::UnsupportedToolCalls { target, signals, index, recovery } =>
                FormatErrorView::UnsupportedToolCalls {
                format: *target,
                signals: signals@,
                index: *index,
                recovery: *recovery,
            },
            FormatError::ControlTokenInContent { token, role } =>
                FormatErrorView::ControlTokenInContent { token: token@, role: *role },
            FormatError::Ingest(s) => FormatErrorView::Ingest(s@),
            FormatError::Projection(s) => FormatErrorView::Projection(s@),
            FormatError::ToolIdentity(s) => FormatErrorView::ToolIdentity(s@),
        }
    }
}

/// What `{:?}` writes for a role.
pub open spec fn role_name(role: Role) -> Seq<char> {
    match role {
        Role::System => "System"@,
        Role::Developer => "Developer"@,
        Role::User => "User"@,
        Role::Assistant => "Assistant"@,
        Role::Tool => "Tool"@,
    }
}

fn role_word(role: Role) -> (r: &'static str)
    ensures
        r@ == role_name(role),
{
    match role {
        Role::System => "System",
        Role::Developer => "Developer",
        Role::User => "User",
        Role::Assistant => "Assistant",
        Role::Tool => "Tool",
    }
}

/// What `{:?}` writes for a target.
pub open spec fn format_name(target: TrlFormat) -> Seq<char> {
    match target {
        TrlFormat::Gemma4 => "Gemma4"@,
        TrlFormat::ChatML => "ChatML"@,
        TrlFormat::ShareGpt => "ShareGpt"@,
        TrlFormat::OpenAiMessages => "OpenAiMessages"@,
        TrlFormat::Harmony => "Harmony"@,
        TrlFormat::TrlPromptCompletion => "TrlPromptCompletion"@,
    }
}

fn format_word(target: TrlFormat) -> (r: &'static str)
    ensures
        r@ == format_name(target),
{
    match target {
        TrlFormat::Gemma4 => "Gemma4",
        TrlFormat::ChatML => "ChatML",
        TrlFormat::ShareGpt => "ShareGpt",
        TrlFormat::OpenAiMessages => "OpenAiMessages",
        TrlFormat::Harmony => "Harmony",
        TrlFormat::TrlPromptCompletion => "TrlPromptCompletion",
    }
}

/// The names of signals, set apart by commas.
pub open spec fn signal_names(signals: Seq<ToolSignal>) -> Seq<char>
    decreases signals.len(),
{
    if signals.len() == 0 {
        Seq::empty()
    } else if signals.len() == 1 {
        signals[0].name()
    } else {
        signal_names(signals.drop_last()) + ", "@ + signals.last().name()
    }
}

fn signal_words(signals: &Vec<ToolSignal>) -> (r: String)
    ensures
        r@ == signal_names(signals@),
{
    let mut r = String::new();
    let mut i: usize = 0;
    assert(signals@.take(0) =~= Seq::empty());
    assert(r@ =~= Seq::<char>::empty());
    while i < signals.len()
        invariant
            i <= signals@.len(),
            r@ == signal_names(signals@.take(i as int)),
        decreases signals@.len() - i,
    {
        proof {
            assert(signals@.take(i + 1).drop_last() =~= signals@.take(i as int));
        }
        if i > 0 {
            r.append(", ");
            r.append(signals[i].word());
        } else {
            r = signals[i].word().to_owned();
        }
        i += 1;
    }
    assert(signals@.take(i as int) =~= signals@);
    r
}

/// The message of an error.
pub open spec fn format_message(e: FormatErrorView) -> Seq<char> {
    match e {
        FormatErrorView::Serde(s) => "serde_json error: "@ + s,
        FormatErrorView::UnsupportedRole { role, target } => "unsupported role `"@ + role_name(role)
            + "` for target `"@ + target + "`"@,
        FormatErrorView::UnsupportedToolCalls { format, signals, index, recovery } =>
            "unsupported tool calls for target `"@ + format_name(format) + "`: messages["@ + decimal(
            index as nat,
        ) + "] carries ["@ + signal_names(signals) + "], which that template cannot represent; "@
            + recovery.advice(),
        FormatErrorView::ControlTokenInContent { token, role } => "control token `"@ + token
            + "` found in clean field of `"@ + role_name(role) + "` message"@,
        FormatErrorView::Ingest(s) => "ingest error: "@ + s,
        FormatErrorView::Projection(s) => "projection error: "@ + s,
        FormatErrorView::ToolIdentity(s) => "tool identity error: "@ + s,
    }
}

impl FormatError {
    /// The message of the error.
    pub fn message(&self) -> (m: String)
        ensures
            m@ == format_message(self.deep_view()),
    {
        match self {
            FormatError::Serde(e) => {
                let words = error_text(e);
                joined("serde_json error: ", words.as_str())
            },
            FormatError::UnsupportedRole { role, target } => {
                let mut m = joined("unsupported role `", role_word(*role));
                m.append("` for target `");
                m.append(target);
                m.append("`");
                m
            },
            FormatError::UnsupportedToolCalls { target, signals, index, recovery } => {
                let digits = decimal_text(*index as u64);
                let names = signal_words(signals);
                let advice = recovery.message();
                let mut m = joined("unsupported tool calls for target `", format_word(*target));
                m.append("`: messages[");
                m.append(digits.as_str());
                m.append("] carries [");
                m.append(names.as_str());
                m.append("], which that template cannot represent; ");
                m.append(advice.as_str());
                m
            },
            FormatError::ControlTokenInContent { token, role } => {
                let mut m = joined("control token `", token);
                m.append("` found in clean field of `");
                m.append(role_word(*role));
                m.append("` message");
                m
            },
            FormatError::Ingest(s) => joined("ingest error: ", s.as_str()),
            FormatError::Projection(s) => joined("projection error: ", s.as_str()),
            FormatError::ToolIdentity(s) => joined("tool identity error: ", s.as_str()),
        }
    }
}

impl From<serde_json::Error> for FormatError {
    fn from(e: serde_json::Error) -> (r: FormatError) {
        FormatError::Serde(e)
    }
}

impl vstd::std_specs::convert::FromSpecImpl<serde_json::Error> for FormatError {
    open spec fn obeys_from_spec() -> bool {
        true
    }

    open spec fn from_spec(e: serde_json::Error) -> FormatError {
        FormatError::Serde(e)
    }
}

} // verus!
