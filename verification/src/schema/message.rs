//! The canonical conversation: messages, their content, their reasoning and their tool calls.

use vstd::prelude::*;

use crate::json::{Json, JsonView};

verus! {

/// Who speaks in a message.
#[derive(Debug, Clone, Copy, PartialEq, Eq, Structural)]
pub enum Role {
    /// Instructions that frame the conversation.
    System,
    /// Instructions of the application's developer.
    Developer,
    /// The person asking.
    User,
    /// The model answering.
    Assistant,
    /// The result of a tool call.
    Tool,
}

/// One part of a multimodal content.
#[derive(Debug, PartialEq)]
pub enum ContentPart {
    /// A piece of text.
    Text {
        /// The text.
        text: String,
    },
    /// A reference to an image.
    ImageUrl {
        /// Where the image is.
        image_url: String,
    },
}

/// What a content part is, as mathematics.
#[verifier::ext_equal]
pub enum ContentPartView {
    Text(Seq<char>),
    ImageUrl(Seq<char>),
}

impl DeepView for ContentPart {
    type V = ContentPartView;

    open spec fn deep_view(&self) -> ContentPartView {
        match self {
            ContentPart::Text { text } => ContentPartView::Text(text@),
            ContentPart::ImageUrl { image_url } => ContentPartView::ImageUrl(image_url@),
        }
    }
}

impl Clone for ContentPart {
    fn clone(&self) -> (r: ContentPart)
        ensures
            r.deep_view() == self.deep_view(),
    {
        match self {
            ContentPart::Text { text } => ContentPart::Text { text: text.clone() },
            ContentPart::ImageUrl { image_url } => ContentPart::ImageUrl {
                image_url: image_url.clone(),
            },
        }
    }
}

/// The content of a message. An absent content is not an empty one: both are kept apart.
#[derive(Debug, PartialEq)]
pub enum Content {
    /// Plain text.
    Text(String),
    /// Several parts.
    Parts(Vec<ContentPart>),
    /// No content at all.
    Null,
}

/// What a content is, as mathematics.
#[verifier::ext_equal]
pub enum ContentView {
    Text(Seq<char>),
    Parts(Seq<ContentPartView>),
    Null,
}

impl DeepView for Content {
    type V = ContentView;

    open spec fn deep_view(&self) -> ContentView {
        match self {
            Content::Text(text) => ContentView::Text(text@),
            Content::Parts(parts) => ContentView::Parts(parts.deep_view()),
            Content::Null => ContentView::Null,
        }
    }
}

impl Clone for Content {
    fn clone(&self) -> (r: Content)
        ensures
            r.deep_view() == self.deep_view(),
    {
        match self {
            Content::Text(text) => Content::Text(text.clone()),
            Content::Parts(parts) => {
                let copy = parts.clone();
                assert(copy.deep_view() =~= parts.deep_view());
                Content::Parts(copy)
            },
            Content::Null => Content::Null,
        }
    }
}

/// The function that a tool call names, with its arguments.
#[derive(Debug, PartialEq)]
pub struct FunctionCall {
    /// The function's name.
    pub name: String,
    /// The arguments; an object, where the call came through ingest.
    pub arguments: Json,
    /// The text that the arguments were decoded from, where they came as text.
    pub raw_arguments: Option<String>,
}

/// What a function call is, as mathematics.
#[verifier::ext_equal]
pub struct FunctionCallView {
    pub name: Seq<char>,
    pub arguments: JsonView,
    pub raw_arguments: Option<Seq<char>>,
}

impl DeepView for FunctionCall {
    type V = FunctionCallView;

    open spec fn deep_view(&self) -> FunctionCallView {
        FunctionCallView {
            name: self.name@,
            arguments: self.arguments@,
            raw_arguments: self.raw_arguments.deep_view(),
        }
    }
}

impl Clone for FunctionCall {
    fn clone(&self) -> (r: FunctionCall)
        ensures
            r.deep_view() == self.deep_view(),
    {
        FunctionCall {
            name: self.name.clone(),
            arguments: self.arguments.clone(),
            raw_arguments: self.raw_arguments.clone(),
        }
    }
}

/// A call of a tool that an assistant turn declares.
#[derive(Debug, PartialEq)]
pub struct ToolCall {
    /// The identity by which a result answers the call.
    pub id: Option<String>,
    /// The function called.
    pub function: FunctionCall,
}

/// What a tool call is, as mathematics.
#[verifier::ext_equal]
pub struct ToolCallView {
    pub id: Option<Seq<char>>,
    pub function: FunctionCallView,
}

impl DeepView for ToolCall {
    type V = ToolCallView;

    open spec fn deep_view(&self) -> ToolCallView {
        ToolCallView { id: self.id.deep_view(), function: self.function.deep_view() }
    }
}

impl Clone for ToolCall {
    fn clone(&self) -> (r: ToolCall)
        ensures
            r.deep_view() == self.deep_view(),
    {
        ToolCall { id: self.id.clone(), function: self.function.clone() }
    }
}

/// One structured block of a chain of thought.
#[derive(Debug, PartialEq)]
pub enum ReasoningDetail {
    /// The chain of thought in plain text.
    Text {
        /// The text.
        text: String,
        /// The provider's signature of it.
        signature: Option<String>,
        /// The block's identity.
        id: Option<String>,
        /// The provider's name for the format.
        format: Option<String>,
        /// The block's place in the sequence.
        index: u32,
    },
    /// A summary of a chain of thought that was not shown.
    Summary {
        /// The summary.
        summary: String,
        /// The block's identity.
        id: Option<String>,
        /// The provider's name for the format.
        format: Option<String>,
        /// The block's place in the sequence.
        index: u32,
    },
    /// A chain of thought that only the provider can read.
    Encrypted {
        /// The encrypted data.
        data: String,
        /// The block's identity.
        id: Option<String>,
        /// The provider's name for the format.
        format: Option<String>,
        /// The block's place in the sequence.
        index: u32,
    },
}

/// What a reasoning block is, as mathematics.
#[verifier::ext_equal]
pub enum ReasoningDetailView {
    Text {
        text: Seq<char>,
        signature: Option<Seq<char>>,
        id: Option<Seq<char>>,
        format: Option<Seq<char>>,
        index: u32,
    },
    Summary { summary: Seq<char>, id: Option<Seq<char>>, format: Option<Seq<char>>, index: u32 },
    Encrypted { data: Seq<char>, id: Option<Seq<char>>, format: Option<Seq<char>>, index: u32 },
}

impl DeepView for ReasoningDetail {
    type V = ReasoningDetailView;

    open spec fn deep_view(&self) -> ReasoningDetailView {
        match self {
            ReasoningDetail::Text { text, signature, id, format, index } =>
                ReasoningDetailView::Text {
                text: text@,
                signature: signature.deep_view(),
                id: id.deep_view(),
                format: format.deep_view(),
                index: *index,
            },
            ReasoningDetail::Summary { summary, id, format, index } =>
                ReasoningDetailView::Summary {
                summary: summary@,
                id: id.deep_view(),
                format: format.deep_view(),
                index: *index,
            },
            ReasoningDetail::Encrypted { data, id, format, index } =>
                ReasoningDetailView::Encrypted {
                data: data@,
                id: id.deep_view(),
                format: format.deep_view(),
                index: *index,
            },
        }
    }
}

impl Clone for ReasoningDetail {
    fn clone(&self) -> (r: ReasoningDetail)
        ensures
            r.deep_view() == self.deep_view(),
    {
        match self {
            ReasoningDetail::Text { text, signature, id, format, index } => ReasoningDetail::Text {
                text: text.clone(),
                signature: signature.clone(),
                id: id.clone(),
                format: format.clone(),
                index: *index,
            },
            ReasoningDetail::Summary { summary, id, format, index } => ReasoningDetail::Summary {
                summary: summary.clone(),
                id: id.clone(),
                format: format.clone(),
                index: *index,
            },
            ReasoningDetail::Encrypted { data, id, format, index } => ReasoningDetail::Encrypted {
                data: data.clone(),
                id: id.clone(),
                format: format.clone(),
                index: *index,
            },
        }
    }
}

/// One message of a conversation. The reasoning stands beside the content, never in it.
#[derive(Debug, PartialEq)]
pub struct Message {
    /// Who speaks.
    pub role: Role,
    /// The clean final answer.
    pub content: Content,
    /// The chain of thought in plain text.
    pub reasoning: Option<String>,
    /// The chain of thought as structured blocks.
    pub reasoning_details: Option<Vec<ReasoningDetail>>,
    /// The tool calls that the message declares.
    pub tool_calls: Option<Vec<ToolCall>>,
    /// The call that the message answers.
    pub tool_call_id: Option<String>,
    /// The name of the speaker or of the tool.
    pub name: Option<String>,
}

/// What a message is, as mathematics.
#[verifier::ext_equal]
pub struct MessageView {
    pub role: Role,
    pub content: ContentView,
    pub reasoning: Option<Seq<char>>,
    pub reasoning_details: Option<Seq<ReasoningDetailView>>,
    pub tool_calls: Option<Seq<ToolCallView>>,
    pub tool_call_id: Option<Seq<char>>,
    pub name: Option<Seq<char>>,
}

impl DeepView for Message {
    type V = MessageView;

    open spec fn deep_view(&self) -> MessageView {
        MessageView {
            role: self.role,
            content: self.content.deep_view(),
            reasoning: self.reasoning.deep_view(),
            reasoning_details: self.reasoning_details.deep_view(),
            tool_calls: self.tool_calls.deep_view(),
            tool_call_id: self.tool_call_id.deep_view(),
            name: self.name.deep_view(),
        }
    }
}

impl Clone for Message {
    fn clone(&self) -> (r: Message)
        ensures
            r.deep_view() == self.deep_view(),
    {
        let r = Message {
            role: self.role,
            content: self.content.clone(),
            reasoning: self.reasoning.clone(),
            reasoning_details: self.reasoning_details.clone(),
            tool_calls: self.tool_calls.clone(),
            tool_call_id: self.tool_call_id.clone(),
            name: self.name.clone(),
        };
        proof {
            if self.reasoning_details is Some {
                assert(r.reasoning_details->0.deep_view()
                    =~= self.reasoning_details->0.deep_view());
            }
            if self.tool_calls is Some {
                assert(r.tool_calls->0.deep_view() =~= self.tool_calls->0.deep_view());
            }
        }
        r
    }
}

/// A message that holds only text.
pub open spec fn text_message(role: Role, text: Seq<char>) -> MessageView {
    MessageView {
        role,
        content: ContentView::Text(text),
        reasoning: None,
        reasoning_details: None,
        tool_calls: None,
        tool_call_id: None,
        name: None,
    }
}

/// A message that holds only text.
pub fn plain_message(role: Role, text: String) -> (m: Message)
    ensures
        m.deep_view() == text_message(role, text@),
{
    Message {
        role,
        content: Content::Text(text),
        reasoning: None,
        reasoning_details: None,
        tool_calls: None,
        tool_call_id: None,
        name: None,
    }
}

/// The text of the text parts, one after the other.
pub open spec fn parts_text(parts: Seq<ContentPartView>) -> Seq<char>
    decreases parts.len(),
{
    if parts.len() == 0 {
        Seq::empty()
    } else {
        parts_text(parts.drop_last()) + (match parts.last() {
            ContentPartView::Text(t) => t,
            ContentPartView::ImageUrl(_) => Seq::empty(),
        })
    }
}

/// The text of a content: its own, or that of its text parts; an absent content has none.
pub open spec fn content_words(content: ContentView) -> Seq<char> {
    match content {
        ContentView::Text(t) => t,
        ContentView::Parts(parts) => parts_text(parts),
        ContentView::Null => Seq::empty(),
    }
}

/// The text of a content.
pub fn content_text(content: &Content) -> (r: String)
    ensures
        r@ == content_words(content.deep_view()),
{
    match content {
        Content::Text(text) => text.clone(),
        Content::Parts(parts) => {
            let mut out = String::new();
            let mut i: usize = 0;
            while i < parts.len()
                invariant
                    i <= parts@.len(),
                    out@ == parts_text(parts.deep_view().take(i as int)),
                decreases parts@.len() - i,
            {
                proof {
                    let s = parts.deep_view();
                    assert(s.take(i + 1).drop_last() =~= s.take(i as int));
                    assert(s.take(i + 1).last() == parts@[i as int].deep_view());
                }
                match &parts[i] {
                    ContentPart::Text { text } => {
                        out.append(text.as_str());
                    },
                    ContentPart::ImageUrl { .. } => {
                        assert(out@ + Seq::<char>::empty() =~= out@);
                    },
                }
                i += 1;
            }
            assert(parts.deep_view().take(i as int) =~= parts.deep_view());
            out
        },
        Content::Null => String::new(),
    }
}

/// The target template that a conversation is rendered for.
#[derive(Debug, Clone, Copy, PartialEq, Eq, Structural)]
pub enum TrlFormat {
    /// The Gemma-4 token stream.
    Gemma4,
    /// The ChatML token stream.
    ChatML,
    /// A ShareGPT document.
    ShareGpt,
    /// An OpenAI messages document.
    OpenAiMessages,
    /// The Harmony token stream.
    Harmony,
    /// A prompt and completion document.
    TrlPromptCompletion,
}

/// What becomes of the chain of thought in a training target.
#[derive(Debug, Clone, Copy, PartialEq, Eq, Structural)]
pub enum CotPolicy {
    /// It is rendered and enters the loss.
    Supervised,
    /// It is rendered and the trainer masks it out of the loss.
    Masked,
    /// It is dropped.
    Stripped,
}

/// Which assistant turns enter the loss.
#[derive(Debug, Clone, Copy, PartialEq, Eq, Structural)]
pub enum MultiTurnLoss {
    /// All of them.
    AllAssistant,
    /// The last one.
    FinalTurnOnly,
}

impl Default for MultiTurnLoss {
    fn default() -> (l: MultiTurnLoss)
        ensures
            l == MultiTurnLoss::AllAssistant,
    {
        MultiTurnLoss::AllAssistant
    }
}

/// How hard a reasoning model is asked to think.
#[derive(Debug, Clone, Copy, PartialEq, Eq, Hash, Structural)]
pub enum ReasoningEffort {
    /// The most.
    Xhigh,
    /// Much.
    High,
    /// Some.
    Medium,
    /// Little.
    Low,
    /// The least.
    Minimal,
    /// Not at all.
    Off,
}

impl ReasoningEffort {
    /// The wire spelling.
    pub open spec fn spelling(self) -> Seq<char> {
        match self {
            ReasoningEffort::Xhigh => "xhigh"@,
            ReasoningEffort::High => "high"@,
            ReasoningEffort::Medium => "medium"@,
            ReasoningEffort::Low => "low"@,
            ReasoningEffort::Minimal => "minimal"@,
            ReasoningEffort::Off => "none"@,
        }
    }

    /// The wire spelling.
    pub fn as_str(self) -> (r: &'static str)
        ensures
            r@ == self.spelling(),
    {
        match self {
            ReasoningEffort::Xhigh => "xhigh",
            ReasoningEffort::High => "high",
            ReasoningEffort::Medium => "medium",
            ReasoningEffort::Low => "low",
            ReasoningEffort::Minimal => "minimal",
            ReasoningEffort::Off => "none",
        }
    }
}

/// The words of a content are its text, or the texts of its parts, one after the other; an image has
/// none, and neither has an absent content.
pub proof fn words_are_those_of_the_parts(parts: Seq<ContentPartView>, texts: Seq<Seq<char>>)
    requires
        texts.len() == parts.len(),
        forall|i: int|
            0 <= i < parts.len() ==> #[trigger] texts[i] == (match parts[i] {
                ContentPartView::Text(t) => t,
                ContentPartView::ImageUrl(_) => Seq::empty(),
            }),
    ensures
        content_words(ContentView::Parts(parts)) == texts.flatten(),
        forall|t: Seq<char>| #[trigger] content_words(ContentView::Text(t)) == t,
        content_words(ContentView::Null) == Seq::<char>::empty(),
    decreases parts.len(),
{
    if parts.len() > 0 {
        let before = texts.drop_last();
        assert forall|i: int| 0 <= i < before.len() implies #[trigger] before[i] == (
        match parts.drop_last()[i] {
            ContentPartView::Text(t) => t,
            ContentPartView::ImageUrl(_) => Seq::empty(),
        }) by {
            assert(texts[i] == before[i]);
        }
        words_are_those_of_the_parts(parts.drop_last(), before);
        assert(texts[texts.len() - 1] == texts.last());
        before.lemma_flatten_push(texts.last());
        assert(before.push(texts.last()) =~= texts);
    }
}

} // verus!
