//! The assistant's turn: what a teacher's stream adds up to.
//!
//! The chunks of a stream are added up; the result is read like any provider's message, so that
//! markup in the text becomes the chain of thought and a leak is refused. A chain of thought that
//! broke off at the token cap is never handed on.

use vstd::prelude::*;

use crate::double::Double;
use crate::format::ingest::ingest_openrouter;
use crate::format::ingest::{ingested, role_of, stripped, HARMONY_ANALYSIS};
use crate::format::validate::clean;
use crate::generate::error::GenerateError;
use crate::generate::error::GenerateErrorView;
use crate::json::{Json, JsonObject};
use crate::json::{lemma_lookup_at, lemma_lookup_none, member, JsonView};
use crate::providers::delta::StreamDelta;
use crate::providers::delta::{empty_delta, ChunkProvenanceView, StreamDeltaView};
use crate::providers::delta_wire::Usage;
use crate::providers::error::ProviderError;
use crate::schema::message::{
    content_words,
    Content,
    ContentView,
    Message,
    MessageView,
    ReasoningDetail,
    ReasoningDetailView,
    Role,
};
use crate::text::{begins, decimal};
use crate::text::{decimal_text, joined, same_text};

verus! {

/// What a stream adds up to.
#[derive(Debug, Clone, PartialEq)]
pub struct AccumulatedStream {
    /// The answer, markup included.
    pub content: String,
    /// The chain of thought, as plain text.
    pub reasoning: String,
    /// The chain of thought, as structured blocks in the order of their arrival.
    pub reasoning_details: Vec<ReasoningDetail>,
    /// Why the model declined.
    pub refusal: Option<String>,
    /// Why the answer stopped.
    pub finish_reason: Option<String>,
    /// Why the answer stopped, in the upstream's own words.
    pub native_finish_reason: Option<String>,
    /// The upstream that served it.
    pub served_by: Option<String>,
    /// The model that answered.
    pub resolved_model: Option<String>,
    /// The identifier of the generation.
    pub generation_id: Option<String>,
    /// The tokens of the prompt.
    pub prompt_tokens: Option<u64>,
    /// The tokens of the completion.
    pub completion_tokens: Option<u64>,
    /// The tokens of the chain of thought.
    pub reasoning_tokens: Option<u64>,
    /// The price in dollars.
    pub cost: Option<Double>,
}

/// What a sum of chunks is, as mathematics.
#[verifier::ext_equal]
pub struct AccumulatedView {
    pub content: Seq<char>,
    pub reasoning: Seq<char>,
    pub reasoning_details: Seq<ReasoningDetailView>,
    pub refusal: Option<Seq<char>>,
    pub finish_reason: Option<Seq<char>>,
    pub native_finish_reason: Option<Seq<char>>,
    pub served_by: Option<Seq<char>>,
    pub resolved_model: Option<Seq<char>>,
    pub generation_id: Option<Seq<char>>,
    pub prompt_tokens: Option<u64>,
    pub completion_tokens: Option<u64>,
    pub reasoning_tokens: Option<u64>,
    pub cost: Option<Double>,
}

impl DeepView for AccumulatedStream {
    type V = AccumulatedView;

    open spec fn deep_view(&self) -> AccumulatedView {
        AccumulatedView {
            content: self.content@,
            reasoning: self.reasoning@,
            reasoning_details: self.reasoning_details.deep_view(),
            refusal: self.refusal.deep_view(),
            finish_reason: self.finish_reason.deep_view(),
            native_finish_reason: self.native_finish_reason.deep_view(),
            served_by: self.served_by.deep_view(),
            resolved_model: self.resolved_model.deep_view(),
            generation_id: self.generation_id.deep_view(),
            prompt_tokens: self.prompt_tokens,
            completion_tokens: self.completion_tokens,
            reasoning_tokens: self.reasoning_tokens,
            cost: self.cost,
        }
    }
}

/// The sum of no chunks.
pub open spec fn nothing() -> AccumulatedView {
    AccumulatedView {
        content: Seq::empty(),
        reasoning: Seq::empty(),
        reasoning_details: Seq::empty(),
        refusal: None,
        finish_reason: None,
        native_finish_reason: None,
        served_by: None,
        resolved_model: None,
        generation_id: None,
        prompt_tokens: None,
        completion_tokens: None,
        reasoning_tokens: None,
        cost: None,
    }
}

impl Default for AccumulatedStream {
    fn default() -> (acc: AccumulatedStream)
        ensures
            acc.deep_view() == nothing(),
    {
        let acc = AccumulatedStream {
            content: String::new(),
            reasoning: String::new(),
            reasoning_details: Vec::new(),
            refusal: None,
            finish_reason: None,
            native_finish_reason: None,
            served_by: None,
            resolved_model: None,
            generation_id: None,
            prompt_tokens: None,
            completion_tokens: None,
            reasoning_tokens: None,
            cost: None,
        };
        assert(acc.deep_view() =~= nothing());
        acc
    }
}

/// Two blocks as one, where the second continues the first: plain text and summaries do at the same
/// index, and the first block's labels stay. An encrypted block is never spliced.
pub open spec fn continued(last: ReasoningDetailView, next: ReasoningDetailView) -> Option<
    ReasoningDetailView,
> {
    match (last, next) {
        (
            ReasoningDetailView::Text { text, signature, id, format, index },
            ReasoningDetailView::Text { text: more, index: at, .. },
        ) => if index == at {
            Some(ReasoningDetailView::Text { text: text + more, signature, id, format, index })
        } else {
            None
        },
        (
            ReasoningDetailView::Summary { summary, id, format, index },
            ReasoningDetailView::Summary { summary: more, index: at, .. },
        ) => if index == at {
            Some(ReasoningDetailView::Summary { summary: summary + more, id, format, index })
        } else {
            None
        },
        _ => None,
    }
}

/// The blocks with one more fragment: it continues the last block or starts a new one.
pub open spec fn merged(
    blocks: Seq<ReasoningDetailView>,
    fragment: ReasoningDetailView,
) -> Seq<ReasoningDetailView> {
    if blocks.len() == 0 {
        blocks.push(fragment)
    } else {
        match continued(blocks.last(), fragment) {
            Some(block) => blocks.drop_last().push(block),
            None => blocks.push(fragment),
        }
    }
}

/// The blocks with more fragments.
pub open spec fn merged_all(
    blocks: Seq<ReasoningDetailView>,
    fragments: Seq<ReasoningDetailView>,
) -> Seq<ReasoningDetailView>
    decreases fragments.len(),
{
    if fragments.len() == 0 {
        blocks
    } else {
        merged(merged_all(blocks, fragments.drop_last()), fragments.last())
    }
}

fn continue_block(last: &ReasoningDetail, next: &ReasoningDetail) -> (r: Option<ReasoningDetail>)
    ensures
        r.deep_view() == continued(last.deep_view(), next.deep_view()),
{
    match (last, next) {
        (
            ReasoningDetail::Text { text, signature, id, format, index },
            ReasoningDetail::Text { text: more, index: at, .. },
        ) => if *index == *at {
            Some(
                ReasoningDetail::Text {
                    text: joined(text.as_str(), more.as_str()),
                    signature: signature.clone(),
                    id: id.clone(),
                    format: format.clone(),
                    index: *index,
                },
            )
        } else {
            None
        },
        (
            ReasoningDetail::Summary { summary, id, format, index },
            ReasoningDetail::Summary { summary: more, index: at, .. },
        ) => if *index == *at {
            Some(
                ReasoningDetail::Summary {
                    summary: joined(summary.as_str(), more.as_str()),
                    id: id.clone(),
                    format: format.clone(),
                    index: *index,
                },
            )
        } else {
            None
        },
        _ => None,
    }
}

/// Adds a fragment to the blocks: it continues the last block or starts a new one.
pub fn merge_reasoning_detail(acc: &mut Vec<ReasoningDetail>, fragment: ReasoningDetail)
    ensures
        final(acc).deep_view() == merged(old(acc).deep_view(), fragment.deep_view()),
{
    let ghost before = acc.deep_view();
    let n: usize = acc.len();
    if n > 0 {
        assert(before.last() == acc@[n - 1].deep_view());
        if let Some(block) = continue_block(&acc[n - 1], &fragment) {
            acc.pop();
            acc.push(block);
            assert(acc.deep_view() =~= before.drop_last().push(block.deep_view()));
            return;
        }
    }
    acc.push(fragment);
    assert(acc.deep_view() =~= before.push(fragment.deep_view()));
}

/// The earlier of two values, where there is one.
pub open spec fn earlier<T>(a: Option<T>, b: Option<T>) -> Option<T> {
    if a is Some {
        a
    } else {
        b
    }
}

/// The later of two values, where there is one.
pub open spec fn later<T>(a: Option<T>, b: Option<T>) -> Option<T> {
    if b is Some {
        b
    } else {
        a
    }
}

/// More text.
pub open spec fn more(text: Seq<char>, added: Option<Seq<char>>) -> Seq<char> {
    match added {
        Some(t) => text + t,
        None => text,
    }
}

/// The upstream, the model and the identifier that a chunk tells.
pub open spec fn told(p: Option<ChunkProvenanceView>) -> ChunkProvenanceView {
    match p {
        Some(p) => p,
        None => ChunkProvenanceView { served_by: None, model: None, id: None },
    }
}

/// The account that a chunk gives.
pub open spec fn billed(u: Option<Usage>) -> (Option<u64>, Option<u64>, Option<u64>, Option<Double>) {
    match u {
        Some(u) => (u.prompt_tokens, u.completion_tokens, u.thought(), u.cost),
        None => (None, None, None, None),
    }
}

/// The sum with one more chunk. Text is appended, the latest reason to stop and the latest refusal
/// stand, and the first account and provenance stand.
pub open spec fn taken(acc: AccumulatedView, d: StreamDeltaView) -> AccumulatedView {
    AccumulatedView {
        content: more(acc.content, d.content),
        reasoning: more(acc.reasoning, d.reasoning),
        reasoning_details: match d.reasoning_details {
            Some(fragments) => merged_all(acc.reasoning_details, fragments),
            None => acc.reasoning_details,
        },
        refusal: later(acc.refusal, d.refusal),
        finish_reason: later(acc.finish_reason, d.finish_reason),
        native_finish_reason: later(acc.native_finish_reason, d.native_finish_reason),
        served_by: earlier(acc.served_by, told(d.provenance).served_by),
        resolved_model: earlier(acc.resolved_model, told(d.provenance).model),
        generation_id: earlier(acc.generation_id, told(d.provenance).id),
        prompt_tokens: earlier(acc.prompt_tokens, billed(d.usage).0),
        completion_tokens: earlier(acc.completion_tokens, billed(d.usage).1),
        reasoning_tokens: earlier(acc.reasoning_tokens, billed(d.usage).2),
        cost: earlier(acc.cost, billed(d.usage).3),
    }
}

/// What a stream adds up to, or the first error in it.
pub open spec fn drained(items: Seq<Result<StreamDelta, ProviderError>>) -> Result<
    AccumulatedView,
    GenerateErrorView,
>
    decreases items.len(),
{
    if items.len() == 0 {
        Ok(nothing())
    } else {
        match drained(items.drop_last()) {
            Err(e) => Err(e),
            Ok(acc) => match items.last() {
                Ok(d) => Ok(taken(acc, d.deep_view())),
                Err(e) => Err(GenerateErrorView::Provider(e.deep_view())),
            },
        }
    }
}

fn merge_all(acc: &mut Vec<ReasoningDetail>, fragments: Vec<ReasoningDetail>)
    ensures
        final(acc).deep_view() == merged_all(old(acc).deep_view(), fragments.deep_view()),
{
    let ghost view = fragments.deep_view();
    let ghost start = acc.deep_view();
    assert(view.take(0) =~= Seq::empty());
    for fragment in it: fragments.into_iter()
        invariant
            it.seq() == fragments@,
            view == fragments.deep_view(),
            acc.deep_view() == merged_all(start, view.take(it.index() as int)),
    {
        proof {
            let i = it.index() as int;
            assert(view.take(i + 1).drop_last() =~= view.take(i));
            assert(view.take(i + 1).last() == fragment.deep_view());
        }
        merge_reasoning_detail(acc, fragment);
    }
    assert(view.take(view.len() as int) =~= view);
}

/// A clean assistant's turn, with what is known of how it was served and billed.
#[derive(Debug, Clone, PartialEq)]
pub struct AssistantTurn {
    /// The turn.
    pub message: Message,
    /// Why the model declined, where it said so apart from the text.
    pub refusal: Option<String>,
    /// Why the answer stopped.
    pub finish_reason: Option<String>,
    /// The upstream that served it.
    pub served_by: Option<String>,
    /// The identifier of the generation.
    pub generation_id: Option<String>,
    /// The tokens of the prompt.
    pub prompt_tokens: Option<u64>,
    /// The tokens of the completion.
    pub completion_tokens: Option<u64>,
    /// The tokens of the chain of thought.
    pub reasoning_tokens: Option<u64>,
    /// The price in dollars.
    pub cost: Option<Double>,
}

/// What a turn is, as mathematics.
#[verifier::ext_equal]
pub struct AssistantTurnView {
    pub message: MessageView,
    pub refusal: Option<Seq<char>>,
    pub finish_reason: Option<Seq<char>>,
    pub served_by: Option<Seq<char>>,
    pub generation_id: Option<Seq<char>>,
    pub prompt_tokens: Option<u64>,
    pub completion_tokens: Option<u64>,
    pub reasoning_tokens: Option<u64>,
    pub cost: Option<Double>,
}

impl DeepView for AssistantTurn {
    type V = AssistantTurnView;

    open spec fn deep_view(&self) -> AssistantTurnView {
        AssistantTurnView {
            message: self.message.deep_view(),
            refusal: self.refusal.deep_view(),
            finish_reason: self.finish_reason.deep_view(),
            served_by: self.served_by.deep_view(),
            generation_id: self.generation_id.deep_view(),
            prompt_tokens: self.prompt_tokens,
            completion_tokens: self.completion_tokens,
            reasoning_tokens: self.reasoning_tokens,
            cost: self.cost,
        }
    }
}

/// Whether the answer stopped at the token cap.
pub open spec fn capped(acc: AccumulatedView) -> bool {
    acc.finish_reason == Some("length"@)
}

/// Whether there is a chain of thought, in either form.
pub open spec fn thinks(acc: AccumulatedView) -> bool {
    acc.reasoning.len() > 0 || acc.reasoning_details.len() > 0
}

/// The words for a chain of thought that broke off.
pub open spec fn cut_words(tokens: Option<u64>) -> Seq<char> {
    decimal(
        match tokens {
            Some(n) => n as nat,
            None => 0,
        },
    )
        + " reasoning tokens emitted then finish_reason=length (CoT cut off inside the <|channel>thought block)"@
}

/// The message that a sum of chunks is handed to the reader as.
pub open spec fn payload(acc: AccumulatedView) -> JsonView {
    JsonView::Object(
        seq![("role"@, JsonView::Text("assistant"@)), ("content"@, JsonView::Text(acc.content))]
            + if acc.reasoning.len() > 0 {
            seq![("reasoning"@, JsonView::Text(acc.reasoning))]
        } else {
            Seq::empty()
        },
    )
}

/// Whether a content holds no text; a content of parts always holds something.
pub open spec fn wordless(content: ContentView) -> bool {
    match content {
        ContentView::Text(t) => t.len() == 0,
        ContentView::Null => true,
        ContentView::Parts(_) => false,
    }
}

/// A message with what the reader does not see: a refusal takes the place of text that is not
/// there, and the structured blocks of the stream come back.
pub open spec fn completed(m: MessageView, acc: AccumulatedView) -> MessageView {
    MessageView {
        content: if wordless(m.content) && acc.refusal is Some {
            ContentView::Text(acc.refusal->0)
        } else {
            m.content
        },
        reasoning_details: if acc.reasoning_details.len() > 0 {
            Some(acc.reasoning_details)
        } else {
            m.reasoning_details
        },
        ..m
    }
}

/// The turn that a sum of chunks is, or why it is none: its chain of thought broke off, nothing was
/// answered, or the answer cannot be read.
pub open spec fn turn_of(acc: AccumulatedView) -> Result<AssistantTurnView, GenerateErrorView> {
    if capped(acc) && thinks(acc) {
        Err(
            GenerateErrorView::TruncatedReasoning {
                detail: cut_words(acc.reasoning_tokens),
                cost_usd: acc.cost,
            },
        )
    } else if acc.content.len() == 0 && !thinks(acc) && acc.refusal is None {
        Err(
            GenerateErrorView::EmptyResponse(
                "teacher stream yielded no content, reasoning, or refusal"@,
            ),
        )
    } else {
        match ingested(payload(acc)) {
            Err(e) => Err(GenerateErrorView::Format(e)),
            Ok(m) => Ok(
                AssistantTurnView {
                    message: completed(m, acc),
                    refusal: acc.refusal,
                    finish_reason: acc.finish_reason,
                    served_by: acc.served_by,
                    generation_id: acc.generation_id,
                    prompt_tokens: acc.prompt_tokens,
                    completion_tokens: acc.completion_tokens,
                    reasoning_tokens: acc.reasoning_tokens,
                    cost: acc.cost,
                },
            ),
        }
    }
}

fn append_more(text: &mut String, added: Option<String>)
    ensures
        final(text)@ == more(old(text)@, added.deep_view()),
{
    if let Some(t) = added {
        text.append(t.as_str());
    }
}

fn keep_later(slot: &mut Option<String>, value: Option<String>)
    ensures
        final(slot).deep_view() == later(old(slot).deep_view(), value.deep_view()),
{
    if value.is_some() {
        *slot = value;
    }
}

fn keep_earlier(slot: &mut Option<String>, value: Option<String>)
    ensures
        final(slot).deep_view() == earlier(old(slot).deep_view(), value.deep_view()),
{
    if slot.is_none() {
        *slot = value;
    }
}

fn message_content_is_empty(message: &Message) -> (r: bool)
    ensures
        r == wordless(message.deep_view().content),
{
    match &message.content {
        Content::Text(t) => t.as_str().unicode_len() == 0,
        Content::Null => true,
        Content::Parts(_) => false,
    }
}

impl AccumulatedStream {
    /// Whether the answer stopped at the token cap.
    #[must_use]
    pub fn hit_length_cap(&self) -> (r: bool)
        ensures
            r == capped(self.deep_view()),
    {
        match &self.finish_reason {
            Some(f) => same_text(f.as_str(), "length"),
            None => false,
        }
    }

    /// Whether there is a chain of thought, in either form.
    #[must_use]
    pub fn has_reasoning(&self) -> (r: bool)
        ensures
            r == thinks(self.deep_view()),
    {
        assert(self.reasoning_details.deep_view().len() == self.reasoning_details@.len());
        self.reasoning.as_str().unicode_len() > 0 || self.reasoning_details.len() > 0
    }

    /// Adds a chunk.
    pub fn ingest(&mut self, delta: StreamDelta)
        ensures
            final(self).deep_view() == taken(old(self).deep_view(), delta.deep_view()),
    {
        append_more(&mut self.content, delta.content);
        append_more(&mut self.reasoning, delta.reasoning);
        if let Some(fragments) = delta.reasoning_details {
            merge_all(&mut self.reasoning_details, fragments);
        }
        keep_later(&mut self.refusal, delta.refusal);
        keep_later(&mut self.finish_reason, delta.finish_reason);
        keep_later(&mut self.native_finish_reason, delta.native_finish_reason);
        if let Some(p) = delta.provenance {
            keep_earlier(&mut self.served_by, p.served_by);
            keep_earlier(&mut self.resolved_model, p.model);
            keep_earlier(&mut self.generation_id, p.id);
        }
        if let Some(u) = delta.usage {
            if self.prompt_tokens.is_none() {
                self.prompt_tokens = u.prompt_tokens;
            }
            if self.completion_tokens.is_none() {
                self.completion_tokens = u.completion_tokens;
            }
            if self.reasoning_tokens.is_none() {
                self.reasoning_tokens = u.reasoning_tokens();
            }
            if self.cost.is_none() {
                self.cost = u.cost;
            }
        }
    }

    fn ingest_payload(&self) -> (j: Json)
        ensures
            j@ == payload(self.deep_view()),
    {
        let mut o = JsonObject::new();
        o.put_text("role", "assistant");
        o.put_text("content", self.content.as_str());
        if self.reasoning.as_str().unicode_len() > 0 {
            o.put_text("reasoning", self.reasoning.as_str());
        }
        assert(o@ =~= payload(self.deep_view())->Object_0);
        o.finish()
    }

    /// The turn that the sum is.
    pub fn into_turn(self) -> (r: Result<AssistantTurn, GenerateError>)
        ensures
            match r {
                Ok(t) => turn_of(self.deep_view()) == Ok::<AssistantTurnView, GenerateErrorView>(
                    t.deep_view(),
                ),
                Err(e) => turn_of(self.deep_view()) == Err::<AssistantTurnView, GenerateErrorView>(
                    e.deep_view(),
                ),
            },
    {
        let ghost acc = self.deep_view();
        if self.hit_length_cap() && self.has_reasoning() {
            let n: u64 = match self.reasoning_tokens {
                Some(n) => n,
                None => 0,
            };
            let mut detail = decimal_text(n);
            detail.append(
                " reasoning tokens emitted then finish_reason=length (CoT cut off inside the <|channel>thought block)",
            );
            return Err(GenerateError::TruncatedReasoning { detail, cost_usd: self.cost });
        }
        if self.content.as_str().unicode_len() == 0 && !self.has_reasoning()
            && self.refusal.is_none() {
            return Err(
                GenerateError::EmptyResponse(
                    "teacher stream yielded no content, reasoning, or refusal".to_owned(),
                ),
            );
        }
        let payload = self.ingest_payload();
        let mut message = match ingest_openrouter(&payload) {
            Ok(m) => m,
            Err(e) => {
                return Err(GenerateError::Format(e));
            },
        };
        let ghost m = message.deep_view();
        if message_content_is_empty(&message) {
            if let Some(refusal) = &self.refusal {
                message.content = Content::Text(refusal.clone());
            }
        }
        assert(self.reasoning_details.deep_view().len() == self.reasoning_details@.len());
        if self.reasoning_details.len() > 0 {
            message.reasoning_details = Some(self.reasoning_details);
        }
        assert(message.deep_view() =~= completed(m, acc));
        Ok(
            AssistantTurn {
                message,
                refusal: self.refusal,
                finish_reason: self.finish_reason,
                served_by: self.served_by,
                generation_id: self.generation_id,
                prompt_tokens: self.prompt_tokens,
                completion_tokens: self.completion_tokens,
                reasoning_tokens: self.reasoning_tokens,
                cost: self.cost,
            },
        )
    }
}

proof fn lemma_error_stays(items: Seq<Result<StreamDelta, ProviderError>>, n: int)
    requires
        0 <= n <= items.len(),
        drained(items.take(n)) is Err,
    ensures
        drained(items) == drained(items.take(n)),
    decreases items.len() - n,
{
    if n < items.len() {
        assert(items.take(n + 1).drop_last() =~= items.take(n));
        lemma_error_stays(items, n + 1);
    } else {
        assert(items.take(n) =~= items);
    }
}

/// Adds up what a stream gave, in order; the first error in it ends the sum and is returned.
pub fn accumulate(items: Vec<Result<StreamDelta, ProviderError>>) -> (r: Result<
    AccumulatedStream,
    GenerateError,
>)
    ensures
        match r {
            Ok(acc) => drained(items@) == Ok::<AccumulatedView, GenerateErrorView>(acc.deep_view()),
            Err(e) => drained(items@) == Err::<AccumulatedView, GenerateErrorView>(e.deep_view()),
        },
{
    let ghost all = items@;
    let mut acc = AccumulatedStream::default();
    assert(all.take(0) =~= Seq::empty());
    for item in it: items.into_iter()
        invariant
            it.seq() == all,
            drained(all.take(it.index() as int)) == Ok::<AccumulatedView, GenerateErrorView>(
                acc.deep_view(),
            ),
    {
        proof {
            let i = it.index() as int;
            assert(all.take(i + 1).drop_last() =~= all.take(i));
            assert(all.take(i + 1).last() == item);
        }
        match item {
            Ok(delta) => {
                acc.ingest(delta);
            },
            Err(e) => {
                proof {
                    lemma_error_stays(all, it.index() + 1);
                }
                return Err(GenerateError::Provider(e));
            },
        }
    }
    assert(all.take(all.len() as int) =~= all);
    Ok(acc)
}

/// A chain of thought that broke off at the token cap is never handed on, and one that was handed on
/// did not.
pub proof fn a_truncated_thought_is_never_handed_on(acc: AccumulatedView)
    ensures
        capped(acc) && thinks(acc) <==> turn_of(acc) matches Err(
            GenerateErrorView::TruncatedReasoning { .. },
        ),
        turn_of(acc) is Ok ==> !(capped(acc) && thinks(acc)),
{
}

/// The text of a turn is clean: what was streamed as text is, and only a refusal, which was streamed
/// apart from the text, stands in for text that is not there.
pub proof fn a_turn_is_clean(acc: AccumulatedView)
    requires
        turn_of(acc) is Ok,
    ensures
        clean(content_words(turn_of(acc)->Ok_0.message.content)) || (acc.refusal is Some
            && turn_of(acc)->Ok_0.message.content == ContentView::Text(acc.refusal->0)),
{
}

/// A chain of thought stays out of the text: one that was streamed apart from the text is the
/// turn's.
pub proof fn a_streamed_thought_stays_apart(acc: AccumulatedView)
    requires
        turn_of(acc) is Ok,
        acc.reasoning.len() > 0,
    ensures
        turn_of(acc)->Ok_0.message.reasoning == Some(acc.reasoning),
{
    reveal_strlit("role");
    reveal_strlit("content");
    reveal_strlit("reasoning");
    assert("role"@.len() == 4);
    assert("content"@.len() == 7);
    assert("reasoning"@.len() == 9);
    lemma_lookup_at(payload(acc)->Object_0, 2);
    lemma_lookup_at(payload(acc)->Object_0, 1);
}

/// A refusal is never an empty output: where a model declines apart from the text and writes no
/// text, the refusal is the text.
pub proof fn a_refusal_is_the_output(acc: AccumulatedView)
    requires
        turn_of(acc) is Ok,
        acc.refusal is Some,
        acc.content.len() == 0,
    ensures
        turn_of(acc)->Ok_0.message.content == ContentView::Text(acc.refusal->0),
        turn_of(acc)->Ok_0.refusal == acc.refusal,
{
    reveal_strlit("role");
    reveal_strlit("content");
    assert("role"@.len() == 4);
    assert("content"@.len() == 7);
    lemma_lookup_at(payload(acc)->Object_0, 1);
    lemma_empty_is_kept(acc.content);
}

proof fn lemma_empty_is_kept(text: Seq<char>)
    requires
        text.len() == 0,
    ensures
        stripped(text).0.len() == 0,
{
    reveal_strlit("<think>");
    reveal_strlit("<|channel>thought\n");
    reveal_strlit("<|start|>assistant<|channel|>analysis<|message|>");
    assert("<think>"@.len() == 7);
    assert("<|channel>thought\n"@.len() == 18);
    assert(HARMONY_ANALYSIS@.len() == 48);
}

/// The first account and the first provenance stand: no later chunk changes them.
pub proof fn the_first_account_stands(acc: AccumulatedView, d: StreamDeltaView)
    ensures
        acc.cost is Some ==> taken(acc, d).cost == acc.cost,
        acc.prompt_tokens is Some ==> taken(acc, d).prompt_tokens == acc.prompt_tokens,
        acc.completion_tokens is Some ==> taken(acc, d).completion_tokens == acc.completion_tokens,
        acc.reasoning_tokens is Some ==> taken(acc, d).reasoning_tokens == acc.reasoning_tokens,
        acc.served_by is Some ==> taken(acc, d).served_by == acc.served_by,
        acc.resolved_model is Some ==> taken(acc, d).resolved_model == acc.resolved_model,
        acc.generation_id is Some ==> taken(acc, d).generation_id == acc.generation_id,
{
}

/// A block of text may come in any number of fragments: two fragments at one index add up to what
/// one fragment with both texts would.
pub proof fn fragments_may_be_cut_anywhere(
    blocks: Seq<ReasoningDetailView>,
    first: ReasoningDetailView,
    second: ReasoningDetailView,
)
    requires
        continued(first, second) is Some,
    ensures
        merged(merged(blocks, first), second) == merged(blocks, continued(first, second)->0),
{
    if blocks.len() > 0 && continued(blocks.last(), first) is Some {
        let last = blocks.last();
        let once = blocks.drop_last().push(continued(last, first)->0);
        assert(once.drop_last() =~= blocks.drop_last());
        match (last, first, second) {
            (
                ReasoningDetailView::Text { text: a, .. },
                ReasoningDetailView::Text { text: b, .. },
                ReasoningDetailView::Text { text: c, .. },
            ) => {
                assert(a + b + c =~= a + (b + c));
            },
            (
                ReasoningDetailView::Summary { summary: a, .. },
                ReasoningDetailView::Summary { summary: b, .. },
                ReasoningDetailView::Summary { summary: c, .. },
            ) => {
                assert(a + b + c =~= a + (b + c));
            },
            _ => {},
        }
    } else {
        assert(blocks.push(first).drop_last() =~= blocks);
    }
}

/// Blocks are never rearranged: a fragment leaves every block but the last as it is, and an
/// encrypted fragment leaves the last one, too.
pub proof fn blocks_are_never_rearranged(
    blocks: Seq<ReasoningDetailView>,
    fragment: ReasoningDetailView,
)
    ensures
        blocks.len() > 0 ==> blocks.drop_last().is_prefix_of(merged(blocks, fragment)),
        blocks.len() <= merged(blocks, fragment).len() <= blocks.len() + 1,
        fragment is Encrypted ==> merged(blocks, fragment) == blocks.push(fragment),
{
}

/// A stream adds up to all that it says: the answer is what its chunks say of it, one after the other,
/// and so is the chain of thought.
pub proof fn a_stream_adds_up_to_all_it_says(
    items: Seq<Result<StreamDelta, ProviderError>>,
    contents: Seq<Seq<char>>,
    thoughts: Seq<Seq<char>>,
)
    requires
        contents.len() == items.len(),
        thoughts.len() == items.len(),
        forall|i: int|
            0 <= i < items.len() ==> (#[trigger] items[i] matches Ok(d) && contents[i] == (
            match d.deep_view().content {
                Some(t) => t,
                None => Seq::empty(),
            }) && thoughts[i] == (match d.deep_view().reasoning {
                Some(t) => t,
                None => Seq::empty(),
            })),
    ensures
        drained(items) matches Ok(acc) && acc.content == contents.flatten() && acc.reasoning
            == thoughts.flatten(),
    decreases items.len(),
{
    if items.len() > 0 {
        let before = items.drop_last();
        assert forall|i: int| 0 <= i < before.len() implies (#[trigger] before[i] matches Ok(d)
            && contents.drop_last()[i] == (match d.deep_view().content {
            Some(t) => t,
            None => Seq::empty(),
        }) && thoughts.drop_last()[i] == (match d.deep_view().reasoning {
            Some(t) => t,
            None => Seq::empty(),
        })) by {
            assert(before[i] == items[i]);
        }
        a_stream_adds_up_to_all_it_says(before, contents.drop_last(), thoughts.drop_last());
        assert(items[items.len() - 1] is Ok);
        contents.drop_last().lemma_flatten_push(contents.last());
        thoughts.drop_last().lemma_flatten_push(thoughts.last());
        assert(contents.drop_last().push(contents.last()) =~= contents);
        assert(thoughts.drop_last().push(thoughts.last()) =~= thoughts);
        let acc = drained(before)->Ok_0;
        assert(acc.content + Seq::<char>::empty() =~= acc.content);
        assert(acc.reasoning + Seq::<char>::empty() =~= acc.reasoning);
    }
}

/// Where a stream is cut makes no difference to what it says: two chunks with two pieces of an answer,
/// or of a chain of thought, add up to what one chunk with both pieces does.
pub proof fn text_may_be_cut_anywhere(
    acc: AccumulatedView,
    first: StreamDeltaView,
    second: StreamDeltaView,
    whole: StreamDeltaView,
    a: Seq<char>,
    b: Seq<char>,
)
    requires
        (first == StreamDeltaView { content: Some(a), ..empty_delta() } && second
            == StreamDeltaView { content: Some(b), ..empty_delta() } && whole
            == StreamDeltaView { content: Some(a + b), ..empty_delta() }) || (first
            == StreamDeltaView { reasoning: Some(a), ..empty_delta() } && second
            == StreamDeltaView { reasoning: Some(b), ..empty_delta() } && whole
            == StreamDeltaView { reasoning: Some(a + b), ..empty_delta() }),
    ensures
        taken(taken(acc, first), second) == taken(acc, whole),
{
    assert(acc.content + a + b =~= acc.content + (a + b));
    assert(acc.reasoning + a + b =~= acc.reasoning + (a + b));
    assert(taken(taken(acc, first), second) =~= taken(acc, whole));
}

/// A chunk that says nothing changes nothing.
pub proof fn a_silent_chunk_changes_nothing(acc: AccumulatedView)
    ensures
        taken(acc, empty_delta()) == acc,
{
    assert(taken(acc, empty_delta()) =~= acc);
}

/// The first error of a stream is what comes of it, whatever went before and whatever would follow.
pub proof fn the_first_error_ends_a_stream(items: Seq<Result<StreamDelta, ProviderError>>, i: int)
    requires
        0 <= i < items.len(),
        items[i] is Err,
        forall|k: int| 0 <= k < i ==> (#[trigger] items[k]) is Ok,
    ensures
        drained(items) == Err::<AccumulatedView, GenerateErrorView>(
            GenerateErrorView::Provider(items[i]->Err_0.deep_view()),
        ),
    decreases items.len(),
{
    let before = items.drop_last();
    if i < items.len() - 1 {
        assert(before[i] == items[i]);
        assert forall|k: int| 0 <= k < i implies (#[trigger] before[k]) is Ok by {
            assert(items[k] is Ok);
        }
        the_first_error_ends_a_stream(before, i);
    } else {
        assert forall|k: int| 0 <= k < before.len() implies (#[trigger] before[k]) is Ok by {
            assert(items[k] is Ok);
        }
        lemma_no_error(before);
    }
}

proof fn lemma_no_error(items: Seq<Result<StreamDelta, ProviderError>>)
    requires
        forall|k: int| 0 <= k < items.len() ==> (#[trigger] items[k]) is Ok,
    ensures
        drained(items) is Ok,
    decreases items.len(),
{
    if items.len() > 0 {
        let before = items.drop_last();
        assert forall|k: int| 0 <= k < before.len() implies (#[trigger] before[k]) is Ok by {
            assert(items[k] is Ok);
        }
        assert(items[items.len() - 1] is Ok);
        lemma_no_error(before);
    }
}

/// Why an answer stopped, and why a model declined, is what the last chunk says that says anything of
/// it.
pub proof fn the_last_reason_stands(items: Seq<Result<StreamDelta, ProviderError>>, i: int)
    requires
        drained(items) is Ok,
        0 <= i < items.len(),
        forall|k: int| 0 <= k < items.len() ==> (#[trigger] items[k]) is Ok,
    ensures
        ({
            let said = items[i]->Ok_0.deep_view();
            let acc = drained(items)->Ok_0;
            &&& said.finish_reason is Some && (forall|k: int|
                i < k < items.len() ==> (#[trigger] items[k])->Ok_0.deep_view().finish_reason is None)
                ==> acc.finish_reason == said.finish_reason
            &&& said.native_finish_reason is Some && (forall|k: int|
                i < k < items.len() ==> (
                #[trigger] items[k])->Ok_0.deep_view().native_finish_reason is None)
                ==> acc.native_finish_reason == said.native_finish_reason
            &&& said.refusal is Some && (forall|k: int|
                i < k < items.len() ==> (#[trigger] items[k])->Ok_0.deep_view().refusal is None)
                ==> acc.refusal == said.refusal
        }),
    decreases items.len(),
{
    let before = items.drop_last();
    assert forall|k: int| 0 <= k < before.len() implies (#[trigger] before[k]) is Ok && before[k]
        == items[k] by {
        assert(items[k] is Ok);
    }
    if i < items.len() - 1 {
        lemma_no_error(before);
        assert(items[items.len() - 1] is Ok);
        the_last_reason_stands(before, i);
    }
}

/// Who served an answer, and what it cost, is what the first chunk says that says anything of it.
pub proof fn the_first_word_on_origin_and_cost_stands(
    items: Seq<Result<StreamDelta, ProviderError>>,
    i: int,
)
    requires
        drained(items) is Ok,
        0 <= i < items.len(),
        forall|k: int| 0 <= k < items.len() ==> (#[trigger] items[k]) is Ok,
        forall|k: int|
            0 <= k < i ==> (#[trigger] items[k])->Ok_0.deep_view().usage is None
                && items[k]->Ok_0.deep_view().provenance is None,
    ensures
        ({
            let said = items[i]->Ok_0.deep_view();
            let acc = drained(items)->Ok_0;
            &&& said.usage is Some ==> {
                let u = said.usage->0;
                &&& u.prompt_tokens is Some ==> acc.prompt_tokens == u.prompt_tokens
                &&& u.completion_tokens is Some ==> acc.completion_tokens == u.completion_tokens
                &&& u.completion_tokens_details is Some
                    && u.completion_tokens_details->0.reasoning_tokens is Some ==> acc.reasoning_tokens
                    == u.completion_tokens_details->0.reasoning_tokens
                &&& u.cost is Some ==> acc.cost == u.cost
            }
            &&& said.provenance is Some ==> {
                let p = said.provenance->0;
                &&& p.served_by is Some ==> acc.served_by == p.served_by
                &&& p.model is Some ==> acc.resolved_model == p.model
                &&& p.id is Some ==> acc.generation_id == p.id
            }
        }),
    decreases items.len(),
{
    let before = items.drop_last();
    assert forall|k: int| 0 <= k < before.len() implies (#[trigger] before[k]) is Ok && before[k]
        == items[k] by {
        assert(items[k] is Ok);
    }
    lemma_no_error(before);
    assert(items[items.len() - 1] is Ok);
    if i < items.len() - 1 {
        the_first_word_on_origin_and_cost_stands(before, i);
    } else {
        lemma_nothing_told(before);
    }
}

proof fn lemma_nothing_told(items: Seq<Result<StreamDelta, ProviderError>>)
    requires
        drained(items) is Ok,
        forall|k: int|
            0 <= k < items.len() ==> (#[trigger] items[k]) is Ok && items[k]->Ok_0.deep_view().usage
                is None && items[k]->Ok_0.deep_view().provenance is None,
    ensures
        ({
            let acc = drained(items)->Ok_0;
            acc.prompt_tokens is None && acc.completion_tokens is None && acc.reasoning_tokens is None
                && acc.cost is None && acc.served_by is None && acc.resolved_model is None
                && acc.generation_id is None
        }),
    decreases items.len(),
{
    if items.len() > 0 {
        let before = items.drop_last();
        assert forall|k: int| 0 <= k < before.len() implies (#[trigger] before[k]) is Ok
            && before[k]->Ok_0.deep_view().usage is None && before[k]->Ok_0.deep_view().provenance
            is None by {
            assert(items[k] is Ok);
        }
        lemma_no_error(before);
        assert(items[items.len() - 1] is Ok);
        lemma_nothing_told(before);
    }
}

/// The words of a reasoning block, whatever its kind.
pub open spec fn block_words(d: ReasoningDetailView) -> Seq<char> {
    match d {
        ReasoningDetailView::Text { text, .. } => text,
        ReasoningDetailView::Summary { summary, .. } => summary,
        ReasoningDetailView::Encrypted { data, .. } => data,
    }
}

/// No word of a reasoning fragment is lost: the words of the blocks, one after the other, are those
/// before and then those of the fragment.
pub proof fn no_word_of_a_fragment_is_lost(
    blocks: Seq<ReasoningDetailView>,
    fragment: ReasoningDetailView,
)
    ensures
        merged(blocks, fragment).map_values(|d: ReasoningDetailView| block_words(d)).flatten()
            == blocks.map_values(|d: ReasoningDetailView| block_words(d)).flatten() + block_words(
            fragment,
        ),
{
    let words = |d: ReasoningDetailView| block_words(d);
    let after = merged(blocks, fragment);
    if blocks.len() > 0 && continued(blocks.last(), fragment) is Some {
        let most = blocks.drop_last();
        let block = continued(blocks.last(), fragment)->0;
        assert(after.map_values(words) =~= most.map_values(words).push(block_words(block)));
        assert(blocks.map_values(words) =~= most.map_values(words).push(block_words(blocks.last())));
        most.map_values(words).lemma_flatten_push(block_words(block));
        most.map_values(words).lemma_flatten_push(block_words(blocks.last()));
        assert(block_words(block) =~= block_words(blocks.last()) + block_words(fragment));
        assert(after.map_values(words).flatten() =~= blocks.map_values(words).flatten() + block_words(
            fragment,
        ));
    } else {
        assert(after.map_values(words) =~= blocks.map_values(words).push(block_words(fragment)));
        blocks.map_values(words).lemma_flatten_push(block_words(fragment));
    }
}

/// A fragment continues the last block where both are text, or both a summary, of one index; the block
/// keeps what else was told of it. Any other fragment is a block of its own.
pub proof fn a_fragment_continues_a_block_of_its_index(
    blocks: Seq<ReasoningDetailView>,
    last: ReasoningDetailView,
    fragment: ReasoningDetailView,
)
    ensures
        merged(Seq::empty(), fragment) == seq![fragment],
        match (last, fragment) {
            (
                ReasoningDetailView::Text { text, signature, id, format, index },
                ReasoningDetailView::Text { text: more, index: at, .. },
            ) => merged(blocks.push(last), fragment) == (if index == at {
                blocks.push(
                    ReasoningDetailView::Text { text: text + more, signature, id, format, index },
                )
            } else {
                blocks.push(last).push(fragment)
            }),
            (
                ReasoningDetailView::Summary { summary, id, format, index },
                ReasoningDetailView::Summary { summary: more, index: at, .. },
            ) => merged(blocks.push(last), fragment) == (if index == at {
                blocks.push(
                    ReasoningDetailView::Summary { summary: summary + more, id, format, index },
                )
            } else {
                blocks.push(last).push(fragment)
            }),
            _ => merged(blocks.push(last), fragment) == blocks.push(last).push(fragment),
        },
{
    assert(blocks.push(last).drop_last() =~= blocks);
    assert(merged(Seq::empty(), fragment) =~= seq![fragment]);
}

/// The fragments of a stream are merged one after the other, in the order of their arrival: how they are
/// spread over chunks makes no difference.
pub proof fn fragments_may_be_spread_over_chunks(
    acc: AccumulatedView,
    first: StreamDeltaView,
    second: StreamDeltaView,
    whole: StreamDeltaView,
    a: Seq<ReasoningDetailView>,
    b: Seq<ReasoningDetailView>,
)
    requires
        first == (StreamDeltaView { reasoning_details: Some(a), ..empty_delta() }),
        second == (StreamDeltaView { reasoning_details: Some(b), ..empty_delta() }),
        whole == (StreamDeltaView { reasoning_details: Some(a + b), ..empty_delta() }),
    ensures
        taken(taken(acc, first), second) == taken(acc, whole),
        a.len() == 1 ==> taken(acc, first).reasoning_details == merged(acc.reasoning_details, a[0]),
{
    lemma_merged_in_turn(acc.reasoning_details, a, b);
    assert(taken(taken(acc, first), second) =~= taken(acc, whole));
    if a.len() == 1 {
        assert(a.drop_last() =~= Seq::empty());
        assert(merged_all(acc.reasoning_details, a.drop_last()) == acc.reasoning_details);
        assert(a.last() == a[0]);
    }
}

proof fn lemma_merged_in_turn(
    blocks: Seq<ReasoningDetailView>,
    a: Seq<ReasoningDetailView>,
    b: Seq<ReasoningDetailView>,
)
    ensures
        merged_all(merged_all(blocks, a), b) == merged_all(blocks, a + b),
    decreases b.len(),
{
    if b.len() == 0 {
        assert(a + b =~= a);
    } else {
        lemma_merged_in_turn(blocks, a, b.drop_last());
        assert((a + b).drop_last() =~= a + b.drop_last());
        assert((a + b).last() == b.last());
    }
}

/// A turn says what the stream said: where the answer opens with no chain of thought of its own, it is
/// the text of the turn as it is, the chain of thought that was streamed beside it is that of the turn,
/// and everything else told of the answer goes with it.
pub proof fn a_turn_says_what_was_streamed(acc: AccumulatedView)
    requires
        turn_of(acc) is Ok,
        acc.content.len() > 0,
        !begins(acc.content, "<think>"@),
        !begins(acc.content, "<|channel>thought\n"@),
        !begins(acc.content, HARMONY_ANALYSIS@),
    ensures
        ({
            let turn = turn_of(acc)->Ok_0;
            &&& turn.message.role == Role::Assistant
            &&& turn.message.content == ContentView::Text(acc.content)
            &&& turn.message.reasoning == (if acc.reasoning.len() > 0 {
                Some(acc.reasoning)
            } else {
                None
            })
            &&& turn.message.tool_calls is None && turn.message.tool_call_id is None
            &&& turn.message.name is None
            &&& acc.reasoning_details.len() > 0 ==> turn.message.reasoning_details == Some(
                acc.reasoning_details,
            )
            &&& acc.reasoning_details.len() == 0 ==> turn.message.reasoning_details is None
            &&& turn.refusal == acc.refusal
            &&& turn.finish_reason == acc.finish_reason
            &&& turn.served_by == acc.served_by
            &&& turn.generation_id == acc.generation_id
            &&& turn.prompt_tokens == acc.prompt_tokens
            &&& turn.completion_tokens == acc.completion_tokens
            &&& turn.reasoning_tokens == acc.reasoning_tokens
            &&& turn.cost == acc.cost
        }),
{
    lemma_payload_members(acc);
}

proof fn lemma_payload_members(acc: AccumulatedView)
    ensures
        member(payload(acc), "role"@) == Some(JsonView::Text("assistant"@)),
        member(payload(acc), "content"@) == Some(JsonView::Text(acc.content)),
        member(payload(acc), "reasoning"@) == (if acc.reasoning.len() > 0 {
            Some(JsonView::Text(acc.reasoning))
        } else {
            None
        }),
        member(payload(acc), "reasoning_content"@) is None,
        member(payload(acc), "reasoning_details"@) is None,
        member(payload(acc), "tool_calls"@) is None,
        member(payload(acc), "tool_call_id"@) is None,
        member(payload(acc), "name"@) is None,
        role_of(Some(JsonView::Text("assistant"@))) == Role::Assistant,
{
    reveal_strlit("role");
    reveal_strlit("content");
    reveal_strlit("reasoning");
    reveal_strlit("reasoning_content");
    reveal_strlit("reasoning_details");
    reveal_strlit("tool_calls");
    reveal_strlit("tool_call_id");
    reveal_strlit("name");
    reveal_strlit("assistant");
    reveal_strlit("system");
    reveal_strlit("developer");
    reveal_strlit("user");
    reveal_strlit("tool");
    assert("role"@.len() == 4 && "content"@.len() == 7 && "reasoning"@.len() == 9);
    assert("reasoning_content"@.len() == 17 && "reasoning_details"@.len() == 17);
    assert("tool_calls"@.len() == 10 && "tool_call_id"@.len() == 12 && "name"@.len() == 4);
    assert("role"@[0] == 'r' && "name"@[0] == 'n');
    assert("assistant"@.len() == 9 && "system"@.len() == 6 && "developer"@.len() == 9);
    assert("user"@.len() == 4 && "tool"@.len() == 4);
    assert("assistant"@[0] == 'a' && "developer"@[0] == 'd');
    let m = payload(acc)->Object_0;
    lemma_lookup_at(m, 0);
    lemma_lookup_at(m, 1);
    if acc.reasoning.len() > 0 {
        lemma_lookup_at(m, 2);
    } else {
        lemma_lookup_none(m, "reasoning"@);
    }
    lemma_lookup_none(m, "reasoning_content"@);
    lemma_lookup_none(m, "reasoning_details"@);
    lemma_lookup_none(m, "tool_calls"@);
    lemma_lookup_none(m, "tool_call_id"@);
    lemma_lookup_none(m, "name"@);
}

/// What comes of a stream: nothing of one that said nothing, and a turn of one that said something and
/// was not cut off inside its chain of thought, unless a control token is left in its text.
pub proof fn a_stream_that_said_something_makes_a_turn(acc: AccumulatedView)
    ensures
        acc.content.len() == 0 && acc.reasoning.len() == 0 && acc.reasoning_details.len() == 0
            && acc.refusal is None <==> turn_of(acc) matches Err(GenerateErrorView::EmptyResponse(_)),
        acc.finish_reason == Some("length"@) && (acc.reasoning.len() > 0
            || acc.reasoning_details.len() > 0) <==> turn_of(acc) matches Err(
            GenerateErrorView::TruncatedReasoning { .. },
        ),
        acc.finish_reason == Some("length"@) && (acc.reasoning.len() > 0
            || acc.reasoning_details.len() > 0) ==> (turn_of(acc) matches Err(
            GenerateErrorView::TruncatedReasoning { cost_usd, .. },
        ) && cost_usd == acc.cost),
        turn_of(acc) is Err && !(acc.content.len() == 0 && acc.reasoning.len() == 0
            && acc.reasoning_details.len() == 0 && acc.refusal is None) && !(acc.finish_reason == Some(
            "length"@,
        ) && (acc.reasoning.len() > 0 || acc.reasoning_details.len() > 0)) ==> !clean(
            stripped(acc.content).0,
        ),
{
    lemma_payload_members(acc);
}

/// Whatever an answer opens with, its text is what is left of it once a thought that opens it is taken
/// out, and its thought is the one streamed beside it, or else the one taken out; a refusal stands in for
/// a text that is empty.
pub proof fn a_turn_is_read_like_any_message(acc: AccumulatedView)
    requires
        turn_of(acc) is Ok,
    ensures
        ({
            let turn = turn_of(acc)->Ok_0;
            let words = stripped(acc.content).0;
            &&& turn.message.role == Role::Assistant
            &&& turn.message.content == ContentView::Text(
                if words.len() == 0 && acc.refusal is Some {
                    acc.refusal->0
                } else {
                    words
                },
            )
            &&& turn.message.reasoning == (if acc.reasoning.len() > 0 {
                Some(acc.reasoning)
            } else {
                stripped(acc.content).1
            })
            &&& turn.message.reasoning_details == (if acc.reasoning_details.len() > 0 {
                Some(acc.reasoning_details)
            } else {
                None
            })
            &&& turn.refusal == acc.refusal && turn.finish_reason == acc.finish_reason && turn.served_by
                == acc.served_by && turn.generation_id == acc.generation_id && turn.prompt_tokens
                == acc.prompt_tokens && turn.completion_tokens == acc.completion_tokens
                && turn.reasoning_tokens == acc.reasoning_tokens && turn.cost == acc.cost
        }),
{
    lemma_payload_members(acc);
}

} // verus!
