//! One chunk of a streamed answer.
//!
//! A chunk carries what changed since the last: answer text, chain of thought, or, at the end, why
//! the answer stopped and what it cost. The chain of thought is read in both forms in which an
//! endpoint sends it, as plain text and as structured blocks.

use vstd::prelude::*;

use crate::json::Json;
use crate::json::{array_view, lemma_array_view, JsonView};
use crate::providers::delta_wire::{
    convert_reasoning_details,
    convert_usage,
    read_text,
    Usage,
};
use crate::providers::delta_wire::{details_of, text_field, usage_of};
use crate::schema::message::{ReasoningDetail, ReasoningDetailView};
use crate::typed::{alike_but, field, fields_of, reading, record_fault};
use crate::typed::{find_fault, read_as, read_field, Form};

verus! {

/// Who served an answer.
#[derive(Debug, PartialEq)]
pub struct ChunkProvenance {
    /// The upstream that served it.
    pub served_by: Option<String>,
    /// The model that answered.
    pub model: Option<String>,
    /// The identifier of the generation.
    pub id: Option<String>,
}

/// What a provenance is, as mathematics.
#[verifier::ext_equal]
pub struct ChunkProvenanceView {
    pub served_by: Option<Seq<char>>,
    pub model: Option<Seq<char>>,
    pub id: Option<Seq<char>>,
}

impl DeepView for ChunkProvenance {
    type V = ChunkProvenanceView;

    open spec fn deep_view(&self) -> ChunkProvenanceView {
        ChunkProvenanceView {
            served_by: self.served_by.deep_view(),
            model: self.model.deep_view(),
            id: self.id.deep_view(),
        }
    }
}

impl Default for ChunkProvenance {
    fn default() -> (r: ChunkProvenance)
        ensures
            r.deep_view() == (ChunkProvenanceView { served_by: None, model: None, id: None }),
    {
        ChunkProvenance { served_by: None, model: None, id: None }
    }
}

impl Clone for ChunkProvenance {
    fn clone(&self) -> (r: ChunkProvenance)
        ensures
            r.deep_view() == self.deep_view(),
    {
        ChunkProvenance {
            served_by: self.served_by.clone(),
            model: self.model.clone(),
            id: self.id.clone(),
        }
    }
}

impl ChunkProvenance {
    fn is_empty(&self) -> (r: bool)
        ensures
            r == (self.deep_view().served_by is None && self.deep_view().model is None
                && self.deep_view().id is None),
    {
        self.served_by.is_none() && self.model.is_none() && self.id.is_none()
    }
}

/// One chunk of a streamed answer. Every field is absent where nothing changed.
#[derive(Debug, Clone, PartialEq)]
pub struct StreamDelta {
    /// More of the answer.
    pub content: Option<String>,
    /// More of the chain of thought, as plain text.
    pub reasoning: Option<String>,
    /// More of the chain of thought, as structured blocks.
    pub reasoning_details: Option<Vec<ReasoningDetail>>,
    /// Why the model declines.
    pub refusal: Option<String>,
    /// Why the answer stopped.
    pub finish_reason: Option<String>,
    /// Why the answer stopped, in the upstream's own words.
    pub native_finish_reason: Option<String>,
    /// Who served the answer.
    pub provenance: Option<ChunkProvenance>,
    /// The account of the tokens.
    pub usage: Option<Usage>,
}

/// What a chunk is, as mathematics.
#[verifier::ext_equal]
pub struct StreamDeltaView {
    pub content: Option<Seq<char>>,
    pub reasoning: Option<Seq<char>>,
    pub reasoning_details: Option<Seq<ReasoningDetailView>>,
    pub refusal: Option<Seq<char>>,
    pub finish_reason: Option<Seq<char>>,
    pub native_finish_reason: Option<Seq<char>>,
    pub provenance: Option<ChunkProvenanceView>,
    pub usage: Option<Usage>,
}

impl DeepView for StreamDelta {
    type V = StreamDeltaView;

    open spec fn deep_view(&self) -> StreamDeltaView {
        StreamDeltaView {
            content: self.content.deep_view(),
            reasoning: self.reasoning.deep_view(),
            reasoning_details: self.reasoning_details.deep_view(),
            refusal: self.refusal.deep_view(),
            finish_reason: self.finish_reason.deep_view(),
            native_finish_reason: self.native_finish_reason.deep_view(),
            provenance: self.provenance.deep_view(),
            usage: self.usage,
        }
    }
}

/// The chunk in which nothing changed.
pub open spec fn empty_delta() -> StreamDeltaView {
    StreamDeltaView {
        content: None,
        reasoning: None,
        reasoning_details: None,
        refusal: None,
        finish_reason: None,
        native_finish_reason: None,
        provenance: None,
        usage: None,
    }
}

impl Default for StreamDelta {
    fn default() -> (r: StreamDelta)
        ensures
            r.deep_view() == empty_delta(),
    {
        StreamDelta {
            content: None,
            reasoning: None,
            reasoning_details: None,
            refusal: None,
            finish_reason: None,
            native_finish_reason: None,
            provenance: None,
            usage: None,
        }
    }
}

impl StreamDelta {
    /// Whether the chunk has nothing to display. It may still say why the answer stopped and what
    /// it cost.
    #[must_use]
    pub fn is_empty_payload(&self) -> (r: bool)
        ensures
            r == ({
                let d = self.deep_view();
                d.content is None && d.reasoning is None && d.reasoning_details is None
                    && d.refusal is None
            }),
    {
        self.content.is_none() && self.reasoning.is_none() && self.reasoning_details.is_none()
            && self.refusal.is_none()
    }
}

/// What one choice of a chunk says.
#[verifier::ext_equal]
pub struct ChoiceView {
    pub content: Option<Seq<char>>,
    pub reasoning: Option<Seq<char>>,
    pub reasoning_details: Option<Seq<ReasoningDetailView>>,
    pub refusal: Option<Seq<char>>,
    pub finish_reason: Option<Seq<char>>,
    pub native_finish_reason: Option<Seq<char>>,
}

/// The choice that says nothing.
pub open spec fn silent_choice() -> ChoiceView {
    ChoiceView {
        content: None,
        reasoning: None,
        reasoning_details: None,
        refusal: None,
        finish_reason: None,
        native_finish_reason: None,
    }
}

/// What the change in a choice says, where it is readable: a record whose texts are texts.
pub open spec fn change_of(delta: JsonView) -> Result<ChoiceView, Seq<char>> {
    match record_fault(delta, Form::Delta) {
        Some(e) => Err(e),
        None => match text_field(delta, "content"@, 0) {
            Err(e) => Err(e),
            Ok(content) => match text_field(delta, "reasoning"@, 1) {
                Err(e) => Err(e),
                Ok(reasoning) => match text_field(delta, "refusal"@, 3) {
                    Err(e) => Err(e),
                    Ok(refusal) => Ok(
                        ChoiceView {
                            content,
                            reasoning,
                            reasoning_details: details_of(field(delta, "reasoning_details"@, 2)),
                            refusal,
                            finish_reason: None,
                            native_finish_reason: None,
                        },
                    ),
                },
            },
        },
    }
}

/// What a choice says, where it is readable.
pub open spec fn choice_of(j: JsonView) -> Result<ChoiceView, Seq<char>> {
    match record_fault(j, Form::Choice) {
        Some(e) => Err(e),
        None => match (match field(j, "delta"@, 0) {
            Some(d) => change_of(d),
            None => Ok(silent_choice()),
        }) {
            Err(e) => Err(e),
            Ok(change) => match text_field(j, "finish_reason"@, 1) {
                Err(e) => Err(e),
                Ok(finish_reason) => match text_field(j, "native_finish_reason"@, 2) {
                    Err(e) => Err(e),
                    Ok(native_finish_reason) => Ok(
                        ChoiceView { finish_reason, native_finish_reason, ..change },
                    ),
                },
            },
        },
    }
}

/// What the choices of a chunk say: that of the first, provided that all are readable.
pub open spec fn choices_of(items: Seq<JsonView>) -> Result<ChoiceView, Seq<char>>
    decreases items.len(),
{
    if items.len() == 0 {
        Ok(silent_choice())
    } else {
        match choices_of(items.drop_last()) {
            Err(e) => Err(e),
            Ok(first) => match choice_of(items.last()) {
                Err(e) => Err(e),
                Ok(last) => Ok(
                    if items.len() == 1 {
                        last
                    } else {
                        first
                    },
                ),
            },
        }
    }
}

/// What the choices under a chunk's `choices` say.
pub open spec fn choices_field(j: JsonView) -> Result<ChoiceView, Seq<char>> {
    match field(j, "choices"@, 0) {
        None => Ok(silent_choice()),
        Some(JsonView::Array(items)) => choices_of(items),
        Some(_) => Err("field `choices` is not an array"@),
    }
}

/// The provenance that three texts make, none where all are absent.
pub open spec fn provenance_of(
    served_by: Option<Seq<char>>,
    model: Option<Seq<char>>,
    id: Option<Seq<char>>,
) -> Option<ChunkProvenanceView> {
    if served_by is None && model is None && id is None {
        None
    } else {
        Some(ChunkProvenanceView { served_by, model, id })
    }
}

/// The chunk that a JSON value is, or why it is none. Reasoning blocks and the account of tokens
/// never stand in the way.
pub open spec fn chunk_of(j: JsonView) -> Result<StreamDeltaView, Seq<char>> {
    match record_fault(j, Form::Chunk) {
        Some(e) => Err(e),
        None => match choices_field(j) {
            Err(e) => Err(e),
            Ok(choice) => match text_field(j, "id"@, 1) {
                Err(e) => Err(e),
                Ok(id) => match text_field(j, "model"@, 2) {
                    Err(e) => Err(e),
                    Ok(model) => match text_field(j, "provider"@, 3) {
                        Err(e) => Err(e),
                        Ok(served_by) => Ok(
                            StreamDeltaView {
                                content: choice.content,
                                reasoning: choice.reasoning,
                                reasoning_details: choice.reasoning_details,
                                refusal: choice.refusal,
                                finish_reason: choice.finish_reason,
                                native_finish_reason: choice.native_finish_reason,
                                provenance: provenance_of(served_by, model, id),
                                usage: usage_of(field(j, "usage"@, 4)),
                            },
                        ),
                    },
                },
            },
        },
    }
}

/// The chunk that a text encodes, or why it encodes none.
pub open spec fn chunk_in(text: Seq<char>) -> Result<StreamDeltaView, Seq<char>> {
    match reading(text, Form::Chunk) {
        Ok(j) => chunk_of(j),
        Err(e) => Err(e),
    }
}

struct Choice {
    content: Option<String>,
    reasoning: Option<String>,
    reasoning_details: Option<Vec<ReasoningDetail>>,
    refusal: Option<String>,
    finish_reason: Option<String>,
    native_finish_reason: Option<String>,
}

impl DeepView for Choice {
    type V = ChoiceView;

    closed spec fn deep_view(&self) -> ChoiceView {
        ChoiceView {
            content: self.content.deep_view(),
            reasoning: self.reasoning.deep_view(),
            reasoning_details: self.reasoning_details.deep_view(),
            refusal: self.refusal.deep_view(),
            finish_reason: self.finish_reason.deep_view(),
            native_finish_reason: self.native_finish_reason.deep_view(),
        }
    }
}

spec fn reads(r: Result<Choice, String>, s: Result<ChoiceView, Seq<char>>) -> bool {
    match r {
        Ok(c) => s == Ok::<ChoiceView, Seq<char>>(c.deep_view()),
        Err(e) => s == Err::<ChoiceView, Seq<char>>(e@),
    }
}

fn silence() -> (c: Choice)
    ensures
        c.deep_view() == silent_choice(),
{
    Choice {
        content: None,
        reasoning: None,
        reasoning_details: None,
        refusal: None,
        finish_reason: None,
        native_finish_reason: None,
    }
}

fn read_change(delta: &Json) -> (r: Result<Choice, String>)
    ensures
        reads(r, change_of(delta@)),
{
    if let Some(e) = find_fault(delta, Form::Delta) {
        return Err(e);
    }
    let content = match read_text(delta, "content", 0) {
        Ok(t) => t,
        Err(e) => {
            return Err(e);
        },
    };
    let reasoning = match read_text(delta, "reasoning", 1) {
        Ok(t) => t,
        Err(e) => {
            return Err(e);
        },
    };
    let refusal = match read_text(delta, "refusal", 3) {
        Ok(t) => t,
        Err(e) => {
            return Err(e);
        },
    };
    Ok(
        Choice {
            content,
            reasoning,
            reasoning_details: convert_reasoning_details(read_field(delta, "reasoning_details", 2)),
            refusal,
            finish_reason: None,
            native_finish_reason: None,
        },
    )
}

fn read_choice(j: &Json) -> (r: Result<Choice, String>)
    ensures
        reads(r, choice_of(j@)),
{
    if let Some(e) = find_fault(j, Form::Choice) {
        return Err(e);
    }
    let change = match read_field(j, "delta", 0) {
        Some(d) => match read_change(d) {
            Ok(c) => c,
            Err(e) => {
                return Err(e);
            },
        },
        None => silence(),
    };
    let finish_reason = match read_text(j, "finish_reason", 1) {
        Ok(t) => t,
        Err(e) => {
            return Err(e);
        },
    };
    let native_finish_reason = match read_text(j, "native_finish_reason", 2) {
        Ok(t) => t,
        Err(e) => {
            return Err(e);
        },
    };
    Ok(
        Choice {
            content: change.content,
            reasoning: change.reasoning,
            reasoning_details: change.reasoning_details,
            refusal: change.refusal,
            finish_reason,
            native_finish_reason,
        },
    )
}

proof fn lemma_choices_error(items: Seq<JsonView>, n: int)
    requires
        0 <= n <= items.len(),
        choices_of(items.take(n)) is Err,
    ensures
        choices_of(items) == choices_of(items.take(n)),
    decreases items.len() - n,
{
    if n < items.len() {
        assert(items.take(n + 1).drop_last() =~= items.take(n));
        lemma_choices_error(items, n + 1);
    } else {
        assert(items.take(n) =~= items);
    }
}

fn read_choices(j: &Json) -> (r: Result<Choice, String>)
    ensures
        reads(r, choices_field(j@)),
{
    match read_field(j, "choices", 0) {
        None => Ok(silence()),
        Some(Json::Array(items)) => {
            let ghost view = array_view(items@);
            proof {
                lemma_array_view(*items);
            }
            let mut chosen = silence();
            let mut i: usize = 0;
            assert(view.take(0) =~= Seq::empty());
            while i < items.len()
                invariant
                    i <= items@.len(),
                    view == array_view(items@),
                    choices_field(j@) == choices_of(view),
                    choices_of(view.take(i as int)) == Ok::<ChoiceView, Seq<char>>(
                        chosen.deep_view(),
                    ),
                decreases items@.len() - i,
            {
                proof {
                    assert(view.take(i + 1).drop_last() =~= view.take(i as int));
                    assert(view.take(i + 1).last() == items@[i as int]@);
                }
                match read_choice(&items[i]) {
                    Ok(c) => {
                        if i == 0 {
                            chosen = c;
                        }
                    },
                    Err(e) => {
                        proof {
                            lemma_choices_error(view, i + 1);
                        }
                        return Err(e);
                    },
                }
                i += 1;
            }
            proof {
                assert(view.take(i as int) =~= view);
            }
            Ok(chosen)
        },
        Some(_) => Err("field `choices` is not an array".to_owned()),
    }
}

/// Reads a chunk off a JSON value.
pub fn read_chunk(j: &Json) -> (r: Result<StreamDelta, String>)
    ensures
        match r {
            Ok(d) => chunk_of(j@) == Ok::<StreamDeltaView, Seq<char>>(d.deep_view()),
            Err(e) => chunk_of(j@) == Err::<StreamDeltaView, Seq<char>>(e@),
        },
{
    if let Some(e) = find_fault(j, Form::Chunk) {
        return Err(e);
    }
    let choice = match read_choices(j) {
        Ok(c) => c,
        Err(e) => {
            return Err(e);
        },
    };
    let id = match read_text(j, "id", 1) {
        Ok(t) => t,
        Err(e) => {
            return Err(e);
        },
    };
    let model = match read_text(j, "model", 2) {
        Ok(t) => t,
        Err(e) => {
            return Err(e);
        },
    };
    let served_by = match read_text(j, "provider", 3) {
        Ok(t) => t,
        Err(e) => {
            return Err(e);
        },
    };
    let provenance = ChunkProvenance { served_by, model, id };
    let provenance = if provenance.is_empty() {
        None
    } else {
        Some(provenance)
    };
    Ok(
        StreamDelta {
            content: choice.content,
            reasoning: choice.reasoning,
            reasoning_details: choice.reasoning_details,
            refusal: choice.refusal,
            finish_reason: choice.finish_reason,
            native_finish_reason: choice.native_finish_reason,
            provenance,
            usage: convert_usage(read_field(j, "usage", 4)),
        },
    )
}

/// Reads a chunk off its JSON text.
pub fn parse_chunk(text: &str) -> (r: Result<StreamDelta, String>)
    ensures
        match r {
            Ok(d) => chunk_in(text@) == Ok::<StreamDeltaView, Seq<char>>(d.deep_view()),
            Err(e) => chunk_in(text@) == Err::<StreamDeltaView, Seq<char>>(e@),
        },
{
    match read_as(text, Form::Chunk) {
        Ok(j) => read_chunk(&j),
        Err(e) => Err(e),
    }
}

/// An account of tokens, whatever it is, never stands in the way of a chunk: two chunks that differ
/// only there are both readable or both not, and say the same apart from the account.
pub proof fn usage_never_spoils_a_chunk(a: JsonView, b: JsonView)
    requires
        alike_but(a, b, Form::Chunk, 4),
    ensures
        match (chunk_of(a), chunk_of(b)) {
            (Ok(x), Ok(y)) => y == (StreamDeltaView { usage: y.usage, ..x }),
            (Err(x), Err(y)) => x == y,
            _ => false,
        },
{
    let known = fields_of(Form::Chunk);
    assert(known[0].0 == "choices"@);
    assert(known[1].0 == "id"@);
    assert(known[2].0 == "model"@);
    assert(known[3].0 == "provider"@);
}

/// Reasoning blocks, whatever they are, never stand in the way of a change: two changes that differ
/// only there are both readable or both not, and say the same apart from the blocks.
pub proof fn reasoning_details_never_spoil_a_change(a: JsonView, b: JsonView)
    requires
        alike_but(a, b, Form::Delta, 2),
    ensures
        match (change_of(a), change_of(b)) {
            (Ok(x), Ok(y)) => y == (ChoiceView { reasoning_details: y.reasoning_details, ..x }),
            (Err(x), Err(y)) => x == y,
            _ => false,
        },
{
    let known = fields_of(Form::Delta);
    assert(known[0].0 == "content"@);
    assert(known[1].0 == "reasoning"@);
    assert(known[3].0 == "refusal"@);
}

/// Whether `t` is the text that a field holds; an absent one, and null, hold none.
pub open spec fn is_told(held: Option<JsonView>, t: Option<Seq<char>>) -> bool {
    match held {
        None | Some(JsonView::Null) => t is None,
        Some(JsonView::Text(s)) => t == Some(s),
        Some(_) => false,
    }
}

/// A chunk says what its first choice says: the change of that choice and why it stopped, and, of the
/// chunk itself, who served it and what it cost. Whatever the other choices say is left out, but they
/// have to be readable.
pub proof fn a_chunk_says_what_its_first_choice_says(j: JsonView)
    requires
        chunk_of(j) is Ok,
    ensures
        ({
            let d = chunk_of(j)->Ok_0;
            let choices = field(j, "choices"@, 0);
            let served = match d.provenance {
                Some(p) => p,
                None => ChunkProvenanceView { served_by: None, model: None, id: None },
            };
            &&& choices is None || choices->0 is Array
            &&& is_told(field(j, "id"@, 1), served.id)
            &&& is_told(field(j, "model"@, 2), served.model)
            &&& is_told(field(j, "provider"@, 3), served.served_by)
            &&& d.provenance is Some ==> d.provenance->0.id is Some || d.provenance->0.model is Some
                || d.provenance->0.served_by is Some
            &&& d.usage == usage_of(field(j, "usage"@, 4))
            &&& choices is None || choices->0->Array_0.len() == 0 ==> d.content is None && d.reasoning
                is None && d.reasoning_details is None && d.refusal is None && d.finish_reason is None
                && d.native_finish_reason is None
            &&& choices is Some && choices->0->Array_0.len() > 0 ==> {
                let first = choices->0->Array_0[0];
                let change = field(first, "delta"@, 0);
                &&& is_told(field(first, "finish_reason"@, 1), d.finish_reason)
                &&& is_told(field(first, "native_finish_reason"@, 2), d.native_finish_reason)
                &&& change is Some ==> is_told(field(change->0, "content"@, 0), d.content) && is_told(
                    field(change->0, "reasoning"@, 1),
                    d.reasoning,
                ) && is_told(field(change->0, "refusal"@, 3), d.refusal) && d.reasoning_details
                    == details_of(field(change->0, "reasoning_details"@, 2))
                &&& change is None ==> d.content is None && d.reasoning is None && d.refusal is None
                    && d.reasoning_details is None
            }
        }),
{
    if let Some(JsonView::Array(items)) = field(j, "choices"@, 0) {
        lemma_first_choice(items);
    }
}

proof fn lemma_first_choice(items: Seq<JsonView>)
    requires
        choices_of(items) is Ok,
    ensures
        items.len() == 0 ==> choices_of(items)->Ok_0 == silent_choice(),
        items.len() > 0 ==> choices_of(items) == choice_of(items[0]),
        forall|i: int| 0 <= i < items.len() ==> choice_of(#[trigger] items[i]) is Ok,
    decreases items.len(),
{
    if items.len() > 0 {
        let before = items.drop_last();
        lemma_first_choice(before);
        assert forall|i: int| 0 <= i < items.len() implies choice_of(#[trigger] items[i]) is Ok by {
            if i < before.len() {
                assert(before[i] == items[i]);
            }
        }
        if items.len() > 1 {
            assert(before[0] == items[0]);
        }
    }
}

/// A chunk is readable exactly where it is a record, its texts are texts, and every one of its choices
/// is readable.
pub proof fn a_readable_chunk_is_owed(j: JsonView)
    ensures
        chunk_of(j) is Ok <==> {
            let choices = field(j, "choices"@, 0);
            let text = |held: Option<JsonView>|
                held is None || held == Some(JsonView::Null) || held->0 is Text;
            &&& record_fault(j, Form::Chunk) is None
            &&& text(field(j, "id"@, 1)) && text(field(j, "model"@, 2)) && text(
                field(j, "provider"@, 3),
            )
            &&& choices is Some ==> choices->0 is Array && forall|i: int|
                0 <= i < choices->0->Array_0.len() ==> choice_of(
                    #[trigger] choices->0->Array_0[i],
                ) is Ok
        },
{
    if let Some(JsonView::Array(items)) = field(j, "choices"@, 0) {
        if choices_of(items) is Ok {
            lemma_first_choice(items);
        }
        if forall|i: int| 0 <= i < items.len() ==> choice_of(#[trigger] items[i]) is Ok {
            lemma_choices_are_read(items);
        }
    }
}

proof fn lemma_choices_are_read(items: Seq<JsonView>)
    requires
        forall|i: int| 0 <= i < items.len() ==> choice_of(#[trigger] items[i]) is Ok,
    ensures
        choices_of(items) is Ok,
    decreases items.len(),
{
    if items.len() > 0 {
        let before = items.drop_last();
        assert forall|i: int| 0 <= i < before.len() implies choice_of(#[trigger] before[i]) is Ok by {
            assert(before[i] == items[i]);
        }
        assert(choice_of(items[items.len() - 1]) is Ok);
        lemma_choices_are_read(before);
    }
}

/// A chunk is read off its text: what is read of the text is the record that is read.
pub proof fn a_chunk_is_read_off_its_text(text: Seq<char>)
    ensures
        reading(text, Form::Chunk) matches Ok(j) ==> chunk_in(text) == chunk_of(j),
        reading(text, Form::Chunk) is Err ==> chunk_in(text) is Err,
{
}

} // verus!
