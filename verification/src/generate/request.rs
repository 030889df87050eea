//! The call of a teacher.
//!
//! A request is built only where its token cap is set: a reasoning model without one breaks off
//! inside its chain of thought. The way to think is an effort or a budget, never both.

use vstd::prelude::*;

use crate::double::Double;
use crate::generate::error::GenerateError;
use crate::generate::error::GenerateErrorView;
use crate::providers::request::{bare_request, ChatRequestView, ProviderRoutingView};
use crate::providers::request::{ChatRequest, ProviderRouting, ReasoningParam, UsageRequest};
use crate::schema::message::{Message, MessageView, ReasoningEffort};
use crate::schema::record::Generation;
use crate::text::joined;

verus! {

/// How a teacher is asked to think: by effort or by budget, never both.
#[derive(Debug, Clone, Copy, PartialEq, Eq, Structural)]
pub enum ReasoningPolicy {
    /// By effort.
    Effort(ReasoningEffort),
    /// By budget.
    MaxTokens(u32),
}

impl ReasoningPolicy {
    /// The highest effort.
    #[must_use]
    pub fn xhigh() -> (p: ReasoningPolicy)
        ensures
            p == ReasoningPolicy::Effort(ReasoningEffort::Xhigh),
    {
        ReasoningPolicy::Effort(ReasoningEffort::Xhigh)
    }

    /// The parameter of the request.
    pub open spec fn param(self) -> ReasoningParam {
        match self {
            ReasoningPolicy::Effort(effort) => ReasoningParam::Effort { effort },
            ReasoningPolicy::MaxTokens(max_tokens) => ReasoningParam::MaxTokens { max_tokens },
        }
    }

    fn to_param(self) -> (p: ReasoningParam)
        ensures
            p == self.param(),
    {
        match self {
            ReasoningPolicy::Effort(effort) => ReasoningParam::effort(effort),
            ReasoningPolicy::MaxTokens(budget) => ReasoningParam::max_tokens(budget),
        }
    }

    /// The effort and the budget, of which one is there.
    pub open spec fn fields(self) -> (Option<ReasoningEffort>, Option<u32>) {
        match self {
            ReasoningPolicy::Effort(effort) => (Some(effort), None),
            ReasoningPolicy::MaxTokens(budget) => (None, Some(budget)),
        }
    }

    fn provenance_fields(self) -> (r: (Option<ReasoningEffort>, Option<u32>))
        ensures
            r == self.fields(),
    {
        match self {
            ReasoningPolicy::Effort(effort) => (Some(effort), None),
            ReasoningPolicy::MaxTokens(budget) => (None, Some(budget)),
        }
    }
}

/// How a teacher is sampled.
#[derive(Debug, Clone, Copy, PartialEq, Eq, Structural)]
pub struct SamplingPreset {
    /// The temperature.
    pub temperature: Double,
    /// The nucleus.
    pub top_p: Option<Double>,
    /// The seed.
    pub seed: Option<i64>,
}

/// The bits of 1.0, the official temperature.
pub const OFFICIAL_TEMPERATURE: u64 = 0x3ff0_0000_0000_0000;

/// The bits of 0.6, the precise temperature.
pub const PRECISE_TEMPERATURE: u64 = 0x3fe3_3333_3333_3333;

/// The bits of 0.95, the nucleus of both presets.
pub const PRESET_TOP_P: u64 = 0x3fee_6666_6666_6666;

/// The preset for full chains of thought.
pub open spec fn official_preset() -> SamplingPreset {
    SamplingPreset {
        temperature: Double { bits: OFFICIAL_TEMPERATURE },
        top_p: Some(Double { bits: PRESET_TOP_P }),
        seed: None,
    }
}

impl SamplingPreset {
    /// The preset for full chains of thought: temperature 1.0, nucleus 0.95.
    #[must_use]
    pub fn official() -> (s: SamplingPreset)
        ensures
            s == official_preset(),
    {
        SamplingPreset {
            temperature: Double { bits: OFFICIAL_TEMPERATURE },
            top_p: Some(Double { bits: PRESET_TOP_P }),
            seed: None,
        }
    }

    /// The preset with less variance: temperature 0.6, nucleus 0.95.
    #[must_use]
    pub fn precise() -> (s: SamplingPreset)
        ensures
            s == (SamplingPreset {
                temperature: Double { bits: PRECISE_TEMPERATURE },
                ..official_preset()
            }),
    {
        SamplingPreset {
            temperature: Double { bits: PRECISE_TEMPERATURE },
            top_p: Some(Double { bits: PRESET_TOP_P }),
            seed: None,
        }
    }

    /// This preset with a seed.
    #[must_use]
    pub fn with_seed(self, seed: i64) -> (s: SamplingPreset)
        ensures
            s == (SamplingPreset { seed: Some(seed), ..self }),
    {
        SamplingPreset { temperature: self.temperature, top_p: self.top_p, seed: Some(seed) }
    }
}

impl Default for SamplingPreset {
    fn default() -> (s: SamplingPreset)
        ensures
            s == official_preset(),
    {
        SamplingPreset::official()
    }
}

/// The call of a teacher.
#[derive(Debug, Clone, PartialEq)]
pub struct TeacherCall {
    /// The model.
    pub model: String,
    /// The conversation to complete.
    pub messages: Vec<Message>,
    /// How to think.
    pub reasoning: ReasoningPolicy,
    /// How to sample.
    pub sampling: SamplingPreset,
    /// The cap on all completion tokens, those of the chain of thought included.
    pub max_tokens: u32,
    /// Which upstreams may serve it.
    pub routing: Option<ProviderRouting>,
}

/// What a call is, as mathematics.
#[verifier::ext_equal]
pub struct TeacherCallView {
    pub model: Seq<char>,
    pub messages: Seq<MessageView>,
    pub reasoning: ReasoningPolicy,
    pub sampling: SamplingPreset,
    pub max_tokens: u32,
    pub routing: Option<ProviderRoutingView>,
}

impl DeepView for TeacherCall {
    type V = TeacherCallView;

    open spec fn deep_view(&self) -> TeacherCallView {
        TeacherCallView {
            model: self.model@,
            messages: self.messages.deep_view(),
            reasoning: self.reasoning,
            sampling: self.sampling,
            max_tokens: self.max_tokens,
            routing: self.routing.deep_view(),
        }
    }
}

/// The words for a call without a token cap.
pub open spec fn uncapped_words(model: Seq<char>) -> Seq<char> {
    "max_tokens must always be set (> 0) on a teacher request for `"@ + model
        + "`; a budget-less reasoning request truncates inside the <|channel>thought block"@
}

/// The request of a call, or why there is none: its token cap is not set.
pub open spec fn request_of(call: TeacherCallView) -> Result<ChatRequestView, GenerateErrorView> {
    if call.max_tokens == 0 {
        Err(GenerateErrorView::Invariant(uncapped_words(call.model)))
    } else {
        Ok(
            ChatRequestView {
                reasoning: Some(call.reasoning.param()),
                max_tokens: Some(call.max_tokens),
                temperature: Some(call.sampling.temperature),
                top_p: call.sampling.top_p,
                seed: call.sampling.seed,
                provider: call.routing,
                usage: Some(UsageRequest { included: true }),
                ..bare_request(call.model, call.messages)
            },
        )
    }
}

impl TeacherCall {
    /// A call with the highest effort and the official preset.
    #[must_use]
    pub fn new(model: String, messages: Vec<Message>, max_tokens: u32) -> (c: TeacherCall)
        ensures
            c.deep_view() == (TeacherCallView {
                model: model@,
                messages: messages.deep_view(),
                reasoning: ReasoningPolicy::Effort(ReasoningEffort::Xhigh),
                sampling: official_preset(),
                max_tokens,
                routing: None,
            }),
    {
        TeacherCall {
            model,
            messages,
            reasoning: ReasoningPolicy::xhigh(),
            sampling: SamplingPreset::official(),
            max_tokens,
            routing: None,
        }
    }

    /// This call with a way to think.
    #[must_use]
    pub fn with_reasoning(self, reasoning: ReasoningPolicy) -> (c: TeacherCall)
        ensures
            c.deep_view() == (TeacherCallView { reasoning, ..self.deep_view() }),
    {
        let mut c = self;
        c.reasoning = reasoning;
        c
    }

    /// This call with a way to sample.
    #[must_use]
    pub fn with_sampling(self, sampling: SamplingPreset) -> (c: TeacherCall)
        ensures
            c.deep_view() == (TeacherCallView { sampling, ..self.deep_view() }),
    {
        let mut c = self;
        c.sampling = sampling;
        c
    }

    /// This call with a routing.
    #[must_use]
    pub fn with_routing(self, routing: ProviderRouting) -> (c: TeacherCall)
        ensures
            c.deep_view() == (TeacherCallView {
                routing: Some(routing.deep_view()),
                ..self.deep_view()
            }),
    {
        let mut c = self;
        c.routing = Some(routing);
        c
    }

    /// The request of this call. Its tokens are always accounted for.
    pub fn build(&self) -> (r: Result<ChatRequest, GenerateError>)
        ensures
            match r {
                Ok(q) => request_of(self.deep_view()) == Ok::<ChatRequestView, GenerateErrorView>(
                    q.deep_view(),
                ),
                Err(e) => request_of(self.deep_view()) == Err::<ChatRequestView, GenerateErrorView>(
                    e.deep_view(),
                ),
            },
    {
        if self.max_tokens == 0 {
            let mut words = joined(
                "max_tokens must always be set (> 0) on a teacher request for `",
                self.model.as_str(),
            );
            words.append(
                "`; a budget-less reasoning request truncates inside the <|channel>thought block",
            );
            return Err(GenerateError::Invariant(words));
        }
        let messages = self.messages.clone();
        assert(messages.deep_view() =~= self.messages.deep_view());
        let mut req = ChatRequest::new(self.model.clone(), messages).with_reasoning(
            self.reasoning.to_param(),
        ).with_max_tokens(self.max_tokens).with_temperature(
            self.sampling.temperature,
        ).with_usage_accounting();
        if let Some(top_p) = self.sampling.top_p {
            req = req.with_top_p(top_p);
        }
        if let Some(seed) = self.sampling.seed {
            req = req.with_seed(seed);
        }
        if let Some(routing) = &self.routing {
            req = req.with_provider(routing.clone());
        }
        Ok(req)
    }

    /// What a record tells of this call.
    #[must_use]
    pub fn generation(&self) -> (g: Generation)
        ensures
            g == (Generation {
                seed: self.sampling.seed,
                temperature: Some(self.sampling.temperature),
                top_p: self.sampling.top_p,
                max_tokens: Some(self.max_tokens),
                reasoning_effort: self.reasoning.fields().0,
                reasoning_max_tokens: self.reasoning.fields().1,
                n_completions: None,
                completion_index: None,
                sibling_group_id: None,
                persona: None,
                taxonomy_node: None,
                prompt_template_id: None,
            }),
    {
        let (reasoning_effort, reasoning_max_tokens) = self.reasoning.provenance_fields();
        Generation {
            seed: self.sampling.seed,
            temperature: Some(self.sampling.temperature),
            top_p: self.sampling.top_p,
            max_tokens: Some(self.max_tokens),
            reasoning_effort,
            reasoning_max_tokens,
            n_completions: None,
            completion_index: None,
            sibling_group_id: None,
            persona: None,
            taxonomy_node: None,
            prompt_template_id: None,
        }
    }
}

/// Every request is capped and accounted for, and asks to think in exactly one way; what a record
/// tells of the call names the same one.
pub proof fn every_request_is_capped(call: TeacherCallView)
    requires
        request_of(call) is Ok,
    ensures
        ({
            let q = request_of(call)->Ok_0;
            &&& q.max_tokens matches Some(n) && n > 0
            &&& q.usage == Some(UsageRequest { included: true })
            &&& q.stream
            &&& q.reasoning == Some(call.reasoning.param())
        }),
        call.reasoning.fields().0 is Some <==> call.reasoning.fields().1 is None,
        call.reasoning.fields().0 is Some <==> call.reasoning.param() is Effort,
{
}

/// A teacher is asked what the call says: its model, its messages, its sampling, its cap and its routing;
/// one without a cap is not asked.
pub proof fn a_call_is_asked_as_it_is(call: TeacherCallView)
    ensures
        call.max_tokens == 0 ==> (request_of(call) matches Err(GenerateErrorView::Invariant(_))),
        call.max_tokens > 0 ==> (request_of(call) matches Ok(q) && q.model == call.model && q.messages
            == call.messages && q.max_tokens == Some(call.max_tokens) && q.temperature == Some(
            call.sampling.temperature,
        ) && q.top_p == call.sampling.top_p && q.seed == call.sampling.seed && q.provider
            == call.routing && q.stream && (match call.reasoning {
            ReasoningPolicy::Effort(effort) => q.reasoning == Some(ReasoningParam::Effort { effort }),
            ReasoningPolicy::MaxTokens(max_tokens) => q.reasoning == Some(
                ReasoningParam::MaxTokens { max_tokens },
            ),
        })),
        match call.reasoning {
            ReasoningPolicy::Effort(effort) => call.reasoning.fields() == (Some(effort), None::<u32>),
            ReasoningPolicy::MaxTokens(n) => call.reasoning.fields() == (
                None::<ReasoningEffort>,
                Some(n),
            ),
        },
{
}

} // verus!
