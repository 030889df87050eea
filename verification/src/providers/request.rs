//! The body of a chat completion request.

use vstd::prelude::*;

use crate::double::Double;
use crate::schema::message::{Message, MessageView, ReasoningEffort};
use crate::schema::record::DataCollection;
use crate::wire::{write_message, ObjectBuilder, Outbound, OutboundView};
use crate::wire::{
    items_view,
    lemma_items_view,
    message_wire,
    optional_member,
    optional_text,
    outbound_view,
    some_view,
};

verus! {

/// How a reasoning model is asked to think: by effort or by budget, never both.
#[derive(Debug, Clone, Copy, PartialEq, Eq, Structural)]
pub enum ReasoningParam {
    /// By effort.
    Effort {
        /// The effort.
        effort: ReasoningEffort,
    },
    /// By budget.
    MaxTokens {
        /// The budget in tokens.
        max_tokens: u32,
    },
}

impl ReasoningParam {
    /// The highest effort.
    #[must_use]
    pub fn xhigh() -> (p: ReasoningParam)
        ensures
            p == (ReasoningParam::Effort { effort: ReasoningEffort::Xhigh }),
    {
        ReasoningParam::Effort { effort: ReasoningEffort::Xhigh }
    }

    /// The effort `effort`.
    #[must_use]
    pub fn effort(effort: ReasoningEffort) -> (p: ReasoningParam)
        ensures
            p == (ReasoningParam::Effort { effort }),
    {
        ReasoningParam::Effort { effort }
    }

    /// The budget `budget`.
    #[must_use]
    pub fn max_tokens(budget: u32) -> (p: ReasoningParam)
        ensures
            p == (ReasoningParam::MaxTokens { max_tokens: budget }),
    {
        ReasoningParam::MaxTokens { max_tokens: budget }
    }

    /// The wire form: an object with one member.
    pub open spec fn wire(self) -> OutboundView {
        match self {
            ReasoningParam::Effort { effort } => OutboundView::Object(
                seq![("effort"@, OutboundView::Text(effort.spelling()))],
            ),
            ReasoningParam::MaxTokens { max_tokens } => OutboundView::Object(
                seq![("max_tokens"@, OutboundView::Unsigned(max_tokens as u64))],
            ),
        }
    }

    /// The wire form: an object with one member.
    pub fn to_wire(self) -> (o: Outbound)
        ensures
            o@ == self.wire(),
    {
        let mut b = ObjectBuilder::new();
        match self {
            ReasoningParam::Effort { effort } => {
                b.put_text("effort", effort.as_str());
            },
            ReasoningParam::MaxTokens { max_tokens } => {
                b.put("max_tokens", Outbound::Unsigned(max_tokens as u64));
            },
        }
        assert(b@ =~= self.wire()->Object_0);
        b.finish()
    }
}

/// Whether the last chunk of an answer accounts for its tokens.
#[derive(Debug, Clone, Copy, PartialEq, Eq, Structural)]
pub struct UsageRequest {
    /// Whether it does.
    pub included: bool,
}

/// Which upstreams may serve a request.
#[derive(Debug, PartialEq)]
pub struct ProviderRouting {
    /// The upstreams to try, in order.
    pub order: Vec<String>,
    /// The only upstreams allowed.
    pub only: Option<Vec<String>>,
    /// Whether others may be tried.
    pub allow_fallbacks: Option<bool>,
    /// By what to choose among them.
    pub sort: Option<String>,
    /// Whether the upstream may keep what it is sent.
    pub data_collection: Option<DataCollection>,
    /// Whether the upstream must support every parameter sent.
    pub require_parameters: Option<bool>,
}

/// What a routing is, as mathematics.
#[verifier::ext_equal]
pub struct ProviderRoutingView {
    pub order: Seq<Seq<char>>,
    pub only: Option<Seq<Seq<char>>>,
    pub allow_fallbacks: Option<bool>,
    pub sort: Option<Seq<char>>,
    pub data_collection: Option<DataCollection>,
    pub require_parameters: Option<bool>,
}

/// The routing that demands nothing.
pub open spec fn open_routing() -> ProviderRoutingView {
    ProviderRoutingView {
        order: Seq::empty(),
        only: None,
        allow_fallbacks: None,
        sort: None,
        data_collection: None,
        require_parameters: None,
    }
}

impl DeepView for ProviderRouting {
    type V = ProviderRoutingView;

    open spec fn deep_view(&self) -> ProviderRoutingView {
        ProviderRoutingView {
            order: self.order.deep_view(),
            only: self.only.deep_view(),
            allow_fallbacks: self.allow_fallbacks,
            sort: self.sort.deep_view(),
            data_collection: self.data_collection,
            require_parameters: self.require_parameters,
        }
    }
}

impl Default for ProviderRouting {
    fn default() -> (r: ProviderRouting)
        ensures
            r.deep_view() == open_routing(),
    {
        let r = ProviderRouting {
            order: Vec::new(),
            only: None,
            allow_fallbacks: None,
            sort: None,
            data_collection: None,
            require_parameters: None,
        };
        assert(r.order.deep_view() =~= Seq::empty());
        r
    }
}

impl Clone for ProviderRouting {
    fn clone(&self) -> (r: ProviderRouting)
        ensures
            r.deep_view() == self.deep_view(),
    {
        let r = ProviderRouting {
            order: self.order.clone(),
            only: self.only.clone(),
            allow_fallbacks: self.allow_fallbacks,
            sort: self.sort.clone(),
            data_collection: self.data_collection,
            require_parameters: self.require_parameters,
        };
        proof {
            assert(r.order.deep_view() =~= self.order.deep_view());
            if self.only is Some {
                assert(r.only->0.deep_view() =~= self.only->0.deep_view());
            }
        }
        r
    }
}

/// An array of texts.
pub open spec fn texts_wire(texts: Seq<Seq<char>>) -> OutboundView {
    OutboundView::Array(texts.map_values(|t: Seq<char>| OutboundView::Text(t)))
}

fn write_texts(texts: &Vec<String>) -> (o: Outbound)
    ensures
        o@ == texts_wire(texts.deep_view()),
{
    let mut items: Vec<Outbound> = Vec::new();
    let mut i: usize = 0;
    while i < texts.len()
        invariant
            i <= texts@.len(),
            items@.len() == i,
            forall|k: int|
                0 <= k < i ==> outbound_view(#[trigger] items@[k]) == OutboundView::Text(
                    texts@[k]@,
                ),
        decreases texts@.len() - i,
    {
        items.push(Outbound::Text(texts[i].clone()));
        i += 1;
    }
    proof {
        lemma_items_view(items);
        assert(items_view(items@) =~= texts.deep_view().map_values(
            |t: Seq<char>| OutboundView::Text(t),
        ));
    }
    Outbound::Array(items)
}

/// The wire spelling of a stance on data collection.
pub open spec fn stance_spelling(d: DataCollection) -> Seq<char> {
    match d {
        DataCollection::Allow => "allow"@,
        DataCollection::Deny => "deny"@,
    }
}

/// The member `key` where there is a truth value for it, nothing otherwise.
pub open spec fn optional_bool(key: Seq<char>, value: Option<bool>) -> Seq<
    (Seq<char>, OutboundView),
> {
    match value {
        Some(v) => seq![(key, OutboundView::Bool(v))],
        None => Seq::empty(),
    }
}

/// The wire form of a routing: what it does not demand is left out.
pub open spec fn routing_wire(r: ProviderRoutingView) -> OutboundView {
    OutboundView::Object(
        (if r.order.len() == 0 {
            Seq::empty()
        } else {
            seq![("order"@, texts_wire(r.order))]
        }) + (match r.only {
            Some(only) => seq![("only"@, texts_wire(only))],
            None => Seq::empty(),
        }) + optional_bool("allow_fallbacks"@, r.allow_fallbacks) + optional_text("sort"@, r.sort)
            + (match r.data_collection {
            Some(d) => seq![("data_collection"@, OutboundView::Text(stance_spelling(d)))],
            None => Seq::empty(),
        }) + optional_bool("require_parameters"@, r.require_parameters),
    )
}

impl ProviderRouting {
    /// Exactly the upstream `slug`, and no other.
    #[must_use]
    pub fn pin(slug: String) -> (r: ProviderRouting)
        ensures
            r.deep_view() == (ProviderRoutingView {
                order: seq![slug@],
                allow_fallbacks: Some(false),
                ..open_routing()
            }),
    {
        let mut order: Vec<String> = Vec::new();
        order.push(slug);
        assert(order.deep_view() =~= seq![slug@]);
        ProviderRouting {
            order,
            only: None,
            allow_fallbacks: Some(false),
            sort: None,
            data_collection: None,
            require_parameters: None,
        }
    }

    /// The upstreams `slugs`, in order.
    #[must_use]
    pub fn ordered(slugs: Vec<String>) -> (r: ProviderRouting)
        ensures
            r.deep_view() == (ProviderRoutingView { order: slugs.deep_view(), ..open_routing() }),
    {
        ProviderRouting {
            order: slugs,
            only: None,
            allow_fallbacks: None,
            sort: None,
            data_collection: None,
            require_parameters: None,
        }
    }

    /// The upstream that is best by `strategy`.
    #[must_use]
    pub fn sorted(strategy: String) -> (r: ProviderRouting)
        ensures
            r.deep_view() == (ProviderRoutingView { sort: Some(strategy@), ..open_routing() }),
    {
        let mut r = ProviderRouting::default();
        r.sort = Some(strategy);
        r
    }

    /// This routing with a stance on data collection and on parameters.
    #[must_use]
    pub fn with_data_posture(
        self,
        data_collection: DataCollection,
        require_parameters: bool,
    ) -> (r: ProviderRouting)
        ensures
            r.deep_view() == (ProviderRoutingView {
                data_collection: Some(data_collection),
                require_parameters: Some(require_parameters),
                ..self.deep_view()
            }),
    {
        ProviderRouting {
            order: self.order,
            only: self.only,
            allow_fallbacks: self.allow_fallbacks,
            sort: self.sort,
            data_collection: Some(data_collection),
            require_parameters: Some(require_parameters),
        }
    }

    /// Whether the routing demands nothing.
    #[must_use]
    pub fn is_empty(&self) -> (r: bool)
        ensures
            r == (self.deep_view() == open_routing()),
    {
        let r = self.order.len() == 0 && self.only.is_none() && self.allow_fallbacks.is_none()
            && self.sort.is_none() && self.data_collection.is_none()
            && self.require_parameters.is_none();
        proof {
            assert(self.order.deep_view().len() == self.order@.len());
            if r {
                assert(self.deep_view() =~= open_routing());
            }
        }
        r
    }

    /// The wire form: what the routing does not demand is left out.
    pub fn to_wire(&self) -> (o: Outbound)
        ensures
            o@ == routing_wire(self.deep_view()),
    {
        assert(self.order.deep_view().len() == self.order@.len());
        let mut b = ObjectBuilder::new();
        if self.order.len() > 0 {
            b.put("order", write_texts(&self.order));
        }
        if let Some(only) = &self.only {
            b.put("only", write_texts(only));
        }
        if let Some(f) = self.allow_fallbacks {
            b.put("allow_fallbacks", Outbound::Bool(f));
        }
        b.put_optional("sort", &self.sort);
        if let Some(d) = self.data_collection {
            match d {
                DataCollection::Allow => b.put_text("data_collection", "allow"),
                DataCollection::Deny => b.put_text("data_collection", "deny"),
            }
        }
        if let Some(p) = self.require_parameters {
            b.put("require_parameters", Outbound::Bool(p));
        }
        assert(b@ =~= routing_wire(self.deep_view())->Object_0);
        b.finish()
    }
}

/// The body of a chat completion request. It always asks for a stream.
#[derive(Debug, Clone, PartialEq)]
pub struct ChatRequest {
    /// The model.
    pub model: String,
    /// The conversation.
    pub messages: Vec<Message>,
    /// Always true.
    pub stream: bool,
    /// The temperature.
    pub temperature: Option<Double>,
    /// The nucleus.
    pub top_p: Option<Double>,
    /// The seed.
    pub seed: Option<i64>,
    /// The cap on all completion tokens, those of the chain of thought included.
    pub max_tokens: Option<u32>,
    /// How to think.
    pub reasoning: Option<ReasoningParam>,
    /// Which upstreams may serve it.
    pub provider: Option<ProviderRouting>,
    /// Whether to account for tokens.
    pub usage: Option<UsageRequest>,
}

/// What a request is, as mathematics.
#[verifier::ext_equal]
pub struct ChatRequestView {
    pub model: Seq<char>,
    pub messages: Seq<MessageView>,
    pub stream: bool,
    pub temperature: Option<Double>,
    pub top_p: Option<Double>,
    pub seed: Option<i64>,
    pub max_tokens: Option<u32>,
    pub reasoning: Option<ReasoningParam>,
    pub provider: Option<ProviderRoutingView>,
    pub usage: Option<UsageRequest>,
}

impl DeepView for ChatRequest {
    type V = ChatRequestView;

    open spec fn deep_view(&self) -> ChatRequestView {
        ChatRequestView {
            model: self.model@,
            messages: self.messages.deep_view(),
            stream: self.stream,
            temperature: self.temperature,
            top_p: self.top_p,
            seed: self.seed,
            max_tokens: self.max_tokens,
            reasoning: self.reasoning,
            provider: self.provider.deep_view(),
            usage: self.usage,
        }
    }
}

/// The request for `messages` that sets nothing else.
pub open spec fn bare_request(model: Seq<char>, messages: Seq<MessageView>) -> ChatRequestView {
    ChatRequestView {
        model,
        messages,
        stream: true,
        temperature: None,
        top_p: None,
        seed: None,
        max_tokens: None,
        reasoning: None,
        provider: None,
        usage: None,
    }
}

/// The wire form of a request: what is not set is left out.
pub open spec fn request_wire(r: ChatRequestView) -> OutboundView {
    OutboundView::Object(
        seq![
            ("model"@, OutboundView::Text(r.model)),
            (
                "messages"@,
                OutboundView::Array(r.messages.map_values(|m: MessageView| message_wire(m))),
            ),
            ("stream"@, OutboundView::Bool(r.stream)),
        ] + optional_member("temperature"@, double_wire(r.temperature)) + optional_member(
            "top_p"@,
            double_wire(r.top_p),
        ) + optional_member(
            "seed"@,
            match r.seed {
                Some(s) => Some(OutboundView::Signed(s)),
                None => None,
            },
        ) + optional_member(
            "max_tokens"@,
            match r.max_tokens {
                Some(n) => Some(OutboundView::Unsigned(n as u64)),
                None => None,
            },
        ) + optional_member(
            "reasoning"@,
            match r.reasoning {
                Some(p) => Some(p.wire()),
                None => None,
            },
        ) + optional_member(
            "provider"@,
            match r.provider {
                Some(p) => Some(routing_wire(p)),
                None => None,
            },
        ) + optional_member(
            "usage"@,
            match r.usage {
                Some(u) => Some(
                    OutboundView::Object(seq![("include"@, OutboundView::Bool(u.included))]),
                ),
                None => None,
            },
        ),
    )
}

/// The wire form of an optional double.
pub open spec fn double_wire(d: Option<Double>) -> Option<OutboundView> {
    match d {
        Some(v) => Some(OutboundView::Double(v)),
        None => None,
    }
}

fn write_double(d: Option<Double>) -> (o: Option<Outbound>)
    ensures
        some_view(o) == double_wire(d),
{
    match d {
        Some(v) => Some(Outbound::Double(v)),
        None => None,
    }
}

fn write_messages(messages: &Vec<Message>) -> (o: Outbound)
    ensures
        o@ == OutboundView::Array(
            messages.deep_view().map_values(|m: MessageView| message_wire(m)),
        ),
{
    let mut items: Vec<Outbound> = Vec::new();
    let mut i: usize = 0;
    while i < messages.len()
        invariant
            i <= messages@.len(),
            items@.len() == i,
            forall|k: int|
                0 <= k < i ==> outbound_view(#[trigger] items@[k]) == message_wire(
                    messages@[k].deep_view(),
                ),
        decreases messages@.len() - i,
    {
        items.push(write_message(&messages[i]));
        i += 1;
    }
    proof {
        lemma_items_view(items);
        assert(items_view(items@) =~= messages.deep_view().map_values(
            |m: MessageView| message_wire(m),
        ));
    }
    Outbound::Array(items)
}

fn write_usage(u: UsageRequest) -> (o: Outbound)
    ensures
        o@ == OutboundView::Object(seq![("include"@, OutboundView::Bool(u.included))]),
{
    let mut b = ObjectBuilder::new();
    b.put("include", Outbound::Bool(u.included));
    assert(b@ =~= seq![("include"@, OutboundView::Bool(u.included))]);
    b.finish()
}

impl ChatRequest {
    /// The request for `messages` that sets nothing else.
    #[must_use]
    pub fn new(model: String, messages: Vec<Message>) -> (r: ChatRequest)
        ensures
            r.deep_view() == bare_request(model@, messages.deep_view()),
    {
        ChatRequest {
            model,
            messages,
            stream: true,
            temperature: None,
            top_p: None,
            seed: None,
            max_tokens: None,
            reasoning: None,
            provider: None,
            usage: None,
        }
    }

    /// This request with a way to think.
    #[must_use]
    pub fn with_reasoning(self, reasoning: ReasoningParam) -> (r: ChatRequest)
        ensures
            r.deep_view() == (ChatRequestView { reasoning: Some(reasoning), ..self.deep_view() }),
    {
        let mut r = self;
        r.reasoning = Some(reasoning);
        r
    }

    /// This request with a routing.
    #[must_use]
    pub fn with_provider(self, routing: ProviderRouting) -> (r: ChatRequest)
        ensures
            r.deep_view() == (ChatRequestView {
                provider: Some(routing.deep_view()),
                ..self.deep_view()
            }),
    {
        let mut r = self;
        r.provider = Some(routing);
        r
    }

    /// This request with a temperature.
    #[must_use]
    pub fn with_temperature(self, temperature: Double) -> (r: ChatRequest)
        ensures
            r.deep_view() == (ChatRequestView {
                temperature: Some(temperature),
                ..self.deep_view()
            }),
    {
        let mut r = self;
        r.temperature = Some(temperature);
        r
    }

    /// This request with a nucleus.
    #[must_use]
    pub fn with_top_p(self, top_p: Double) -> (r: ChatRequest)
        ensures
            r.deep_view() == (ChatRequestView { top_p: Some(top_p), ..self.deep_view() }),
    {
        let mut r = self;
        r.top_p = Some(top_p);
        r
    }

    /// This request with a seed.
    #[must_use]
    pub fn with_seed(self, seed: i64) -> (r: ChatRequest)
        ensures
            r.deep_view() == (ChatRequestView { seed: Some(seed), ..self.deep_view() }),
    {
        let mut r = self;
        r.seed = Some(seed);
        r
    }

    /// This request with a cap on all completion tokens.
    #[must_use]
    pub fn with_max_tokens(self, max_tokens: u32) -> (r: ChatRequest)
        ensures
            r.deep_view() == (ChatRequestView { max_tokens: Some(max_tokens), ..self.deep_view() }),
    {
        let mut r = self;
        r.max_tokens = Some(max_tokens);
        r
    }

    /// This request with an account of the tokens.
    #[must_use]
    pub fn with_usage_accounting(self) -> (r: ChatRequest)
        ensures
            r.deep_view() == (ChatRequestView {
                usage: Some(UsageRequest { included: true }),
                ..self.deep_view()
            }),
    {
        let mut r = self;
        r.usage = Some(UsageRequest { included: true });
        r
    }

    /// The wire form: what is not set is left out.
    pub fn to_wire(&self) -> (o: Outbound)
        ensures
            o@ == request_wire(self.deep_view()),
    {
        let seed = match self.seed {
            Some(s) => Some(Outbound::Signed(s)),
            None => None,
        };
        let max_tokens = match self.max_tokens {
            Some(n) => Some(Outbound::Unsigned(n as u64)),
            None => None,
        };
        let reasoning = match self.reasoning {
            Some(p) => Some(p.to_wire()),
            None => None,
        };
        let provider = match &self.provider {
            Some(p) => Some(p.to_wire()),
            None => None,
        };
        let usage = match self.usage {
            Some(u) => Some(write_usage(u)),
            None => None,
        };
        let mut b = ObjectBuilder::new();
        b.put_text("model", self.model.as_str());
        b.put("messages", write_messages(&self.messages));
        b.put("stream", Outbound::Bool(self.stream));
        assert(b@ =~= seq![
            ("model"@, OutboundView::Text(self.model@)),
            (
                "messages"@,
                OutboundView::Array(
                    self.messages.deep_view().map_values(|m: MessageView| message_wire(m)),
                ),
            ),
            ("stream"@, OutboundView::Bool(self.stream)),
        ]);
        b.put_some("temperature", write_double(self.temperature));
        b.put_some("top_p", write_double(self.top_p));
        b.put_some("seed", seed);
        b.put_some("max_tokens", max_tokens);
        b.put_some("reasoning", reasoning);
        b.put_some("provider", provider);
        b.put_some("usage", usage);
        b.finish()
    }
}

/// The wire form of a way to think has one member: effort and budget never go out together.
pub proof fn effort_and_budget_exclude_each_other(p: ReasoningParam)
    ensures
        p.wire() matches OutboundView::Object(members) && members.len() == 1 && (members[0].0
            == "effort"@ <==> p is Effort),
{
    reveal_strlit("effort");
    reveal_strlit("max_tokens");
    assert("effort"@.len() == 6);
    assert("max_tokens"@.len() == 10);
}

/// A request goes out with everything it holds: the model, every message in its order, and whether it
/// streams; and of the rest each member exactly where it is set, with what it is set to.
pub proof fn a_request_goes_out_whole(r: ChatRequestView)
    ensures
        ({
            let members = request_wire(r)->Object_0;
            &&& request_wire(r) is Object
            &&& members.contains(("model"@, OutboundView::Text(r.model)))
            &&& members.contains(("stream"@, OutboundView::Bool(r.stream)))
            &&& members[1].0 == "messages"@ && members[1].1 is Array && members[1].1->Array_0.len()
                == r.messages.len() && forall|i: int|
                0 <= i < r.messages.len() ==> #[trigger] members[1].1->Array_0[i] == message_wire(
                    r.messages[i],
                )
            &&& r.temperature is Some ==> members.contains(
                ("temperature"@, OutboundView::Double(r.temperature->0)),
            )
            &&& r.top_p is Some ==> members.contains(("top_p"@, OutboundView::Double(r.top_p->0)))
            &&& r.seed is Some ==> members.contains(("seed"@, OutboundView::Signed(r.seed->0)))
            &&& r.max_tokens is Some ==> members.contains(
                ("max_tokens"@, OutboundView::Unsigned(r.max_tokens->0 as u64)),
            )
            &&& r.reasoning is Some ==> members.contains(("reasoning"@, r.reasoning->0.wire()))
            &&& r.provider is Some ==> members.contains(("provider"@, routing_wire(r.provider->0)))
            &&& r.usage is Some ==> members.contains(
                (
                    "usage"@,
                    OutboundView::Object(
                        seq![("include"@, OutboundView::Bool(r.usage->0.included))],
                    ),
                ),
            )
            &&& members.len() == 3 + counted(r.temperature is Some) + counted(r.top_p is Some) + counted(
                r.seed is Some,
            ) + counted(r.max_tokens is Some) + counted(r.reasoning is Some) + counted(r.provider is Some) + counted(
                r.usage is Some,
            )
        }),
{
    let m0 = seq![
        ("model"@, OutboundView::Text(r.model)),
        (
            "messages"@,
            OutboundView::Array(r.messages.map_values(|m: MessageView| message_wire(m))),
        ),
        ("stream"@, OutboundView::Bool(r.stream)),
    ];
    assert(m0[0] == ("model"@, OutboundView::Text(r.model)));
    assert(m0[2] == ("stream"@, OutboundView::Bool(r.stream)));
    assert(m0.contains(("model"@, OutboundView::Text(r.model))));
    assert(m0.contains(("stream"@, OutboundView::Bool(r.stream))));
    let m1 = lemma_added(m0, "temperature"@, double_wire(r.temperature));
    let m2 = lemma_added(m1, "top_p"@, double_wire(r.top_p));
    let m3 = lemma_added(
        m2,
        "seed"@,
        match r.seed {
            Some(s) => Some(OutboundView::Signed(s)),
            None => None,
        },
    );
    let m4 = lemma_added(
        m3,
        "max_tokens"@,
        match r.max_tokens {
            Some(n) => Some(OutboundView::Unsigned(n as u64)),
            None => None,
        },
    );
    let m5 = lemma_added(
        m4,
        "reasoning"@,
        match r.reasoning {
            Some(p) => Some(p.wire()),
            None => None,
        },
    );
    let m6 = lemma_added(
        m5,
        "provider"@,
        match r.provider {
            Some(p) => Some(routing_wire(p)),
            None => None,
        },
    );
    let m7 = lemma_added(
        m6,
        "usage"@,
        match r.usage {
            Some(u) => Some(
                OutboundView::Object(seq![("include"@, OutboundView::Bool(u.included))]),
            ),
            None => None,
        },
    );
    assert(request_wire(r)->Object_0 == m7);
}

proof fn lemma_added(
    members: Seq<(Seq<char>, OutboundView)>,
    key: Seq<char>,
    value: Option<OutboundView>,
) -> (r: Seq<(Seq<char>, OutboundView)>)
    ensures
        r == members + optional_member(key, value),
        r.len() == members.len() + counted(value is Some),
        forall|x: (Seq<char>, OutboundView)| #[trigger] members.contains(x) ==> r.contains(x),
        value is Some ==> r.contains((key, value->0)),
        forall|i: int| 0 <= i < members.len() ==> #[trigger] r[i] == members[i],
{
    let r = members + optional_member(key, value);
    assert forall|x: (Seq<char>, OutboundView)| #[trigger] members.contains(x) implies r.contains(x) by {
        let i = choose|i: int| 0 <= i < members.len() && members[i] == x;
        assert(r[i] == x);
    }
    if value is Some {
        assert(r[members.len() as int] == (key, value->0));
    }
    r
}

/// One where something is set.
pub open spec fn counted(b: bool) -> nat {
    if b {
        1
    } else {
        0
    }
}

/// A routing goes out with everything that is set in it and nothing else: the upstreams to try in their
/// order, those that alone may serve, whether others may stand in, how to choose, and the stance on data
/// and parameters.
pub proof fn a_routing_goes_out_whole(r: ProviderRoutingView)
    ensures
        ({
            let members = routing_wire(r)->Object_0;
            &&& routing_wire(r) is Object
            &&& r.order.len() > 0 ==> exists|items: Seq<OutboundView>|
                #[trigger] members.contains(("order"@, OutboundView::Array(items))) && items.len()
                    == r.order.len() && forall|i: int|
                    0 <= i < items.len() ==> #[trigger] items[i] == OutboundView::Text(r.order[i])
            &&& r.only is Some ==> exists|items: Seq<OutboundView>|
                #[trigger] members.contains(("only"@, OutboundView::Array(items))) && items.len()
                    == r.only->0.len() && forall|i: int|
                    0 <= i < items.len() ==> #[trigger] items[i] == OutboundView::Text(r.only->0[i])
            &&& r.allow_fallbacks is Some ==> members.contains(
                ("allow_fallbacks"@, OutboundView::Bool(r.allow_fallbacks->0)),
            )
            &&& r.sort is Some ==> members.contains(("sort"@, OutboundView::Text(r.sort->0)))
            &&& r.data_collection is Some ==> members.contains(
                (
                    "data_collection"@,
                    OutboundView::Text(
                        match r.data_collection->0 {
                            DataCollection::Allow => "allow"@,
                            DataCollection::Deny => "deny"@,
                        },
                    ),
                ),
            )
            &&& r.require_parameters is Some ==> members.contains(
                ("require_parameters"@, OutboundView::Bool(r.require_parameters->0)),
            )
            &&& members.len() == counted(r.order.len() > 0) + counted(r.only is Some) + counted(
                r.allow_fallbacks is Some,
            ) + counted(r.sort is Some) + counted(r.data_collection is Some) + counted(
                r.require_parameters is Some,
            )
        }),
{
    let order = r.order.map_values(|t: Seq<char>| OutboundView::Text(t));
    let only = match r.only {
        Some(o) => o.map_values(|t: Seq<char>| OutboundView::Text(t)),
        None => Seq::empty(),
    };
    let m0 = Seq::<(Seq<char>, OutboundView)>::empty();
    let first = if r.order.len() == 0 {
        None
    } else {
        Some(OutboundView::Array(order))
    };
    let second = match r.only {
        Some(o) => Some(OutboundView::Array(only)),
        None => None,
    };
    let m1 = lemma_added(m0, "order"@, first);
    let m2 = lemma_added(m1, "only"@, second);
    let m3 = lemma_added(
        m2,
        "allow_fallbacks"@,
        match r.allow_fallbacks {
            Some(b) => Some(OutboundView::Bool(b)),
            None => None,
        },
    );
    let m4 = lemma_added(
        m3,
        "sort"@,
        match r.sort {
            Some(s) => Some(OutboundView::Text(s)),
            None => None,
        },
    );
    let m5 = lemma_added(
        m4,
        "data_collection"@,
        match r.data_collection {
            Some(d) => Some(OutboundView::Text(stance_spelling(d))),
            None => None,
        },
    );
    let m6 = lemma_added(
        m5,
        "require_parameters"@,
        match r.require_parameters {
            Some(b) => Some(OutboundView::Bool(b)),
            None => None,
        },
    );
    assert(m1 =~= (if r.order.len() == 0 {
        Seq::empty()
    } else {
        seq![("order"@, texts_wire(r.order))]
    }));
    assert(routing_wire(r)->Object_0 =~= m6);
    if r.order.len() > 0 {
        assert(m6.contains(("order"@, OutboundView::Array(order))));
    }
    if r.only is Some {
        assert(m6.contains(("only"@, OutboundView::Array(only))));
    }
}

} // verus!
