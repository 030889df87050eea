//! Asking an endpoint for embeddings: the request, and what is made of the answer.
//!
//! An answer is taken only where it gives every text exactly one vector of the expected dimension,
//! all of whose components are finite.

use std::time::Duration;

use vstd::prelude::*;

use crate::providers::client::{bad_key, bearer_header, content_type_header, header_text};
use crate::providers::client::{bearer, content_type, trim_slashes, Header};
use crate::providers::client::{without_slashes, HeaderView};
use crate::providers::error::{nanos, status_error, ProviderErrorView};
use crate::providers::error::ProviderError;
use crate::providers::sse::lossy;
use crate::providers::sse::lossy_text;
use crate::text::decimal;
use crate::text::{chars_of, decimal_text, joined, string_of_range};
use crate::wire::{items_view, lemma_items_view, outbound_view, OutboundView};
use crate::wire::{ObjectBuilder, Outbound};

verus! {

/// A single-precision number, held as the integer whose bits encode it.
#[derive(Debug, Clone, Copy, PartialEq, Eq, Structural)]
pub struct Single {
    /// The bit pattern.
    pub bits: u32,
}

impl Single {
    /// The magnitude: the bit pattern without the sign bit.
    pub open spec fn magnitude(self) -> int {
        if self.bits >= 0x8000_0000 {
            self.bits - 0x8000_0000
        } else {
            self.bits as int
        }
    }

    /// Whether the pattern encodes a finite number: not every exponent bit is set.
    pub open spec fn finite(self) -> bool {
        self.magnitude() < 0x7f80_0000
    }

    /// Whether the pattern encodes a finite number.
    pub fn is_finite(self) -> (r: bool)
        ensures
            r == self.finite(),
    {
        if self.bits >= 0x8000_0000 {
            self.bits - 0x8000_0000 < 0x7f80_0000
        } else {
            self.bits < 0x7f80_0000
        }
    }
}

/// How an endpoint is asked for embeddings.
#[derive(Debug)]
pub struct EmbeddingsClientBuilder {
    /// Where it is.
    pub base_url: String,
    /// The model.
    pub model: String,
    /// The dimension of its vectors.
    pub dim: usize,
    /// The environment variable that holds the key, where one is needed.
    pub api_key_env: Option<String>,
    /// How long an answer may take.
    pub timeout: Duration,
}

/// What a way to ask is, as mathematics.
#[verifier::ext_equal]
pub struct EmbeddingsClientBuilderView {
    pub base_url: Seq<char>,
    pub model: Seq<char>,
    pub dim: usize,
    pub api_key_env: Option<Seq<char>>,
    pub timeout: Duration,
}

impl DeepView for EmbeddingsClientBuilder {
    type V = EmbeddingsClientBuilderView;

    open spec fn deep_view(&self) -> EmbeddingsClientBuilderView {
        EmbeddingsClientBuilderView {
            base_url: self.base_url@,
            model: self.model@,
            dim: self.dim,
            api_key_env: self.api_key_env.deep_view(),
            timeout: self.timeout,
        }
    }
}

impl Clone for EmbeddingsClientBuilder {
    fn clone(&self) -> (b: EmbeddingsClientBuilder)
        ensures
            b.deep_view() == self.deep_view(),
    {
        EmbeddingsClientBuilder {
            base_url: self.base_url.clone(),
            model: self.model.clone(),
            dim: self.dim,
            api_key_env: match &self.api_key_env {
                Some(var) => Some(var.clone()),
                None => None,
            },
            timeout: self.timeout,
        }
    }
}

impl EmbeddingsClientBuilder {
    /// Asks `model` at `base_url`, without a key; an answer may take thirty seconds.
    #[must_use]
    pub fn new(base_url: String, model: String, dim: u32) -> (b: EmbeddingsClientBuilder)
        ensures
            b.base_url@ == base_url@,
            b.model@ == model@,
            b.dim == dim,
            b.api_key_env is None,
            nanos(b.timeout) == 30_000_000_000,
    {
        EmbeddingsClientBuilder {
            base_url,
            model,
            dim: dim as usize,
            api_key_env: None,
            timeout: Duration::from_secs(30),
        }
    }

    /// With another endpoint.
    #[must_use]
    pub fn base_url(self, base_url: String) -> (b: EmbeddingsClientBuilder)
        ensures
            b.deep_view() == (EmbeddingsClientBuilderView {
                base_url: base_url@,
                ..self.deep_view()
            }),
    {
        let mut b = self;
        b.base_url = base_url;
        b
    }

    /// With another model.
    #[must_use]
    pub fn model(self, model: String) -> (b: EmbeddingsClientBuilder)
        ensures
            b.deep_view() == (EmbeddingsClientBuilderView { model: model@, ..self.deep_view() }),
    {
        let mut b = self;
        b.model = model;
        b
    }

    /// With another dimension.
    #[must_use]
    pub fn dim(self, dim: u32) -> (b: EmbeddingsClientBuilder)
        ensures
            b.deep_view() == (EmbeddingsClientBuilderView { dim: dim as usize, ..self.deep_view() }),
    {
        let mut b = self;
        b.dim = dim as usize;
        b
    }

    /// With another environment variable that holds the key, or none.
    #[must_use]
    pub fn api_key_env(self, api_key_env: Option<String>) -> (b: EmbeddingsClientBuilder)
        ensures
            b.deep_view() == (EmbeddingsClientBuilderView {
                api_key_env: api_key_env.deep_view(),
                ..self.deep_view()
            }),
    {
        let mut b = self;
        b.api_key_env = api_key_env;
        b
    }

    /// With another time that an answer may take.
    #[must_use]
    pub fn timeout(self, timeout: Duration) -> (b: EmbeddingsClientBuilder)
        ensures
            b.deep_view() == (EmbeddingsClientBuilderView { timeout, ..self.deep_view() }),
    {
        let mut b = self;
        b.timeout = timeout;
        b
    }

    /// The key, where one is needed: it was found under its environment variable, or the error
    /// names the variable.
    pub fn key(&self, found: Option<String>) -> (r: Result<Option<String>, ProviderError>)
        ensures
            match (self.api_key_env, found, r) {
                (None, _, Ok(key)) => key is None,
                (Some(_), Some(k), Ok(Some(key))) => key@ == k@,
                (Some(var), None, Err(e)) => e.deep_view() == ProviderErrorView::MissingApiKey(
                    var@,
                ),
                _ => false,
            },
    {
        match &self.api_key_env {
            None => Ok(None),
            Some(var) => match found {
                Some(k) => Ok(Some(k)),
                None => Err(ProviderError::MissingApiKey(var.clone())),
            },
        }
    }

    /// The address that embeddings are asked for at.
    #[must_use]
    pub fn embeddings_url(&self) -> (r: String)
        ensures
            r@ == without_slashes(self.base_url@) + "/embeddings"@,
    {
        let base = trim_slashes(self.base_url.as_str());
        joined(base.as_str(), "/embeddings")
    }
}

/// What is sent with every request, or why nothing can be: a key that no header can hold.
pub open spec fn key_headers(key: Option<Seq<char>>) -> Result<Seq<HeaderView>, ProviderErrorView> {
    match key {
        Some(k) => if header_text("Bearer "@ + k) {
            Ok(seq![content_type_header(), bearer_header(k)])
        } else {
            Err(bad_key())
        },
        None => Ok(seq![content_type_header()]),
    }
}

/// What is sent with every request, given the key where there is one.
pub fn embedding_headers(key: Option<&str>) -> (r: Result<Vec<Header>, ProviderError>)
    ensures
        match r {
            Ok(h) => key_headers(key.deep_view()) == Ok::<Seq<HeaderView>, ProviderErrorView>(
                h.deep_view(),
            ),
            Err(e) => key_headers(key.deep_view()) == Err::<Seq<HeaderView>, ProviderErrorView>(
                e.deep_view(),
            ),
        },
{
    let mut list: Vec<Header> = Vec::new();
    list.push(content_type());
    match key {
        Some(k) => match bearer(k) {
            Ok(h) => {
                list.push(h);
                assert(list.deep_view() =~= seq![content_type_header(), bearer_header(k@)]);
                Ok(list)
            },
            Err(e) => Err(e),
        },
        None => {
            assert(list.deep_view() =~= seq![content_type_header()]);
            Ok(list)
        },
    }
}

/// The body of a request.
pub open spec fn embedding_body(model: Seq<char>, texts: Seq<Seq<char>>) -> OutboundView {
    OutboundView::Object(
        seq![
            ("model"@, OutboundView::Text(model)),
            (
                "input"@,
                OutboundView::Array(texts.map_values(|t: Seq<char>| OutboundView::Text(t))),
            ),
        ],
    )
}

/// The body of a request.
pub fn embedding_request(model: &str, texts: &[&str]) -> (o: Outbound)
    ensures
        o@ == embedding_body(model@, texts.deep_view()),
{
    let mut items: Vec<Outbound> = Vec::new();
    let mut i: usize = 0;
    while i < texts.len()
        invariant
            i <= texts@.len(),
            items@.len() == i,
            forall|k: int|
                0 <= k < i ==> outbound_view(#[trigger] items@[k]) == OutboundView::Text(
                    texts@[k]@,
                ),
        decreases texts@.len() - i,
    {
        items.push(Outbound::Text(texts[i].to_owned()));
        i += 1;
    }
    proof {
        lemma_items_view(items);
        assert(items_view(items@) =~= texts.deep_view().map_values(
            |t: Seq<char>| OutboundView::Text(t),
        ));
    }
    let mut b = ObjectBuilder::new();
    b.put_text("model", model);
    b.put("input", Outbound::Array(items));
    assert(b@ =~= embedding_body(model@, texts.deep_view())->Object_0);
    b.finish()
}

/// One vector of an answer.
#[derive(Debug, PartialEq)]
pub struct EmbeddingDatum {
    /// The vector.
    pub embedding: Vec<Single>,
    /// The text that it belongs to.
    pub index: usize,
}

/// What one vector of an answer is, as mathematics.
#[verifier::ext_equal]
pub struct EmbeddingDatumView {
    pub embedding: Seq<Single>,
    pub index: usize,
}

impl View for EmbeddingDatum {
    type V = EmbeddingDatumView;

    open spec fn view(&self) -> EmbeddingDatumView {
        EmbeddingDatumView { embedding: self.embedding@, index: self.index }
    }
}

/// Whether every component of a vector is finite.
pub open spec fn all_finite(v: Seq<Single>) -> bool {
    forall|i: int| 0 <= i < v.len() ==> (#[trigger] v[i]).finite()
}

/// An error of reading.
pub open spec fn undecodable<T>(words: Seq<char>) -> Result<T, ProviderErrorView> {
    Err(ProviderErrorView::Decode(words))
}

/// The places of the texts with one more vector in its place, or why it has none.
pub open spec fn placed_one(
    slots: Seq<Option<Seq<Single>>>,
    d: EmbeddingDatumView,
    dim: usize,
) -> Result<Seq<Option<Seq<Single>>>, ProviderErrorView> {
    if !all_finite(d.embedding) {
        undecodable(
            "embedding at index "@ + decimal(d.index as nat) + " contains a non-finite component"@,
        )
    } else if d.embedding.len() != dim {
        undecodable(
            "embedding dimension mismatch: expected "@ + decimal(dim as nat) + ", got "@ + decimal(
                d.embedding.len(),
            ),
        )
    } else if d.index >= slots.len() {
        undecodable("embedding index "@ + decimal(d.index as nat) + " out of range"@)
    } else if slots[d.index as int] is Some {
        undecodable("duplicate embedding index "@ + decimal(d.index as nat))
    } else {
        Ok(slots.update(d.index as int, Some(d.embedding)))
    }
}

/// The places of `count` texts with the vectors of an answer, or the first fault in it.
pub open spec fn placed(data: Seq<EmbeddingDatumView>, count: nat, dim: usize) -> Result<
    Seq<Option<Seq<Single>>>,
    ProviderErrorView,
>
    decreases data.len(),
{
    if data.len() == 0 {
        Ok(Seq::new(count, |i: int| None::<Seq<Single>>))
    } else {
        match placed(data.drop_last(), count, dim) {
            Err(e) => Err(e),
            Ok(slots) => placed_one(slots, data.last(), dim),
        }
    }
}

/// The vectors in their places, or the first place without one.
pub open spec fn filled(slots: Seq<Option<Seq<Single>>>) -> Result<
    Seq<Seq<Single>>,
    ProviderErrorView,
>
    decreases slots.len(),
{
    if slots.len() == 0 {
        Ok(Seq::empty())
    } else {
        match filled(slots.drop_last()) {
            Err(e) => Err(e),
            Ok(before) => match slots.last() {
                Some(v) => Ok(before.push(v)),
                None => undecodable("missing embedding index "@ + decimal((slots.len() - 1) as nat)),
            },
        }
    }
}

/// The vectors of `count` texts in their order, or why the answer is not taken.
pub open spec fn ordered(data: Seq<EmbeddingDatumView>, count: nat, dim: usize) -> Result<
    Seq<Seq<Single>>,
    ProviderErrorView,
> {
    match placed(data, count, dim) {
        Err(e) => Err(e),
        Ok(slots) => filled(slots),
    }
}

/// The vectors of an answer, as mathematics.
pub open spec fn data_view(data: Seq<EmbeddingDatum>) -> Seq<EmbeddingDatumView> {
    data.map_values(|d: EmbeddingDatum| d@)
}

/// Places, as mathematics.
pub open spec fn slots_view(slots: Seq<Option<Vec<Single>>>) -> Seq<Option<Seq<Single>>> {
    slots.map_values(
        |s: Option<Vec<Single>>|
            match s {
                Some(v) => Some(v@),
                None => None,
            },
    )
}

/// Vectors, as mathematics.
pub open spec fn vectors_view(vectors: Seq<Vec<Single>>) -> Seq<Seq<Single>> {
    vectors.map_values(|v: Vec<Single>| v@)
}

fn is_all_finite(v: &Vec<Single>) -> (r: bool)
    ensures
        r == all_finite(v@),
{
    let mut i: usize = 0;
    while i < v.len()
        invariant
            i <= v@.len(),
            forall|k: int| 0 <= k < i ==> (#[trigger] v@[k]).finite(),
        decreases v@.len() - i,
    {
        if !v[i].is_finite() {
            return false;
        }
        i += 1;
    }
    true
}

fn place(slots: &mut Vec<Option<Vec<Single>>>, datum: EmbeddingDatum, dim: usize) -> (r: Result<
    (),
    ProviderError,
>)
    ensures
        match r {
            Ok(()) => placed_one(slots_view(old(slots)@), datum@, dim) == Ok::<
                Seq<Option<Seq<Single>>>,
                ProviderErrorView,
            >(slots_view(final(slots)@)),
            Err(e) => placed_one(slots_view(old(slots)@), datum@, dim) == Err::<
                Seq<Option<Seq<Single>>>,
                ProviderErrorView,
            >(e.deep_view()),
        },
{
    let ghost before = slots_view(slots@);
    let index: usize = datum.index;
    if !is_all_finite(&datum.embedding) {
        let digits = decimal_text(index as u64);
        let mut words = joined("embedding at index ", digits.as_str());
        words.append(" contains a non-finite component");
        return Err(ProviderError::Decode(words));
    }
    if datum.embedding.len() != dim {
        let wanted = decimal_text(dim as u64);
        let got = decimal_text(datum.embedding.len() as u64);
        let mut words = joined("embedding dimension mismatch: expected ", wanted.as_str());
        words.append(", got ");
        words.append(got.as_str());
        return Err(ProviderError::Decode(words));
    }
    if index >= slots.len() {
        let digits = decimal_text(index as u64);
        let mut words = joined("embedding index ", digits.as_str());
        words.append(" out of range");
        return Err(ProviderError::Decode(words));
    }
    assert(before[index as int] is Some == slots@[index as int] is Some);
    if slots[index].is_some() {
        let digits = decimal_text(index as u64);
        return Err(ProviderError::Decode(joined("duplicate embedding index ", digits.as_str())));
    }
    slots.set(index, Some(datum.embedding));
    assert(slots_view(slots@) =~= before.update(index as int, Some(datum.embedding@)));
    Ok(())
}

proof fn lemma_fault_stays(data: Seq<EmbeddingDatumView>, count: nat, dim: usize, n: int)
    requires
        0 <= n <= data.len(),
        placed(data.take(n), count, dim) is Err,
    ensures
        placed(data, count, dim) == placed(data.take(n), count, dim),
    decreases data.len() - n,
{
    if n < data.len() {
        assert(data.take(n + 1).drop_last() =~= data.take(n));
        lemma_fault_stays(data, count, dim, n + 1);
    } else {
        assert(data.take(n) =~= data);
    }
}

proof fn lemma_gap_stays(slots: Seq<Option<Seq<Single>>>, n: int)
    requires
        0 <= n <= slots.len(),
        filled(slots.take(n)) is Err,
    ensures
        filled(slots) == filled(slots.take(n)),
    decreases slots.len() - n,
{
    if n < slots.len() {
        assert(slots.take(n + 1).drop_last() =~= slots.take(n));
        lemma_gap_stays(slots, n + 1);
    } else {
        assert(slots.take(n) =~= slots);
    }
}

fn fill(slots: Vec<Option<Vec<Single>>>) -> (r: Result<Vec<Vec<Single>>, ProviderError>)
    ensures
        match r {
            Ok(v) => filled(slots_view(slots@)) == Ok::<Seq<Seq<Single>>, ProviderErrorView>(
                vectors_view(v@),
            ),
            Err(e) => filled(slots_view(slots@)) == Err::<Seq<Seq<Single>>, ProviderErrorView>(
                e.deep_view(),
            ),
        },
{
    let ghost all = slots@;
    let ghost view = slots_view(slots@);
    let mut out: Vec<Vec<Single>> = Vec::new();
    let mut index: u64 = 0;
    assert(view.take(0) =~= Seq::empty());
    assert(vectors_view(out@) =~= Seq::empty());
    let total: usize = slots.len();
    for slot in it: slots.into_iter()
        invariant
            it.seq() == all,
            all.len() == total,
            view == slots_view(all),
            index == it.index(),
            filled(view.take(it.index() as int)) == Ok::<Seq<Seq<Single>>, ProviderErrorView>(
                vectors_view(out@),
            ),
    {
        let ghost i = it.index() as int;
        let ghost before = vectors_view(out@);
        proof {
            assert(view.take(i + 1).drop_last() =~= view.take(i));
            assert(view.take(i + 1).last() == view[i]);
        }
        match slot {
            Some(v) => {
                out.push(v);
                assert(vectors_view(out@) =~= before.push(v@));
            },
            None => {
                proof {
                    lemma_gap_stays(view, i + 1);
                }
                let digits = decimal_text(index);
                return Err(ProviderError::Decode(joined("missing embedding index ", digits.as_str())));
            },
        }
        index += 1;
    }
    assert(view.take(view.len() as int) =~= view);
    Ok(out)
}

/// The vectors of an answer in the order of the texts.
pub fn order_and_validate(data: Vec<EmbeddingDatum>, expected_count: usize, dim: usize) -> (r:
    Result<Vec<Vec<Single>>, ProviderError>)
    ensures
        match r {
            Ok(v) => ordered(data_view(data@), expected_count as nat, dim) == Ok::<
                Seq<Seq<Single>>,
                ProviderErrorView,
            >(vectors_view(v@)),
            Err(e) => ordered(data_view(data@), expected_count as nat, dim) == Err::<
                Seq<Seq<Single>>,
                ProviderErrorView,
            >(e.deep_view()),
        },
{
    let ghost all = data@;
    let ghost view = data_view(data@);
    let mut slots: Vec<Option<Vec<Single>>> = Vec::new();
    let mut i: usize = 0;
    while i < expected_count
        invariant
            i <= expected_count,
            slots@.len() == i,
            forall|k: int| 0 <= k < i ==> #[trigger] slots@[k] is None,
        decreases expected_count - i,
    {
        slots.push(None);
        i += 1;
    }
    proof {
        assert(view.take(0) =~= Seq::empty());
        assert(slots_view(slots@) =~= Seq::new(
            expected_count as nat,
            |i: int| None::<Seq<Single>>,
        ));
    }
    for datum in it: data.into_iter()
        invariant
            it.seq() == all,
            view == data_view(all),
            placed(view.take(it.index() as int), expected_count as nat, dim) == Ok::<
                Seq<Option<Seq<Single>>>,
                ProviderErrorView,
            >(slots_view(slots@)),
    {
        let ghost i = it.index() as int;
        proof {
            assert(view.take(i + 1).drop_last() =~= view.take(i));
            assert(view.take(i + 1).last() == datum@);
        }
        if let Err(e) = place(&mut slots, datum, dim) {
            proof {
                lemma_fault_stays(view, expected_count as nat, dim, i + 1);
            }
            return Err(e);
        }
    }
    assert(view.take(view.len() as int) =~= view);
    fill(slots)
}

/// The most of an error's body that is kept, in characters.
pub const BODY_CHARS: usize = 1024;

/// What a status other than success means, with the beginning of the body.
#[must_use]
pub fn embedding_refusal(status: u16, body: &[u8]) -> (e: ProviderError)
    ensures
        e.deep_view() == status_error(
            status,
            Some(
                if lossy(body@).len() <= BODY_CHARS {
                    lossy(body@)
                } else {
                    lossy(body@).take(BODY_CHARS as int)
                },
            ),
        ),
{
    let text = lossy_text(body);
    let chars = chars_of(text.as_str());
    let end: usize = if chars.len() <= BODY_CHARS {
        chars.len()
    } else {
        BODY_CHARS
    };
    let kept = string_of_range(chars.as_slice(), 0, end);
    assert(kept@ =~= if lossy(body@).len() <= BODY_CHARS {
        lossy(body@)
    } else {
        lossy(body@).take(BODY_CHARS as int)
    });
    ProviderError::from_status(status, Some(kept))
}

proof fn lemma_placed(data: Seq<EmbeddingDatumView>, count: nat, dim: usize)
    requires
        placed(data, count, dim) is Ok,
    ensures
        ({
            let slots = placed(data, count, dim)->Ok_0;
            &&& slots.len() == count
            &&& forall|k: int|
                0 <= k < data.len() ==> (#[trigger] data[k]).index < count
                    && slots[data[k].index as int] == Some(data[k].embedding)
            &&& forall|i: int|
                0 <= i < count && #[trigger] slots[i] is Some ==> slots[i]->0.len() == dim
                    && all_finite(slots[i]->0)
        }),
    decreases data.len(),
{
    if data.len() > 0 {
        let shorter = data.drop_last();
        lemma_placed(shorter, count, dim);
        let before = placed(shorter, count, dim)->Ok_0;
        let slots = placed(data, count, dim)->Ok_0;
        assert forall|k: int| 0 <= k < data.len() implies (#[trigger] data[k]).index < count
            && slots[data[k].index as int] == Some(data[k].embedding) by {
            if k < shorter.len() {
                assert(shorter[k] == data[k]);
            }
        }
    }
}

proof fn lemma_filled(slots: Seq<Option<Seq<Single>>>)
    requires
        filled(slots) is Ok,
    ensures
        ({
            let vectors = filled(slots)->Ok_0;
            &&& vectors.len() == slots.len()
            &&& forall|i: int|
                0 <= i < slots.len() ==> #[trigger] slots[i] is Some && vectors[i] == slots[i]->0
        }),
    decreases slots.len(),
{
    if slots.len() > 0 {
        let shorter = slots.drop_last();
        lemma_filled(shorter);
        let before = filled(shorter)->Ok_0;
        let vectors = filled(slots)->Ok_0;
        assert forall|i: int| 0 <= i < slots.len() implies #[trigger] slots[i] is Some && vectors[i]
            == slots[i]->0 by {
            if i < shorter.len() {
                assert(shorter[i] == slots[i]);
                assert(vectors[i] == before[i]);
            }
        }
    }
}

/// Every text gets its own vector: an answer that is taken gives each of the texts one vector of the
/// expected dimension with finite components, and each vector of the answer goes to the text that it
/// names.
pub proof fn every_text_gets_its_vector(data: Seq<EmbeddingDatumView>, count: nat, dim: usize)
    requires
        ordered(data, count, dim) is Ok,
    ensures
        ({
            let vectors = ordered(data, count, dim)->Ok_0;
            &&& vectors.len() == count
            &&& forall|i: int|
                0 <= i < count ==> (#[trigger] vectors[i]).len() == dim && all_finite(vectors[i])
            &&& forall|k: int|
                0 <= k < data.len() ==> (#[trigger] data[k]).index < count
                    && vectors[data[k].index as int] == data[k].embedding
        }),
{
    lemma_placed(data, count, dim);
    let slots = placed(data, count, dim)->Ok_0;
    lemma_filled(slots);
    let vectors = filled(slots)->Ok_0;
    assert forall|i: int| 0 <= i < count implies (#[trigger] vectors[i]).len() == dim && all_finite(
        vectors[i],
    ) by {
        assert(slots[i] is Some);
    }
    assert forall|k: int| 0 <= k < data.len() implies (#[trigger] data[k]).index < count
        && vectors[data[k].index as int] == data[k].embedding by {
        assert(slots[data[k].index as int] == Some(data[k].embedding));
    }
}

proof fn lemma_placed_is_owed(data: Seq<EmbeddingDatumView>, count: nat, dim: usize)
    requires
        forall|k: int|
            0 <= k < data.len() ==> (#[trigger] data[k]).index < count && data[k].embedding.len() == dim
                && all_finite(data[k].embedding),
        forall|k: int, l: int|
            0 <= k < l < data.len() ==> (#[trigger] data[k]).index != (#[trigger] data[l]).index,
    ensures
        placed(data, count, dim) is Ok,
        placed(data, count, dim)->Ok_0.len() == count,
        forall|i: int|
            0 <= i < count && (#[trigger] placed(data, count, dim)->Ok_0[i]) is Some ==> exists|k: int|
                0 <= k < data.len() && (#[trigger] data[k]).index == i,
        forall|k: int|
            0 <= k < data.len() ==> placed(data, count, dim)->Ok_0[(#[trigger] data[k]).index as int]
                == Some(data[k].embedding),
    decreases data.len(),
{
    if data.len() > 0 {
        let before = data.drop_last();
        let n = data.len() - 1;
        assert forall|k: int| 0 <= k < before.len() implies (#[trigger] before[k]).index < count
            && before[k].embedding.len() == dim && all_finite(before[k].embedding) by {
            assert(data[k].index < count);
        }
        assert forall|k: int, l: int| 0 <= k < l < before.len() implies (#[trigger] before[k]).index
            != (#[trigger] before[l]).index by {
            assert(data[k].index != data[l].index);
        }
        lemma_placed_is_owed(before, count, dim);
        let slots = placed(before, count, dim)->Ok_0;
        let d = data[n];
        if slots[d.index as int] is Some {
            let k = choose|k: int| 0 <= k < before.len() && (#[trigger] before[k]).index == d.index;
            assert(data[k].index != data[n].index);
        }
        let now = placed(data, count, dim)->Ok_0;
        assert(now == slots.update(d.index as int, Some(d.embedding)));
        assert forall|i: int| 0 <= i < count && (#[trigger] now[i]) is Some implies exists|k: int|
            0 <= k < data.len() && (#[trigger] data[k]).index == i by {
            if i == d.index {
                assert(data[n].index == i);
            } else {
                assert(slots[i] is Some);
                let k = choose|k: int| 0 <= k < before.len() && (#[trigger] before[k]).index == i;
                assert(data[k].index == i);
            }
        }
        assert forall|k: int| 0 <= k < data.len() implies now[(#[trigger] data[k]).index as int] == Some(
            data[k].embedding,
        ) by {
            if k < n {
                assert(before[k] == data[k]);
                assert(slots[before[k].index as int] == Some(before[k].embedding));
                assert(data[k].index != data[n].index);
            }
        }
    }
}

proof fn lemma_filled_is_owed(slots: Seq<Option<Seq<Single>>>)
    requires
        forall|i: int| 0 <= i < slots.len() ==> (#[trigger] slots[i]) is Some,
    ensures
        filled(slots) is Ok,
    decreases slots.len(),
{
    if slots.len() > 0 {
        let before = slots.drop_last();
        assert forall|i: int| 0 <= i < before.len() implies (#[trigger] before[i]) is Some by {
            assert(slots[i] is Some);
        }
        assert(slots[slots.len() - 1] is Some);
        lemma_filled_is_owed(before);
    }
}

/// An answer in which every text has one vector, whatever their order, is accepted: every place is told
/// once, and every vector is finite and of the dimension asked for.
pub proof fn a_full_answer_is_accepted(data: Seq<EmbeddingDatumView>, count: nat, dim: usize)
    requires
        forall|k: int|
            0 <= k < data.len() ==> (#[trigger] data[k]).index < count && data[k].embedding.len() == dim
                && forall|c: int|
                0 <= c < data[k].embedding.len() ==> (#[trigger] data[k].embedding[c]).finite(),
        forall|k: int, l: int|
            0 <= k < l < data.len() ==> (#[trigger] data[k]).index != (#[trigger] data[l]).index,
        forall|i: int|
            #![trigger told(data, i)]
            0 <= i < count ==> told(data, i),
    ensures
        ordered(data, count, dim) is Ok,
{
    assert forall|k: int| 0 <= k < data.len() implies (#[trigger] data[k]).index < count
        && data[k].embedding.len() == dim && all_finite(data[k].embedding) by {}
    lemma_placed_is_owed(data, count, dim);
    let slots = placed(data, count, dim)->Ok_0;
    assert forall|i: int| 0 <= i < slots.len() implies (#[trigger] slots[i]) is Some by {
        assert(told(data, i));
        let k = choose|k: int| 0 <= k < data.len() && (#[trigger] data[k]).index == i;
        assert(slots[data[k].index as int] == Some(data[k].embedding));
    }
    lemma_filled_is_owed(slots);
}

/// Whether some vector is told for place `i`.
pub open spec fn told(data: Seq<EmbeddingDatumView>, i: int) -> bool {
    exists|k: int| 0 <= k < data.len() && (#[trigger] data[k]).index == i
}

/// A request for embeddings names the model and holds every text, in order.
pub proof fn every_text_is_asked_for(model: Seq<char>, texts: Seq<Seq<char>>)
    ensures
        embedding_body(model, texts) matches OutboundView::Object(members) && members.len() == 2
            && members[0] == ("model"@, OutboundView::Text(model)) && members[1].0 == "input"@ && (
        members[1].1 matches OutboundView::Array(items) && items.len() == texts.len() && forall|i: int|
            0 <= i < texts.len() ==> #[trigger] items[i] == OutboundView::Text(texts[i])),
{
}

/// The key goes with a request where there is one, as a secret, and what the body is always does; a key
/// that no header can hold is refused.
pub proof fn a_key_goes_along_where_there_is_one(key: Option<Seq<char>>)
    ensures
        key is None ==> (key_headers(key) matches Ok(h) && h.len() == 1 && h[0].name == "content-type"@
            && h[0].value == "application/json"@),
        key is Some && header_text("Bearer "@ + key->0) ==> (key_headers(key) matches Ok(h) && h.len()
            == 2 && h[0].name == "content-type"@ && h[0].value == "application/json"@ && h[1].name
            == "authorization"@ && h[1].value == "Bearer "@ + key->0 && h[1].sensitive),
        key is Some && !header_text("Bearer "@ + key->0) ==> (key_headers(key) matches Err(
            ProviderErrorView::Config(_),
        )),
{
}

} // verus!
