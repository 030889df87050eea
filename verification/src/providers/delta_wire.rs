//! The loosely typed parts of a streamed chunk: reasoning fragments and token accounts.
//!
//! Both are read tolerantly. A fragment of an unknown type, or with a field of the wrong type, is
//! left out; a count that is not a number is left out; nothing of this makes a chunk unreadable.

use vstd::arithmetic::power2::{
    lemma2_to64,
    lemma2_to64_rest,
    lemma_pow2_pos,
    lemma_pow2_unfold,
    pow2,
};
use vstd::prelude::*;

use crate::double::{Double, SIGN};
use crate::json::{parse_json, Json};
use crate::json::{array_view, decoded, double_in, lemma_array_view, member, Held, JsonView};
use crate::schema::message::{ReasoningDetail, ReasoningDetailView};
use crate::text::{same_text, trimmed};
use crate::text::trim;
use crate::typed::field;
use crate::typed::read_field;

verus! {

/// What a field that should hold text holds: nothing, text, or something else.
pub open spec fn text_field(j: JsonView, name: Seq<char>, place: int) -> Result<
    Option<Seq<char>>,
    Seq<char>,
> {
    match field(j, name, place) {
        None => Ok(None),
        Some(JsonView::Null) => Ok(None),
        Some(JsonView::Text(t)) => Ok(Some(t)),
        Some(_) => Err("field `"@ + name + "` is not a string"@),
    }
}

/// Reads a field that should hold text.
pub fn read_text(j: &Json, name: &str, place: usize) -> (r: Result<Option<String>, String>)
    ensures
        match r {
            Ok(t) => text_field(j@, name@, place as int) == Ok::<Option<Seq<char>>, Seq<char>>(
                t.deep_view(),
            ),
            Err(e) => text_field(j@, name@, place as int) == Err::<Option<Seq<char>>, Seq<char>>(
                e@,
            ),
        },
{
    match read_field(j, name, place) {
        None => Ok(None),
        Some(Json::Null) => Ok(None),
        Some(Json::Text(t)) => Ok(Some(t.clone())),
        Some(_) => {
            let mut e = "field `".to_owned();
            e.append(name);
            e.append("` is not a string");
            Err(e)
        },
    }
}

/// What a field that should hold a small count holds.
pub open spec fn index_field(j: JsonView, name: Seq<char>, place: int) -> Result<Option<u32>, ()> {
    match field(j, name, place) {
        None => Ok(None),
        Some(JsonView::Null) => Ok(None),
        Some(JsonView::Number(Held::PosInt(n), _)) if n <= u32::MAX => Ok(Some(n as u32)),
        Some(_) => Err(()),
    }
}

/// Reads a field that should hold a small count.
pub fn read_index(j: &Json, name: &str, place: usize) -> (r: Result<Option<u32>, ()>)
    ensures
        r == index_field(j@, name@, place as int),
{
    match read_field(j, name, place) {
        None => Ok(None),
        Some(Json::Null) => Ok(None),
        Some(v) => match v.as_unsigned() {
            Some(n) => if n <= 0xffff_ffff {
                Ok(Some(n as u32))
            } else {
                Err(())
            },
            None => Err(()),
        },
    }
}

/// A reasoning fragment as it comes off the wire, every field but its type optional.
#[derive(Debug, PartialEq)]
pub enum WireReasoningDetail {
    /// Plain reasoning.
    Text {
        /// The text.
        text: Option<String>,
        /// The signature.
        signature: Option<String>,
        /// The identifier.
        id: Option<String>,
        /// The format.
        format: Option<String>,
        /// The index of its block.
        index: Option<u32>,
    },
    /// A summary.
    Summary {
        /// The summary.
        summary: Option<String>,
        /// The identifier.
        id: Option<String>,
        /// The format.
        format: Option<String>,
        /// The index of its block.
        index: Option<u32>,
    },
    /// Encrypted reasoning.
    Encrypted {
        /// The data.
        data: Option<String>,
        /// The identifier.
        id: Option<String>,
        /// The format.
        format: Option<String>,
        /// The index of its block.
        index: Option<u32>,
    },
    /// A fragment of any other type.
    Unknown,
}

/// What a wire fragment is, as mathematics.
#[verifier::ext_equal]
pub enum WireReasoningDetailView {
    Text {
        text: Option<Seq<char>>,
        signature: Option<Seq<char>>,
        id: Option<Seq<char>>,
        format: Option<Seq<char>>,
        index: Option<u32>,
    },
    Summary {
        summary: Option<Seq<char>>,
        id: Option<Seq<char>>,
        format: Option<Seq<char>>,
        index: Option<u32>,
    },
    Encrypted {
        data: Option<Seq<char>>,
        id: Option<Seq<char>>,
        format: Option<Seq<char>>,
        index: Option<u32>,
    },
    Unknown,
}

impl DeepView for WireReasoningDetail {
    type V = WireReasoningDetailView;

    open spec fn deep_view(&self) -> WireReasoningDetailView {
        match self {
            WireReasoningDetail::Text { text, signature, id, format, index } =>
                WireReasoningDetailView::Text {
                text: text.deep_view(),
                signature: signature.deep_view(),
                id: id.deep_view(),
                format: format.deep_view(),
                index: *index,
            },
            WireReasoningDetail::Summary { summary, id, format, index } =>
                WireReasoningDetailView::Summary {
                summary: summary.deep_view(),
                id: id.deep_view(),
                format: format.deep_view(),
                index: *index,
            },
            WireReasoningDetail::Encrypted { data, id, format, index } =>
                WireReasoningDetailView::Encrypted {
                data: data.deep_view(),
                id: id.deep_view(),
                format: format.deep_view(),
                index: *index,
            },
            WireReasoningDetail::Unknown => WireReasoningDetailView::Unknown,
        }
    }
}

/// The text, or no characters where there is none.
pub open spec fn or_empty(t: Option<Seq<char>>) -> Seq<char> {
    match t {
        Some(s) => s,
        None => Seq::empty(),
    }
}

fn or_default(t: Option<String>) -> (s: String)
    ensures
        s@ == or_empty(t.deep_view()),
{
    match t {
        Some(s) => s,
        None => {
            let s = String::new();
            assert(s@ =~= Seq::<char>::empty());
            s
        },
    }
}

/// The stored form of a wire fragment: an absent index is zero and absent text is empty. A
/// fragment of an unknown type has none.
pub open spec fn strict(w: WireReasoningDetailView) -> Option<ReasoningDetailView> {
    match w {
        WireReasoningDetailView::Text { text, signature, id, format, index } => Some(
            ReasoningDetailView::Text {
                text: or_empty(text),
                signature,
                id,
                format,
                index: index.unwrap_or(0),
            },
        ),
        WireReasoningDetailView::Summary { summary, id, format, index } => Some(
            ReasoningDetailView::Summary {
                summary: or_empty(summary),
                id,
                format,
                index: index.unwrap_or(0),
            },
        ),
        WireReasoningDetailView::Encrypted { data, id, format, index } => Some(
            ReasoningDetailView::Encrypted {
                data: or_empty(data),
                id,
                format,
                index: index.unwrap_or(0),
            },
        ),
        WireReasoningDetailView::Unknown => None,
    }
}

impl WireReasoningDetail {
    /// The stored form: an absent index is zero and absent text is empty. A fragment of an unknown
    /// type has none.
    pub fn into_strict(self) -> (r: Option<ReasoningDetail>)
        ensures
            r.deep_view() == strict(self.deep_view()),
    {
        match self {
            WireReasoningDetail::Text { text, signature, id, format, index } => Some(
                ReasoningDetail::Text {
                    text: or_default(text),
                    signature,
                    id,
                    format,
                    index: index.unwrap_or(0),
                },
            ),
            WireReasoningDetail::Summary { summary, id, format, index } => Some(
                ReasoningDetail::Summary {
                    summary: or_default(summary),
                    id,
                    format,
                    index: index.unwrap_or(0),
                },
            ),
            WireReasoningDetail::Encrypted { data, id, format, index } => Some(
                ReasoningDetail::Encrypted {
                    data: or_default(data),
                    id,
                    format,
                    index: index.unwrap_or(0),
                },
            ),
            WireReasoningDetail::Unknown => None,
        }
    }
}

/// Whether a value has room in `n` places: an object always, an array with no more items.
pub open spec fn fits(j: JsonView, n: nat) -> bool {
    match j {
        JsonView::Object(_) => true,
        JsonView::Array(items) => items.len() <= n,
        _ => false,
    }
}

fn has_room(j: &Json, n: usize) -> (r: bool)
    ensures
        r == fits(j@, n as nat),
{
    match j {
        Json::Object(_) => true,
        Json::Array(items) => {
            proof {
                lemma_array_view(*items);
            }
            items.len() <= n
        },
        _ => false,
    }
}

/// The wire fragment that a JSON value is, where it is one: its type is text and its fields have
/// the right types. An object holds them by name; an array holds the type first and the fields of that
/// type in their order, as far as it goes.
pub open spec fn fragment_of(j: JsonView) -> Option<WireReasoningDetailView> {
    match field(j, "type"@, 0) {
        Some(JsonView::Text(tag)) => if tag == "reasoning.text"@ {
            match (
                text_field(j, "text"@, 1),
                text_field(j, "signature"@, 2),
                text_field(j, "id"@, 3),
                text_field(j, "format"@, 4),
                index_field(j, "index"@, 5),
            ) {
                (Ok(text), Ok(signature), Ok(id), Ok(format), Ok(index)) if fits(j, 6) => Some(
                    WireReasoningDetailView::Text { text, signature, id, format, index },
                ),
                _ => None,
            }
        } else if tag == "reasoning.summary"@ {
            match (
                text_field(j, "summary"@, 1),
                text_field(j, "id"@, 2),
                text_field(j, "format"@, 3),
                index_field(j, "index"@, 4),
            ) {
                (Ok(summary), Ok(id), Ok(format), Ok(index)) if fits(j, 5) => Some(
                    WireReasoningDetailView::Summary { summary, id, format, index },
                ),
                _ => None,
            }
        } else if tag == "reasoning.encrypted"@ {
            match (
                text_field(j, "data"@, 1),
                text_field(j, "id"@, 2),
                text_field(j, "format"@, 3),
                index_field(j, "index"@, 4),
            ) {
                (Ok(data), Ok(id), Ok(format), Ok(index)) if fits(j, 5) => Some(
                    WireReasoningDetailView::Encrypted { data, id, format, index },
                ),
                _ => None,
            }
        } else if fits(j, 1) {
            Some(WireReasoningDetailView::Unknown)
        } else {
            None
        },
        _ => None,
    }
}

/// Reads a wire fragment.
pub fn read_fragment(j: &Json) -> (r: Option<WireReasoningDetail>)
    ensures
        r.deep_view() == fragment_of(j@),
{
    let tag = match read_field(j, "type", 0) {
        Some(v) => match v.as_text() {
            Some(t) => t,
            None => {
                return None;
            },
        },
        None => {
            return None;
        },
    };
    if same_text(tag, "reasoning.text") {
        match (
            read_text(j, "text", 1),
            read_text(j, "signature", 2),
            read_text(j, "id", 3),
            read_text(j, "format", 4),
            read_index(j, "index", 5),
        ) {
            (Ok(text), Ok(signature), Ok(id), Ok(format), Ok(index)) if has_room(j, 6) => Some(
                WireReasoningDetail::Text { text, signature, id, format, index },
            ),
            _ => None,
        }
    } else if same_text(tag, "reasoning.summary") {
        match (
            read_text(j, "summary", 1),
            read_text(j, "id", 2),
            read_text(j, "format", 3),
            read_index(j, "index", 4),
        ) {
            (Ok(summary), Ok(id), Ok(format), Ok(index)) if has_room(j, 5) => Some(
                WireReasoningDetail::Summary { summary, id, format, index },
            ),
            _ => None,
        }
    } else if same_text(tag, "reasoning.encrypted") {
        match (
            read_text(j, "data", 1),
            read_text(j, "id", 2),
            read_text(j, "format", 3),
            read_index(j, "index", 4),
        ) {
            (Ok(data), Ok(id), Ok(format), Ok(index)) if has_room(j, 5) => Some(
                WireReasoningDetail::Encrypted { data, id, format, index },
            ),
            _ => None,
        }
    } else if has_room(j, 1) {
        Some(WireReasoningDetail::Unknown)
    } else {
        None
    }
}

/// What is kept of one item of a list of fragments.
pub open spec fn kept_item(j: JsonView) -> Option<ReasoningDetailView> {
    match fragment_of(j) {
        Some(w) => strict(w),
        None => None,
    }
}

/// What is kept of a list of fragments, in order.
pub open spec fn kept(items: Seq<JsonView>) -> Seq<ReasoningDetailView>
    decreases items.len(),
{
    if items.len() == 0 {
        Seq::empty()
    } else {
        match kept_item(items.last()) {
            Some(d) => kept(items.drop_last()).push(d),
            None => kept(items.drop_last()),
        }
    }
}

/// The reasoning blocks of a chunk: what is kept of a list; anything that is not a list, and a list
/// of which nothing is kept, has none.
pub open spec fn details_of(raw: Option<JsonView>) -> Option<Seq<ReasoningDetailView>> {
    match raw {
        Some(JsonView::Array(items)) => if kept(items).len() == 0 {
            None
        } else {
            Some(kept(items))
        },
        _ => None,
    }
}

/// The reasoning blocks of a chunk.
pub fn convert_reasoning_details(raw: Option<&Json>) -> (r: Option<Vec<ReasoningDetail>>)
    ensures
        r.deep_view() == details_of(
            match raw {
                Some(j) => Some(j@),
                None => None,
            },
        ),
{
    let items = match raw {
        Some(Json::Array(items)) => items,
        _ => {
            return None;
        },
    };
    let ghost view = array_view(items@);
    proof {
        lemma_array_view(*items);
    }
    let mut out: Vec<ReasoningDetail> = Vec::new();
    let mut i: usize = 0;
    assert(out.deep_view() =~= kept(view.take(0)));
    while i < items.len()
        invariant
            i <= items@.len(),
            view == array_view(items@),
            out.deep_view() == kept(view.take(i as int)),
        decreases items@.len() - i,
    {
        let ghost before = out.deep_view();
        proof {
            assert(view.take(i + 1).drop_last() =~= view.take(i as int));
            assert(view.take(i + 1).last() == items@[i as int]@);
        }
        if let Some(w) = read_fragment(&items[i]) {
            if let Some(d) = w.into_strict() {
                out.push(d);
                assert(out.deep_view() =~= before.push(d.deep_view()));
            }
        }
        i += 1;
    }
    proof {
        assert(view.take(i as int) =~= view);
        assert(out.deep_view().len() == out@.len());
    }
    if out.len() == 0 {
        None
    } else {
        Some(out)
    }
}

/// The parts of the completion tokens.
#[derive(Debug, Clone, Copy, PartialEq, Eq, Structural)]
pub struct CompletionTokensDetails {
    /// The tokens of the chain of thought.
    pub reasoning_tokens: Option<u64>,
}

impl Default for CompletionTokensDetails {
    fn default() -> (r: CompletionTokensDetails)
        ensures
            r == (CompletionTokensDetails { reasoning_tokens: None }),
    {
        CompletionTokensDetails { reasoning_tokens: None }
    }
}

/// The account of the tokens of one answer.
#[derive(Debug, Clone, Copy, PartialEq, Eq, Structural)]
pub struct Usage {
    /// The tokens read.
    pub prompt_tokens: Option<u64>,
    /// The tokens written, those of the chain of thought included.
    pub completion_tokens: Option<u64>,
    /// Both together.
    pub total_tokens: Option<u64>,
    /// The parts of the tokens written.
    pub completion_tokens_details: Option<CompletionTokensDetails>,
    /// The price.
    pub cost: Option<Double>,
}

/// An account that says nothing.
pub open spec fn no_usage() -> Usage {
    Usage {
        prompt_tokens: None,
        completion_tokens: None,
        total_tokens: None,
        completion_tokens_details: None,
        cost: None,
    }
}

impl Default for Usage {
    fn default() -> (r: Usage)
        ensures
            r == no_usage(),
    {
        Usage {
            prompt_tokens: None,
            completion_tokens: None,
            total_tokens: None,
            completion_tokens_details: None,
            cost: None,
        }
    }
}

impl Usage {
    /// The tokens of the chain of thought, where the account tells them.
    pub open spec fn thought(self) -> Option<u64> {
        match self.completion_tokens_details {
            Some(d) => d.reasoning_tokens,
            None => None,
        }
    }

    /// The tokens of the chain of thought, where the account tells them.
    #[must_use]
    pub fn reasoning_tokens(&self) -> (r: Option<u64>)
        ensures
            r == self.thought(),
    {
        match self.completion_tokens_details {
            Some(d) => d.reasoning_tokens,
            None => None,
        }
    }

    fn is_empty(&self) -> (r: bool)
        ensures
            r == (*self == no_usage()),
    {
        self.prompt_tokens.is_none() && self.completion_tokens.is_none()
            && self.total_tokens.is_none() && self.completion_tokens_details.is_none()
            && self.cost.is_none()
    }
}

/// A double that is not negative, cut to an integer where that fits. The eleven bits above the
/// fraction are the exponent, biased by 1023; the fraction has 52 bits and a leading one.
pub open spec fn whole(d: Double) -> Option<u64> {
    let exponent = d.bits as int / 0x10_0000_0000_0000;
    let mantissa = 0x10_0000_0000_0000 + d.bits as int % 0x10_0000_0000_0000;
    if d.bits >= SIGN {
        if d.bits == SIGN {
            Some(0)
        } else {
            None
        }
    } else if exponent < 1023 {
        Some(0)
    } else if exponent <= 1075 {
        Some((mantissa / pow2((1075 - exponent) as nat) as int) as u64)
    } else if exponent <= 1086 {
        Some((mantissa * pow2((exponent - 1075) as nat) as int) as u64)
    } else {
        None
    }
}

/// Cuts a double that is not negative to an integer, where that fits.
pub fn truncated(d: Double) -> (r: Option<u64>)
    ensures
        r == whole(d),
{
    if d.bits >= SIGN {
        return if d.bits == SIGN {
            Some(0)
        } else {
            None
        };
    }
    let exponent: u64 = d.bits / 0x10_0000_0000_0000;
    let mantissa: u64 = 0x10_0000_0000_0000 + d.bits % 0x10_0000_0000_0000;
    if exponent < 1023 {
        Some(0)
    } else if exponent <= 1075 {
        let shift: u64 = 1075 - exponent;
        proof {
            vstd::bits::lemma_u64_shr_is_div(mantissa, shift);
            lemma_pow2_pos(shift as nat);
        }
        Some(mantissa >> shift)
    } else if exponent <= 1086 {
        let shift: u64 = exponent - 1075;
        proof {
            lemma_fits(mantissa, shift);
            vstd::bits::lemma_u64_shl_is_mul(mantissa, shift);
        }
        Some(mantissa << shift)
    } else {
        None
    }
}

proof fn lemma_fits(mantissa: u64, shift: u64)
    requires
        mantissa < 0x20_0000_0000_0000,
        shift <= 11,
    ensures
        mantissa * pow2(shift as nat) <= u64::MAX,
{
    vstd::arithmetic::power2::lemma2_to64();
    if shift < 11 {
        vstd::arithmetic::power2::lemma_pow2_strictly_increases(shift as nat, 11);
    }
    assert(pow2(11) == 2048);
    let p = pow2(shift as nat) as int;
    assert(mantissa * p <= 0x1f_ffff_ffff_ffff * 2048) by (nonlinear_arith)
        requires
            0 <= mantissa <= 0x1f_ffff_ffff_ffff,
            0 <= p <= 2048,
    ;
}

/// The number that a value stands for: itself, or what its text reads as.
pub open spec fn numeral(j: JsonView) -> Option<JsonView> {
    match j {
        JsonView::Number(_, _) => Some(j),
        JsonView::Text(t) => match decoded(trim(t)) {
            Ok(JsonView::Number(h, d)) => Some(JsonView::Number(h, d)),
            _ => None,
        },
        _ => None,
    }
}

/// The count that a number stands for.
pub open spec fn count_in(j: JsonView) -> Option<u64> {
    match j {
        JsonView::Number(Held::PosInt(n), _) => Some(n),
        JsonView::Number(_, Some(d)) => whole(d),
        _ => None,
    }
}

/// The count under `key`, read tolerantly.
pub open spec fn count_field(j: JsonView, key: Seq<char>) -> Option<u64> {
    match member(j, key) {
        Some(v) => match numeral(v) {
            Some(n) => count_in(n),
            None => None,
        },
        None => None,
    }
}

/// The double under `key`, read tolerantly.
pub open spec fn double_field(j: JsonView, key: Seq<char>) -> Option<Double> {
    match member(j, key) {
        Some(v) => match numeral(v) {
            Some(n) => double_in(n),
            None => None,
        },
        None => None,
    }
}

fn read_numeral(j: &Json) -> (r: Option<Json>)
    ensures
        match r {
            Some(n) => numeral(j@) == Some(n@),
            None => numeral(j@) is None,
        },
{
    match j {
        Json::Number(_) => Some(j.clone()),
        Json::Text(t) => {
            let t = trimmed(t.as_str());
            match parse_json(t.as_str()) {
                Ok(n) => match n {
                    Json::Number(_) => Some(n),
                    _ => None,
                },
                Err(_) => None,
            }
        },
        _ => None,
    }
}

fn read_count(j: &Json, key: &str) -> (r: Option<u64>)
    ensures
        r == count_field(j@, key@),
{
    match j.get(key) {
        Some(v) => match read_numeral(v) {
            Some(n) => match n.as_unsigned() {
                Some(u) => Some(u),
                None => match n.as_double() {
                    Some(d) => truncated(d),
                    None => None,
                },
            },
            None => None,
        },
        None => None,
    }
}

fn read_double(j: &Json, key: &str) -> (r: Option<Double>)
    ensures
        r == double_field(j@, key@),
{
    match j.get(key) {
        Some(v) => match read_numeral(v) {
            Some(n) => n.as_double(),
            None => None,
        },
        None => None,
    }
}

/// The parts of the completion tokens, where the account tells any.
pub open spec fn thought_field(j: JsonView) -> Option<CompletionTokensDetails> {
    match member(j, "completion_tokens_details"@) {
        Some(d) => match count_field(d, "reasoning_tokens"@) {
            Some(n) => Some(CompletionTokensDetails { reasoning_tokens: Some(n) }),
            None => None,
        },
        None => None,
    }
}

/// The account that a JSON value gives, read tolerantly; none where it tells nothing.
pub open spec fn usage_of(raw: Option<JsonView>) -> Option<Usage> {
    match raw {
        Some(j) => {
            let usage = Usage {
                prompt_tokens: count_field(j, "prompt_tokens"@),
                completion_tokens: count_field(j, "completion_tokens"@),
                total_tokens: count_field(j, "total_tokens"@),
                completion_tokens_details: thought_field(j),
                cost: double_field(j, "cost"@),
            };
            if usage == no_usage() {
                None
            } else {
                Some(usage)
            }
        },
        None => None,
    }
}

/// Reads an account of tokens tolerantly: counts may be integers, other numbers or numeric text; a
/// field that is none of these is left out, and an account without fields is none.
pub fn convert_usage(raw: Option<&Json>) -> (r: Option<Usage>)
    ensures
        r == usage_of(
            match raw {
                Some(j) => Some(j@),
                None => None,
            },
        ),
{
    let j = match raw {
        Some(j) => j,
        None => {
            return None;
        },
    };
    let completion_tokens_details = match j.get("completion_tokens_details") {
        Some(d) => match read_count(d, "reasoning_tokens") {
            Some(n) => Some(CompletionTokensDetails { reasoning_tokens: Some(n) }),
            None => None,
        },
        None => None,
    };
    let usage = Usage {
        prompt_tokens: read_count(j, "prompt_tokens"),
        completion_tokens: read_count(j, "completion_tokens"),
        total_tokens: read_count(j, "total_tokens"),
        completion_tokens_details,
        cost: read_double(j, "cost"),
    };
    if usage.is_empty() {
        None
    } else {
        Some(usage)
    }
}

/// Of a list of fragments every one that is kept stays in its order, and the others are passed over.
pub proof fn fragments_are_kept_in_order(a: Seq<JsonView>, b: Seq<JsonView>, j: JsonView)
    ensures
        kept(a + b) == kept(a) + kept(b),
        kept(seq![j]) == (match kept_item(j) {
            Some(d) => seq![d],
            None => Seq::empty(),
        }),
        kept(Seq::empty()) == Seq::<ReasoningDetailView>::empty(),
        details_of(None) is None,
        kept(a).len() > 0 ==> details_of(Some(JsonView::Array(a))) == Some(kept(a)),
    decreases b.len(),
{
    assert(seq![j].drop_last() =~= Seq::empty());
    assert(kept(seq![j].drop_last()) =~= Seq::empty());
    assert(kept(seq![j]) =~= (match kept_item(j) {
        Some(d) => seq![d],
        None => Seq::empty(),
    }));
    if b.len() == 0 {
        assert(a + b =~= a);
        assert(kept(a) + kept(b) =~= kept(a));
    } else {
        fragments_are_kept_in_order(a, b.drop_last(), j);
        assert((a + b).drop_last() =~= a + b.drop_last());
        assert((a + b).last() == b.last());
        assert(kept(a + b) =~= kept(a) + kept(b));
    }
}

/// A fragment with its type keeps what it holds: its words, or none where it has none, its signature,
/// identifier and format as they are, and its index, zero where it has none.
pub proof fn a_fragment_keeps_what_it_holds(members: Seq<(Seq<char>, JsonView)>)
    ensures
        ({
            let j = JsonView::Object(members);
            let tag = member(j, "type"@);
            let words = |name: Seq<char>|
                match member(j, name) {
                    Some(JsonView::Text(t)) => t,
                    _ => Seq::empty(),
                };
            let told = |name: Seq<char>|
                match member(j, name) {
                    Some(JsonView::Text(t)) => Some(t),
                    _ => None,
                };
            let index = match member(j, "index"@) {
                Some(JsonView::Number(Held::PosInt(n), _)) => n,
                _ => 0,
            };
            match kept_item(j) {
                Some(ReasoningDetailView::Text { text, signature, id, format, index: at }) => tag == Some(
                    JsonView::Text("reasoning.text"@),
                ) && text == words("text"@) && signature == told("signature"@) && id == told("id"@)
                    && format == told("format"@) && at == index,
                Some(ReasoningDetailView::Summary { summary, id, format, index: at }) => tag == Some(
                    JsonView::Text("reasoning.summary"@),
                ) && summary == words("summary"@) && id == told("id"@) && format == told("format"@) && at
                    == index,
                Some(ReasoningDetailView::Encrypted { data, id, format, index: at }) => tag == Some(
                    JsonView::Text("reasoning.encrypted"@),
                ) && data == words("data"@) && id == told("id"@) && format == told("format"@) && at
                    == index,
                None => true,
            }
        }),
{
}

/// The account of an answer is read figure by figure, each from the member of its name; an account of
/// which nothing is readable is none.
pub proof fn an_account_is_read_figure_by_figure(j: JsonView)
    ensures
        match usage_of(Some(j)) {
            Some(u) => u.prompt_tokens == figure(member(j, "prompt_tokens"@)) && u.completion_tokens
                == figure(member(j, "completion_tokens"@)) && u.total_tokens == figure(
                member(j, "total_tokens"@),
            ) && (match u.completion_tokens_details {
                Some(d) => d.reasoning_tokens is Some && member(j, "completion_tokens_details"@) is Some
                    && d.reasoning_tokens == figure(
                    member(member(j, "completion_tokens_details"@)->0, "reasoning_tokens"@),
                ),
                None => member(j, "completion_tokens_details"@) is None || figure(
                    member(member(j, "completion_tokens_details"@)->0, "reasoning_tokens"@),
                ) is None,
            }) && (match member(j, "cost"@) {
                Some(JsonView::Number(h, d)) => u.cost == d,
                Some(JsonView::Text(t)) => u.cost == (match decoded(trim(t)) {
                    Ok(JsonView::Number(_, d)) => d,
                    _ => None,
                }),
                _ => u.cost is None,
            }),
            None => figure(member(j, "prompt_tokens"@)) is None && figure(
                member(j, "completion_tokens"@),
            ) is None && figure(member(j, "total_tokens"@)) is None,
        },
        usage_of(None) is None,
{
}

/// The count that a figure tells: a number that is not negative, whole as it is or cut to whole, written
/// as a number or as text.
pub open spec fn figure(held: Option<JsonView>) -> Option<u64> {
    let number = match held {
        Some(JsonView::Number(h, d)) => Some((h, d)),
        Some(JsonView::Text(t)) => match decoded(trim(t)) {
            Ok(JsonView::Number(h, d)) => Some((h, d)),
            _ => None,
        },
        _ => None,
    };
    match number {
        Some((Held::PosInt(n), _)) => Some(n),
        Some((_, Some(d))) => whole(d),
        _ => None,
    }
}

/// A number is cut to its whole part: below one it is nothing, from one on it is at least one, twice a
/// number has twice its whole part or one more, and a number without a fraction is as it is. A negative
/// one, and one too large, have none.
pub proof fn a_number_is_cut_to_its_whole_part(d: Double, twice: Double)
    ensures
        ({
            let exponent = d.bits as int / 0x10_0000_0000_0000;
            let mantissa = 0x10_0000_0000_0000 + d.bits as int % 0x10_0000_0000_0000;
            &&& d.bits < SIGN && exponent < 1023 ==> whole(d) == Some(0u64)
            &&& d.bits < SIGN && exponent == 1023 ==> whole(d) == Some(1u64)
            &&& d.bits < SIGN && exponent == 1075 ==> whole(d) == Some(mantissa as u64)
            &&& d.bits < SIGN && exponent > 1086 ==> whole(d) is None
            &&& d.bits > SIGN ==> whole(d) is None
            &&& d.bits < SIGN && 1023 <= exponent < 1086 && twice.bits == d.bits + 0x10_0000_0000_0000
                ==> whole(d) is Some && whole(twice) is Some && (whole(twice)->0 == 2 * whole(d)->0
                || whole(twice)->0 == 2 * whole(d)->0 + 1) && (exponent >= 1075 ==> whole(twice)->0 == 2
                * whole(d)->0)
        }),
{
    let unit = 0x10_0000_0000_0000int;
    let bits = d.bits as int;
    let exponent = bits / unit;
    let mantissa = unit + bits % unit;
    assert(unit <= mantissa < 2 * unit);
    lemma2_to64();
    lemma2_to64_rest();
    assert(pow2(52) == unit);
    assert(pow2(0) == 1);
    if d.bits < SIGN && exponent == 1023 {
        assert(mantissa / unit == 1) by (nonlinear_arith)
            requires
                unit <= mantissa < 2 * unit,
                unit > 0,
        ;
    }
    if d.bits < SIGN && 1023 <= exponent < 1086 && twice.bits == d.bits + 0x10_0000_0000_0000 {
        let more = twice.bits as int;
        assert(more / unit == exponent + 1 && more % unit == bits % unit) by (nonlinear_arith)
            requires
                more == bits + unit,
                unit == 0x10_0000_0000_0000int,
                exponent == bits / unit,
        ;
        assert(twice.bits < SIGN) by (nonlinear_arith)
            requires
                more == twice.bits,
                more / unit == exponent + 1,
                exponent + 1 <= 1086,
                unit == 0x10_0000_0000_0000int,
                SIGN == 0x8000_0000_0000_0000u64,
        ;
        if exponent < 1075 {
            let n = (1075 - exponent) as nat;
            let p = pow2((n - 1) as nat) as int;
            lemma_pow2_unfold(n);
            lemma_pow2_pos((n - 1) as nat);
            assert(pow2(n) == 2 * p);
            lemma_halves(mantissa, p);
            assert(mantissa / p <= mantissa) by (nonlinear_arith)
                requires
                    p >= 1,
                    mantissa >= 0,
            ;
            assert(0 <= mantissa / (2 * p) <= mantissa) by (nonlinear_arith)
                requires
                    p >= 1,
                    mantissa >= 0,
            ;
            assert(0 <= mantissa / p) by (nonlinear_arith)
                requires
                    p >= 1,
                    mantissa >= 0,
            ;
        } else {
            let n = (exponent - 1075) as nat;
            let p = pow2(n) as int;
            lemma_pow2_unfold(n + 1);
            assert(pow2(n + 1) == 2 * p);
            assert(n + 1 <= 11);
            lemma_pow2_strictly_increases_or_same(n, 11);
            lemma_pow2_strictly_increases_or_same(n + 1, 11);
            assert(pow2(11) == 2048);
            assert(mantissa * p < 0x1_0000_0000_0000_0000 && mantissa * (2 * p) == 2 * (mantissa * p)
                && mantissa * (2 * p) < 0x1_0000_0000_0000_0000 && mantissa * p >= 0) by (nonlinear_arith)
                requires
                    0 <= mantissa < 0x20_0000_0000_0000,
                    0 <= p,
                    2 * p <= 2048,
            ;
            if exponent == 1075 {
                assert(p == 1);
                assert(mantissa / 1 == mantissa);
            }
        }
    }
}

proof fn lemma_halves(m: int, p: int)
    requires
        p >= 1,
        m >= 0,
    ensures
        m / p == 2 * (m / (2 * p)) || m / p == 2 * (m / (2 * p)) + 1,
{
    let q = m / (2 * p);
    let r = m % (2 * p);
    assert(m == q * (2 * p) + r && 0 <= r < 2 * p) by (nonlinear_arith)
        requires
            p >= 1,
            q == m / (2 * p),
            r == m % (2 * p),
    ;
    if r < p {
        assert(m / p == 2 * q) by (nonlinear_arith)
            requires
                m == q * (2 * p) + r,
                0 <= r < p,
        ;
    } else {
        assert(m / p == 2 * q + 1) by (nonlinear_arith)
            requires
                m == q * (2 * p) + r,
                p <= r < 2 * p,
        ;
    }
}

proof fn lemma_pow2_strictly_increases_or_same(a: nat, b: nat)
    requires
        a <= b,
    ensures
        pow2(a) <= pow2(b),
    decreases b - a,
{
    if a < b {
        lemma_pow2_unfold(b);
        lemma_pow2_strictly_increases_or_same(a, (b - 1) as nat);
    }
}

} // verus!
