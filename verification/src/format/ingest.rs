//! Reading providers' messages.
//!
//! Channel markup that a provider wrote into the text is taken out of it and becomes the chain of
//! thought. Text that still holds a control token afterwards is refused: a leak is never stored.
//! Absent text is kept apart from empty text, and the arguments of a tool call, which some
//! providers send as encoded text, are decoded once and kept beside the text they came as.

use vstd::prelude::*;

use crate::format::error::{format_message, FormatErrorView};
use crate::format::error::FormatError;
use crate::format::validate::{clean, leak};
use crate::format::validate::first_control_token;
use crate::json::{array_view, decoded, kind_words, lemma_array_view, member, JsonView};
use crate::json::{lemma_object_view, object_view};
use crate::json::{parse_json, Json};
use crate::providers::delta_wire::{fragment_of, WireReasoningDetailView};
use crate::providers::delta_wire::{read_fragment, WireReasoningDetail};
use crate::schema::message::{
    content_text,
    content_words,
    Content,
    ContentPart,
    ContentPartView,
    ContentView,
    FunctionCall,
    FunctionCallView,
    Message,
    MessageView,
    ReasoningDetail,
    ReasoningDetailView,
    Role,
    ToolCall,
    ToolCallView,
};
use crate::text::{chars_of, decimal_text, find_in, joined, same_text, stands_at, string_of_range};
use crate::text::{begins, decimal, find, first_at, lemma_find_is_first, occurs_at};
use crate::wire::role_spelling;

verus! {

/// What is left of a text and what its markup enclosed, where it begins with `open` and holds
/// `close` behind it. The line end before `close` belongs to the markup where `framed`.
pub open spec fn enclosed(
    text: Seq<char>,
    open: Seq<char>,
    close: Seq<char>,
    framed: bool,
) -> Option<(Seq<char>, Seq<char>)> {
    if begins(text, open) {
        let rest = text.skip(open.len() as int);
        match find(rest, close) {
            Some(end) => {
                let raw = rest.take(end);
                let inner = if framed && raw.len() > 0 && raw.last() == '\n' {
                    raw.drop_last()
                } else {
                    raw
                };
                Some((rest.skip(end + close.len()), inner))
            },
            None => None,
        }
    } else {
        None
    }
}

/// The markup before a Harmony analysis.
pub const HARMONY_ANALYSIS: &'static str = "<|start|>assistant<|channel|>analysis<|message|>";

/// The markup before a Harmony answer.
pub const HARMONY_FINAL: &'static str = "<|start|>assistant<|channel|>final<|message|>";

/// The answer and the analysis of a text in Harmony: an analysis comes first, the answer directly
/// behind it. An answer that is not closed goes to the end.
pub open spec fn harmony_parts(text: Seq<char>) -> Option<(Seq<char>, Seq<char>)> {
    match enclosed(text, HARMONY_ANALYSIS@, "<|end|>"@, false) {
        Some((rest, analysis)) => if begins(rest, HARMONY_FINAL@) {
            let answer = rest.skip(HARMONY_FINAL@.len() as int);
            match find(answer, "<|return|>"@) {
                Some(end) => Some((answer.take(end), analysis)),
                None => Some((answer, analysis)),
            }
        } else {
            None
        },
        None => None,
    }
}

/// The answer and the chain of thought of a text, by whichever markup it begins with; a text
/// without markup is the answer.
pub open spec fn stripped(text: Seq<char>) -> (Seq<char>, Option<Seq<char>>) {
    match enclosed(text, "<think>"@, "</think>"@, false) {
        Some((answer, thought)) => (answer, Some(thought)),
        None => match enclosed(text, "<|channel>thought\n"@, "<channel|>"@, true) {
            Some((answer, thought)) => (answer, Some(thought)),
            None => match harmony_parts(text) {
                Some((answer, thought)) => (answer, Some(thought)),
                None => (text, None),
            },
        },
    }
}

fn strip_pair(text: &[char], open: &str, close: &str, framed: bool) -> (r: Option<(String, String)>)
    ensures
        match r {
            Some((answer, thought)) => enclosed(text@, open@, close@, framed) == Some(
                (answer@, thought@),
            ),
            None => enclosed(text@, open@, close@, framed) is None,
        },
{
    let open_chars = chars_of(open);
    let close_chars = chars_of(close);
    if !stands_at(text, open_chars.as_slice(), 0) {
        return None;
    }
    let rest_text = string_of_range(text, open_chars.len(), text.len());
    let rest = chars_of(rest_text.as_str());
    assert(rest@ =~= text@.skip(open@.len() as int));
    match find_in(rest.as_slice(), close_chars.as_slice()) {
        Some(end) => {
            let ghost raw = rest@.take(end as int);
            let cut: usize = if framed && end > 0 && rest[end - 1] == '\n' {
                end - 1
            } else {
                end
            };
            let thought = string_of_range(rest.as_slice(), 0, cut);
            let answer = string_of_range(rest.as_slice(), end + close_chars.len(), rest.len());
            proof {
                assert(raw =~= rest@.subrange(0, end as int));
                if end > 0 {
                    assert(raw.last() == rest@[end - 1]);
                    assert(raw.drop_last() =~= rest@.subrange(0, end - 1));
                }
                assert(answer@ =~= rest@.skip(end + close@.len()));
            }
            Some((answer, thought))
        },
        None => None,
    }
}

fn strip_harmony(text: &[char]) -> (r: Option<(String, String)>)
    ensures
        match r {
            Some((answer, thought)) => harmony_parts(text@) == Some((answer@, thought@)),
            None => harmony_parts(text@) is None,
        },
{
    match strip_pair(text, HARMONY_ANALYSIS, "<|end|>", false) {
        Some((after, thought)) => {
            let rest = chars_of(after.as_str());
            let open = chars_of(HARMONY_FINAL);
            if !stands_at(rest.as_slice(), open.as_slice(), 0) {
                return None;
            }
            let answer_text = string_of_range(rest.as_slice(), open.len(), rest.len());
            let answer = chars_of(answer_text.as_str());
            assert(answer@ =~= after@.skip(HARMONY_FINAL@.len() as int));
            let close = chars_of("<|return|>");
            match find_in(answer.as_slice(), close.as_slice()) {
                Some(end) => {
                    let inner = string_of_range(answer.as_slice(), 0, end);
                    assert(inner@ =~= answer@.take(end as int));
                    Some((inner, thought))
                },
                None => Some((answer_text, thought)),
            }
        },
        None => None,
    }
}

/// Takes the channel markup at the beginning of a text out of it: the answer, and the chain of
/// thought where there was markup.
#[must_use]
pub fn strip_channel_tokens(content: &str) -> (r: (String, Option<String>))
    ensures
        (r.0@, r.1.deep_view()) == stripped(content@),
{
    let chars = chars_of(content);
    if let Some((answer, thought)) = strip_pair(chars.as_slice(), "<think>", "</think>", false) {
        return (answer, Some(thought));
    }
    if let Some((answer, thought)) = strip_pair(
        chars.as_slice(),
        "<|channel>thought\n",
        "<channel|>",
        true,
    ) {
        return (answer, Some(thought));
    }
    if let Some((answer, thought)) = strip_harmony(chars.as_slice()) {
        return (answer, Some(thought));
    }
    (content.to_owned(), None)
}

/// An error of reading.
pub open spec fn bad<T>(words: Seq<char>) -> Result<T, FormatErrorView> {
    Err(FormatErrorView::Ingest(words))
}

/// Whether a value tells anything that a message tells.
pub open spec fn tells_a_message(j: JsonView) -> bool {
    member(j, "role"@) is Some || member(j, "content"@) is Some || member(j, "reasoning"@) is Some
        || member(j, "reasoning_content"@) is Some || member(j, "reasoning_details"@) is Some
        || member(j, "tool_calls"@) is Some || member(j, "tool_call_id"@) is Some || member(
        j,
        "name"@,
    ) is Some
}

/// The message in a provider's answer: the value itself where it has text or a chain of thought,
/// otherwise the message of the first choice, and the value itself again where there are no choices
/// and it tells anything that a message tells.
pub open spec fn located(j: JsonView) -> Option<JsonView> {
    if member(j, "content"@) is Some || member(j, "reasoning"@) is Some {
        Some(j)
    } else {
        match member(j, "choices"@) {
            Some(JsonView::Array(choices)) => if choices.len() > 0 {
                member(choices[0], "message"@)
            } else {
                None
            },
            Some(_) => None,
            None => if tells_a_message(j) {
                Some(j)
            } else {
                None
            },
        }
    }
}

fn locate_message(value: &Json) -> (r: Result<&Json, FormatError>)
    ensures
        match r {
            Ok(m) => located(value@) == Some(m@),
            Err(e) => located(value@) is None && e.deep_view() == FormatErrorView::Ingest(
                "no choices[0].message in response"@,
            ),
        },
{
    if value.get("content").is_some() || value.get("reasoning").is_some() {
        return Ok(value);
    }
    match value.get("choices") {
        Some(Json::Array(choices)) => {
            proof {
                lemma_array_view(*choices);
            }
            if choices.len() > 0 {
                assert(array_view(choices@)[0] == choices@[0]@);
                if let Some(m) = choices[0].get("message") {
                    return Ok(m);
                }
            }
        },
        Some(_) => {},
        None => if value.get("role").is_some() || value.get("reasoning_content").is_some()
            || value.get("reasoning_details").is_some() || value.get("tool_calls").is_some()
            || value.get("tool_call_id").is_some() || value.get("name").is_some() {
            return Ok(value);
        },
    }
    Err(FormatError::Ingest("no choices[0].message in response".to_owned()))
}

/// The role that a message tells; one that tells none, or one unknown, is an assistant's.
pub open spec fn role_of(j: Option<JsonView>) -> Role {
    match j {
        Some(JsonView::Text(t)) => if t == "system"@ {
            Role::System
        } else if t == "developer"@ {
            Role::Developer
        } else if t == "user"@ {
            Role::User
        } else if t == "tool"@ {
            Role::Tool
        } else {
            Role::Assistant
        },
        _ => Role::Assistant,
    }
}

fn wire_role(raw: Option<&Json>) -> (r: Role)
    ensures
        r == role_of(
            match raw {
                Some(j) => Some(j@),
                None => None,
            },
        ),
{
    match raw {
        Some(Json::Text(t)) => if same_text(t.as_str(), "system") {
            Role::System
        } else if same_text(t.as_str(), "developer") {
            Role::Developer
        } else if same_text(t.as_str(), "user") {
            Role::User
        } else if same_text(t.as_str(), "tool") {
            Role::Tool
        } else {
            Role::Assistant
        },
        _ => Role::Assistant,
    }
}

/// The text under `key`; anything but text, `null` and absence is refused.
pub open spec fn identity_field(j: JsonView, key: Seq<char>) -> Result<
    Option<Seq<char>>,
    FormatErrorView,
> {
    match member(j, key) {
        None => Ok(None),
        Some(JsonView::Null) => Ok(None),
        Some(JsonView::Text(t)) => Ok(Some(t)),
        Some(other) => bad("`"@ + key + "` must be a string; got "@ + kind_words(other)),
    }
}

fn string_field(j: &Json, key: &str) -> (r: Result<Option<String>, FormatError>)
    ensures
        match r {
            Ok(t) => identity_field(j@, key@) == Ok::<Option<Seq<char>>, FormatErrorView>(
                t.deep_view(),
            ),
            Err(e) => identity_field(j@, key@) == Err::<Option<Seq<char>>, FormatErrorView>(
                e.deep_view(),
            ),
        },
{
    match j.get(key) {
        None => Ok(None),
        Some(Json::Null) => Ok(None),
        Some(Json::Text(t)) => Ok(Some(t.clone())),
        Some(other) => {
            let mut m = joined("`", key);
            m.append("` must be a string; got ");
            m.append(other.kind());
            Err(FormatError::Ingest(m))
        },
    }
}

/// The content part that a JSON value is, where it is one.
pub open spec fn part_of(j: JsonView) -> Option<ContentPartView> {
    match (member(j, "type"@), member(j, "text"@), member(j, "image_url"@)) {
        (Some(JsonView::Text(tag)), text, url) => if tag == "text"@ {
            match text {
                Some(JsonView::Text(t)) => Some(ContentPartView::Text(t)),
                _ => None,
            }
        } else if tag == "image_url"@ {
            match url {
                Some(JsonView::Text(t)) => Some(ContentPartView::ImageUrl(t)),
                _ => None,
            }
        } else {
            None
        },
        _ => None,
    }
}

fn read_part(j: &Json) -> (r: Option<ContentPart>)
    ensures
        r.deep_view() == part_of(j@),
{
    match j.get("type") {
        Some(Json::Text(tag)) => if same_text(tag.as_str(), "text") {
            match j.get("text") {
                Some(Json::Text(t)) => Some(ContentPart::Text { text: t.clone() }),
                _ => None,
            }
        } else if same_text(tag.as_str(), "image_url") {
            match j.get("image_url") {
                Some(Json::Text(t)) => Some(ContentPart::ImageUrl { image_url: t.clone() }),
                _ => None,
            }
        } else {
            None
        },
        _ => None,
    }
}

/// The content parts that a list is, where all of its items are parts; otherwise the place of the
/// first that is none.
pub open spec fn parts_of(items: Seq<JsonView>) -> Result<Seq<ContentPartView>, nat>
    decreases items.len(),
{
    if items.len() == 0 {
        Ok(Seq::empty())
    } else {
        match parts_of(items.drop_last()) {
            Err(i) => Err(i),
            Ok(before) => match part_of(items.last()) {
                Some(p) => Ok(before.push(p)),
                None => Err((items.len() - 1) as nat),
            },
        }
    }
}

proof fn lemma_parts_error(items: Seq<JsonView>, n: int)
    requires
        0 <= n <= items.len(),
        parts_of(items.take(n)) is Err,
    ensures
        parts_of(items) == parts_of(items.take(n)),
    decreases items.len() - n,
{
    if n < items.len() {
        assert(items.take(n + 1).drop_last() =~= items.take(n));
        lemma_parts_error(items, n + 1);
    } else {
        assert(items.take(n) =~= items);
    }
}

/// The content that a message tells, and the chain of thought that its text enclosed.
pub open spec fn content_of(j: Option<JsonView>) -> Result<
    (ContentView, Option<Seq<char>>),
    FormatErrorView,
> {
    match j {
        None => Ok((ContentView::Null, None)),
        Some(JsonView::Null) => Ok((ContentView::Null, None)),
        Some(JsonView::Text(t)) => Ok((ContentView::Text(stripped(t).0), stripped(t).1)),
        Some(JsonView::Array(items)) => match parts_of(items) {
            Ok(parts) => Ok((ContentView::Parts(parts), None)),
            Err(i) => bad(
                "`content` is not a valid content-parts array: item "@ + decimal(i)
                    + " is no content part"@,
            ),
        },
        Some(other) => bad(
            "`content` must be a string, null, or a content-parts array; got "@ + kind_words(other),
        ),
    }
}

fn parse_parts(items: &Vec<Json>) -> (r: Result<Vec<ContentPart>, usize>)
    ensures
        match r {
            Ok(parts) => parts_of(array_view(items@)) == Ok::<Seq<ContentPartView>, nat>(
                parts.deep_view(),
            ),
            Err(i) => parts_of(array_view(items@)) == Err::<Seq<ContentPartView>, nat>(i as nat),
        },
{
    let ghost view = array_view(items@);
    let mut parts: Vec<ContentPart> = Vec::new();
    let mut i: usize = 0;
    assert(view.take(0) =~= Seq::empty());
    assert(parts.deep_view() =~= Seq::empty());
    while i < items.len()
        invariant
            i <= items@.len(),
            view == array_view(items@),
            parts_of(view.take(i as int)) == Ok::<Seq<ContentPartView>, nat>(parts.deep_view()),
        decreases items@.len() - i,
    {
        proof {
            assert(view.take(i + 1).drop_last() =~= view.take(i as int));
            assert(view.take(i + 1).last() == items@[i as int]@);
        }
        match read_part(&items[i]) {
            Some(p) => {
                let ghost before = parts.deep_view();
                parts.push(p);
                assert(parts.deep_view() =~= before.push(p.deep_view()));
            },
            None => {
                proof {
                    lemma_parts_error(view, i + 1);
                }
                return Err(i);
            },
        }
        i += 1;
    }
    assert(view.take(i as int) =~= view);
    Ok(parts)
}

fn parse_content(raw: Option<&Json>) -> (r: Result<(Content, Option<String>), FormatError>)
    ensures
        ({
            let s = content_of(
                match raw {
                    Some(j) => Some(j@),
                    None => None,
                },
            );
            match r {
                Ok((c, t)) => s == Ok::<(ContentView, Option<Seq<char>>), FormatErrorView>(
                    (c.deep_view(), t.deep_view()),
                ),
                Err(e) => s == Err::<(ContentView, Option<Seq<char>>), FormatErrorView>(
                    e.deep_view(),
                ),
            }
        }),
{
    match raw {
        None => Ok((Content::Null, None)),
        Some(Json::Null) => Ok((Content::Null, None)),
        Some(Json::Text(text)) => {
            let (answer, thought) = strip_channel_tokens(text.as_str());
            Ok((Content::Text(answer), thought))
        },
        Some(Json::Array(items)) => {
            proof {
                lemma_array_view(*items);
            }
            match parse_parts(items) {
                Ok(parts) => Ok((Content::Parts(parts), None)),
                Err(i) => {
                    let digits = decimal_text(i as u64);
                    let mut m = joined(
                        "`content` is not a valid content-parts array: item ",
                        digits.as_str(),
                    );
                    m.append(" is no content part");
                    Err(FormatError::Ingest(m))
                },
            }
        },
        Some(other) => {
            let m = joined(
                "`content` must be a string, null, or a content-parts array; got ",
                other.kind(),
            );
            Err(FormatError::Ingest(m))
        },
    }
}

/// The arguments of a call as an object, and the text they came as where they came as text.
pub open spec fn arguments_of(j: Option<JsonView>) -> Result<
    (JsonView, Option<Seq<char>>),
    FormatErrorView,
> {
    match j {
        None => Ok((JsonView::Object(Seq::empty()), None)),
        Some(JsonView::Null) => Ok((JsonView::Object(Seq::empty()), None)),
        Some(JsonView::Object(m)) => Ok((JsonView::Object(m), None)),
        Some(JsonView::Text(t)) => match decoded(t) {
            Ok(JsonView::Object(m)) => Ok((JsonView::Object(m), Some(t))),
            Ok(other) => bad(
                "`function.arguments` decoded to "@ + kind_words(other)
                    + ", not an object (INVARIANT g)"@,
            ),
            Err(e) => bad("`function.arguments` is not valid JSON: "@ + e),
        },
        Some(other) => bad(
            "`function.arguments` must be a JSON object or a JSON-encoded object string; got "@
                + kind_words(other),
        ),
    }
}

fn empty_object() -> (j: Json)
    ensures
        j@ == JsonView::Object(Seq::empty()),
{
    let members: Vec<(String, Json)> = Vec::new();
    proof {
        lemma_object_view(members);
        assert(object_view(members@) =~= Seq::empty());
    }
    Json::Object(members)
}

fn normalize_arguments(raw: Option<&Json>) -> (r: Result<(Json, Option<String>), FormatError>)
    ensures
        ({
            let s = arguments_of(
                match raw {
                    Some(j) => Some(j@),
                    None => None,
                },
            );
            match r {
                Ok((j, t)) => s == Ok::<(JsonView, Option<Seq<char>>), FormatErrorView>(
                    (j@, t.deep_view()),
                ),
                Err(e) => s == Err::<(JsonView, Option<Seq<char>>), FormatErrorView>(e.deep_view()),
            }
        }),
{
    match raw {
        None => Ok((empty_object(), None)),
        Some(Json::Null) => Ok((empty_object(), None)),
        Some(value) => match value {
            Json::Object(_) => Ok((value.clone(), None)),
            Json::Text(text) => match parse_json(text.as_str()) {
                Ok(inner) => match inner {
                    Json::Object(_) => Ok((inner, Some(text.clone()))),
                    _ => {
                        let mut m = joined("`function.arguments` decoded to ", inner.kind());
                        m.append(", not an object (INVARIANT g)");
                        Err(FormatError::Ingest(m))
                    },
                },
                Err(e) => Err(
                    FormatError::Ingest(
                        joined("`function.arguments` is not valid JSON: ", e.as_str()),
                    ),
                ),
            },
            _ => Err(
                FormatError::Ingest(
                    joined(
                        "`function.arguments` must be a JSON object or a JSON-encoded object string; got ",
                        value.kind(),
                    ),
                ),
            ),
        },
    }
}

/// The identifier of a call.
pub open spec fn call_id_of(j: JsonView) -> Result<Option<Seq<char>>, FormatErrorView> {
    match member(j, "id"@) {
        None => Ok(None),
        Some(JsonView::Null) => Ok(None),
        Some(JsonView::Text(t)) => Ok(Some(t)),
        Some(other) => bad("`id` must be a string; got "@ + kind_words(other)),
    }
}

/// The tool call that a JSON value is, or why it is none.
pub open spec fn call_of(j: JsonView) -> Result<ToolCallView, FormatErrorView> {
    match j {
        JsonView::Object(_) => match call_id_of(j) {
            Err(e) => Err(e),
            Ok(id) => match member(j, "function"@) {
                Some(JsonView::Object(f)) => match member(JsonView::Object(f), "name"@) {
                    Some(JsonView::Text(name)) => match arguments_of(
                        member(JsonView::Object(f), "arguments"@),
                    ) {
                        Err(e) => Err(e),
                        Ok((arguments, raw_arguments)) => Ok(
                            ToolCallView {
                                id,
                                function: FunctionCallView { name, arguments, raw_arguments },
                            },
                        ),
                    },
                    _ => bad("`function.name` must be a string"@),
                },
                _ => bad("`function` must be an object"@),
            },
        },
        _ => bad("must be an object; got "@ + kind_words(j)),
    }
}

fn parse_call_id(frag: &Json) -> (r: Result<Option<String>, FormatError>)
    ensures
        match r {
            Ok(t) => call_id_of(frag@) == Ok::<Option<Seq<char>>, FormatErrorView>(t.deep_view()),
            Err(e) => call_id_of(frag@) == Err::<Option<Seq<char>>, FormatErrorView>(e.deep_view()),
        },
{
    match frag.get("id") {
        None => Ok(None),
        Some(Json::Null) => Ok(None),
        Some(Json::Text(t)) => Ok(Some(t.clone())),
        Some(other) => Err(
            FormatError::Ingest(joined("`id` must be a string; got ", other.kind())),
        ),
    }
}

fn parse_tool_call(frag: &Json) -> (r: Result<ToolCall, FormatError>)
    ensures
        match r {
            Ok(c) => call_of(frag@) == Ok::<ToolCallView, FormatErrorView>(c.deep_view()),
            Err(e) => call_of(frag@) == Err::<ToolCallView, FormatErrorView>(e.deep_view()),
        },
{
    match frag {
        Json::Object(_) => {},
        _ => {
            return Err(FormatError::Ingest(joined("must be an object; got ", frag.kind())));
        },
    }
    let id = match parse_call_id(frag) {
        Ok(id) => id,
        Err(e) => {
            return Err(e);
        },
    };
    let function = match frag.get("function") {
        Some(f) => f,
        None => {
            return Err(FormatError::Ingest("`function` must be an object".to_owned()));
        },
    };
    match function {
        Json::Object(_) => {},
        _ => {
            return Err(FormatError::Ingest("`function` must be an object".to_owned()));
        },
    }
    let name = match function.get("name") {
        Some(Json::Text(t)) => t.clone(),
        _ => {
            return Err(FormatError::Ingest("`function.name` must be a string".to_owned()));
        },
    };
    match normalize_arguments(function.get("arguments")) {
        Ok((arguments, raw_arguments)) => Ok(
            ToolCall { id, function: FunctionCall { name, arguments, raw_arguments } },
        ),
        Err(e) => Err(e),
    }
}

/// The calls that a list is, or why one of them, the first, is none.
pub open spec fn calls_of(items: Seq<JsonView>) -> Result<Seq<ToolCallView>, FormatErrorView>
    decreases items.len(),
{
    if items.len() == 0 {
        Ok(Seq::empty())
    } else {
        match calls_of(items.drop_last()) {
            Err(e) => Err(e),
            Ok(before) => match call_of(items.last()) {
                Ok(c) => Ok(before.push(c)),
                Err(e) => bad(
                    "tool_calls["@ + decimal((items.len() - 1) as nat) + "]: "@ + format_message(e),
                ),
            },
        }
    }
}

/// The tool calls that a message tells; an empty list tells none.
pub open spec fn calls_field(j: Option<JsonView>) -> Result<
    Option<Seq<ToolCallView>>,
    FormatErrorView,
> {
    match j {
        None => Ok(None),
        Some(JsonView::Null) => Ok(None),
        Some(JsonView::Array(items)) => match calls_of(items) {
            Err(e) => Err(e),
            Ok(calls) => Ok(
                if calls.len() == 0 {
                    None
                } else {
                    Some(calls)
                },
            ),
        },
        Some(other) => bad("`tool_calls` must be an array; got "@ + kind_words(other)),
    }
}

proof fn lemma_calls_error(items: Seq<JsonView>, n: int)
    requires
        0 <= n <= items.len(),
        calls_of(items.take(n)) is Err,
    ensures
        calls_of(items) == calls_of(items.take(n)),
    decreases items.len() - n,
{
    if n < items.len() {
        assert(items.take(n + 1).drop_last() =~= items.take(n));
        lemma_calls_error(items, n + 1);
    } else {
        assert(items.take(n) =~= items);
    }
}

fn parse_calls(items: &Vec<Json>) -> (r: Result<Vec<ToolCall>, FormatError>)
    ensures
        match r {
            Ok(calls) => calls_of(array_view(items@)) == Ok::<Seq<ToolCallView>, FormatErrorView>(
                calls.deep_view(),
            ),
            Err(e) => calls_of(array_view(items@)) == Err::<Seq<ToolCallView>, FormatErrorView>(
                e.deep_view(),
            ),
        },
{
    let ghost view = array_view(items@);
    let mut calls: Vec<ToolCall> = Vec::new();
    let mut i: usize = 0;
    assert(view.take(0) =~= Seq::empty());
    assert(calls.deep_view() =~= Seq::empty());
    while i < items.len()
        invariant
            i <= items@.len(),
            view == array_view(items@),
            calls_of(view.take(i as int)) == Ok::<Seq<ToolCallView>, FormatErrorView>(
                calls.deep_view(),
            ),
        decreases items@.len() - i,
    {
        proof {
            assert(view.take(i + 1).drop_last() =~= view.take(i as int));
            assert(view.take(i + 1).last() == items@[i as int]@);
        }
        match parse_tool_call(&items[i]) {
            Ok(c) => {
                let ghost before = calls.deep_view();
                calls.push(c);
                assert(calls.deep_view() =~= before.push(c.deep_view()));
            },
            Err(e) => {
                proof {
                    lemma_calls_error(view, i + 1);
                }
                let digits = decimal_text(i as u64);
                let words = e.message();
                let mut m = joined("tool_calls[", digits.as_str());
                m.append("]: ");
                m.append(words.as_str());
                return Err(FormatError::Ingest(m));
            },
        }
        i += 1;
    }
    assert(view.take(i as int) =~= view);
    Ok(calls)
}

fn parse_tool_calls(raw: Option<&Json>) -> (r: Result<Option<Vec<ToolCall>>, FormatError>)
    ensures
        ({
            let s = calls_field(
                match raw {
                    Some(j) => Some(j@),
                    None => None,
                },
            );
            match r {
                Ok(c) => s == Ok::<Option<Seq<ToolCallView>>, FormatErrorView>(c.deep_view()),
                Err(e) => s == Err::<Option<Seq<ToolCallView>>, FormatErrorView>(e.deep_view()),
            }
        }),
{
    match raw {
        None => Ok(None),
        Some(Json::Null) => Ok(None),
        Some(Json::Array(items)) => {
            proof {
                lemma_array_view(*items);
            }
            match parse_calls(items) {
                Ok(calls) => {
                    assert(calls.deep_view().len() == calls@.len());
                    if calls.len() == 0 {
                        Ok(None)
                    } else {
                        Ok(Some(calls))
                    }
                },
                Err(e) => Err(e),
            }
        },
        Some(other) => Err(
            FormatError::Ingest(joined("`tool_calls` must be an array; got ", other.kind())),
        ),
    }
}

/// The reasoning block that a JSON value is, where it is one: its text and its index are owed.
pub open spec fn block_of(j: JsonView) -> Option<ReasoningDetailView> {
    match fragment_of(j) {
        Some(
            WireReasoningDetailView::Text { text: Some(text), signature, id, format, index: Some(index) },
        ) => Some(ReasoningDetailView::Text { text, signature, id, format, index }),
        Some(
            WireReasoningDetailView::Summary { summary: Some(summary), id, format, index: Some(index) },
        ) => Some(ReasoningDetailView::Summary { summary, id, format, index }),
        Some(
            WireReasoningDetailView::Encrypted { data: Some(data), id, format, index: Some(index) },
        ) => Some(ReasoningDetailView::Encrypted { data, id, format, index }),
        _ => None,
    }
}

fn read_block(j: &Json) -> (r: Option<ReasoningDetail>)
    ensures
        r.deep_view() == block_of(j@),
{
    match read_fragment(j) {
        Some(w) => match w {
            WireReasoningDetail::Text { text, signature, id, format, index } => match (text, index) {
                (Some(text), Some(index)) => Some(
                    ReasoningDetail::Text { text, signature, id, format, index },
                ),
                _ => None,
            },
            WireReasoningDetail::Summary { summary, id, format, index } => match (summary, index) {
                (Some(summary), Some(index)) => Some(
                    ReasoningDetail::Summary { summary, id, format, index },
                ),
                _ => None,
            },
            WireReasoningDetail::Encrypted { data, id, format, index } => match (data, index) {
                (Some(data), Some(index)) => Some(
                    ReasoningDetail::Encrypted { data, id, format, index },
                ),
                _ => None,
            },
            WireReasoningDetail::Unknown => None,
        },
        None => None,
    }
}

/// The reasoning blocks in a list, in order; what is none is left out.
pub open spec fn blocks_of(items: Seq<JsonView>) -> Seq<ReasoningDetailView>
    decreases items.len(),
{
    if items.len() == 0 {
        Seq::empty()
    } else {
        match block_of(items.last()) {
            Some(d) => blocks_of(items.drop_last()).push(d),
            None => blocks_of(items.drop_last()),
        }
    }
}

/// The reasoning blocks that a message tells; a list without blocks tells none.
pub open spec fn blocks_field(j: Option<JsonView>) -> Option<Seq<ReasoningDetailView>> {
    match j {
        Some(JsonView::Array(items)) => if blocks_of(items).len() == 0 {
            None
        } else {
            Some(blocks_of(items))
        },
        _ => None,
    }
}

fn parse_reasoning_details(raw: Option<&Json>) -> (r: Option<Vec<ReasoningDetail>>)
    ensures
        r.deep_view() == blocks_field(
            match raw {
                Some(j) => Some(j@),
                None => None,
            },
        ),
{
    let items = match raw {
        Some(Json::Array(items)) => items,
        _ => {
            return None;
        },
    };
    let ghost view = array_view(items@);
    proof {
        lemma_array_view(*items);
    }
    let mut out: Vec<ReasoningDetail> = Vec::new();
    let mut i: usize = 0;
    assert(out.deep_view() =~= blocks_of(view.take(0)));
    while i < items.len()
        invariant
            i <= items@.len(),
            view == array_view(items@),
            out.deep_view() == blocks_of(view.take(i as int)),
        decreases items@.len() - i,
    {
        let ghost before = out.deep_view();
        proof {
            assert(view.take(i + 1).drop_last() =~= view.take(i as int));
            assert(view.take(i + 1).last() == items@[i as int]@);
        }
        if let Some(d) = read_block(&items[i]) {
            out.push(d);
            assert(out.deep_view() =~= before.push(d.deep_view()));
        }
        i += 1;
    }
    proof {
        assert(view.take(i as int) =~= view);
        assert(out.deep_view().len() == out@.len());
    }
    if out.len() == 0 {
        None
    } else {
        Some(out)
    }
}

/// The chain of thought that a message tells beside its text; an empty one tells none.
pub open spec fn told_reasoning(j: JsonView) -> Option<Seq<char>> {
    let raw = if member(j, "reasoning"@) is Some {
        member(j, "reasoning"@)
    } else {
        member(j, "reasoning_content"@)
    };
    match raw {
        Some(JsonView::Text(t)) => if t.len() > 0 {
            Some(t)
        } else {
            None
        },
        _ => None,
    }
}

fn provider_reasoning(j: &Json) -> (r: Option<String>)
    ensures
        r.deep_view() == told_reasoning(j@),
{
    let raw = match j.get("reasoning") {
        Some(v) => Some(v),
        None => j.get("reasoning_content"),
    };
    match raw {
        Some(Json::Text(t)) => {
            let chars = chars_of(t.as_str());
            if chars.len() > 0 {
                Some(t.clone())
            } else {
                None
            }
        },
        _ => None,
    }
}

/// The message that a located value tells, or why it cannot be read.
pub open spec fn message_of(j: JsonView) -> Result<MessageView, FormatErrorView> {
    match content_of(member(j, "content"@)) {
        Err(e) => Err(e),
        Ok((content, enclosed)) => match leak(content_words(content)) {
            Some(token) => bad(
                "clean content still contains control token `"@ + token + "` after stripping"@,
            ),
            None => match calls_field(member(j, "tool_calls"@)) {
                Err(e) => Err(e),
                Ok(tool_calls) => match identity_field(j, "tool_call_id"@) {
                    Err(e) => Err(e),
                    Ok(tool_call_id) => match identity_field(j, "name"@) {
                        Err(e) => Err(e),
                        Ok(name) => Ok(
                            MessageView {
                                role: role_of(member(j, "role"@)),
                                content,
                                reasoning: match told_reasoning(j) {
                                    Some(r) => Some(r),
                                    None => enclosed,
                                },
                                reasoning_details: blocks_field(member(j, "reasoning_details"@)),
                                tool_calls,
                                tool_call_id,
                                name,
                            },
                        ),
                    },
                },
            },
        },
    }
}

/// The message in a provider's answer, or why it cannot be read.
pub open spec fn ingested(j: JsonView) -> Result<MessageView, FormatErrorView> {
    match located(j) {
        None => bad("no choices[0].message in response"@),
        Some(m) => message_of(m),
    }
}

/// Reads the message in a provider's answer, or a bare message.
pub fn ingest_openrouter(value: &Json) -> (r: Result<Message, FormatError>)
    ensures
        match r {
            Ok(m) => ingested(value@) == Ok::<MessageView, FormatErrorView>(m.deep_view()),
            Err(e) => ingested(value@) == Err::<MessageView, FormatErrorView>(e.deep_view()),
        },
{
    let message = match locate_message(value) {
        Ok(m) => m,
        Err(e) => {
            return Err(e);
        },
    };
    let (content, enclosed) = match parse_content(message.get("content")) {
        Ok(p) => p,
        Err(e) => {
            return Err(e);
        },
    };
    let words = content_text(&content);
    if let Some(token) = first_control_token(words.as_str()) {
        let mut m = joined("clean content still contains control token `", token);
        m.append("` after stripping");
        return Err(FormatError::Ingest(m));
    }
    let reasoning = match provider_reasoning(message) {
        Some(r) => Some(r),
        None => enclosed,
    };
    let reasoning_details = parse_reasoning_details(message.get("reasoning_details"));
    let tool_calls = match parse_tool_calls(message.get("tool_calls")) {
        Ok(c) => c,
        Err(e) => {
            return Err(e);
        },
    };
    let tool_call_id = match string_field(message, "tool_call_id") {
        Ok(t) => t,
        Err(e) => {
            return Err(e);
        },
    };
    let name = match string_field(message, "name") {
        Ok(t) => t,
        Err(e) => {
            return Err(e);
        },
    };
    Ok(
        Message {
            role: wire_role(message.get("role")),
            content,
            reasoning,
            reasoning_details,
            tool_calls,
            tool_call_id,
            name,
        },
    )
}

/// A leak is never stored: the text of a message that was read is clean.
pub proof fn what_is_read_is_clean(j: JsonView)
    requires
        ingested(j) is Ok,
    ensures
        clean(content_words(ingested(j)->Ok_0.content)),
{
}

/// Absent text and empty text are kept apart.
pub proof fn absent_text_is_not_empty_text(a: JsonView, b: JsonView)
    requires
        ingested(a) is Ok,
        ingested(b) is Ok,
        located(a) is Some,
        located(b) is Some,
        member(located(a)->0, "content"@) is None || member(located(a)->0, "content"@) == Some(
            JsonView::Null,
        ),
        member(located(b)->0, "content"@) matches Some(JsonView::Text(_)),
    ensures
        ingested(a)->Ok_0.content == ContentView::Null,
        ingested(b)->Ok_0.content is Text,
{
}

/// The arguments of a call are an object, whatever they came as; what they came as is kept where
/// that was text.
pub proof fn arguments_are_objects(j: Option<JsonView>)
    requires
        arguments_of(j) is Ok,
    ensures
        arguments_of(j)->Ok_0.0 is Object,
        (j matches Some(JsonView::Text(t))) ==> arguments_of(j)->Ok_0.1 == Some(j->0->Text_0),
        !(j matches Some(JsonView::Text(t))) ==> arguments_of(j)->Ok_0.1 is None,
{
}

/// A thought that opens a text is taken out of it, up to the first mark that closes it: what follows is
/// the answer. The mark of a channel stands on a line of its own.
pub proof fn a_leading_thought_is_taken_out(thought: Seq<char>, answer: Seq<char>)
    ensures
        (forall|k: int|
            0 <= k < thought.len() ==> !#[trigger] occurs_at(
                thought + "</think>"@ + answer,
                "</think>"@,
                k,
            )) ==> stripped("<think>"@ + thought + "</think>"@ + answer) == (answer, Some(thought)),
        (forall|k: int|
            0 <= k < thought.len() ==> !#[trigger] occurs_at(
                thought + "<channel|>"@ + answer,
                "<channel|>"@,
                k,
            )) ==> stripped("<|channel>thought\n"@ + thought + "<channel|>"@ + answer) == (
            answer,
            Some(
                if thought.len() > 0 && thought.last() == '\n' {
                    thought.drop_last()
                } else {
                    thought
                },
            ),
        ),
{
    reveal_strlit("<think>");
    reveal_strlit("</think>");
    reveal_strlit("<|channel>thought\n");
    reveal_strlit("<channel|>");
    if forall|k: int|
        0 <= k < thought.len() ==> !#[trigger] occurs_at(
            thought + "</think>"@ + answer,
            "</think>"@,
            k,
        ) {
        lemma_taken_out("<think>"@, thought, "</think>"@, answer, false);
    }
    if forall|k: int|
        0 <= k < thought.len() ==> !#[trigger] occurs_at(
            thought + "<channel|>"@ + answer,
            "<channel|>"@,
            k,
        ) {
        let text = "<|channel>thought\n"@ + thought + "<channel|>"@ + answer;
        lemma_taken_out("<|channel>thought\n"@, thought, "<channel|>"@, answer, true);
        assert("<think>"@[1] == 't' && "<|channel>thought\n"@[1] == '|');
        if begins(text, "<think>"@) {
            assert(text.subrange(0, "<think>"@.len() as int)[1] == text[1]);
        }
    }
}

proof fn lemma_taken_out(
    open: Seq<char>,
    thought: Seq<char>,
    close: Seq<char>,
    answer: Seq<char>,
    framed: bool,
)
    requires
        close.len() > 0,
        forall|k: int|
            0 <= k < thought.len() ==> !#[trigger] occurs_at(thought + close + answer, close, k),
    ensures
        enclosed(open + thought + close + answer, open, close, framed) == Some(
            (
                answer,
                if framed && thought.len() > 0 && thought.last() == '\n' {
                    thought.drop_last()
                } else {
                    thought
                },
            ),
        ),
{
    let text = open + thought + close + answer;
    let rest = thought + close + answer;
    assert(text.subrange(0, open.len() as int) =~= open);
    assert(text.skip(open.len() as int) =~= rest);
    let n = thought.len() as int;
    assert(rest.subrange(n, n + close.len()) =~= close);
    assert(first_at(rest, close, n));
    lemma_find_is_first(rest, close, n);
    assert(rest.take(n) =~= thought);
    assert(rest.skip(n + close.len()) =~= answer);
}

/// A text that opens with no mark of a thought is kept as it is.
pub proof fn a_text_without_a_leading_thought_is_kept(text: Seq<char>)
    requires
        !begins(text, "<think>"@),
        !begins(text, "<|channel>thought\n"@),
        !begins(text, "<|start|>assistant<|channel|>analysis<|message|>"@),
    ensures
        stripped(text) == (text, None::<Seq<char>>),
{
}

/// In Harmony the analysis is the thought, and what follows the mark of the final channel, up to the
/// mark of its end, is the answer.
pub proof fn a_harmony_analysis_is_taken_out(thought: Seq<char>, answer: Seq<char>, behind: Seq<char>)
    requires
        forall|k: int|
            0 <= k < thought.len() ==> !#[trigger] occurs_at(
                thought + "<|end|>"@ + ("<|start|>assistant<|channel|>final<|message|>"@ + answer
                    + "<|return|>"@ + behind),
                "<|end|>"@,
                k,
            ),
        forall|k: int|
            0 <= k < answer.len() ==> !#[trigger] occurs_at(
                answer + "<|return|>"@ + behind,
                "<|return|>"@,
                k,
            ),
    ensures
        stripped(
            "<|start|>assistant<|channel|>analysis<|message|>"@ + thought + "<|end|>"@ + (
            "<|start|>assistant<|channel|>final<|message|>"@ + answer + "<|return|>"@ + behind),
        ) == (answer, Some(thought)),
{
    reveal_strlit("<think>");
    reveal_strlit("<|channel>thought\n");
    reveal_strlit("<|start|>assistant<|channel|>analysis<|message|>");
    reveal_strlit("<|start|>assistant<|channel|>final<|message|>");
    reveal_strlit("<|end|>");
    reveal_strlit("<|return|>");
    let open = "<|start|>assistant<|channel|>analysis<|message|>"@;
    let middle = "<|start|>assistant<|channel|>final<|message|>"@;
    let tail = answer + "<|return|>"@ + behind;
    let rest = middle + answer + "<|return|>"@ + behind;
    let text = open + thought + "<|end|>"@ + rest;
    assert(rest =~= middle + tail);
    lemma_taken_out(open, thought, "<|end|>"@, rest, false);
    assert("<think>"@[1] == 't' && "<|channel>thought\n"@[2] == 'c' && open[1] == '|' && open[2] == 's');
    assert(text[1] == open[1] && text[2] == open[2]);
    if begins(text, "<think>"@) {
        assert(text.subrange(0, "<think>"@.len() as int)[1] == text[1]);
    }
    if begins(text, "<|channel>thought\n"@) {
        assert(text.subrange(0, "<|channel>thought\n"@.len() as int)[2] == text[2]);
    }
    assert(rest.subrange(0, middle.len() as int) =~= middle);
    assert(rest.skip(middle.len() as int) =~= tail);
    let n = answer.len() as int;
    assert(tail.subrange(n, n + "<|return|>"@.len()) =~= "<|return|>"@);
    assert(first_at(tail, "<|return|>"@, n));
    lemma_find_is_first(tail, "<|return|>"@, n);
    assert(tail.take(n) =~= answer);
}

/// Every call of a message is read, in order, or none: the calls are as many as the entries, and each is
/// what its entry is read as.
pub proof fn every_call_is_read(items: Seq<JsonView>)
    ensures
        match calls_of(items) {
            Ok(calls) => calls.len() == items.len() && forall|i: int|
                0 <= i < items.len() ==> call_of(items[i]) == Ok::<ToolCallView, FormatErrorView>(
                    #[trigger] calls[i],
                ),
            Err(_) => exists|i: int| 0 <= i < items.len() && call_of(#[trigger] items[i]) is Err,
        },
    decreases items.len(),
{
    if items.len() > 0 {
        let before = items.drop_last();
        every_call_is_read(before);
        match calls_of(before) {
            Ok(most) => match calls_of(items) {
                Ok(calls) => {
                    assert forall|i: int| 0 <= i < items.len() implies call_of(items[i]) == Ok::<
                        ToolCallView,
                        FormatErrorView,
                    >(#[trigger] calls[i]) by {
                        if i < before.len() {
                            assert(most[i] == calls[i]);
                            assert(before[i] == items[i]);
                        }
                    }
                },
                Err(_) => {
                    assert(call_of(items[items.len() - 1]) is Err);
                },
            },
            Err(_) => {
                let i = choose|i: int| 0 <= i < before.len() && call_of(#[trigger] before[i]) is Err;
                assert(items[i] == before[i]);
            },
        }
    }
}

/// A call is read off its entry: its identifier where there is one, the name of the tool, and the
/// arguments, an object as it is or one decoded from its text, which is kept beside it.
pub proof fn a_call_is_its_entry(j: JsonView)
    requires
        call_of(j) is Ok,
    ensures
        ({
            let c = call_of(j)->Ok_0;
            let f = member(j, "function"@)->0;
            &&& member(j, "function"@) is Some
            &&& match member(j, "id"@) {
                Some(JsonView::Text(id)) => c.id == Some(id),
                _ => c.id is None,
            }
            &&& member(f, "name"@) == Some(JsonView::Text(c.function.name))
            &&& match member(f, "arguments"@) {
                Some(JsonView::Object(m)) => c.function.arguments == JsonView::Object(m)
                    && c.function.raw_arguments is None,
                Some(JsonView::Text(t)) => decoded(t) == Ok::<JsonView, Seq<char>>(
                    c.function.arguments,
                ) && c.function.raw_arguments == Some(t),
                _ => c.function.arguments == JsonView::Object(Seq::empty())
                    && c.function.raw_arguments is None,
            }
        }),
{
}

/// Every part of a content is read, in order, or none.
pub proof fn every_part_is_read(items: Seq<JsonView>)
    ensures
        match parts_of(items) {
            Ok(parts) => parts.len() == items.len() && forall|i: int|
                0 <= i < items.len() ==> part_of(items[i]) == Some(#[trigger] parts[i]),
            Err(n) => n < items.len() && part_of(items[n as int]) is None && forall|i: int|
                0 <= i < n ==> part_of(#[trigger] items[i]) is Some,
        },
    decreases items.len(),
{
    if items.len() > 0 {
        let before = items.drop_last();
        every_part_is_read(before);
        assert forall|i: int| 0 <= i < before.len() implies #[trigger] items[i] == before[i] by {}
        match parts_of(before) {
            Ok(most) => {
                assert forall|i: int| 0 <= i < before.len() implies part_of(
                    #[trigger] items[i],
                ) is Some by {
                    assert(most[i] == most[i]);
                    assert(items[i] == before[i]);
                }
                if let Ok(parts) = parts_of(items) {
                    assert forall|i: int| 0 <= i < items.len() implies part_of(items[i]) == Some(
                        #[trigger] parts[i],
                    ) by {
                        if i < before.len() {
                            assert(most[i] == parts[i]);
                            assert(items[i] == before[i]);
                        }
                    }
                }
            },
            Err(n) => {
                assert(items[n as int] == before[n as int]);
                assert forall|i: int| 0 <= i < n implies part_of(#[trigger] items[i]) is Some by {
                    assert(items[i] == before[i]);
                }
            },
        }
    }
}

/// Of a list of reasoning blocks every readable one is kept, in order, and the others are passed over.
pub proof fn readable_blocks_are_kept(a: Seq<JsonView>, b: Seq<JsonView>, j: JsonView)
    ensures
        blocks_of(a + b) == blocks_of(a) + blocks_of(b),
        blocks_of(seq![j]) == (match block_of(j) {
            Some(d) => seq![d],
            None => Seq::empty(),
        }),
        blocks_of(Seq::empty()) == Seq::<ReasoningDetailView>::empty(),
    decreases b.len(),
{
    assert(seq![j].drop_last() =~= Seq::empty());
    assert(blocks_of(seq![j].drop_last()) =~= Seq::empty());
    assert(blocks_of(seq![j]) =~= (match block_of(j) {
        Some(d) => seq![d],
        None => Seq::empty(),
    }));
    if b.len() == 0 {
        assert(a + b =~= a);
        assert(blocks_of(a) + blocks_of(b) =~= blocks_of(a));
    } else {
        readable_blocks_are_kept(a, b.drop_last(), j);
        assert((a + b).drop_last() =~= a + b.drop_last());
        assert((a + b).last() == b.last());
        assert(blocks_of(a + b) =~= blocks_of(a) + blocks_of(b));
    }
}

/// A message is read off its members: who speaks, what is said, the thought told beside it before one
/// told inside it, the blocks, the calls, and what it answers and is called.
pub proof fn a_message_is_its_members(j: JsonView)
    requires
        ingested(j) is Ok,
        member(j, "content"@) is Some || member(j, "reasoning"@) is Some || (member(j, "choices"@) is None
            && (member(j, "role"@) is Some || member(j, "reasoning_content"@) is Some || member(
            j,
            "reasoning_details"@,
        ) is Some || member(j, "tool_calls"@) is Some || member(j, "tool_call_id"@) is Some || member(
            j,
            "name"@,
        ) is Some)),
    ensures
        ({
            let m = ingested(j)->Ok_0;
            let beside = match member(j, "reasoning"@) {
                Some(r) => Some(r),
                None => member(j, "reasoning_content"@),
            };
            &&& match member(j, "role"@) {
                Some(JsonView::Text(t)) => {
                    &&& t == "system"@ ==> m.role == Role::System
                    &&& t == "developer"@ ==> m.role == Role::Developer
                    &&& t == "user"@ ==> m.role == Role::User
                    &&& t == "tool"@ ==> m.role == Role::Tool
                    &&& t != "system"@ && t != "developer"@ && t != "user"@ && t != "tool"@ ==> m.role
                        == Role::Assistant
                },
                _ => m.role == Role::Assistant,
            }
            &&& match member(j, "content"@) {
                Some(JsonView::Text(t)) => m.content == ContentView::Text(stripped(t).0),
                Some(JsonView::Array(items)) => m.content is Parts && parts_of(items) == Ok::<
                    Seq<ContentPartView>,
                    nat,
                >(m.content->Parts_0),
                _ => m.content == ContentView::Null,
            }
            &&& match beside {
                Some(JsonView::Text(t)) => t.len() > 0 ==> m.reasoning == Some(t),
                _ => true,
            }
            &&& !(beside matches Some(JsonView::Text(t)) && t.len() > 0) ==> m.reasoning == (match member(
                j,
                "content"@,
            ) {
                Some(JsonView::Text(t)) => stripped(t).1,
                _ => None,
            })
            &&& match member(j, "tool_calls"@) {
                Some(JsonView::Array(items)) => if items.len() == 0 {
                    m.tool_calls is None
                } else {
                    m.tool_calls is Some && calls_of(items) == Ok::<Seq<ToolCallView>, FormatErrorView>(
                        m.tool_calls->0,
                    )
                },
                _ => m.tool_calls is None,
            }
            &&& match member(j, "reasoning_details"@) {
                Some(JsonView::Array(items)) => if blocks_of(items).len() == 0 {
                    m.reasoning_details is None
                } else {
                    m.reasoning_details == Some(blocks_of(items))
                },
                _ => m.reasoning_details is None,
            }
            &&& match member(j, "tool_call_id"@) {
                Some(JsonView::Text(t)) => m.tool_call_id == Some(t),
                _ => m.tool_call_id is None,
            }
            &&& match member(j, "name"@) {
                Some(JsonView::Text(t)) => m.name == Some(t),
                _ => m.name is None,
            }
        }),
{
    if let Some(JsonView::Array(items)) = member(j, "tool_calls"@) {
        every_call_is_read(items);
    }
    reveal_strlit("system");
    reveal_strlit("developer");
    reveal_strlit("user");
    reveal_strlit("tool");
    assert("system"@.len() == 6 && "developer"@.len() == 9 && "user"@.len() == 4 && "tool"@.len() == 4);
    assert("user"@[0] == 'u' && "tool"@[0] == 't');
}

/// A response is read as the message of its first choice, whatever the other choices hold.
pub proof fn the_first_choice_is_read(j: JsonView, choices: Seq<JsonView>, m: JsonView)
    requires
        member(j, "content"@) is None,
        member(j, "reasoning"@) is None,
        member(j, "choices"@) == Some(JsonView::Array(choices)),
        choices.len() > 0,
        member(choices[0], "message"@) == Some(m),
        member(m, "content"@) is Some || member(m, "reasoning"@) is Some,
    ensures
        ingested(j) == ingested(m),
{
}

/// A part of a content is its entry: a text with its words, or an image with its address; anything else is
/// no part.
pub proof fn a_part_is_its_entry(j: JsonView)
    ensures
        match part_of(j) {
            Some(ContentPartView::Text(t)) => member(j, "type"@) == Some(JsonView::Text("text"@))
                && member(j, "text"@) == Some(JsonView::Text(t)),
            Some(ContentPartView::ImageUrl(u)) => member(j, "type"@) == Some(
                JsonView::Text("image_url"@),
            ) && member(j, "image_url"@) == Some(JsonView::Text(u)),
            None => !(member(j, "type"@) == Some(JsonView::Text("text"@)) && member(j, "text"@) is Some
                && member(j, "text"@)->0 is Text) && !(member(j, "type"@) == Some(
                JsonView::Text("image_url"@),
            ) && member(j, "image_url"@) is Some && member(j, "image_url"@)->0 is Text),
        },
{
    reveal_strlit("text");
    reveal_strlit("image_url");
    assert("text"@.len() == 4 && "image_url"@.len() == 9);
}

/// A role is read as it is written.
pub proof fn a_role_is_read_as_it_is_written(role: Role)
    ensures
        role_of(Some(JsonView::Text(role_spelling(role)))) == role,
{
    reveal_strlit("system");
    reveal_strlit("developer");
    reveal_strlit("user");
    reveal_strlit("assistant");
    reveal_strlit("tool");
    assert("system"@.len() == 6 && "developer"@.len() == 9 && "user"@.len() == 4 && "assistant"@.len()
        == 9 && "tool"@.len() == 4);
    assert("developer"@[0] == 'd' && "assistant"@[0] == 'a' && "user"@[0] == 'u' && "tool"@[0] == 't');
}

/// When a call is owed: its entry is an object, its identifier a text or none, its function an object with
/// a name, and its arguments an object, the text of one, or none.
pub proof fn a_call_is_owed_to_a_sound_entry(j: JsonView)
    ensures
        call_of(j) is Ok <==> {
            let f = member(j, "function"@);
            let args = member(f->0, "arguments"@);
            &&& j is Object
            &&& member(j, "id"@) is None || member(j, "id"@)->0 is Null || member(j, "id"@)->0 is Text
            &&& f is Some && f->0 is Object
            &&& member(f->0, "name"@) is Some && member(f->0, "name"@)->0 is Text
            &&& args is None || args->0 is Null || args->0 is Object || (args->0 is Text && decoded(
                args->0->Text_0,
            ) is Ok && decoded(args->0->Text_0)->Ok_0 is Object)
        },
{
}

/// When a message is owed: its content is text, parts or none, no control token is left in it, its calls
/// are sound, and what it answers and is called are texts or none.
pub proof fn a_message_is_owed_to_sound_members(j: JsonView)
    requires
        member(j, "content"@) is Some || member(j, "reasoning"@) is Some || (member(j, "choices"@) is None
            && (member(j, "role"@) is Some || member(j, "reasoning_content"@) is Some || member(
            j,
            "reasoning_details"@,
        ) is Some || member(j, "tool_calls"@) is Some || member(j, "tool_call_id"@) is Some || member(
            j,
            "name"@,
        ) is Some)),
    ensures
        ingested(j) is Ok <==> {
            let content = member(j, "content"@);
            let calls = member(j, "tool_calls"@);
            let link = member(j, "tool_call_id"@);
            let name = member(j, "name"@);
            let words = match content {
                Some(JsonView::Text(t)) => stripped(t).0,
                Some(JsonView::Array(items)) => content_words(
                    ContentView::Parts(parts_of(items)->Ok_0),
                ),
                _ => Seq::empty(),
            };
            &&& content is None || content->0 is Null || content->0 is Text || (content->0 is Array
                && parts_of(content->0->Array_0) is Ok)
            &&& clean(words)
            &&& calls is None || calls->0 is Null || (calls->0 is Array && calls_of(
                calls->0->Array_0,
            ) is Ok)
            &&& link is None || link->0 is Null || link->0 is Text
            &&& name is None || name->0 is Null || name->0 is Text
        },
{
}

} // verus!
