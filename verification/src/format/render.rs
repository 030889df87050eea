//! Rendering a conversation for a training target.
//!
//! The text of a message stays clean; the markup of the target is written around it from the chain
//! of thought that stands beside it. Whether the chain of thought is masked in training is left to
//! the trainer, so masking changes nothing of what is rendered.

use vstd::prelude::*;

use crate::format::error::{FormatError, FormatErrorView, ToolCallRecovery, ToolSignal};
use crate::format::ingest::{HARMONY_ANALYSIS, HARMONY_FINAL};
use crate::format::validate::first_leak;
use crate::format::validate::validate_clean;
use crate::json::{array_view, lemma_array_view, packed, pretty_text, text_if, JsonView};
use crate::json::{pretty_json, Json, JsonObject};
use crate::schema::message::{
    content_text,
    content_words,
    CotPolicy,
    Message,
    MessageView,
    Role,
    ToolCall,
    ToolCallView,
    TrlFormat,
};
use crate::wire::role_spelling;
use crate::wire::role_word;

verus! {

/// A message as a policy shows it: with its chain of thought, or without.
pub open spec fn shown(m: MessageView, cot: CotPolicy) -> MessageView {
    MessageView {
        reasoning: match cot {
            CotPolicy::Stripped => None,
            _ => m.reasoning,
        },
        ..m
    }
}

/// A conversation as a policy shows it.
pub open spec fn shown_all(messages: Seq<MessageView>, cot: CotPolicy) -> Seq<MessageView> {
    messages.map_values(|m: MessageView| shown(m, cot))
}

/// The chain of thought that a policy shows of a message.
pub fn effective_reasoning(msg: &Message, cot: CotPolicy) -> (r: Option<&str>)
    ensures
        r.deep_view() == shown(msg.deep_view(), cot).reasoning,
{
    match cot {
        CotPolicy::Stripped => None,
        _ => match &msg.reasoning {
            Some(s) => Some(s.as_str()),
            None => None,
        },
    }
}

/// The chain of thought of an assistant's turn; other turns have none to render.
pub open spec fn thought(m: MessageView) -> Option<Seq<char>> {
    if m.role == Role::Assistant {
        m.reasoning
    } else {
        None
    }
}

/// The name of a role in ChatML.
pub open spec fn chatml_role(role: Role) -> Seq<char> {
    match role {
        Role::System => "system"@,
        Role::Developer => "system"@,
        Role::User => "user"@,
        Role::Assistant => "assistant"@,
        Role::Tool => "tool"@,
    }
}

/// The body of a turn in ChatML: the chain of thought in its markup, then the text.
pub open spec fn chatml_body(m: MessageView) -> Seq<char> {
    match thought(m) {
        Some(r) => "<think>"@ + r + "</think>"@ + content_words(m.content),
        None => content_words(m.content),
    }
}

/// A turn in ChatML.
pub open spec fn chatml_turn(m: MessageView) -> Seq<char> {
    "<|im_start|>"@ + chatml_role(m.role) + "\n"@ + chatml_body(m) + "<|im_end|>\n"@
}

/// A conversation in ChatML.
pub open spec fn chatml(messages: Seq<MessageView>) -> Seq<char>
    decreases messages.len(),
{
    if messages.len() == 0 {
        Seq::empty()
    } else {
        chatml(messages.drop_last()) + chatml_turn(messages.last())
    }
}

fn assistant_thought(msg: &Message, cot: CotPolicy) -> (r: Option<&str>)
    ensures
        r.deep_view() == thought(shown(msg.deep_view(), cot)),
{
    if msg.role == Role::Assistant {
        effective_reasoning(msg, cot)
    } else {
        None
    }
}

fn render_chatml_turn(msg: &Message, cot: CotPolicy) -> (s: String)
    ensures
        s@ == chatml_turn(shown(msg.deep_view(), cot)),
{
    let role = match msg.role {
        Role::System => "system",
        Role::Developer => "system",
        Role::User => "user",
        Role::Assistant => "assistant",
        Role::Tool => "tool",
    };
    let text = content_text(&msg.content);
    let body = match assistant_thought(msg, cot) {
        Some(r) => {
            let mut b = "<think>".to_owned();
            b.append(r);
            b.append("</think>");
            b.append(text.as_str());
            b
        },
        None => text,
    };
    let mut s = "<|im_start|>".to_owned();
    s.append(role);
    s.append("\n");
    s.append(body.as_str());
    s.append("<|im_end|>\n");
    s
}

fn render_chatml(messages: &[Message], cot: CotPolicy) -> (s: String)
    ensures
        s@ == chatml(shown_all(messages.deep_view(), cot)),
{
    let ghost view = shown_all(messages.deep_view(), cot);
    let mut s = String::new();
    let mut i: usize = 0;
    assert(view.take(0) =~= Seq::empty());
    assert(s@ =~= Seq::<char>::empty());
    while i < messages.len()
        invariant
            i <= messages@.len(),
            view == shown_all(messages.deep_view(), cot),
            s@ == chatml(view.take(i as int)),
        decreases messages@.len() - i,
    {
        proof {
            assert(view.take(i + 1).drop_last() =~= view.take(i as int));
            assert(view.take(i + 1).last() == shown(messages@[i as int].deep_view(), cot));
        }
        let turn = render_chatml_turn(&messages[i], cot);
        s.append(turn.as_str());
        i += 1;
    }
    assert(view.take(i as int) =~= view);
    s
}

/// The body of an assistant's turn in Harmony: the analysis, where there is one, then the answer.
pub open spec fn harmony_body(m: MessageView) -> Seq<char> {
    match thought(m) {
        Some(r) => HARMONY_ANALYSIS@ + r + "<|end|>"@ + HARMONY_FINAL@ + content_words(m.content)
            + "<|return|>"@,
        None => HARMONY_FINAL@ + content_words(m.content) + "<|return|>"@,
    }
}

/// A turn in Harmony.
pub open spec fn harmony_turn(m: MessageView) -> Seq<char> {
    if m.role == Role::Assistant {
        harmony_body(m)
    } else {
        "<|start|>"@ + role_spelling(m.role) + "<|message|>"@ + content_words(m.content)
            + "<|end|>"@
    }
}

/// A conversation in Harmony.
pub open spec fn harmony(messages: Seq<MessageView>) -> Seq<char>
    decreases messages.len(),
{
    if messages.len() == 0 {
        Seq::empty()
    } else {
        harmony(messages.drop_last()) + harmony_turn(messages.last())
    }
}

fn render_harmony_turn(msg: &Message, cot: CotPolicy) -> (s: String)
    ensures
        s@ == harmony_turn(shown(msg.deep_view(), cot)),
{
    let text = content_text(&msg.content);
    if msg.role == Role::Assistant {
        match effective_reasoning(msg, cot) {
            Some(r) => {
                let mut s = HARMONY_ANALYSIS.to_owned();
                s.append(r);
                s.append("<|end|>");
                s.append(HARMONY_FINAL);
                s.append(text.as_str());
                s.append("<|return|>");
                s
            },
            None => {
                let mut s = HARMONY_FINAL.to_owned();
                s.append(text.as_str());
                s.append("<|return|>");
                s
            },
        }
    } else {
        let mut s = "<|start|>".to_owned();
        s.append(role_word(msg.role));
        s.append("<|message|>");
        s.append(text.as_str());
        s.append("<|end|>");
        s
    }
}

fn render_harmony(messages: &[Message], cot: CotPolicy) -> (s: String)
    ensures
        s@ == harmony(shown_all(messages.deep_view(), cot)),
{
    let ghost view = shown_all(messages.deep_view(), cot);
    let mut s = String::new();
    let mut i: usize = 0;
    assert(view.take(0) =~= Seq::empty());
    assert(s@ =~= Seq::<char>::empty());
    while i < messages.len()
        invariant
            i <= messages@.len(),
            view == shown_all(messages.deep_view(), cot),
            s@ == harmony(view.take(i as int)),
        decreases messages@.len() - i,
    {
        proof {
            assert(view.take(i + 1).drop_last() =~= view.take(i as int));
            assert(view.take(i + 1).last() == shown(messages@[i as int].deep_view(), cot));
        }
        let turn = render_harmony_turn(&messages[i], cot);
        s.append(turn.as_str());
        i += 1;
    }
    assert(view.take(i as int) =~= view);
    s
}

/// A turn of Gemma-4, which has only the model's turns and the user's.
struct GemmaTurn {
    model: bool,
    content: String,
    reasoning: Option<String>,
}

/// What a turn of Gemma-4 is, as mathematics.
#[verifier::ext_equal]
pub struct GemmaTurnView {
    /// Whether it is the model's.
    pub model: bool,
    /// The text.
    pub content: Seq<char>,
    /// The chain of thought.
    pub reasoning: Option<Seq<char>>,
}

impl DeepView for GemmaTurn {
    type V = GemmaTurnView;

    closed spec fn deep_view(&self) -> GemmaTurnView {
        GemmaTurnView {
            model: self.model,
            content: self.content@,
            reasoning: self.reasoning.deep_view(),
        }
    }
}

/// The turns so far, and the system's text that waits for the next turn of the user.
#[verifier::ext_equal]
pub struct GemmaFold {
    /// The turns.
    pub turns: Seq<GemmaTurnView>,
    /// The text that waits.
    pub pending: Option<Seq<char>>,
}

/// The turns after one more message: a system's text waits, behind what waits already; a user's
/// turn takes what waits before its own text; an assistant's turn is the model's.
pub open spec fn gemma_step(f: GemmaFold, m: MessageView) -> GemmaFold {
    let text = content_words(m.content);
    match m.role {
        Role::System | Role::Developer => GemmaFold {
            pending: Some(
                match f.pending {
                    Some(before) => before + "\n\n"@ + text,
                    None => text,
                },
            ),
            ..f
        },
        Role::User | Role::Tool => {
            let content = match f.pending {
                Some(system) => if system.len() > 0 {
                    system + "\n\n"@ + text
                } else {
                    text
                },
                None => text,
            };
            GemmaFold {
                turns: f.turns.push(GemmaTurnView { model: false, content, reasoning: None }),
                pending: None,
            }
        },
        Role::Assistant => GemmaFold {
            turns: f.turns.push(
                GemmaTurnView { model: true, content: text, reasoning: m.reasoning },
            ),
            ..f
        },
    }
}

/// The turns of a conversation.
pub open spec fn gemma_fold(messages: Seq<MessageView>) -> GemmaFold
    decreases messages.len(),
{
    if messages.len() == 0 {
        GemmaFold { turns: Seq::empty(), pending: None }
    } else {
        gemma_step(gemma_fold(messages.drop_last()), messages.last())
    }
}

/// The turns of a conversation; a system's text that no user's turn took becomes one.
pub open spec fn gemma_turns(messages: Seq<MessageView>) -> Seq<GemmaTurnView> {
    let f = gemma_fold(messages);
    match f.pending {
        Some(system) => f.turns.push(
            GemmaTurnView { model: false, content: system, reasoning: None },
        ),
        None => f.turns,
    }
}

/// The body of a model's turn: a thought, which may be empty, then the text.
pub open spec fn gemma_body(content: Seq<char>, reasoning: Option<Seq<char>>) -> Seq<char> {
    match reasoning {
        Some(r) => "<|channel>thought\n"@ + r + "\n<channel|>"@ + content,
        None => "<|channel>thought\n<channel|>"@ + content,
    }
}

/// A turn of Gemma-4.
pub open spec fn gemma_turn(t: GemmaTurnView) -> Seq<char> {
    if t.model {
        "<|turn>model\n"@ + gemma_body(t.content, t.reasoning) + "<turn|>\n"@
    } else {
        "<|turn>user\n"@ + t.content + "<turn|>\n"@
    }
}

/// Turns of Gemma-4, behind the mark of the beginning.
pub open spec fn gemma_text(turns: Seq<GemmaTurnView>) -> Seq<char>
    decreases turns.len(),
{
    if turns.len() == 0 {
        "<bos>"@
    } else {
        gemma_text(turns.drop_last()) + gemma_turn(turns.last())
    }
}

/// A conversation in Gemma-4.
pub open spec fn gemma(messages: Seq<MessageView>) -> Seq<char> {
    gemma_text(gemma_turns(messages))
}

fn build_turns(messages: &[Message], cot: CotPolicy) -> (turns: Vec<GemmaTurn>)
    ensures
        turns.deep_view() == gemma_turns(shown_all(messages.deep_view(), cot)),
{
    let ghost view = shown_all(messages.deep_view(), cot);
    let mut turns: Vec<GemmaTurn> = Vec::new();
    let mut pending: Option<String> = None;
    let mut i: usize = 0;
    assert(view.take(0) =~= Seq::empty());
    assert(turns.deep_view() =~= Seq::empty());
    while i < messages.len()
        invariant
            i <= messages@.len(),
            view == shown_all(messages.deep_view(), cot),
            gemma_fold(view.take(i as int)) == (GemmaFold {
                turns: turns.deep_view(),
                pending: pending.deep_view(),
            }),
        decreases messages@.len() - i,
    {
        let msg = &messages[i];
        let ghost before = turns.deep_view();
        proof {
            assert(view.take(i + 1).drop_last() =~= view.take(i as int));
            assert(view.take(i + 1).last() == shown(msg.deep_view(), cot));
        }
        let text = content_text(&msg.content);
        match msg.role {
            Role::System | Role::Developer => {
                pending = match pending {
                    Some(system) => {
                        let mut s = system;
                        s.append("\n\n");
                        s.append(text.as_str());
                        Some(s)
                    },
                    None => Some(text),
                };
            },
            Role::User | Role::Tool => {
                let content = match pending {
                    Some(system) => if system.as_str().unicode_len() > 0 {
                        let mut s = system;
                        s.append("\n\n");
                        s.append(text.as_str());
                        s
                    } else {
                        text
                    },
                    None => text,
                };
                pending = None;
                let turn = GemmaTurn { model: false, content, reasoning: None };
                turns.push(turn);
                assert(turns.deep_view() =~= before.push(turn.deep_view()));
            },
            Role::Assistant => {
                let reasoning = match effective_reasoning(msg, cot) {
                    Some(r) => Some(r.to_owned()),
                    None => None,
                };
                let turn = GemmaTurn { model: true, content: text, reasoning };
                turns.push(turn);
                assert(turns.deep_view() =~= before.push(turn.deep_view()));
            },
        }
        i += 1;
    }
    assert(view.take(i as int) =~= view);
    if let Some(system) = pending {
        let ghost before = turns.deep_view();
        let turn = GemmaTurn { model: false, content: system, reasoning: None };
        turns.push(turn);
        assert(turns.deep_view() =~= before.push(turn.deep_view()));
    }
    turns
}

fn render_gemma_turn(turn: &GemmaTurn) -> (s: String)
    ensures
        s@ == gemma_turn(turn.deep_view()),
{
    if turn.model {
        let body = match &turn.reasoning {
            Some(r) => {
                let mut b = "<|channel>thought\n".to_owned();
                b.append(r.as_str());
                b.append("\n<channel|>");
                b.append(turn.content.as_str());
                b
            },
            None => {
                let mut b = "<|channel>thought\n<channel|>".to_owned();
                b.append(turn.content.as_str());
                b
            },
        };
        let mut s = "<|turn>model\n".to_owned();
        s.append(body.as_str());
        s.append("<turn|>\n");
        s
    } else {
        let mut s = "<|turn>user\n".to_owned();
        s.append(turn.content.as_str());
        s.append("<turn|>\n");
        s
    }
}

fn render_gemma(messages: &[Message], cot: CotPolicy) -> (s: String)
    ensures
        s@ == gemma(shown_all(messages.deep_view(), cot)),
{
    let turns = build_turns(messages, cot);
    let ghost view = turns.deep_view();
    let mut s = "<bos>".to_owned();
    let mut i: usize = 0;
    assert(view.take(0) =~= Seq::empty());
    while i < turns.len()
        invariant
            i <= turns@.len(),
            view == turns.deep_view(),
            s@ == gemma_text(view.take(i as int)),
        decreases turns@.len() - i,
    {
        proof {
            assert(view.take(i + 1).drop_last() =~= view.take(i as int));
            assert(view.take(i + 1).last() == turns@[i as int].deep_view());
        }
        let turn = render_gemma_turn(&turns[i]);
        s.append(turn.as_str());
        i += 1;
    }
    assert(view.take(i as int) =~= view);
    s
}

/// The name of a role in ShareGPT.
pub open spec fn sharegpt_role(role: Role) -> Seq<char> {
    match role {
        Role::System => "system"@,
        Role::Developer => "system"@,
        Role::User => "human"@,
        Role::Assistant => "gpt"@,
        Role::Tool => "tool"@,
    }
}

/// A turn in ShareGPT: the chain of thought stands beside the text.
pub open spec fn sharegpt_turn(m: MessageView) -> JsonView {
    JsonView::Object(
        seq![
            ("from"@, JsonView::Text(sharegpt_role(m.role))),
            ("value"@, JsonView::Text(content_words(m.content))),
        ] + text_if("reasoning"@, thought(m)),
    )
}

/// A conversation in ShareGPT.
pub open spec fn sharegpt(messages: Seq<MessageView>) -> JsonView {
    JsonView::Object(
        seq![
            (
                "conversations"@,
                JsonView::Array(messages.map_values(|m: MessageView| sharegpt_turn(m))),
            ),
        ],
    )
}

fn build_sharegpt_turn(msg: &Message, cot: CotPolicy) -> (j: Json)
    ensures
        j@ == sharegpt_turn(shown(msg.deep_view(), cot)),
{
    let role = match msg.role {
        Role::System => "system",
        Role::Developer => "system",
        Role::User => "human",
        Role::Assistant => "gpt",
        Role::Tool => "tool",
    };
    let text = content_text(&msg.content);
    let mut o = JsonObject::new();
    o.put_text("from", role);
    o.put_text("value", text.as_str());
    if let Some(r) = assistant_thought(msg, cot) {
        o.put_text("reasoning", r);
    }
    assert(o@ =~= sharegpt_turn(shown(msg.deep_view(), cot))->Object_0);
    o.finish()
}

fn build_sharegpt(messages: &[Message], cot: CotPolicy) -> (j: Json)
    ensures
        j@ == sharegpt(shown_all(messages.deep_view(), cot)),
{
    let ghost view = shown_all(messages.deep_view(), cot);
    let mut items: Vec<Json> = Vec::new();
    let mut i: usize = 0;
    while i < messages.len()
        invariant
            i <= messages@.len(),
            items@.len() == i,
            forall|k: int|
                0 <= k < i ==> (#[trigger] items@[k])@ == sharegpt_turn(
                    shown(messages@[k].deep_view(), cot),
                ),
        decreases messages@.len() - i,
    {
        items.push(build_sharegpt_turn(&messages[i], cot));
        i += 1;
    }
    proof {
        lemma_array_view(items);
        assert(array_view(items@) =~= view.map_values(|m: MessageView| sharegpt_turn(m)));
    }
    let mut o = JsonObject::new();
    o.put("conversations", Json::Array(items));
    assert(o@ =~= sharegpt(view)->Object_0);
    o.finish()
}

/// A tool call in the OpenAI shape.
pub open spec fn openai_call(c: ToolCallView) -> JsonView {
    JsonView::Object(
        text_if("id"@, c.id) + seq![
            (
                "function"@,
                JsonView::Object(
                    seq![
                        ("name"@, JsonView::Text(c.function.name)),
                        ("arguments"@, c.function.arguments),
                    ] + text_if("raw_arguments"@, c.function.raw_arguments),
                ),
            ),
        ],
    )
}

/// The tool calls of a message in the OpenAI shape, where it has any.
pub open spec fn openai_calls(calls: Option<Seq<ToolCallView>>) -> Seq<(Seq<char>, JsonView)> {
    match calls {
        Some(c) => seq![
            ("tool_calls"@, JsonView::Array(c.map_values(|x: ToolCallView| openai_call(x)))),
        ],
        None => Seq::empty(),
    }
}

/// A message in the OpenAI shape: the chain of thought, the calls and the link stand beside the
/// text.
pub open spec fn openai_message(m: MessageView) -> JsonView {
    JsonView::Object(
        seq![
            ("role"@, JsonView::Text(role_spelling(m.role))),
            ("content"@, JsonView::Text(content_words(m.content))),
        ] + text_if("reasoning"@, thought(m)) + text_if("name"@, m.name) + text_if(
            "tool_call_id"@,
            m.tool_call_id,
        ) + openai_calls(m.tool_calls),
    )
}

/// Messages in the OpenAI shape.
pub open spec fn openai_list(messages: Seq<MessageView>) -> JsonView {
    JsonView::Array(messages.map_values(|m: MessageView| openai_message(m)))
}

/// A conversation in the OpenAI shape.
pub open spec fn openai(messages: Seq<MessageView>) -> JsonView {
    JsonView::Object(seq![("messages"@, openai_list(messages))])
}

/// A conversation as a prompt and a completion: the last message is the completion.
pub open spec fn prompt_completion(messages: Seq<MessageView>) -> JsonView {
    JsonView::Object(
        seq![
            ("prompt"@, openai_list(messages.drop_last())),
            ("completion"@, openai_list(seq![messages.last()])),
        ],
    )
}

fn build_call(c: &ToolCall) -> (j: Json)
    ensures
        j@ == openai_call(c.deep_view()),
{
    let mut f = JsonObject::new();
    f.put_text("name", c.function.name.as_str());
    f.put("arguments", c.function.arguments.clone());
    f.put_optional("raw_arguments", &c.function.raw_arguments);
    assert(f@ =~= seq![
        ("name"@, JsonView::Text(c.function.name@)),
        ("arguments"@, c.function.arguments@),
    ] + text_if("raw_arguments"@, c.function.raw_arguments.deep_view()));
    let mut o = JsonObject::new();
    o.put_optional("id", &c.id);
    o.put("function", f.finish());
    assert(o@ =~= openai_call(c.deep_view())->Object_0);
    o.finish()
}

fn build_calls(calls: &Vec<ToolCall>) -> (j: Json)
    ensures
        j@ == JsonView::Array(calls.deep_view().map_values(|x: ToolCallView| openai_call(x))),
{
    let mut items: Vec<Json> = Vec::new();
    let mut i: usize = 0;
    while i < calls.len()
        invariant
            i <= calls@.len(),
            items@.len() == i,
            forall|k: int|
                0 <= k < i ==> (#[trigger] items@[k])@ == openai_call(calls@[k].deep_view()),
        decreases calls@.len() - i,
    {
        items.push(build_call(&calls[i]));
        i += 1;
    }
    proof {
        lemma_array_view(items);
        assert(array_view(items@) =~= calls.deep_view().map_values(
            |x: ToolCallView| openai_call(x),
        ));
    }
    Json::Array(items)
}

fn build_openai_message(msg: &Message, cot: CotPolicy) -> (j: Json)
    ensures
        j@ == openai_message(shown(msg.deep_view(), cot)),
{
    let ghost m = shown(msg.deep_view(), cot);
    let text = content_text(&msg.content);
    let mut o = JsonObject::new();
    o.put_text("role", role_word(msg.role));
    o.put_text("content", text.as_str());
    if let Some(r) = assistant_thought(msg, cot) {
        o.put_text("reasoning", r);
    }
    assert(o@ =~= seq![
        ("role"@, JsonView::Text(role_spelling(m.role))),
        ("content"@, JsonView::Text(content_words(m.content))),
    ] + text_if("reasoning"@, thought(m)));
    o.put_optional("name", &msg.name);
    o.put_optional("tool_call_id", &msg.tool_call_id);
    let ghost before = o@;
    if let Some(calls) = &msg.tool_calls {
        o.put("tool_calls", build_calls(calls));
    }
    assert(o@ =~= before + openai_calls(m.tool_calls));
    o.finish()
}

fn build_openai_list(messages: &[Message], from: usize, to: usize, cot: CotPolicy) -> (j: Json)
    requires
        from <= to <= messages@.len(),
    ensures
        j@ == openai_list(
            shown_all(messages.deep_view(), cot).subrange(from as int, to as int),
        ),
{
    let ghost view = shown_all(messages.deep_view(), cot).subrange(from as int, to as int);
    let mut items: Vec<Json> = Vec::new();
    let mut i: usize = from;
    while i < to
        invariant
            from <= i <= to <= messages@.len(),
            view == shown_all(messages.deep_view(), cot).subrange(from as int, to as int),
            items@.len() == i - from,
            forall|k: int|
                0 <= k < i - from ==> (#[trigger] items@[k])@ == openai_message(view[k]),
        decreases to - i,
    {
        assert(view[i - from] == shown(messages@[i as int].deep_view(), cot));
        items.push(build_openai_message(&messages[i], cot));
        i += 1;
    }
    proof {
        lemma_array_view(items);
        assert(array_view(items@) =~= view.map_values(|m: MessageView| openai_message(m)));
    }
    Json::Array(items)
}

fn build_openai(messages: &[Message], cot: CotPolicy) -> (j: Json)
    ensures
        j@ == openai(shown_all(messages.deep_view(), cot)),
{
    let ghost view = shown_all(messages.deep_view(), cot);
    assert(view.subrange(0, messages@.len() as int) =~= view);
    let mut o = JsonObject::new();
    o.put("messages", build_openai_list(messages, 0, messages.len(), cot));
    assert(o@ =~= openai(view)->Object_0);
    o.finish()
}

fn build_prompt_completion(messages: &[Message], cot: CotPolicy) -> (j: Json)
    requires
        messages@.len() > 0,
    ensures
        j@ == prompt_completion(shown_all(messages.deep_view(), cot)),
{
    let ghost view = shown_all(messages.deep_view(), cot);
    let last: usize = messages.len() - 1;
    assert(view.subrange(0, last as int) =~= view.drop_last());
    assert(view.subrange(last as int, messages@.len() as int) =~= seq![view.last()]);
    let mut o = JsonObject::new();
    o.put("prompt", build_openai_list(messages, 0, last, cot));
    o.put("completion", build_openai_list(messages, last, messages.len(), cot));
    assert(o@ =~= prompt_completion(view)->Object_0);
    o.finish()
}

/// A document as indented text.
pub open spec fn document(j: JsonView) -> Result<Seq<char>, FormatErrorView> {
    match pretty_text(packed(j)) {
        Ok(s) => Ok(s),
        Err(e) => Err(FormatErrorView::Serde(e)),
    }
}

fn write_document(j: &Json) -> (r: Result<String, FormatError>)
    ensures
        match r {
            Ok(s) => document(j@) == Ok::<Seq<char>, FormatErrorView>(s@),
            Err(e) => document(j@) == Err::<Seq<char>, FormatErrorView>(e.deep_view()),
        },
{
    match pretty_json(j) {
        Ok(s) => Ok(s),
        Err(e) => Err(FormatError::from(e)),
    }
}

/// Whether a target has a place for a tool trajectory.
pub open spec fn keeps_tools(target: TrlFormat) -> bool {
    target == TrlFormat::OpenAiMessages || target == TrlFormat::TrlPromptCompletion
}

/// Whether a message calls tools.
pub open spec fn calls_tools(m: MessageView) -> bool {
    m.tool_calls is Some && m.tool_calls->0.len() > 0
}

/// Whether a message shows a sign.
pub open spec fn shows(m: MessageView, signal: ToolSignal) -> bool {
    match signal {
        ToolSignal::ToolCalls => calls_tools(m),
        ToolSignal::ToolCallId => m.tool_call_id is Some,
        ToolSignal::ToolRole => m.role == Role::Tool,
    }
}

/// Whether one of the messages shows a sign.
pub open spec fn shown_by_some(messages: Seq<MessageView>, signal: ToolSignal) -> bool {
    exists|i: int| 0 <= i < messages.len() && shows(#[trigger] messages[i], signal)
}

/// Whether a message shows any sign of a tool trajectory.
pub open spec fn has_tools(m: MessageView) -> bool {
    shows(m, ToolSignal::ToolCalls) || shows(m, ToolSignal::ToolCallId) || shows(
        m,
        ToolSignal::ToolRole,
    )
}

/// The sign, where one of the messages shows it.
pub open spec fn if_shown(messages: Seq<MessageView>, signal: ToolSignal) -> Seq<ToolSignal> {
    if shown_by_some(messages, signal) {
        seq![signal]
    } else {
        Seq::empty()
    }
}

/// The signs that a conversation shows, each once.
pub open spec fn signals_in(messages: Seq<MessageView>) -> Seq<ToolSignal> {
    if_shown(messages, ToolSignal::ToolCalls) + if_shown(messages, ToolSignal::ToolCallId)
        + if_shown(messages, ToolSignal::ToolRole)
}

/// The place of the first message that shows a sign.
pub open spec fn first_with_tools(messages: Seq<MessageView>) -> Option<int>
    decreases messages.len(),
{
    if messages.len() == 0 {
        None
    } else {
        match first_with_tools(messages.drop_last()) {
            Some(i) => Some(i),
            None => if has_tools(messages.last()) {
                Some(messages.len() - 1)
            } else {
                None
            },
        }
    }
}

/// Why a target refuses a conversation: it has no place for the tool trajectory in it.
pub open spec fn refusal(messages: Seq<MessageView>, target: TrlFormat) -> Option<FormatErrorView> {
    if keeps_tools(target) {
        None
    } else {
        match first_with_tools(messages) {
            Some(i) => Some(
                FormatErrorView::UnsupportedToolCalls {
                    format: target,
                    signals: signals_in(messages),
                    index: i as usize,
                    recovery: ToolCallRecovery::CanonicalExportAndOfficialTemplate,
                },
            ),
            None => None,
        }
    }
}

fn message_shows(m: &Message, signal: ToolSignal) -> (r: bool)
    ensures
        r == shows(m.deep_view(), signal),
{
    match signal {
        ToolSignal::ToolCalls => match &m.tool_calls {
            Some(calls) => {
                assert(calls.deep_view().len() == calls@.len());
                calls.len() > 0
            },
            None => false,
        },
        ToolSignal::ToolCallId => m.tool_call_id.is_some(),
        ToolSignal::ToolRole => m.role == Role::Tool,
    }
}

fn push_if_shown(signals: &mut Vec<ToolSignal>, messages: &[Message], signal: ToolSignal)
    ensures
        final(signals)@ == old(signals)@ + if_shown(messages.deep_view(), signal),
{
    let ghost view = messages.deep_view();
    let mut i: usize = 0;
    while i < messages.len()
        invariant
            i <= messages@.len(),
            view == messages.deep_view(),
            signals@ == old(signals)@,
            forall|k: int| 0 <= k < i ==> !shows(#[trigger] view[k], signal),
        decreases messages@.len() - i,
    {
        assert(view[i as int] == messages@[i as int].deep_view());
        if message_shows(&messages[i], signal) {
            signals.push(signal);
            assert(shown_by_some(view, signal));
            assert(signals@ =~= old(signals)@ + if_shown(view, signal));
            return;
        }
        i += 1;
    }
    assert(!shown_by_some(view, signal));
    assert(signals@ =~= old(signals)@ + if_shown(view, signal));
}

proof fn lemma_first_stays(messages: Seq<MessageView>, n: int)
    requires
        0 <= n <= messages.len(),
        first_with_tools(messages.take(n)) is Some,
    ensures
        first_with_tools(messages) == first_with_tools(messages.take(n)),
    decreases messages.len() - n,
{
    if n < messages.len() {
        assert(messages.take(n + 1).drop_last() =~= messages.take(n));
        lemma_first_stays(messages, n + 1);
    } else {
        assert(messages.take(n) =~= messages);
    }
}

fn find_tools(messages: &[Message]) -> (r: Option<usize>)
    ensures
        match r {
            Some(i) => first_with_tools(messages.deep_view()) == Some(i as int),
            None => first_with_tools(messages.deep_view()) is None,
        },
{
    let ghost view = messages.deep_view();
    let mut i: usize = 0;
    assert(view.take(0) =~= Seq::empty());
    while i < messages.len()
        invariant
            i <= messages@.len(),
            view == messages.deep_view(),
            first_with_tools(view.take(i as int)) is None,
        decreases messages@.len() - i,
    {
        let m = &messages[i];
        proof {
            assert(view.take(i + 1).drop_last() =~= view.take(i as int));
            assert(view.take(i + 1).last() == m.deep_view());
        }
        if message_shows(m, ToolSignal::ToolCalls) || message_shows(m, ToolSignal::ToolCallId)
            || message_shows(m, ToolSignal::ToolRole) {
            proof {
                lemma_first_stays(view, i + 1);
            }
            return Some(i);
        }
        i += 1;
    }
    assert(view.take(i as int) =~= view);
    None
}

/// Refuses a conversation with a tool trajectory where the target has no place for it.
pub fn refuse_lost_tools(messages: &[Message], target: TrlFormat) -> (r: Result<(), FormatError>)
    ensures
        match r {
            Ok(()) => refusal(messages.deep_view(), target) is None,
            Err(e) => refusal(messages.deep_view(), target) == Some(e.deep_view()),
        },
{
    match target {
        TrlFormat::OpenAiMessages => {
            return Ok(());
        },
        TrlFormat::TrlPromptCompletion => {
            return Ok(());
        },
        _ => {},
    }
    match find_tools(messages) {
        Some(index) => {
            let mut signals: Vec<ToolSignal> = Vec::new();
            push_if_shown(&mut signals, messages, ToolSignal::ToolCalls);
            push_if_shown(&mut signals, messages, ToolSignal::ToolCallId);
            push_if_shown(&mut signals, messages, ToolSignal::ToolRole);
            assert(signals@ =~= signals_in(messages.deep_view()));
            Err(
                FormatError::UnsupportedToolCalls {
                    target,
                    signals,
                    index,
                    recovery: ToolCallRecovery::CanonicalExportAndOfficialTemplate,
                },
            )
        },
        None => Ok(()),
    }
}

/// What a target makes of a conversation that a policy shows.
pub open spec fn drawn(messages: Seq<MessageView>, target: TrlFormat) -> Result<
    Seq<char>,
    FormatErrorView,
> {
    match target {
        TrlFormat::Gemma4 => Ok(gemma(messages)),
        TrlFormat::ChatML => Ok(chatml(messages)),
        TrlFormat::Harmony => Ok(harmony(messages)),
        TrlFormat::ShareGpt => document(sharegpt(messages)),
        TrlFormat::OpenAiMessages => document(openai(messages)),
        TrlFormat::TrlPromptCompletion => if messages.len() > 0 && messages.last().role
            == Role::Assistant {
            document(prompt_completion(messages))
        } else {
            Err(
                FormatErrorView::Projection(
                    "prompt-completion requires the conversation to end on an assistant turn"@,
                ),
            )
        },
    }
}

/// A conversation rendered for a target under a policy. A leak is refused first, then a tool
/// trajectory that the target has no place for.
pub open spec fn rendered(messages: Seq<MessageView>, target: TrlFormat, cot: CotPolicy) -> Result<
    Seq<char>,
    FormatErrorView,
> {
    match first_leak(messages) {
        Some(e) => Err(e),
        None => match refusal(messages, target) {
            Some(e) => Err(e),
            None => drawn(shown_all(messages, cot), target),
        },
    }
}

/// Renders a conversation for a target: text with the target's markup for Gemma-4, ChatML and
/// Harmony, an indented JSON document for the others.
pub fn render(messages: &[Message], target: TrlFormat, cot: CotPolicy) -> (r: Result<
    String,
    FormatError,
>)
    ensures
        match r {
            Ok(s) => rendered(messages.deep_view(), target, cot) == Ok::<
                Seq<char>,
                FormatErrorView,
            >(s@),
            Err(e) => rendered(messages.deep_view(), target, cot) == Err::<
                Seq<char>,
                FormatErrorView,
            >(e.deep_view()),
        },
{
    let ghost view = messages.deep_view();
    assert(view.len() == messages@.len());
    if let Err(e) = validate_clean(messages) {
        return Err(e);
    }
    if let Err(e) = refuse_lost_tools(messages, target) {
        return Err(e);
    }
    match target {
        TrlFormat::Gemma4 => Ok(render_gemma(messages, cot)),
        TrlFormat::ChatML => Ok(render_chatml(messages, cot)),
        TrlFormat::Harmony => Ok(render_harmony(messages, cot)),
        TrlFormat::ShareGpt => write_document(&build_sharegpt(messages, cot)),
        TrlFormat::OpenAiMessages => write_document(&build_openai(messages, cot)),
        TrlFormat::TrlPromptCompletion => {
            if messages.len() > 0 {
                assert(shown_all(view, cot).last() == shown(
                    messages@[messages@.len() - 1].deep_view(),
                    cot,
                ));
            }
            if messages.len() == 0 || messages[messages.len() - 1].role != Role::Assistant {
                return Err(
                    FormatError::Projection(
                        "prompt-completion requires the conversation to end on an assistant turn".to_owned(),
                    ),
                );
            }
            write_document(&build_prompt_completion(messages, cot))
        },
    }
}

/// Masking changes nothing of what is rendered.
pub proof fn masked_is_rendered_as_supervised(messages: Seq<MessageView>, target: TrlFormat)
    ensures
        rendered(messages, target, CotPolicy::Masked) == rendered(
            messages,
            target,
            CotPolicy::Supervised,
        ),
{
    assert(shown_all(messages, CotPolicy::Masked) =~= shown_all(messages, CotPolicy::Supervised));
}

/// A conversation without its chains of thought.
pub open spec fn without_thoughts(messages: Seq<MessageView>) -> Seq<MessageView> {
    messages.map_values(|m: MessageView| MessageView { reasoning: None, ..m })
}

/// Stripping leaves nothing of the chains of thought: a clean conversation is rendered as if it had
/// none, under any policy.
pub proof fn stripping_forgets_the_thoughts(
    messages: Seq<MessageView>,
    target: TrlFormat,
    cot: CotPolicy,
)
    requires
        first_leak(messages) is None,
    ensures
        rendered(messages, target, CotPolicy::Stripped) == rendered(
            without_thoughts(messages),
            target,
            cot,
        ),
{
    let bare = without_thoughts(messages);
    lemma_bare_is_clean(messages);
    lemma_bare_has_the_same_tools(messages);
    assert(shown_all(messages, CotPolicy::Stripped) =~= shown_all(bare, cot));
    lemma_same_signals(messages, bare);
}

proof fn lemma_bare_is_clean(messages: Seq<MessageView>)
    requires
        first_leak(messages) is None,
    ensures
        first_leak(without_thoughts(messages)) is None,
    decreases messages.len(),
{
    let bare = without_thoughts(messages);
    if messages.len() > 0 {
        lemma_bare_is_clean(messages.drop_last());
        assert(bare.drop_last() =~= without_thoughts(messages.drop_last()));
    }
}

proof fn lemma_bare_has_the_same_tools(messages: Seq<MessageView>)
    ensures
        first_with_tools(without_thoughts(messages)) == first_with_tools(messages),
    decreases messages.len(),
{
    let bare = without_thoughts(messages);
    if messages.len() > 0 {
        lemma_bare_has_the_same_tools(messages.drop_last());
        assert(bare.drop_last() =~= without_thoughts(messages.drop_last()));
    }
}

proof fn lemma_same_signals(messages: Seq<MessageView>, bare: Seq<MessageView>)
    requires
        bare == without_thoughts(messages),
    ensures
        signals_in(bare) == signals_in(messages),
{
    assert forall|signal: ToolSignal| #[trigger]
        shown_by_some(bare, signal) == shown_by_some(messages, signal) by {
        if shown_by_some(bare, signal) {
            let i = choose|i: int| 0 <= i < bare.len() && shows(#[trigger] bare[i], signal);
            assert(shows(messages[i], signal));
        }
        if shown_by_some(messages, signal) {
            let i = choose|i: int|
                0 <= i < messages.len() && shows(#[trigger] messages[i], signal);
            assert(shows(bare[i], signal));
        }
    }
}

/// A target without a place for tools refuses every conversation with a tool trajectory, under any
/// policy, and a target with a place for them refuses none on that account.
pub proof fn a_tool_trajectory_is_never_lost(
    messages: Seq<MessageView>,
    target: TrlFormat,
    cot: CotPolicy,
    i: int,
)
    requires
        first_leak(messages) is None,
        0 <= i < messages.len(),
        has_tools(messages[i]),
    ensures
        !keeps_tools(target) ==> (rendered(messages, target, cot) matches Err(
            FormatErrorView::UnsupportedToolCalls { format, .. },
        ) && format == target),
        keeps_tools(target) ==> refusal(messages, target) is None,
{
    lemma_finds_tools(messages, i);
}

proof fn lemma_finds_tools(messages: Seq<MessageView>, i: int)
    requires
        0 <= i < messages.len(),
        has_tools(messages[i]),
    ensures
        first_with_tools(messages) is Some,
    decreases messages.len(),
{
    if i < messages.len() - 1 {
        assert(messages.drop_last()[i] == messages[i]);
        lemma_finds_tools(messages.drop_last(), i);
    } else {
        assert(messages.last() == messages[i]);
    }
}

/// The chain of thought that is written out for a message: an assistant's own, unless it is stripped.
pub open spec fn told_thought(m: MessageView, cot: CotPolicy) -> Option<Seq<char>> {
    if m.role == Role::Assistant && cot != CotPolicy::Stripped {
        m.reasoning
    } else {
        None
    }
}

proof fn lemma_chatml_joins(messages: Seq<MessageView>, turns: Seq<Seq<char>>)
    requires
        turns.len() == messages.len(),
        forall|i: int| 0 <= i < turns.len() ==> #[trigger] turns[i] == chatml_turn(messages[i]),
    ensures
        chatml(messages) == turns.flatten(),
    decreases messages.len(),
{
    if messages.len() > 0 {
        let before = turns.drop_last();
        assert forall|i: int| 0 <= i < before.len() implies #[trigger] before[i] == chatml_turn(
            messages.drop_last()[i],
        ) by {
            assert(turns[i] == before[i]);
        }
        lemma_chatml_joins(messages.drop_last(), before);
        assert(turns[turns.len() - 1] == turns.last());
        before.lemma_flatten_push(turns.last());
        assert(before.push(turns.last()) =~= turns);
    }
}

/// In ChatML no turn is lost and none is added: the text is every message's turn, one after the other,
/// each its role, its chain of thought where there is one to tell, and its words.
pub proof fn chatml_writes_every_turn(
    messages: Seq<MessageView>,
    cot: CotPolicy,
    turns: Seq<Seq<char>>,
)
    requires
        rendered(messages, TrlFormat::ChatML, cot) is Ok,
        turns.len() == messages.len(),
        forall|i: int|
            0 <= i < turns.len() ==> #[trigger] turns[i] == "<|im_start|>"@ + (match messages[i].role {
                Role::System | Role::Developer => "system"@,
                Role::User => "user"@,
                Role::Assistant => "assistant"@,
                Role::Tool => "tool"@,
            }) + "\n"@ + (match told_thought(messages[i], cot) {
                Some(r) => "<think>"@ + r + "</think>"@ + content_words(messages[i].content),
                None => content_words(messages[i].content),
            }) + "<|im_end|>\n"@,
    ensures
        rendered(messages, TrlFormat::ChatML, cot)->Ok_0 == turns.flatten(),
{
    let all = shown_all(messages, cot);
    assert forall|i: int| 0 <= i < turns.len() implies #[trigger] turns[i] == chatml_turn(all[i]) by {
        assert(all[i] == shown(messages[i], cot));
    }
    lemma_chatml_joins(all, turns);
}

/// A joined conversation is rendered as its parts are, in ChatML and in Harmony.
pub proof fn conversations_are_rendered_piece_by_piece(a: Seq<MessageView>, b: Seq<MessageView>)
    ensures
        chatml(a + b) == chatml(a) + chatml(b),
        harmony(a + b) == harmony(a) + harmony(b),
        forall|m: MessageView| #[trigger] chatml(seq![m]) == chatml_turn(m),
        forall|m: MessageView| #[trigger] harmony(seq![m]) == harmony_turn(m),
    decreases b.len(),
{
    assert forall|m: MessageView| #[trigger] chatml(seq![m]) == chatml_turn(m) by {
        assert(seq![m].drop_last() =~= Seq::empty());
        assert(chatml(seq![m].drop_last()) =~= Seq::<char>::empty());
        assert(chatml(seq![m]) =~= chatml_turn(m));
    }
    assert forall|m: MessageView| #[trigger] harmony(seq![m]) == harmony_turn(m) by {
        assert(seq![m].drop_last() =~= Seq::empty());
        assert(harmony(seq![m].drop_last()) =~= Seq::<char>::empty());
        assert(harmony(seq![m]) =~= harmony_turn(m));
    }
    if b.len() == 0 {
        assert(a + b =~= a);
        assert(chatml(a) + chatml(b) =~= chatml(a));
        assert(harmony(a) + harmony(b) =~= harmony(a));
    } else {
        conversations_are_rendered_piece_by_piece(a, b.drop_last());
        assert((a + b).drop_last() =~= a + b.drop_last());
        assert((a + b).last() == b.last());
        assert(chatml(a + b) =~= chatml(a) + chatml(b));
        assert(harmony(a + b) =~= harmony(a) + harmony(b));
    }
}

proof fn lemma_harmony_joins(messages: Seq<MessageView>, turns: Seq<Seq<char>>)
    requires
        turns.len() == messages.len(),
        forall|i: int| 0 <= i < turns.len() ==> #[trigger] turns[i] == harmony_turn(messages[i]),
    ensures
        harmony(messages) == turns.flatten(),
    decreases messages.len(),
{
    if messages.len() > 0 {
        let before = turns.drop_last();
        assert forall|i: int| 0 <= i < before.len() implies #[trigger] before[i] == harmony_turn(
            messages.drop_last()[i],
        ) by {
            assert(turns[i] == before[i]);
        }
        lemma_harmony_joins(messages.drop_last(), before);
        assert(turns[turns.len() - 1] == turns.last());
        before.lemma_flatten_push(turns.last());
        assert(before.push(turns.last()) =~= turns);
    }
}

/// In Harmony no turn is lost and none is added: the text is every message's turn, one after the other;
/// an assistant's is its analysis where there is one to tell, and then its answer.
pub proof fn harmony_writes_every_turn(
    messages: Seq<MessageView>,
    cot: CotPolicy,
    turns: Seq<Seq<char>>,
)
    requires
        rendered(messages, TrlFormat::Harmony, cot) is Ok,
        turns.len() == messages.len(),
        forall|i: int|
            0 <= i < turns.len() ==> #[trigger] turns[i] == (match messages[i].role {
                Role::Assistant => (match told_thought(messages[i], cot) {
                    Some(r) => "<|start|>assistant<|channel|>analysis<|message|>"@ + r + "<|end|>"@
                        + "<|start|>assistant<|channel|>final<|message|>"@ + content_words(
                        messages[i].content,
                    ) + "<|return|>"@,
                    None => "<|start|>assistant<|channel|>final<|message|>"@ + content_words(
                        messages[i].content,
                    ) + "<|return|>"@,
                }),
                Role::System => "<|start|>"@ + "system"@ + "<|message|>"@ + content_words(
                    messages[i].content,
                ) + "<|end|>"@,
                Role::Developer => "<|start|>"@ + "developer"@ + "<|message|>"@ + content_words(
                    messages[i].content,
                ) + "<|end|>"@,
                Role::User => "<|start|>"@ + "user"@ + "<|message|>"@ + content_words(
                    messages[i].content,
                ) + "<|end|>"@,
                Role::Tool => "<|start|>"@ + "tool"@ + "<|message|>"@ + content_words(
                    messages[i].content,
                ) + "<|end|>"@,
            }),
    ensures
        rendered(messages, TrlFormat::Harmony, cot)->Ok_0 == turns.flatten(),
{
    let all = shown_all(messages, cot);
    assert forall|i: int| 0 <= i < turns.len() implies #[trigger] turns[i] == harmony_turn(all[i]) by {
        assert(all[i] == shown(messages[i], cot));
    }
    lemma_harmony_joins(all, turns);
}

proof fn lemma_gemma_text_joins(turns: Seq<GemmaTurnView>, texts: Seq<Seq<char>>)
    requires
        texts.len() == turns.len(),
        forall|i: int| 0 <= i < texts.len() ==> #[trigger] texts[i] == gemma_turn(turns[i]),
    ensures
        gemma_text(turns) == "<bos>"@ + texts.flatten(),
    decreases turns.len(),
{
    if turns.len() > 0 {
        let before = texts.drop_last();
        assert forall|i: int| 0 <= i < before.len() implies #[trigger] before[i] == gemma_turn(
            turns.drop_last()[i],
        ) by {
            assert(texts[i] == before[i]);
        }
        lemma_gemma_text_joins(turns.drop_last(), before);
        assert(texts[texts.len() - 1] == texts.last());
        before.lemma_flatten_push(texts.last());
        assert(before.push(texts.last()) =~= texts);
        assert("<bos>"@ + before.flatten() + texts.last() =~= "<bos>"@ + (before.flatten()
            + texts.last()));
    } else {
        assert("<bos>"@ + texts.flatten() =~= "<bos>"@);
    }
}

proof fn lemma_gemma_without_system(messages: Seq<MessageView>)
    requires
        forall|i: int|
            0 <= i < messages.len() ==> (#[trigger] messages[i]).role != Role::System
                && messages[i].role != Role::Developer,
    ensures
        gemma_fold(messages).pending is None,
        gemma_fold(messages).turns.len() == messages.len(),
        forall|i: int|
            0 <= i < messages.len() ==> #[trigger] gemma_fold(messages).turns[i] == (GemmaTurnView {
                model: messages[i].role == Role::Assistant,
                content: content_words(messages[i].content),
                reasoning: if messages[i].role == Role::Assistant {
                    messages[i].reasoning
                } else {
                    None
                },
            }),
    decreases messages.len(),
{
    if messages.len() > 0 {
        let before = messages.drop_last();
        assert forall|i: int| 0 <= i < before.len() implies (#[trigger] before[i]).role != Role::System
            && before[i].role != Role::Developer by {
            assert(messages[i].role != Role::System);
        }
        assert(messages[messages.len() - 1].role != Role::System);
        lemma_gemma_without_system(before);
        assert forall|i: int|
            0 <= i < messages.len() implies #[trigger] gemma_fold(messages).turns[i] == (GemmaTurnView {
            model: messages[i].role == Role::Assistant,
            content: content_words(messages[i].content),
            reasoning: if messages[i].role == Role::Assistant {
                messages[i].reasoning
            } else {
                None
            },
        }) by {
            if i < before.len() {
                assert(gemma_fold(before).turns[i] == gemma_fold(messages).turns[i]);
                assert(before[i] == messages[i]);
            }
        }
    }
}

/// For Gemma, too, no turn is lost and none is added where no system speaks: the text is the mark of the
/// beginning and every message's turn, one after the other; the model's opens with its thought, empty
/// where there is none to tell.
pub proof fn gemma_writes_every_turn(
    messages: Seq<MessageView>,
    cot: CotPolicy,
    turns: Seq<Seq<char>>,
)
    requires
        rendered(messages, TrlFormat::Gemma4, cot) is Ok,
        turns.len() == messages.len(),
        forall|i: int|
            0 <= i < messages.len() ==> (#[trigger] messages[i]).role != Role::System
                && messages[i].role != Role::Developer,
        forall|i: int|
            0 <= i < turns.len() ==> #[trigger] turns[i] == (if messages[i].role == Role::Assistant {
                "<|turn>model\n"@ + (match told_thought(messages[i], cot) {
                    Some(r) => "<|channel>thought\n"@ + r + "\n<channel|>"@ + content_words(
                        messages[i].content,
                    ),
                    None => "<|channel>thought\n<channel|>"@ + content_words(messages[i].content),
                }) + "<turn|>\n"@
            } else {
                "<|turn>user\n"@ + content_words(messages[i].content) + "<turn|>\n"@
            }),
    ensures
        rendered(messages, TrlFormat::Gemma4, cot)->Ok_0 == "<bos>"@ + turns.flatten(),
{
    let all = shown_all(messages, cot);
    assert forall|i: int| 0 <= i < all.len() implies (#[trigger] all[i]).role != Role::System
        && all[i].role != Role::Developer by {
        assert(messages[i].role != Role::System);
    }
    lemma_gemma_without_system(all);
    let views = gemma_turns(all);
    assert forall|i: int| 0 <= i < turns.len() implies #[trigger] turns[i] == gemma_turn(views[i]) by {
        assert(gemma_fold(all).turns[i] == views[i]);
        assert(all[i] == shown(messages[i], cot));
    }
    lemma_gemma_text_joins(views, turns);
}

proof fn lemma_gemma_goes_on(a: Seq<MessageView>, b: Seq<MessageView>, rest: Seq<MessageView>)
    requires
        gemma_fold(a) == gemma_fold(b),
    ensures
        gemma_fold(a + rest) == gemma_fold(b + rest),
    decreases rest.len(),
{
    if rest.len() == 0 {
        assert(a + rest =~= a);
        assert(b + rest =~= b);
    } else {
        lemma_gemma_goes_on(a, b, rest.drop_last());
        assert((a + rest).drop_last() =~= a + rest.drop_last());
        assert((b + rest).drop_last() =~= b + rest.drop_last());
        assert((a + rest).last() == rest.last());
        assert((b + rest).last() == rest.last());
    }
}

/// Gemma has no turns of a system: what a system says stands at the head of the next turn of a user, a
/// blank line between, whatever a model says in between; two systems speak as one; and what is left at
/// the end is a turn of its own.
pub proof fn gemma_gives_a_system_the_next_turn_of_a_user(
    before: Seq<MessageView>,
    system: MessageView,
    next: MessageView,
    other: MessageView,
    joined: MessageView,
    after: Seq<MessageView>,
)
    requires
        system.role == Role::System || system.role == Role::Developer,
        gemma_fold(before).pending is None,
    ensures
        (next.role == Role::User || next.role == Role::Tool) && joined.role == next.role
            && content_words(system.content).len() > 0 && content_words(joined.content)
            == content_words(system.content) + "\n\n"@ + content_words(next.content) ==> gemma(
            before + seq![system, next] + after,
        ) == gemma(before + seq![joined] + after),
        (next.role == Role::User || next.role == Role::Tool) && content_words(system.content).len() == 0
            ==> gemma(before + seq![system, next] + after) == gemma(before + seq![next] + after),
        next.role == Role::Assistant ==> gemma(before + seq![system, next] + after) == gemma(
            before + seq![next, system] + after,
        ),
        (next.role == Role::System || next.role == Role::Developer) && (joined.role == Role::System
            || joined.role == Role::Developer) && content_words(joined.content) == content_words(
            system.content,
        ) + "\n\n"@ + content_words(next.content) ==> gemma(before + seq![system, next] + after)
            == gemma(before + seq![joined] + after),
        other.role == Role::User && content_words(other.content) == content_words(system.content)
            ==> gemma(before.push(system)) == gemma(before.push(other)),
{
    let two = before + seq![system, next];
    assert(two =~= before.push(system).push(next));
    assert(two.drop_last() =~= before.push(system));
    assert(before.push(system).drop_last() =~= before);
    assert(gemma_fold(before.push(system)) == gemma_step(gemma_fold(before), system));
    assert(gemma_fold(two) == gemma_step(gemma_step(gemma_fold(before), system), next));
    let one = before + seq![joined];
    assert(one.drop_last() =~= before);
    assert(gemma_fold(one) == gemma_step(gemma_fold(before), joined));
    let only = before + seq![next];
    assert(only.drop_last() =~= before);
    assert(gemma_fold(only) == gemma_step(gemma_fold(before), next));
    let swapped = before + seq![next, system];
    assert(swapped =~= before.push(next).push(system));
    assert(swapped.drop_last() =~= before.push(next));
    assert(before.push(next).drop_last() =~= before);
    assert(gemma_fold(before.push(next)) == gemma_step(gemma_fold(before), next));
    assert(gemma_fold(swapped) == gemma_step(gemma_step(gemma_fold(before), next), system));
    assert(before.push(other).drop_last() =~= before);
    if gemma_fold(two) == gemma_fold(one) {
        lemma_gemma_goes_on(two, one, after);
    }
    if gemma_fold(two) == gemma_fold(only) {
        lemma_gemma_goes_on(two, only, after);
    }
    if gemma_fold(two) == gemma_fold(swapped) {
        lemma_gemma_goes_on(two, swapped, after);
    }
}

/// The documents hold one entry for every message, in order: a ShareGPT conversation tells who speaks,
/// what is said, and the chain of thought where there is one to tell.
pub proof fn sharegpt_holds_every_turn(
    messages: Seq<MessageView>,
    cot: CotPolicy,
    turns: Seq<JsonView>,
)
    requires
        first_leak(messages) is None,
        forall|i: int| 0 <= i < messages.len() ==> !has_tools(#[trigger] messages[i]),
        turns.len() == messages.len(),
        forall|i: int|
            0 <= i < turns.len() ==> #[trigger] turns[i] == JsonView::Object(
                seq![
                    (
                        "from"@,
                        JsonView::Text(
                            match messages[i].role {
                                Role::System | Role::Developer => "system"@,
                                Role::User => "human"@,
                                Role::Assistant => "gpt"@,
                                Role::Tool => "tool"@,
                            },
                        ),
                    ),
                    ("value"@, JsonView::Text(content_words(messages[i].content))),
                ] + (match told_thought(messages[i], cot) {
                    Some(r) => seq![("reasoning"@, JsonView::Text(r))],
                    None => Seq::empty(),
                }),
            ),
    ensures
        rendered(messages, TrlFormat::ShareGpt, cot) == (match pretty_text(
            packed(JsonView::Object(seq![("conversations"@, JsonView::Array(turns))])),
        ) {
            Ok(s) => Ok::<Seq<char>, FormatErrorView>(s),
            Err(e) => Err::<Seq<char>, FormatErrorView>(FormatErrorView::Serde(e)),
        }),
{
    lemma_no_tools(messages);
    let all = shown_all(messages, cot);
    assert(all.map_values(|m: MessageView| sharegpt_turn(m)) =~= turns) by {
        assert forall|i: int| 0 <= i < turns.len() implies sharegpt_turn(#[trigger] all[i])
            == turns[i] by {
            let m = messages[i];
            assert(all[i] == shown(m, cot));
            assert(thought(shown(m, cot)) == told_thought(m, cot));
            assert(text_if("reasoning"@, told_thought(m, cot)) =~= (match told_thought(m, cot) {
                Some(r) => seq![("reasoning"@, JsonView::Text(r))],
                None => Seq::empty(),
            }));
            assert(sharegpt_role(m.role) == (match m.role {
                Role::System | Role::Developer => "system"@,
                Role::User => "human"@,
                Role::Assistant => "gpt"@,
                Role::Tool => "tool"@,
            }));
            assert(turns[i] is Object);
            assert(sharegpt_turn(all[i])->Object_0 =~= turns[i]->Object_0);
        }
    }
}

proof fn lemma_no_tools(messages: Seq<MessageView>)
    requires
        forall|i: int| 0 <= i < messages.len() ==> !has_tools(#[trigger] messages[i]),
    ensures
        first_with_tools(messages) is None,
    decreases messages.len(),
{
    if messages.len() > 0 {
        let before = messages.drop_last();
        assert forall|i: int| 0 <= i < before.len() implies !has_tools(#[trigger] before[i]) by {
            assert(before[i] == messages[i]);
        }
        assert(!has_tools(messages[messages.len() - 1]));
        lemma_no_tools(before);
    }
}

/// The entry of a message in the documents that keep tools: who speaks, what is said, the chain of
/// thought where there is one to tell, the name, the link to a call, and the calls with their
/// arguments, as far as the message has them.
pub open spec fn is_entry(m: MessageView, cot: CotPolicy, j: JsonView) -> bool {
    exists|calls: Seq<JsonView>|
        #[trigger] are_call_entries(m.tool_calls, calls) && j == JsonView::Object(
            seq![
                (
                    "role"@,
                    JsonView::Text(
                        match m.role {
                            Role::System => "system"@,
                            Role::Developer => "developer"@,
                            Role::User => "user"@,
                            Role::Assistant => "assistant"@,
                            Role::Tool => "tool"@,
                        },
                    ),
                ),
                ("content"@, JsonView::Text(content_words(m.content))),
            ] + (match told_thought(m, cot) {
                Some(r) => seq![("reasoning"@, JsonView::Text(r))],
                None => Seq::empty(),
            }) + (match m.name {
                Some(n) => seq![("name"@, JsonView::Text(n))],
                None => Seq::empty(),
            }) + (match m.tool_call_id {
                Some(id) => seq![("tool_call_id"@, JsonView::Text(id))],
                None => Seq::empty(),
            }) + (if m.tool_calls is Some {
                seq![("tool_calls"@, JsonView::Array(calls))]
            } else {
                Seq::empty()
            }),
        )
}

/// The entries of the calls of a message: the identifier where there is one, the name of the tool, its
/// arguments, and the text they came as where they came as text.
pub open spec fn are_call_entries(calls: Option<Seq<ToolCallView>>, entries: Seq<JsonView>) -> bool {
    match calls {
        None => entries.len() == 0,
        Some(calls) => entries.len() == calls.len() && forall|k: int|
            0 <= k < calls.len() ==> #[trigger] entries[k] == JsonView::Object(
                (match calls[k].id {
                    Some(id) => seq![("id"@, JsonView::Text(id))],
                    None => Seq::empty(),
                }) + seq![
                    (
                        "function"@,
                        JsonView::Object(
                            seq![
                                ("name"@, JsonView::Text(calls[k].function.name)),
                                ("arguments"@, calls[k].function.arguments),
                            ] + (match calls[k].function.raw_arguments {
                                Some(raw) => seq![("raw_arguments"@, JsonView::Text(raw))],
                                None => Seq::empty(),
                            }),
                        ),
                    ),
                ],
            ),
    }
}

proof fn lemma_entry(m: MessageView, cot: CotPolicy)
    ensures
        is_entry(m, cot, openai_message(shown(m, cot))),
        forall|j: JsonView| #[trigger] is_entry(m, cot, j) ==> j == openai_message(shown(m, cot)),
{
    let calls = match m.tool_calls {
        Some(c) => c.map_values(|x: ToolCallView| openai_call(x)),
        None => Seq::empty(),
    };
    assert(are_call_entries(m.tool_calls, calls));
    assert(is_entry(m, cot, openai_message(shown(m, cot))));
    assert forall|j: JsonView| #[trigger] is_entry(m, cot, j) implies j == openai_message(
        shown(m, cot),
    ) by {
        let other = choose|other: Seq<JsonView>|
            #[trigger] are_call_entries(m.tool_calls, other) && j == JsonView::Object(
                seq![
                    (
                        "role"@,
                        JsonView::Text(
                            match m.role {
                                Role::System => "system"@,
                                Role::Developer => "developer"@,
                                Role::User => "user"@,
                                Role::Assistant => "assistant"@,
                                Role::Tool => "tool"@,
                            },
                        ),
                    ),
                    ("content"@, JsonView::Text(content_words(m.content))),
                ] + (match told_thought(m, cot) {
                    Some(r) => seq![("reasoning"@, JsonView::Text(r))],
                    None => Seq::empty(),
                }) + (match m.name {
                    Some(n) => seq![("name"@, JsonView::Text(n))],
                    None => Seq::empty(),
                }) + (match m.tool_call_id {
                    Some(id) => seq![("tool_call_id"@, JsonView::Text(id))],
                    None => Seq::empty(),
                }) + (if m.tool_calls is Some {
                    seq![("tool_calls"@, JsonView::Array(other))]
                } else {
                    Seq::empty()
                }),
            );
        assert(other =~= calls);
    }
}

/// The documents that keep tools hold one entry for every message, in order; the one of a prompt and its
/// completion parts the last message, an assistant's, from all before it, and there is none of a
/// conversation that ends otherwise.
pub proof fn documents_hold_every_message(
    messages: Seq<MessageView>,
    cot: CotPolicy,
    entries: Seq<JsonView>,
)
    requires
        first_leak(messages) is None,
        entries.len() == messages.len(),
        forall|i: int| 0 <= i < entries.len() ==> is_entry(messages[i], cot, #[trigger] entries[i]),
    ensures
        rendered(messages, TrlFormat::OpenAiMessages, cot) == (match pretty_text(
            packed(JsonView::Object(seq![("messages"@, JsonView::Array(entries))])),
        ) {
            Ok(s) => Ok::<Seq<char>, FormatErrorView>(s),
            Err(e) => Err::<Seq<char>, FormatErrorView>(FormatErrorView::Serde(e)),
        }),
        messages.len() > 0 && messages.last().role == Role::Assistant ==> rendered(
            messages,
            TrlFormat::TrlPromptCompletion,
            cot,
        ) == (match pretty_text(
            packed(
                JsonView::Object(
                    seq![
                        ("prompt"@, JsonView::Array(entries.drop_last())),
                        ("completion"@, JsonView::Array(seq![entries.last()])),
                    ],
                ),
            ),
        ) {
            Ok(s) => Ok::<Seq<char>, FormatErrorView>(s),
            Err(e) => Err::<Seq<char>, FormatErrorView>(FormatErrorView::Serde(e)),
        }),
        messages.len() == 0 || messages.last().role != Role::Assistant ==> (rendered(
            messages,
            TrlFormat::TrlPromptCompletion,
            cot,
        ) matches Err(FormatErrorView::Projection(_))),
{
    let all = shown_all(messages, cot);
    assert forall|i: int| 0 <= i < entries.len() implies openai_message(#[trigger] all[i])
        == entries[i] by {
        lemma_entry(messages[i], cot);
        assert(is_entry(messages[i], cot, entries[i]));
        assert(all[i] == shown(messages[i], cot));
    }
    let f = |m: MessageView| openai_message(m);
    assert(all.map_values(f) =~= entries);
    if messages.len() > 0 {
        assert(all.drop_last().map_values(f) =~= entries.drop_last());
        assert(seq![all.last()].map_values(f) =~= seq![entries.last()]);
    }
}

/// The targets that have no place for tools refuse a conversation with any: the first message that calls
/// a tool, answers a call or speaks as a tool is told, with every way in which tools are shown. The
/// others refuse none.
pub proof fn tools_are_refused_where_they_would_be_lost(
    messages: Seq<MessageView>,
    target: TrlFormat,
    i: int,
)
    requires
        0 <= i < messages.len(),
        (messages[i].tool_calls is Some && messages[i].tool_calls->0.len() > 0)
            || messages[i].tool_call_id is Some || messages[i].role == Role::Tool,
        forall|k: int|
            0 <= k < i ==> !((#[trigger] messages[k]).tool_calls is Some
                && messages[k].tool_calls->0.len() > 0) && messages[k].tool_call_id is None
                && messages[k].role != Role::Tool,
    ensures
        target == TrlFormat::OpenAiMessages || target == TrlFormat::TrlPromptCompletion ==> refusal(
            messages,
            target,
        ) is None,
        target != TrlFormat::OpenAiMessages && target != TrlFormat::TrlPromptCompletion ==> (refusal(
            messages,
            target,
        ) matches Some(FormatErrorView::UnsupportedToolCalls { format, signals, index, .. }) && format
            == target && index == i as usize && (signals.contains(ToolSignal::ToolCalls) <==> exists|
            k: int,
        |
            0 <= k < messages.len() && (#[trigger] messages[k]).tool_calls is Some
                && messages[k].tool_calls->0.len() > 0) && (signals.contains(ToolSignal::ToolCallId)
            <==> exists|k: int|
            0 <= k < messages.len() && (#[trigger] messages[k]).tool_call_id is Some) && (
        signals.contains(ToolSignal::ToolRole) <==> exists|k: int|
            0 <= k < messages.len() && (#[trigger] messages[k]).role == Role::Tool)),
{
    lemma_first_tools(messages, i);
    let signals = signals_in(messages);
    let a = shown_by_some(messages, ToolSignal::ToolCalls);
    let b = shown_by_some(messages, ToolSignal::ToolCallId);
    let c = shown_by_some(messages, ToolSignal::ToolRole);
    assert(a == (exists|k: int|
        0 <= k < messages.len() && (#[trigger] messages[k]).tool_calls is Some
            && messages[k].tool_calls->0.len() > 0)) by {
        if a {
            let k = choose|k: int|
                0 <= k < messages.len() && shows(#[trigger] messages[k], ToolSignal::ToolCalls);
            assert(messages[k].tool_calls is Some);
        }
    }
    assert(b == (exists|k: int|
        0 <= k < messages.len() && (#[trigger] messages[k]).tool_call_id is Some));
    assert(c == (exists|k: int| 0 <= k < messages.len() && (#[trigger] messages[k]).role == Role::Tool));
    let first = if_shown(messages, ToolSignal::ToolCalls);
    let second = if_shown(messages, ToolSignal::ToolCallId);
    let third = if_shown(messages, ToolSignal::ToolRole);
    if a {
        assert(signals[0] == ToolSignal::ToolCalls);
    }
    if b {
        assert(signals[first.len() as int] == ToolSignal::ToolCallId);
    }
    if c {
        assert(signals[(first + second).len() as int] == ToolSignal::ToolRole);
    }
}

proof fn lemma_first_tools(messages: Seq<MessageView>, i: int)
    requires
        0 <= i < messages.len(),
        has_tools(messages[i]),
        forall|k: int| 0 <= k < i ==> !has_tools(#[trigger] messages[k]),
    ensures
        first_with_tools(messages) == Some(i),
    decreases messages.len(),
{
    let before = messages.drop_last();
    if i < messages.len() - 1 {
        assert forall|k: int| 0 <= k < i implies !has_tools(#[trigger] before[k]) by {
            assert(before[k] == messages[k]);
        }
        assert(before[i] == messages[i]);
        lemma_first_tools(before, i);
    } else {
        assert forall|k: int| 0 <= k < before.len() implies !has_tools(#[trigger] before[k]) by {
            assert(before[k] == messages[k]);
        }
        lemma_no_tools(before);
    }
}

/// When a rendering is owed: every conversation in which no control token stands is rendered for the
/// targets that are streams of tokens, unless tools would be lost.
pub proof fn a_clean_conversation_is_rendered(
    messages: Seq<MessageView>,
    target: TrlFormat,
    cot: CotPolicy,
)
    requires
        target == TrlFormat::ChatML || target == TrlFormat::Harmony || target == TrlFormat::Gemma4,
        first_leak(messages) is None,
        forall|i: int|
            0 <= i < messages.len() ==> ((#[trigger] messages[i]).tool_calls is None
                || messages[i].tool_calls->0.len() == 0) && messages[i].tool_call_id is None
                && messages[i].role != Role::Tool,
    ensures
        rendered(messages, target, cot) is Ok,
{
    assert forall|i: int| 0 <= i < messages.len() implies !has_tools(#[trigger] messages[i]) by {}
    lemma_no_tools(messages);
}

/// What would leak is told before anything is rendered.
pub proof fn a_leak_is_told_first(messages: Seq<MessageView>, target: TrlFormat, cot: CotPolicy)
    ensures
        first_leak(messages) is Some ==> rendered(messages, target, cot) == Err::<
            Seq<char>,
            FormatErrorView,
        >(first_leak(messages)->0),
{
}

} // verus!
