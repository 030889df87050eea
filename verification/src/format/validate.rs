//! The guard against control tokens in clean text.
//!
//! The text of a message and its chain of thought are clean: channel markup is produced by the
//! renderers and never stored. A control token in a clean field means that markup leaked, and what
//! would be rendered of it could not be read back.

use vstd::prelude::*;

use crate::format::error::{FormatError, FormatErrorView};
use crate::schema::message::{content_text, content_words, Message, MessageView, Role};
use crate::text::has_text;
use crate::text::occurs;

verus! {

/// Every control token that a template or a provider writes, in the order in which they are looked
/// for.
pub open spec fn tokens() -> Seq<Seq<char>> {
    seq![
        "<think>"@,
        "</think>"@,
        "<|im_start|>"@,
        "<|im_end|>"@,
        "<|channel>"@,
        "<channel|>"@,
        "<|channel|>"@,
        "<|turn>"@,
        "<turn|>"@,
        "<|think|>"@,
        "<bos>"@,
        "<|start|>"@,
        "<|end|>"@,
        "<|message|>"@,
        "<|return|>"@,
    ]
}

/// Every control token.
pub fn control_tokens() -> (v: Vec<&'static str>)
    ensures
        v@.len() == tokens().len(),
        forall|i: int| 0 <= i < v@.len() ==> (#[trigger] v@[i])@ == tokens()[i],
{
    let mut v: Vec<&'static str> = Vec::new();
    v.push("<think>");
    v.push("</think>");
    v.push("<|im_start|>");
    v.push("<|im_end|>");
    v.push("<|channel>");
    v.push("<channel|>");
    v.push("<|channel|>");
    v.push("<|turn>");
    v.push("<turn|>");
    v.push("<|think|>");
    v.push("<bos>");
    v.push("<|start|>");
    v.push("<|end|>");
    v.push("<|message|>");
    v.push("<|return|>");
    v
}

/// The first of `list` that stands in `text`.
pub open spec fn first_in(list: Seq<Seq<char>>, text: Seq<char>) -> Option<Seq<char>>
    decreases list.len(),
{
    if list.len() == 0 {
        None
    } else if occurs(text, list[0]) {
        Some(list[0])
    } else {
        first_in(list.drop_first(), text)
    }
}

/// The first control token in a text.
pub open spec fn leak(text: Seq<char>) -> Option<Seq<char>> {
    first_in(tokens(), text)
}

/// Whether a text holds no control token.
pub open spec fn clean(text: Seq<char>) -> bool {
    leak(text) is None
}

/// The first control token in a text.
pub fn first_control_token(text: &str) -> (r: Option<&'static str>)
    ensures
        match r {
            Some(t) => leak(text@) == Some(t@),
            None => leak(text@) is None,
        },
{
    let list = control_tokens();
    let ghost all = tokens();
    let mut i: usize = 0;
    assert(all.skip(0) =~= all);
    while i < list.len()
        invariant
            i <= list@.len(),
            all == tokens(),
            list@.len() == all.len(),
            forall|k: int| 0 <= k < list@.len() ==> (#[trigger] list@[k])@ == all[k],
            leak(text@) == first_in(all.skip(i as int), text@),
        decreases list@.len() - i,
    {
        let token = list[i];
        proof {
            assert(all.skip(i as int)[0] == all[i as int]);
            assert(all.skip(i as int).drop_first() =~= all.skip(i + 1));
        }
        if has_text(text, token) {
            return Some(token);
        }
        i += 1;
    }
    None
}

/// A clean text holds none of the control tokens, and a text that holds none is clean.
pub proof fn lemma_clean(text: Seq<char>)
    ensures
        clean(text) <==> forall|i: int| 0 <= i < tokens().len() ==> !occurs(text, #[trigger] tokens()[i]),
{
    lemma_first_in(tokens(), text);
}

proof fn lemma_first_in(list: Seq<Seq<char>>, text: Seq<char>)
    ensures
        first_in(list, text) is None <==> forall|i: int|
            0 <= i < list.len() ==> !occurs(text, #[trigger] list[i]),
    decreases list.len(),
{
    if list.len() > 0 {
        let rest = list.drop_first();
        lemma_first_in(rest, text);
        if !occurs(text, list[0]) {
            if first_in(rest, text) is None {
                assert forall|i: int| 0 <= i < list.len() implies !occurs(text, #[trigger] list[i]) by {
                    if i > 0 {
                        assert(rest[i - 1] == list[i]);
                    }
                }
            } else {
                let k = choose|k: int| 0 <= k < rest.len() && occurs(text, #[trigger] rest[k]);
                assert(list[k + 1] == rest[k]);
            }
        }
    }
}

/// The leak in a message: in its text, or else in its chain of thought.
pub open spec fn message_leak(m: MessageView) -> Option<FormatErrorView> {
    match leak(content_words(m.content)) {
        Some(token) => Some(FormatErrorView::ControlTokenInContent { token, role: m.role }),
        None => match m.reasoning {
            Some(r) => match leak(r) {
                Some(token) => Some(FormatErrorView::ControlTokenInContent { token, role: m.role }),
                None => None,
            },
            None => None,
        },
    }
}

/// The first leak in a conversation.
pub open spec fn first_leak(messages: Seq<MessageView>) -> Option<FormatErrorView>
    decreases messages.len(),
{
    if messages.len() == 0 {
        None
    } else {
        match first_leak(messages.drop_last()) {
            Some(e) => Some(e),
            None => message_leak(messages.last()),
        }
    }
}

proof fn lemma_leak_stays(messages: Seq<MessageView>, n: int)
    requires
        0 <= n <= messages.len(),
        first_leak(messages.take(n)) is Some,
    ensures
        first_leak(messages) == first_leak(messages.take(n)),
    decreases messages.len() - n,
{
    if n < messages.len() {
        assert(messages.take(n + 1).drop_last() =~= messages.take(n));
        lemma_leak_stays(messages, n + 1);
    } else {
        assert(messages.take(n) =~= messages);
    }
}

fn check_field(text: &str, role: Role) -> (r: Result<(), FormatError>)
    ensures
        match r {
            Ok(()) => leak(text@) is None,
            Err(e) => leak(text@) is Some && e.deep_view()
                == (FormatErrorView::ControlTokenInContent { token: leak(text@)->0, role }),
        },
{
    match first_control_token(text) {
        Some(token) => Err(FormatError::ControlTokenInContent { token, role }),
        None => Ok(()),
    }
}

/// Refuses a conversation in which a clean field holds a control token.
pub fn validate_clean(messages: &[Message]) -> (r: Result<(), FormatError>)
    ensures
        match r {
            Ok(()) => first_leak(messages.deep_view()) is None,
            Err(e) => first_leak(messages.deep_view()) == Some(e.deep_view()),
        },
{
    let ghost view = messages.deep_view();
    let mut i: usize = 0;
    assert(view.take(0) =~= Seq::empty());
    while i < messages.len()
        invariant
            i <= messages@.len(),
            view == messages.deep_view(),
            first_leak(view.take(i as int)) is None,
        decreases messages@.len() - i,
    {
        let m = &messages[i];
        proof {
            assert(view.take(i + 1).drop_last() =~= view.take(i as int));
            assert(view.take(i + 1).last() == m.deep_view());
        }
        let text = content_text(&m.content);
        if let Err(e) = check_field(text.as_str(), m.role) {
            proof {
                lemma_leak_stays(view, i + 1);
            }
            return Err(e);
        }
        if let Some(reasoning) = &m.reasoning {
            if let Err(e) = check_field(reasoning.as_str(), m.role) {
                proof {
                    lemma_leak_stays(view, i + 1);
                }
                return Err(e);
            }
        }
        i += 1;
    }
    assert(view.take(i as int) =~= view);
    Ok(())
}

/// In a conversation without leak, every message's text and chain of thought are clean.
pub proof fn lemma_no_leak(messages: Seq<MessageView>, i: int)
    requires
        first_leak(messages) is None,
        0 <= i < messages.len(),
    ensures
        clean(content_words(messages[i].content)),
        messages[i].reasoning is Some ==> clean(messages[i].reasoning->0),
    decreases messages.len(),
{
    if i < messages.len() - 1 {
        lemma_no_leak(messages.drop_last(), i);
    } else {
        assert(messages.last() == messages[i]);
    }
}

/// Which texts are clean: those in which none of the control tokens of any target stands, at any place.
pub proof fn a_clean_text_holds_no_control_token(text: Seq<char>)
    ensures
        clean(text) <==> !(occurs(text, "<think>"@) || occurs(text, "</think>"@) || occurs(
            text,
            "<|im_start|>"@,
        ) || occurs(text, "<|im_end|>"@) || occurs(text, "<|channel>"@) || occurs(text, "<channel|>"@)
            || occurs(text, "<|channel|>"@) || occurs(text, "<|turn>"@) || occurs(text, "<turn|>"@)
            || occurs(text, "<|think|>"@) || occurs(text, "<bos>"@) || occurs(text, "<|start|>"@)
            || occurs(text, "<|end|>"@) || occurs(text, "<|message|>"@) || occurs(
            text,
            "<|return|>"@,
        )),
        leak(text) is Some ==> occurs(text, leak(text)->0),
{
    lemma_clean(text);
    let t = tokens();
    assert(t.len() == 15);
    assert(t[0] == "<think>"@ && t[1] == "</think>"@ && t[2] == "<|im_start|>"@);
    assert(t[3] == "<|im_end|>"@ && t[4] == "<|channel>"@ && t[5] == "<channel|>"@);
    assert(t[6] == "<|channel|>"@ && t[7] == "<|turn>"@ && t[8] == "<turn|>"@);
    assert(t[9] == "<|think|>"@ && t[10] == "<bos>"@ && t[11] == "<|start|>"@);
    assert(t[12] == "<|end|>"@ && t[13] == "<|message|>"@ && t[14] == "<|return|>"@);
    lemma_what_leaks_is_there(t, text);
}

proof fn lemma_what_leaks_is_there(list: Seq<Seq<char>>, text: Seq<char>)
    ensures
        first_in(list, text) is Some ==> occurs(text, first_in(list, text)->0),
    decreases list.len(),
{
    if list.len() > 0 && !occurs(text, list[0]) {
        lemma_what_leaks_is_there(list.drop_first(), text);
    }
}

/// A conversation is refused exactly where a control token stands in the words or in the chain of
/// thought of one of its messages, and the first such message is told.
pub proof fn the_first_leak_is_told(messages: Seq<MessageView>)
    ensures
        match first_leak(messages) {
            None => forall|i: int|
                0 <= i < messages.len() ==> clean(content_words((#[trigger] messages[i]).content)) && (
                messages[i].reasoning is Some ==> clean(messages[i].reasoning->0)),
            Some(e) => exists|i: int|
                0 <= i < messages.len() && !(clean(content_words((#[trigger] messages[i]).content)) && (
                messages[i].reasoning is Some ==> clean(messages[i].reasoning->0))) && (forall|k: int|
                    0 <= k < i ==> clean(content_words((#[trigger] messages[k]).content)) && (
                    messages[k].reasoning is Some ==> clean(messages[k].reasoning->0))) && (
                e matches FormatErrorView::ControlTokenInContent { token, role } && role
                    == messages[i].role && (occurs(content_words(messages[i].content), token) || (
                messages[i].reasoning is Some && occurs(messages[i].reasoning->0, token)))),
        },
    decreases messages.len(),
{
    if messages.len() > 0 {
        let before = messages.drop_last();
        let n = messages.len() - 1;
        let m = messages[n];
        the_first_leak_is_told(before);
        a_clean_text_holds_no_control_token(content_words(m.content));
        if m.reasoning is Some {
            a_clean_text_holds_no_control_token(m.reasoning->0);
        }
        match first_leak(before) {
            None => {
                assert forall|k: int| 0 <= k < n implies clean(
                    content_words((#[trigger] messages[k]).content),
                ) && (messages[k].reasoning is Some ==> clean(messages[k].reasoning->0)) by {
                    assert(before[k] == messages[k]);
                }
            },
            Some(e) => {
                let i = choose|i: int|
                    0 <= i < before.len() && !(clean(content_words((#[trigger] before[i]).content)) && (
                    before[i].reasoning is Some ==> clean(before[i].reasoning->0))) && (forall|k: int|
                        0 <= k < i ==> clean(content_words((#[trigger] before[k]).content)) && (
                        before[k].reasoning is Some ==> clean(before[k].reasoning->0))) && (
                    e matches FormatErrorView::ControlTokenInContent { token, role } && role
                        == before[i].role && (occurs(content_words(before[i].content), token) || (
                    before[i].reasoning is Some && occurs(before[i].reasoning->0, token))));
                assert(messages[i] == before[i]);
                assert forall|k: int| 0 <= k < i implies clean(
                    content_words((#[trigger] messages[k]).content),
                ) && (messages[k].reasoning is Some ==> clean(messages[k].reasoning->0)) by {
                    assert(before[k] == messages[k]);
                }
            },
        }
    }
}

} // verus!
