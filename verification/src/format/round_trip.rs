//! What is rendered is read back.
//!
//! For the targets that are streams of tokens, reading undoes rendering: the body of an assistant's
//! turn, handed to the reader as a provider's text, gives the message's text and its chain of
//! thought again. The other targets carry the chain of thought beside the text, so nothing has to
//! be taken out of it.

use vstd::prelude::*;

use crate::format::error::FormatErrorView;
use crate::format::ingest::{
    enclosed,
    ingested,
    stripped,
    HARMONY_ANALYSIS,
    HARMONY_FINAL,
};
use crate::format::render::{
    chatml,
    chatml_body,
    gemma,
    gemma_body,
    harmony,
    harmony_body,
    openai_message,
    rendered,
    sharegpt_turn,
    shown,
    shown_all,
    thought,
};
use crate::format::validate::{clean, lemma_clean, lemma_no_leak, tokens};
use crate::json::{lemma_lookup_at, lemma_lookup_none, member, JsonView};
use crate::schema::message::{content_words, ContentView, CotPolicy, MessageView, Role, TrlFormat};
use crate::text::{begins, find, first_at, lemma_find_is_first, occurs, occurs_at};

verus! {

/// A provider's message that holds a text and nothing beside it.
pub open spec fn bare(text: Seq<char>) -> JsonView {
    JsonView::Object(
        seq![("role"@, JsonView::Text("assistant"@)), ("content"@, JsonView::Text(text))],
    )
}

/// An assistant's message with a text and a chain of thought, and nothing else.
pub open spec fn plain(text: Seq<char>, reasoning: Option<Seq<char>>) -> MessageView {
    MessageView {
        role: Role::Assistant,
        content: ContentView::Text(text),
        reasoning,
        reasoning_details: None,
        tool_calls: None,
        tool_call_id: None,
        name: None,
    }
}

/// Whether the first character of a mark stands in it once.
spec fn headed(mark: Seq<char>) -> bool {
    mark.len() > 0 && forall|k: int| 1 <= k < mark.len() ==> #[trigger] mark[k] != mark.first()
}

/// Behind a text without it, a mark whose first character does not recur in it is first found where
/// the text ends.
proof fn lemma_first_behind(text: Seq<char>, mark: Seq<char>, tail: Seq<char>)
    requires
        !occurs(text, mark),
        headed(mark),
    ensures
        find(text + mark + tail, mark) == Some(text.len() as int),
{
    let hay = text + mark + tail;
    let n = text.len() as int;
    assert(hay.subrange(n, n + mark.len()) =~= mark);
    assert(occurs_at(hay, mark, n));
    assert forall|j: int| 0 <= j < n implies !occurs_at(hay, mark, j) by {
        if occurs_at(hay, mark, j) {
            let w = hay.subrange(j, j + mark.len());
            if j + mark.len() <= n {
                assert(text.subrange(j, j + mark.len()) =~= w);
                assert(occurs_at(text, mark, j));
                assert(occurs(text, mark));
            } else {
                assert(w[n - j] == hay[n]);
                assert(hay[n] == mark[0]);
                assert(mark[n - j] == mark[0]);
            }
        }
    }
    assert(first_at(hay, mark, n));
    lemma_find_is_first(hay, mark, n);
}

/// A line end does not complete a mark that holds none.
proof fn lemma_line_end(text: Seq<char>, mark: Seq<char>)
    requires
        !occurs(text, mark),
        mark.len() > 0,
        forall|k: int| 0 <= k < mark.len() ==> #[trigger] mark[k] != '\n',
    ensures
        !occurs(text.push('\n'), mark),
{
    let hay = text.push('\n');
    if occurs(hay, mark) {
        let i = choose|i: int| occurs_at(hay, mark, i);
        let w = hay.subrange(i, i + mark.len());
        if i + mark.len() <= text.len() {
            assert(text.subrange(i, i + mark.len()) =~= w);
            assert(occurs_at(text, mark, i));
        } else {
            assert(w[mark.len() - 1] == '\n');
            assert(mark[mark.len() - 1] == '\n');
        }
    }
}

/// What stands between the marks is enclosed, and what stands behind them is left.
proof fn lemma_enclosed(open: Seq<char>, text: Seq<char>, close: Seq<char>, tail: Seq<char>)
    requires
        !occurs(text, close),
        headed(close),
    ensures
        enclosed(open + text + close + tail, open, close, false) == Some((tail, text)),
{
    let all = open + text + close + tail;
    assert(all.take(open.len() as int) =~= open);
    assert(begins(all, open));
    let rest = all.skip(open.len() as int);
    assert(rest =~= text + close + tail);
    lemma_first_behind(text, close, tail);
    assert(rest.take(text.len() as int) =~= text);
    assert(rest.skip((text.len() + close.len()) as int) =~= tail);
}

proof fn lemma_marks()
    ensures
        headed("</think>"@),
        headed("<channel|>"@),
        headed("<|end|>"@),
        headed("<|return|>"@),
        forall|k: int| 0 <= k < "<channel|>"@.len() ==> #[trigger] "<channel|>"@[k] != '\n',
{
    reveal_strlit("</think>");
    reveal_strlit("<channel|>");
    reveal_strlit("<|end|>");
    reveal_strlit("<|return|>");
}

proof fn lemma_clean_of(text: Seq<char>)
    requires
        clean(text),
    ensures
        !occurs(text, "<think>"@),
        !occurs(text, "</think>"@),
        !occurs(text, "<|channel>"@),
        !occurs(text, "<channel|>"@),
        !occurs(text, "<|start|>"@),
        !occurs(text, "<|end|>"@),
        !occurs(text, "<|return|>"@),
{
    lemma_clean(text);
    assert(tokens()[0] == "<think>"@);
    assert(tokens()[1] == "</think>"@);
    assert(tokens()[4] == "<|channel>"@);
    assert(tokens()[5] == "<channel|>"@);
    assert(tokens()[11] == "<|start|>"@);
    assert(tokens()[12] == "<|end|>"@);
    assert(tokens()[14] == "<|return|>"@);
}

/// A text does not begin with markup that begins with a token that it does not hold.
proof fn lemma_no_markup(text: Seq<char>, open: Seq<char>, token: Seq<char>)
    requires
        !occurs(text, token),
        begins(open, token),
    ensures
        !begins(text, open),
{
    if begins(text, open) {
        assert(text.subrange(0, token.len() as int) =~= open.take(token.len() as int));
        assert(open.take(token.len() as int) =~= token);
        assert(occurs_at(text, token, 0));
    }
}

proof fn lemma_clean_is_kept(text: Seq<char>)
    requires
        clean(text),
    ensures
        stripped(text) == (text, None::<Seq<char>>),
{
    lemma_clean_of(text);
    assert(begins("<think>"@, "<think>"@)) by {
        assert("<think>"@.take("<think>"@.len() as int) =~= "<think>"@);
    }
    lemma_no_markup(text, "<think>"@, "<think>"@);
    assert(begins("<|channel>thought\n"@, "<|channel>"@)) by {
        reveal_strlit("<|channel>thought\n");
        reveal_strlit("<|channel>");
        assert("<|channel>thought\n"@.take("<|channel>"@.len() as int) =~= "<|channel>"@);
    }
    lemma_no_markup(text, "<|channel>thought\n"@, "<|channel>"@);
    lemma_harmony_marks();
    lemma_no_markup(text, HARMONY_ANALYSIS@, "<|start|>"@);
}

proof fn lemma_harmony_marks()
    ensures
        begins(HARMONY_ANALYSIS@, "<|start|>"@),
        begins(HARMONY_FINAL@, "<|start|>"@),
{
    reveal_strlit("<|start|>assistant<|channel|>analysis<|message|>");
    reveal_strlit("<|start|>assistant<|channel|>final<|message|>");
    reveal_strlit("<|start|>");
    assert(HARMONY_ANALYSIS@.take("<|start|>"@.len() as int) =~= "<|start|>"@);
    assert(HARMONY_FINAL@.take("<|start|>"@.len() as int) =~= "<|start|>"@);
}

/// A bare text is read as what it holds without its markup.
proof fn lemma_bare_is_read(text: Seq<char>)
    requires
        clean(stripped(text).0),
    ensures
        ingested(bare(text)) == Ok::<MessageView, FormatErrorView>(
            plain(stripped(text).0, stripped(text).1),
        ),
{
    lemma_bare_members(text);
}

proof fn lemma_bare_members(text: Seq<char>)
    ensures
        member(bare(text), "role"@) == Some(JsonView::Text("assistant"@)),
        member(bare(text), "content"@) == Some(JsonView::Text(text)),
        member(bare(text), "reasoning"@) is None,
        member(bare(text), "reasoning_content"@) is None,
        member(bare(text), "reasoning_details"@) is None,
        member(bare(text), "tool_calls"@) is None,
        member(bare(text), "tool_call_id"@) is None,
        member(bare(text), "name"@) is None,
        "assistant"@ != "system"@,
        "assistant"@ != "developer"@,
        "assistant"@ != "user"@,
        "assistant"@ != "tool"@,
{
    lemma_keys();
    let members = bare(text)->Object_0;
    lemma_lookup_at(members, 0);
    lemma_lookup_at(members, 1);
    lemma_lookup_none(members, "reasoning"@);
    lemma_lookup_none(members, "reasoning_content"@);
    lemma_lookup_none(members, "reasoning_details"@);
    lemma_lookup_none(members, "tool_calls"@);
    lemma_lookup_none(members, "tool_call_id"@);
    lemma_lookup_none(members, "name"@);
    reveal_strlit("assistant");
    reveal_strlit("system");
    reveal_strlit("developer");
    reveal_strlit("user");
    reveal_strlit("tool");
    assert("assistant"@[0] == 'a');
    assert("developer"@[0] == 'd');
    assert("system"@.len() == 6);
    assert("user"@.len() == 4);
    assert("tool"@.len() == 4);
}

/// The keys that a message is read and written by are told apart by their lengths and by their
/// first characters.
proof fn lemma_keys()
    ensures
        "role"@.len() == 4 && "role"@[0] == 'r',
        "name"@.len() == 4 && "name"@[0] == 'n',
        "from"@.len() == 4 && "from"@[0] == 'f',
        "value"@.len() == 5,
        "content"@.len() == 7,
        "reasoning"@.len() == 9,
        "reasoning_content"@.len() == 17 && "reasoning_content"@[10] == 'c',
        "reasoning_details"@.len() == 17 && "reasoning_details"@[10] == 'd',
        "tool_calls"@.len() == 10,
        "tool_call_id"@.len() == 12,
{
    reveal_strlit("role");
    reveal_strlit("name");
    reveal_strlit("from");
    reveal_strlit("value");
    reveal_strlit("content");
    reveal_strlit("reasoning");
    reveal_strlit("reasoning_content");
    reveal_strlit("reasoning_details");
    reveal_strlit("tool_calls");
    reveal_strlit("tool_call_id");
}

/// ChatML is read back: of every assistant's turn of a conversation that was rendered, the text and
/// the chain of thought that the policy shows.
pub proof fn chatml_is_read_back(messages: Seq<MessageView>, cot: CotPolicy, i: int)
    requires
        rendered(messages, TrlFormat::ChatML, cot) is Ok,
        0 <= i < messages.len(),
        messages[i].role == Role::Assistant,
    ensures
        rendered(messages, TrlFormat::ChatML, cot)->Ok_0 == chatml(shown_all(messages, cot)),
        ({
            let m = shown(messages[i], cot);
            let words = content_words(m.content);
            &&& stripped(chatml_body(m)) == (words, m.reasoning)
            &&& ingested(bare(chatml_body(m))) == Ok::<MessageView, FormatErrorView>(
                plain(words, m.reasoning),
            )
        }),
{
    lemma_no_leak(messages, i);
    let m = shown(messages[i], cot);
    let words = content_words(m.content);
    match m.reasoning {
        Some(r) => {
            lemma_clean_of(r);
            lemma_marks();
            lemma_enclosed("<think>"@, r, "</think>"@, words);
        },
        None => {
            lemma_clean_is_kept(words);
        },
    }
    lemma_bare_is_read(chatml_body(m));
}

proof fn lemma_gemma_encloses(words: Seq<char>, r: Option<Seq<char>>)
    requires
        r is Some ==> clean(r->0),
    ensures
        stripped(gemma_body(words, r)) == (
            words,
            Some(
                match r {
                    Some(r) => r,
                    None => Seq::empty(),
                },
            ),
        ),
{
    let open = "<|channel>thought\n"@;
    let close = "<channel|>"@;
    let body = gemma_body(words, r);
    lemma_marks();
    reveal_strlit("<|channel>thought\n");
    reveal_strlit("<channel|>");
    reveal_strlit("\n<channel|>");
    reveal_strlit("<|channel>thought\n<channel|>");
    reveal_strlit("<think>");
    assert(body[1] == '|');
    assert(!begins(body, "<think>"@)) by {
        if begins(body, "<think>"@) {
            assert(body.take("<think>"@.len() as int)[1] == 't');
        }
    }
    let inner = match r {
        Some(r) => r.push('\n'),
        None => Seq::empty(),
    };
    assert(!occurs(inner, close)) by {
        match r {
            Some(r) => {
                lemma_clean_of(r);
                lemma_line_end(r, close);
            },
            None => {},
        }
    }
    assert(body =~= open + inner + close + words);
    lemma_enclosed(open, inner, close, words);
    if r is Some {
        assert(inner.drop_last() =~= r->0);
    }
}

/// Gemma-4 is read back: of every assistant's turn of a conversation that was rendered, the text
/// and the chain of thought that the policy shows. A turn without a chain of thought is rendered
/// with an empty one, which is what is read back.
pub proof fn gemma_is_read_back(messages: Seq<MessageView>, cot: CotPolicy, i: int)
    requires
        rendered(messages, TrlFormat::Gemma4, cot) is Ok,
        0 <= i < messages.len(),
        messages[i].role == Role::Assistant,
    ensures
        rendered(messages, TrlFormat::Gemma4, cot)->Ok_0 == gemma(shown_all(messages, cot)),
        ({
            let m = shown(messages[i], cot);
            let words = content_words(m.content);
            let thought = match m.reasoning {
                Some(r) => r,
                None => Seq::empty(),
            };
            &&& stripped(gemma_body(words, m.reasoning)) == (words, Some(thought))
            &&& ingested(bare(gemma_body(words, m.reasoning))) == Ok::<
                MessageView,
                FormatErrorView,
            >(plain(words, Some(thought)))
        }),
{
    lemma_no_leak(messages, i);
    let m = shown(messages[i], cot);
    lemma_gemma_encloses(content_words(m.content), m.reasoning);
    lemma_bare_is_read(gemma_body(content_words(m.content), m.reasoning));
}

proof fn lemma_harmony_begins(text: Seq<char>)
    requires
        begins(text, "<|start|>"@),
    ensures
        !begins(text, "<think>"@),
        !begins(text, "<|channel>thought\n"@),
{
    reveal_strlit("<|start|>");
    reveal_strlit("<think>");
    reveal_strlit("<|channel>thought\n");
    assert(text.take("<|start|>"@.len() as int)[1] == '|');
    assert(text.take("<|start|>"@.len() as int)[2] == 's');
    if begins(text, "<think>"@) {
        assert(text.take("<think>"@.len() as int)[1] == 't');
    }
    if begins(text, "<|channel>thought\n"@) {
        assert(text.take("<|channel>thought\n"@.len() as int)[2] == 'c');
    }
}

proof fn lemma_begins_longer(text: Seq<char>, open: Seq<char>, token: Seq<char>)
    requires
        begins(text, open),
        begins(open, token),
    ensures
        begins(text, token),
{
    assert(text.take(token.len() as int) =~= open.take(token.len() as int));
}

proof fn lemma_harmony_encloses(words: Seq<char>, r: Seq<char>)
    requires
        clean(words),
        clean(r),
    ensures
        stripped(
            HARMONY_ANALYSIS@ + r + "<|end|>"@ + HARMONY_FINAL@ + words + "<|return|>"@,
        ) == (words, Some(r)),
{
    let answer = words + "<|return|>"@;
    let tail = HARMONY_FINAL@ + answer;
    let body = HARMONY_ANALYSIS@ + r + "<|end|>"@ + HARMONY_FINAL@ + words + "<|return|>"@;
    lemma_clean_of(r);
    lemma_clean_of(words);
    lemma_marks();
    lemma_harmony_marks();
    lemma_enclosed(HARMONY_ANALYSIS@, r, "<|end|>"@, tail);
    assert(body =~= HARMONY_ANALYSIS@ + r + "<|end|>"@ + tail);
    assert(body.take(HARMONY_ANALYSIS@.len() as int) =~= HARMONY_ANALYSIS@);
    lemma_begins_longer(body, HARMONY_ANALYSIS@, "<|start|>"@);
    lemma_harmony_begins(body);
    assert(tail.take(HARMONY_FINAL@.len() as int) =~= HARMONY_FINAL@);
    assert(tail.skip(HARMONY_FINAL@.len() as int) =~= answer);
    lemma_first_behind(words, "<|return|>"@, Seq::empty());
    assert(words + "<|return|>"@ + Seq::empty() =~= answer);
    assert(answer.take(words.len() as int) =~= words);
}

/// Harmony is read back: of every assistant's turn of a conversation that was rendered with its
/// chain of thought, the text and the chain of thought.
pub proof fn harmony_is_read_back(messages: Seq<MessageView>, cot: CotPolicy, i: int)
    requires
        rendered(messages, TrlFormat::Harmony, cot) is Ok,
        0 <= i < messages.len(),
        messages[i].role == Role::Assistant,
        shown(messages[i], cot).reasoning is Some,
    ensures
        rendered(messages, TrlFormat::Harmony, cot)->Ok_0 == harmony(shown_all(messages, cot)),
        ({
            let m = shown(messages[i], cot);
            let words = content_words(m.content);
            &&& stripped(harmony_body(m)) == (words, m.reasoning)
            &&& ingested(bare(harmony_body(m))) == Ok::<MessageView, FormatErrorView>(
                plain(words, m.reasoning),
            )
        }),
{
    lemma_no_leak(messages, i);
    let m = shown(messages[i], cot);
    lemma_harmony_encloses(content_words(m.content), m.reasoning->0);
    lemma_bare_is_read(harmony_body(m));
}

/// The targets that are documents lose nothing of a turn: its text and its chain of thought stand
/// side by side, and the text is never framed.
pub proof fn documents_keep_text_and_thought_apart(m: MessageView)
    ensures
        member(sharegpt_turn(m), "value"@) == Some(JsonView::Text(content_words(m.content))),
        member(openai_message(m), "content"@) == Some(JsonView::Text(content_words(m.content))),
        m.role == Role::Assistant && m.reasoning is Some ==> member(sharegpt_turn(m), "reasoning"@)
            == Some(JsonView::Text(m.reasoning->0)),
        m.role == Role::Assistant && m.reasoning is Some ==> member(
            openai_message(m),
            "reasoning"@,
        ) == Some(JsonView::Text(m.reasoning->0)),
        m.reasoning is None ==> member(sharegpt_turn(m), "reasoning"@) is None,
        m.reasoning is None ==> member(openai_message(m), "reasoning"@) is None,
{
    lemma_keys();
    let share = sharegpt_turn(m)->Object_0;
    let open = openai_message(m)->Object_0;
    lemma_lookup_at(share, 1);
    lemma_lookup_at(open, 1);
    if thought(m) is Some {
        lemma_lookup_at(share, 2);
        lemma_lookup_at(open, 2);
    } else {
        lemma_lookup_none(share, "reasoning"@);
        lemma_lookup_none(open, "reasoning"@);
    }
}

} // verus!
