//! Which tool result answers which call.
//!
//! A result is bound to its call by the call's identifier. A name stands in for it only where a single
//! call has that name; what cannot be told is refused, and so is a second answer to a call.

use vstd::prelude::*;

use crate::format::error::{FormatError, FormatErrorView};
use crate::schema::message::{Message, MessageView, Role, ToolCallView};
use crate::text::{decimal_text, joined, same_text};
use crate::text::decimal;

verus! {

/// A call that a conversation declares.
struct Declared<'a> {
    name: &'a str,
    id: Option<&'a str>,
    at: usize,
}

/// What a declared call is, as mathematics.
#[verifier::ext_equal]
pub struct DeclaredView {
    /// The tool.
    pub name: Seq<char>,
    /// The identifier.
    pub id: Option<Seq<char>>,
    /// The message that declares it.
    pub at: nat,
}

spec fn declared_view(d: Declared<'_>) -> DeclaredView {
    DeclaredView { name: d.name@, id: d.id.deep_view(), at: d.at as nat }
}

spec fn list_view(list: Seq<Declared<'_>>) -> Seq<DeclaredView> {
    Seq::new(list.len(), |i: int| declared_view(list[i]))
}

/// The calls of one message.
pub open spec fn calls_at(calls: Seq<ToolCallView>, at: nat) -> Seq<DeclaredView> {
    Seq::new(
        calls.len(),
        |i: int| DeclaredView { name: calls[i].function.name, id: calls[i].id, at },
    )
}

/// The calls that a conversation declares, in order.
pub open spec fn declared(messages: Seq<MessageView>) -> Seq<DeclaredView>
    decreases messages.len(),
{
    if messages.len() == 0 {
        Seq::empty()
    } else {
        let before = declared(messages.drop_last());
        match messages.last().tool_calls {
            Some(calls) => before + calls_at(calls, (messages.len() - 1) as nat),
            None => before,
        }
    }
}

/// Whether one of `list` has the identifier `id`.
pub open spec fn some_has(list: Seq<DeclaredView>, id: Seq<char>) -> bool {
    exists|i: int| 0 <= i < list.len() && (#[trigger] list[i]).id == Some(id)
}

/// The first identifier, in order, that an earlier call has too.
pub open spec fn repeated(list: Seq<DeclaredView>) -> Option<Seq<char>>
    decreases list.len(),
{
    if list.len() == 0 {
        None
    } else {
        match repeated(list.drop_last()) {
            Some(id) => Some(id),
            None => match list.last().id {
                Some(id) => if some_has(list.drop_last(), id) {
                    Some(id)
                } else {
                    None
                },
                None => None,
            },
        }
    }
}

/// The place of the first call with the identifier `id`.
pub open spec fn call_with(list: Seq<DeclaredView>, id: Seq<char>) -> Option<int>
    decreases list.len(),
{
    if list.len() == 0 {
        None
    } else {
        match call_with(list.drop_last(), id) {
            Some(i) => Some(i),
            None => if list.last().id == Some(id) {
                Some(list.len() - 1)
            } else {
                None
            },
        }
    }
}

/// The calls of the tool `name`.
pub open spec fn named(list: Seq<DeclaredView>, name: Seq<char>) -> Seq<DeclaredView>
    decreases list.len(),
{
    if list.len() == 0 {
        Seq::empty()
    } else if list.last().name == name {
        named(list.drop_last(), name).push(list.last())
    } else {
        named(list.drop_last(), name)
    }
}

/// The name that a result gives, or no characters.
pub open spec fn name_of(m: MessageView) -> Seq<char> {
    match m.name {
        Some(n) => n,
        None => Seq::empty(),
    }
}

/// The identifier of the call that a result answers: the one that it links to or, where it links to
/// none, that of the only call of its tool.
pub open spec fn target(list: Seq<DeclaredView>, m: MessageView) -> Option<Seq<char>> {
    match m.tool_call_id {
        Some(id) => Some(id),
        None => if named(list, name_of(m)).len() == 1 {
            named(list, name_of(m))[0].id
        } else {
            None
        },
    }
}

/// Whether one of `messages` is a result that answers the call `id`.
pub open spec fn answered(
    list: Seq<DeclaredView>,
    messages: Seq<MessageView>,
    id: Seq<char>,
) -> bool {
    exists|i: int|
        0 <= i < messages.len() && (#[trigger] messages[i]).role == Role::Tool && target(
            list,
            messages[i],
        ) == Some(id)
}

/// What is said of a second result for the call `id`.
pub open spec fn second_result(index: nat, id: Seq<char>) -> Seq<char> {
    "messages["@ + decimal(index) + "] is a second result for tool_call_id `"@ + id
        + "`; each declared call is answered exactly once"@
}

/// What is wrong with the result at `index` that links to `id`: the call has to be declared, in an
/// earlier message, and not answered before.
pub open spec fn explicit_fault(
    list: Seq<DeclaredView>,
    earlier: Seq<MessageView>,
    id: Seq<char>,
) -> Option<Seq<char>> {
    let index = earlier.len();
    match call_with(list, id) {
        None => Some(
            "messages["@ + decimal(index) + "] (tool result) declares tool_call_id `"@ + id
                + "`, which no assistant tool_call in this conversation declares"@,
        ),
        Some(i) => if list[i].at >= index {
            Some(
                "messages["@ + decimal(index) + "] (tool result) answers tool_call_id `"@ + id
                    + "` before the call is declared — the captured trajectory is partial, not merely reordered"@,
            )
        } else if answered(list, earlier, id) {
            Some(second_result(index, id))
        } else {
            None
        },
    }
}

/// What is wrong with the result that follows `earlier` and links to nothing: there has to be exactly
/// one call of its tool, with an identifier, in an earlier message, and not answered before.
pub open spec fn implicit_fault(
    list: Seq<DeclaredView>,
    earlier: Seq<MessageView>,
    name: Seq<char>,
) -> Option<Seq<char>> {
    let index = earlier.len();
    let candidates = named(list, name);
    if candidates.len() == 0 {
        Some(
            "messages["@ + decimal(index)
                + "] is a tool result with no tool_call_id and no `name` (or a name matching no call), so it cannot be linked to any call in this conversation"@,
        )
    } else if candidates.len() > 1 {
        Some(
            "messages["@ + decimal(index) + "] is a tool result with no tool_call_id, but "@
                + decimal(candidates.len()) + " calls named `"@ + name
                + "` are declared — refusing to guess which one it answers"@,
        )
    } else if candidates[0].id is None {
        Some(
            "messages["@ + decimal(index) + "] is a tool result with no tool_call_id; the only `"@
                + name
                + "` call in this conversation declares no id, so no result link exists to record"@,
        )
    } else if candidates[0].at >= index {
        Some(
            "messages["@ + decimal(index) + "] is a tool result for `"@ + name
                + "` that appears before the call is declared — the captured trajectory is partial"@,
        )
    } else if answered(list, earlier, candidates[0].id->0) {
        Some(second_result(index, candidates[0].id->0))
    } else {
        None
    }
}

/// What is wrong with a message that follows `earlier`.
pub open spec fn message_fault(
    list: Seq<DeclaredView>,
    earlier: Seq<MessageView>,
    m: MessageView,
) -> Option<Seq<char>> {
    if m.role != Role::Tool {
        None
    } else {
        match m.tool_call_id {
            Some(id) => explicit_fault(list, earlier, id),
            None => implicit_fault(list, earlier, name_of(m)),
        }
    }
}

/// What is first wrong with the results of a conversation.
pub open spec fn first_fault(list: Seq<DeclaredView>, messages: Seq<MessageView>) -> Option<Seq<char>>
    decreases messages.len(),
{
    if messages.len() == 0 {
        None
    } else {
        match first_fault(list, messages.drop_last()) {
            Some(e) => Some(e),
            None => message_fault(list, messages.drop_last(), messages.last()),
        }
    }
}

/// What is wrong with the links of a conversation: an identifier that two calls share, or else the
/// first result that does not go with a call.
pub open spec fn links_fault(messages: Seq<MessageView>) -> Option<Seq<char>> {
    match repeated(declared(messages)) {
        Some(id) => Some(
            "duplicate tool call id `"@ + id + "`: the result link for that id is ambiguous"@,
        ),
        None => first_fault(declared(messages), messages),
    }
}

proof fn lemma_repeated_stays(list: Seq<DeclaredView>, n: int)
    requires
        0 <= n <= list.len(),
        repeated(list.take(n)) is Some,
    ensures
        repeated(list) == repeated(list.take(n)),
    decreases list.len() - n,
{
    if n < list.len() {
        assert(list.take(n + 1).drop_last() =~= list.take(n));
        lemma_repeated_stays(list, n + 1);
    } else {
        assert(list.take(n) =~= list);
    }
}

proof fn lemma_fault_stays(list: Seq<DeclaredView>, messages: Seq<MessageView>, n: int)
    requires
        0 <= n <= messages.len(),
        first_fault(list, messages.take(n)) is Some,
    ensures
        first_fault(list, messages) == first_fault(list, messages.take(n)),
    decreases messages.len() - n,
{
    if n < messages.len() {
        assert(messages.take(n + 1).drop_last() =~= messages.take(n));
        lemma_fault_stays(list, messages, n + 1);
    } else {
        assert(messages.take(n) =~= messages);
    }
}

proof fn lemma_call_with_stays(list: Seq<DeclaredView>, id: Seq<char>, n: int)
    requires
        0 <= n <= list.len(),
        call_with(list.take(n), id) is Some,
    ensures
        call_with(list, id) == call_with(list.take(n), id),
    decreases list.len() - n,
{
    if n < list.len() {
        assert(list.take(n + 1).drop_last() =~= list.take(n));
        lemma_call_with_stays(list, id, n + 1);
    } else {
        assert(list.take(n) =~= list);
    }
}

fn declared_calls<'a>(messages: &'a [Message]) -> (list: Vec<Declared<'a>>)
    ensures
        list_view(list@) == declared(messages.deep_view()),
{
    let ghost view = messages.deep_view();
    let mut list: Vec<Declared<'a>> = Vec::new();
    let mut i: usize = 0;
    assert(view.take(0) =~= Seq::empty());
    assert(list_view(list@) =~= Seq::empty());
    while i < messages.len()
        invariant
            i <= messages@.len(),
            view == messages.deep_view(),
            list_view(list@) == declared(view.take(i as int)),
        decreases messages@.len() - i,
    {
        let ghost before = list_view(list@);
        proof {
            assert(view.take(i + 1).drop_last() =~= view.take(i as int));
            assert(view.take(i + 1).last() == messages@[i as int].deep_view());
        }
        if let Some(calls) = &messages[i].tool_calls {
            let ghost calls_view = calls.deep_view();
            let mut k: usize = 0;
            assert(before + calls_at(calls_view.take(0), i as nat) =~= before);
            while k < calls.len()
                invariant
                    k <= calls@.len(),
                    calls_view == calls.deep_view(),
                    list_view(list@) == before + calls_at(calls_view.take(k as int), i as nat),
                decreases calls@.len() - k,
            {
                let ghost so_far = list_view(list@);
                let call = &calls[k];
                let id: Option<&'a str> = match &call.id {
                    Some(s) => Some(s.as_str()),
                    None => None,
                };
                let d = Declared { name: call.function.name.as_str(), id, at: i };
                list.push(d);
                proof {
                    assert(list_view(list@) =~= so_far.push(declared_view(d)));
                    assert(calls_view[k as int] == call.deep_view());
                    assert(calls_at(calls_view.take(k + 1), i as nat) =~= calls_at(
                        calls_view.take(k as int),
                        i as nat,
                    ).push(declared_view(d)));
                }
                k += 1;
            }
            assert(calls_view.take(k as int) =~= calls_view);
        }
        i += 1;
    }
    assert(view.take(i as int) =~= view);
    list
}

fn same_id(a: Option<&str>, id: &str) -> (r: bool)
    ensures
        r == (a.deep_view() == Some(id@)),
{
    match a {
        Some(s) => same_text(s, id),
        None => false,
    }
}

fn assert_ids_unique(list: &Vec<Declared<'_>>) -> (r: Result<(), FormatError>)
    ensures
        match r {
            Ok(()) => repeated(list_view(list@)) is None,
            Err(e) => repeated(list_view(list@)) matches Some(id) && e.deep_view()
                == FormatErrorView::ToolIdentity(
                "duplicate tool call id `"@ + id + "`: the result link for that id is ambiguous"@,
            ),
        },
{
    let ghost view = list_view(list@);
    let mut i: usize = 0;
    assert(view.take(0) =~= Seq::empty());
    while i < list.len()
        invariant
            i <= list@.len(),
            view == list_view(list@),
            repeated(view.take(i as int)) is None,
        decreases list@.len() - i,
    {
        proof {
            assert(view.take(i + 1).drop_last() =~= view.take(i as int));
            assert(view.take(i + 1).last() == declared_view(list@[i as int]));
        }
        if let Some(id) = list[i].id {
            let mut k: usize = 0;
            while k < i
                invariant
                    k <= i < list@.len(),
                    view == list_view(list@),
                    list@[i as int].id == Some(id),
                    view.take(i + 1).drop_last() == view.take(i as int),
                    view.take(i + 1).last() == declared_view(list@[i as int]),
                    repeated(view.take(i as int)) is None,
                    forall|p: int| 0 <= p < k ==> (#[trigger] view[p]).id != Some(id@),
                decreases i - k,
            {
                assert(view[k as int] == declared_view(list@[k as int]));
                if same_id(list[k].id, id) {
                    proof {
                        assert(view.take(i as int)[k as int].id == Some(id@));
                        assert(some_has(view.take(i as int), id@));
                        assert(repeated(view.take(i + 1)) == Some(id@));
                        lemma_repeated_stays(view, i + 1);
                    }
                    let mut m = joined("duplicate tool call id `", id);
                    m.append("`: the result link for that id is ambiguous");
                    return Err(FormatError::ToolIdentity(m));
                }
                k += 1;
            }
            assert(!some_has(view.take(i as int), id@));
        }
        i += 1;
    }
    assert(view.take(i as int) =~= view);
    Ok(())
}

fn find_call(list: &Vec<Declared<'_>>, id: &str) -> (r: Option<usize>)
    ensures
        match r {
            Some(i) => call_with(list_view(list@), id@) == Some(i as int) && i < list@.len(),
            None => call_with(list_view(list@), id@) is None,
        },
{
    let ghost view = list_view(list@);
    let mut i: usize = 0;
    assert(view.take(0) =~= Seq::empty());
    while i < list.len()
        invariant
            i <= list@.len(),
            view == list_view(list@),
            call_with(view.take(i as int), id@) is None,
        decreases list@.len() - i,
    {
        proof {
            assert(view.take(i + 1).drop_last() =~= view.take(i as int));
            assert(view.take(i + 1).last() == declared_view(list@[i as int]));
        }
        if same_id(list[i].id, id) {
            proof {
                lemma_call_with_stays(view, id@, i + 1);
            }
            return Some(i);
        }
        i += 1;
    }
    assert(view.take(i as int) =~= view);
    None
}

fn calls_named<'a>(list: &Vec<Declared<'a>>, name: &str) -> (r: Vec<usize>)
    ensures
        r@.len() == named(list_view(list@), name@).len(),
        forall|i: int|
            0 <= i < r@.len() ==> (#[trigger] r@[i]) < list@.len() && list_view(
                list@,
            )[r@[i] as int] == named(list_view(list@), name@)[i],
{
    let ghost view = list_view(list@);
    let mut r: Vec<usize> = Vec::new();
    let mut i: usize = 0;
    assert(view.take(0) =~= Seq::empty());
    while i < list.len()
        invariant
            i <= list@.len(),
            view == list_view(list@),
            r@.len() == named(view.take(i as int), name@).len(),
            forall|k: int|
                0 <= k < r@.len() ==> (#[trigger] r@[k]) < i && view[r@[k] as int] == named(
                    view.take(i as int),
                    name@,
                )[k],
        decreases list@.len() - i,
    {
        proof {
            assert(view.take(i + 1).drop_last() =~= view.take(i as int));
            assert(view.take(i + 1).last() == declared_view(list@[i as int]));
        }
        if same_text(list[i].name, name) {
            r.push(i);
        }
        i += 1;
    }
    assert(view.take(i as int) =~= view);
    r
}

fn answers(list: &Vec<Declared<'_>>, m: &Message, id: &str) -> (r: bool)
    ensures
        r == (target(list_view(list@), m.deep_view()) == Some(id@)),
{
    match &m.tool_call_id {
        Some(s) => same_text(s.as_str(), id),
        None => {
            let empty = String::new();
            assert(empty@ =~= Seq::<char>::empty());
            let name = match &m.name {
                Some(n) => n.as_str(),
                None => empty.as_str(),
            };
            let candidates = calls_named(list, name);
            if candidates.len() != 1 {
                return false;
            }
            let only = &list[candidates[0]];
            assert(named(list_view(list@), name@)[0] == declared_view(*only));
            same_id(only.id, id)
        },
    }
}

fn was_answered(list: &Vec<Declared<'_>>, messages: &[Message], index: usize, id: &str) -> (r: bool)
    requires
        index <= messages@.len(),
    ensures
        r == answered(list_view(list@), messages.deep_view().take(index as int), id@),
{
    let ghost view = messages.deep_view().take(index as int);
    let mut i: usize = 0;
    while i < index
        invariant
            i <= index <= messages@.len(),
            view == messages.deep_view().take(index as int),
            forall|k: int|
                0 <= k < i ==> !((#[trigger] view[k]).role == Role::Tool && target(
                    list_view(list@),
                    view[k],
                ) == Some(id@)),
        decreases index - i,
    {
        let m = &messages[i];
        assert(view[i as int] == m.deep_view());
        if m.role == Role::Tool && answers(list, m, id) {
            return true;
        }
        i += 1;
    }
    false
}

fn at_message(index: usize) -> (m: String)
    ensures
        m@ == "messages["@ + decimal(index as nat),
{
    let digits = decimal_text(index as u64);
    joined("messages[", digits.as_str())
}

fn repeats(index: usize, id: &str) -> (m: String)
    ensures
        m@ == second_result(index as nat, id@),
{
    let mut m = at_message(index);
    m.append("] is a second result for tool_call_id `");
    m.append(id);
    m.append("`; each declared call is answered exactly once");
    m
}

fn check_explicit_link(list: &Vec<Declared<'_>>, messages: &[Message], index: usize, id: &str) -> (r:
    Result<(), FormatError>)
    requires
        index <= messages@.len(),
    ensures
        match r {
            Ok(()) => explicit_fault(
                list_view(list@),
                messages.deep_view().take(index as int),
                id@,
            ) is None,
            Err(e) => explicit_fault(
                list_view(list@),
                messages.deep_view().take(index as int),
                id@,
            ) matches Some(words) && e.deep_view() == FormatErrorView::ToolIdentity(words),
        },
{
    assert(messages.deep_view().take(index as int).len() == index);
    let mut m = at_message(index);
    match find_call(list, id) {
        None => {
            m.append("] (tool result) declares tool_call_id `");
            m.append(id);
            m.append("`, which no assistant tool_call in this conversation declares");
            Err(FormatError::ToolIdentity(m))
        },
        Some(i) => {
            assert(list_view(list@)[i as int] == declared_view(list@[i as int]));
            if list[i].at >= index {
                m.append("] (tool result) answers tool_call_id `");
                m.append(id);
                m.append(
                    "` before the call is declared — the captured trajectory is partial, not merely reordered",
                );
                Err(FormatError::ToolIdentity(m))
            } else if was_answered(list, messages, index, id) {
                Err(FormatError::ToolIdentity(repeats(index, id)))
            } else {
                Ok(())
            }
        },
    }
}

fn check_implicit_link(
    list: &Vec<Declared<'_>>,
    messages: &[Message],
    index: usize,
    name: &str,
) -> (r: Result<(), FormatError>)
    requires
        index <= messages@.len(),
    ensures
        match r {
            Ok(()) => implicit_fault(
                list_view(list@),
                messages.deep_view().take(index as int),
                name@,
            ) is None,
            Err(e) => implicit_fault(
                list_view(list@),
                messages.deep_view().take(index as int),
                name@,
            ) matches Some(words) && e.deep_view() == FormatErrorView::ToolIdentity(words),
        },
{
    assert(messages.deep_view().take(index as int).len() == index);
    let candidates = calls_named(list, name);
    let mut m = at_message(index);
    if candidates.len() == 0 {
        m.append(
            "] is a tool result with no tool_call_id and no `name` (or a name matching no call), so it cannot be linked to any call in this conversation",
        );
        return Err(FormatError::ToolIdentity(m));
    }
    if candidates.len() > 1 {
        let count = decimal_text(candidates.len() as u64);
        m.append("] is a tool result with no tool_call_id, but ");
        m.append(count.as_str());
        m.append(" calls named `");
        m.append(name);
        m.append("` are declared — refusing to guess which one it answers");
        return Err(FormatError::ToolIdentity(m));
    }
    let only = &list[candidates[0]];
    assert(named(list_view(list@), name@)[0] == declared_view(*only));
    let id = match only.id {
        Some(id) => id,
        None => {
            m.append("] is a tool result with no tool_call_id; the only `");
            m.append(name);
            m.append(
                "` call in this conversation declares no id, so no result link exists to record",
            );
            return Err(FormatError::ToolIdentity(m));
        },
    };
    if only.at >= index {
        m.append("] is a tool result for `");
        m.append(name);
        m.append(
            "` that appears before the call is declared — the captured trajectory is partial",
        );
        return Err(FormatError::ToolIdentity(m));
    }
    if was_answered(list, messages, index, id) {
        return Err(FormatError::ToolIdentity(repeats(index, id)));
    }
    Ok(())
}

fn check_message(list: &Vec<Declared<'_>>, messages: &[Message], index: usize) -> (r: Result<
    (),
    FormatError,
>)
    requires
        index < messages@.len(),
    ensures
        ({
            let fault = message_fault(
                list_view(list@),
                messages.deep_view().take(index as int),
                messages@[index as int].deep_view(),
            );
            match r {
                Ok(()) => fault is None,
                Err(e) => fault matches Some(words) && e.deep_view()
                    == FormatErrorView::ToolIdentity(words),
            }
        }),
{
    let m = &messages[index];
    assert(messages.deep_view().take(index as int).len() == index);
    if m.role != Role::Tool {
        return Ok(());
    }
    match &m.tool_call_id {
        Some(id) => check_explicit_link(list, messages, index, id.as_str()),
        None => match &m.name {
            Some(name) => check_implicit_link(list, messages, index, name.as_str()),
            None => {
                let empty = String::new();
                assert(empty@ =~= Seq::<char>::empty());
                check_implicit_link(list, messages, index, empty.as_str())
            },
        },
    }
}

/// Refuses a conversation in which a tool result does not go with exactly one call: an identifier
/// that two calls share, a result that links to no call or to a later one, a result without link that
/// could go with several calls or with none, and a second result for a call, with or without link.
pub fn validate_tool_links(messages: &[Message]) -> (r: Result<(), FormatError>)
    ensures
        match r {
            Ok(()) => links_fault(messages.deep_view()) is None,
            Err(e) => links_fault(messages.deep_view()) matches Some(words) && e.deep_view()
                == FormatErrorView::ToolIdentity(words),
        },
{
    let ghost view = messages.deep_view();
    let list = declared_calls(messages);
    if let Err(e) = assert_ids_unique(&list) {
        return Err(e);
    }
    let mut i: usize = 0;
    assert(view.take(0) =~= Seq::empty());
    while i < messages.len()
        invariant
            i <= messages@.len(),
            view == messages.deep_view(),
            list_view(list@) == declared(view),
            repeated(declared(view)) is None,
            first_fault(declared(view), view.take(i as int)) is None,
        decreases messages@.len() - i,
    {
        proof {
            assert(view.take(i + 1).drop_last() =~= view.take(i as int));
            assert(view.take(i + 1).last() == messages@[i as int].deep_view());
        }
        if let Err(e) = check_message(&list, messages, i) {
            proof {
                lemma_fault_stays(declared(view), view, i + 1);
            }
            return Err(e);
        }
        i += 1;
    }
    assert(view.take(i as int) =~= view);
    Ok(())
}

proof fn lemma_each_is_sound(list: Seq<DeclaredView>, messages: Seq<MessageView>, i: int)
    requires
        first_fault(list, messages) is None,
        0 <= i < messages.len(),
    ensures
        message_fault(list, messages.take(i), messages[i]) is None,
    decreases messages.len(),
{
    if i < messages.len() - 1 {
        lemma_each_is_sound(list, messages.drop_last(), i);
        assert(messages.drop_last().take(i) =~= messages.take(i));
        assert(messages.drop_last()[i] == messages[i]);
    } else {
        assert(messages.drop_last() =~= messages.take(i));
        assert(messages.last() == messages[i]);
    }
}

proof fn lemma_call_with(list: Seq<DeclaredView>, id: Seq<char>)
    ensures
        match call_with(list, id) {
            Some(i) => 0 <= i < list.len() && list[i].id == Some(id),
            None => !some_has(list, id),
        },
    decreases list.len(),
{
    if list.len() > 0 {
        let before = list.drop_last();
        lemma_call_with(before, id);
        match call_with(before, id) {
            Some(i) => {
                assert(before[i] == list[i]);
            },
            None => {
                if list.last().id != Some(id) {
                    if some_has(list, id) {
                        let k = choose|k: int|
                            0 <= k < list.len() && (#[trigger] list[k]).id == Some(id);
                        if k < list.len() - 1 {
                            assert(before[k] == list[k]);
                        }
                        assert(false);
                    }
                }
            },
        }
    }
}

proof fn lemma_unique(list: Seq<DeclaredView>, i: int, k: int)
    requires
        repeated(list) is None,
        0 <= i < k < list.len(),
        list[k].id is Some,
    ensures
        list[i].id != list[k].id,
    decreases list.len(),
{
    let before = list.drop_last();
    if k < list.len() - 1 {
        assert(before[i] == list[i]);
        assert(before[k] == list[k]);
        lemma_unique(before, i, k);
    } else {
        assert(list.last() == list[k]);
        assert(before[i] == list[i]);
        if list[i].id == list[k].id {
            assert(some_has(before, list[k].id->0));
        }
    }
}

proof fn lemma_named_is_declared(list: Seq<DeclaredView>, name: Seq<char>, i: int)
    requires
        0 <= i < named(list, name).len(),
    ensures
        exists|c: int| 0 <= c < list.len() && #[trigger] list[c] == named(list, name)[i],
    decreases list.len(),
{
    if list.len() > 0 {
        let before = list.drop_last();
        if i < named(before, name).len() {
            lemma_named_is_declared(before, name, i);
            let c = choose|c: int| 0 <= c < before.len() && #[trigger] before[c] == named(before, name)[i];
            assert(list[c] == named(list, name)[i]);
        } else {
            assert(list[list.len() - 1] == named(list, name)[i]);
        }
    }
}

/// In a conversation whose links are accepted, every result, with or without link, goes with exactly
/// one call, which is declared in an earlier message.
pub proof fn a_result_has_one_earlier_call(messages: Seq<MessageView>, i: int)
    requires
        links_fault(messages) is None,
        0 <= i < messages.len(),
        messages[i].role == Role::Tool,
    ensures
        target(declared(messages), messages[i]) is Some,
        exists|c: int|
            0 <= c < declared(messages).len() && (#[trigger] declared(messages)[c]).id == target(
                declared(messages),
                messages[i],
            ) && declared(messages)[c].at < i,
        forall|c: int, d: int|
            0 <= c < declared(messages).len() && 0 <= d < declared(messages).len()
                && #[trigger] declared(messages)[c].id == target(declared(messages), messages[i])
                && #[trigger] declared(messages)[d].id == target(declared(messages), messages[i])
                ==> c == d,
{
    let list = declared(messages);
    let m = messages[i];
    lemma_each_is_sound(list, messages, i);
    assert(messages.take(i).len() == i);
    match m.tool_call_id {
        Some(id) => {
            lemma_call_with(list, id);
            let c = call_with(list, id)->0;
            assert(list[c].id == Some(id) && list[c].at < i);
        },
        None => {
            lemma_named_is_declared(list, name_of(m), 0);
            let c = choose|c: int|
                0 <= c < list.len() && #[trigger] list[c] == named(list, name_of(m))[0];
            assert(list[c].id == target(list, m) && list[c].at < i);
        },
    }
    assert forall|c: int, d: int|
        0 <= c < list.len() && 0 <= d < list.len() && #[trigger] list[c].id == target(list, m)
            && #[trigger] list[d].id == target(list, m) implies c == d by {
        if c < d {
            lemma_unique(list, c, d);
        } else if d < c {
            lemma_unique(list, d, c);
        }
    }
}

/// In a conversation whose links are accepted, no call is answered twice, neither by a link nor by a
/// name.
pub proof fn no_call_is_answered_twice(messages: Seq<MessageView>, i: int, k: int)
    requires
        links_fault(messages) is None,
        0 <= i < k < messages.len(),
        messages[i].role == Role::Tool,
        messages[k].role == Role::Tool,
    ensures
        target(declared(messages), messages[i]) != target(declared(messages), messages[k]),
{
    let list = declared(messages);
    a_result_has_one_earlier_call(messages, k);
    lemma_each_is_sound(list, messages, k);
    if target(list, messages[i]) == target(list, messages[k]) {
        assert(messages.take(k)[i] == messages[i]);
        assert(answered(list, messages.take(k), target(list, messages[k])->0));
    }
}

/// A conversation without tool turns and without tool calls is never refused.
pub proof fn plain_conversations_are_accepted(messages: Seq<MessageView>)
    requires
        forall|i: int|
            0 <= i < messages.len() ==> (#[trigger] messages[i]).role != Role::Tool
                && messages[i].tool_calls is None,
    ensures
        links_fault(messages) is None,
{
    lemma_plain(messages, declared(messages));
}

proof fn lemma_plain(messages: Seq<MessageView>, list: Seq<DeclaredView>)
    requires
        forall|i: int|
            0 <= i < messages.len() ==> (#[trigger] messages[i]).role != Role::Tool
                && messages[i].tool_calls is None,
    ensures
        declared(messages).len() == 0,
        first_fault(list, messages) is None,
    decreases messages.len(),
{
    if messages.len() > 0 {
        let before = messages.drop_last();
        assert forall|i: int| 0 <= i < before.len() implies (#[trigger] before[i]).role != Role::Tool
            && before[i].tool_calls is None by {
            assert(before[i] == messages[i]);
        }
        lemma_plain(before, list);
        assert(messages.last() == messages[messages.len() - 1]);
    }
}

/// The call `c` of the message `m`, where there is one.
pub open spec fn is_call(messages: Seq<MessageView>, m: int, c: int) -> bool {
    0 <= m < messages.len() && messages[m].tool_calls is Some && 0 <= c
        < messages[m].tool_calls->0.len()
}

/// Whether the message `i` is the result of a tool.
pub open spec fn is_result(messages: Seq<MessageView>, i: int) -> bool {
    0 <= i < messages.len() && messages[i].role == Role::Tool
}

/// Whether a message before `i` declares the call that the message `i` names.
pub open spec fn names_an_earlier_call(messages: Seq<MessageView>, i: int) -> bool {
    exists|m: int, c: int|
        #[trigger] is_call(messages, m, c) && m < i && messages[m].tool_calls->0[c].id
            == messages[i].tool_call_id
}

/// The place of a call among all that a conversation declares.
spec fn place(messages: Seq<MessageView>, m: int, c: int) -> int {
    declared(messages.take(m)).len() + c
}

proof fn lemma_place(messages: Seq<MessageView>, m: int, c: int)
    requires
        is_call(messages, m, c),
    ensures
        0 <= place(messages, m, c) < declared(messages).len(),
        declared(messages)[place(messages, m, c)] == (DeclaredView {
            name: messages[m].tool_calls->0[c].function.name,
            id: messages[m].tool_calls->0[c].id,
            at: m as nat,
        }),
    decreases messages.len(),
{
    let before = messages.drop_last();
    if m < before.len() {
        assert(before[m] == messages[m]);
        assert(before.take(m) =~= messages.take(m));
        lemma_place(before, m, c);
    } else {
        assert(messages.take(m) =~= before);
    }
}

proof fn lemma_every_declared_is_a_call(messages: Seq<MessageView>, k: int) -> (r: (int, int))
    requires
        0 <= k < declared(messages).len(),
    ensures
        is_call(messages, r.0, r.1),
        place(messages, r.0, r.1) == k,
        declared(messages)[k].at == r.0,
    decreases messages.len(),
{
    let before = messages.drop_last();
    let n = messages.len() - 1;
    if k < declared(before).len() {
        let r = lemma_every_declared_is_a_call(before, k);
        assert(before[r.0] == messages[r.0]);
        assert(before.take(r.0) =~= messages.take(r.0));
        r
    } else {
        assert(messages.take(n) =~= before);
        (n, k - declared(before).len())
    }
}

proof fn lemma_repeated(list: Seq<DeclaredView>)
    ensures
        match repeated(list) {
            Some(id) => exists|i: int, k: int|
                0 <= i < k < list.len() && (#[trigger] list[i]).id == Some(id) && (
                #[trigger] list[k]).id == Some(id),
            None => forall|i: int, k: int|
                0 <= i < k < list.len() && (#[trigger] list[i]).id is Some ==> (#[trigger] list[k]).id
                    != list[i].id,
        },
    decreases list.len(),
{
    if list.len() > 0 {
        let before = list.drop_last();
        let n = list.len() - 1;
        lemma_repeated(before);
        assert forall|i: int| 0 <= i < n implies #[trigger] list[i] == before[i] by {}
        match repeated(before) {
            Some(id) => {
                let (i, k) = choose|i: int, k: int|
                    0 <= i < k < before.len() && (#[trigger] before[i]).id == Some(id) && (
                    #[trigger] before[k]).id == Some(id);
                assert(list[i].id == Some(id) && list[k].id == Some(id));
            },
            None => {
                if let Some(id) = repeated(list) {
                    let i = choose|i: int| 0 <= i < before.len() && (#[trigger] before[i]).id == Some(id);
                    assert(list[i].id == Some(id) && list[n].id == Some(id));
                } else {
                    assert forall|i: int, k: int|
                        0 <= i < k < list.len() && (#[trigger] list[i]).id is Some implies (
                    #[trigger] list[k]).id != list[i].id by {
                        assert(before[i] == list[i]);
                        if k < n {
                            assert(before[k] == list[k]);
                        } else if list[n].id == list[i].id {
                            assert(some_has(before, list[n].id->0));
                        }
                    }
                }
            },
        }
    }
}

/// What a conversation whose links hold is like: no two calls have one identifier; every result that
/// names the call it answers names one that an earlier message declares, and no two name the same; a
/// result that names none tells the tool, and one call alone of the whole conversation is of that tool,
/// has an identifier and comes earlier.
pub proof fn links_that_hold(messages: Seq<MessageView>)
    requires
        links_fault(messages) is None,
    ensures
        forall|m: int, c: int, n: int, d: int|
            #[trigger] is_call(messages, m, c) && #[trigger] is_call(messages, n, d) && (m != n || c != d)
                && messages[m].tool_calls->0[c].id is Some ==> messages[m].tool_calls->0[c].id
                != messages[n].tool_calls->0[d].id,
        forall|i: int|
            #[trigger] is_result(messages, i) && messages[i].tool_call_id is Some
                ==> names_an_earlier_call(messages, i),
        forall|i: int, k: int|
            i < k && #[trigger] is_result(messages, i) && #[trigger] is_result(messages, k)
                && messages[i].tool_call_id is Some ==> messages[i].tool_call_id
                != messages[k].tool_call_id,
{
    let list = declared(messages);
    lemma_repeated(list);
    assert forall|m: int, c: int, n: int, d: int|
        #[trigger] is_call(messages, m, c) && #[trigger] is_call(messages, n, d) && (m != n || c != d)
            && messages[m].tool_calls->0[c].id is Some implies messages[m].tool_calls->0[c].id
        != messages[n].tool_calls->0[d].id by {
        lemma_place(messages, m, c);
        lemma_place(messages, n, d);
        let p = place(messages, m, c);
        let q = place(messages, n, d);
        if p == q {
            assert(list[p].at == m && list[q].at == n);
        }
        if p < q {
            assert(list[p].id is Some && list[q].id != list[p].id);
        } else if q < p {
            assert(list[q].id is Some ==> list[p].id != list[q].id);
        }
    }
    assert forall|i: int|
        #[trigger] is_result(messages, i) && messages[i].tool_call_id
            is Some implies names_an_earlier_call(messages, i) by {
        a_result_has_one_earlier_call(messages, i);
        let e = choose|e: int|
            0 <= e < list.len() && (#[trigger] list[e]).id == target(list, messages[i]) && list[e].at < i;
        let r = lemma_every_declared_is_a_call(messages, e);
        lemma_place(messages, r.0, r.1);
        assert(is_call(messages, r.0, r.1));
    }
    assert forall|i: int, k: int|
        i < k && #[trigger] is_result(messages, i) && #[trigger] is_result(messages, k)
            && messages[i].tool_call_id is Some implies messages[i].tool_call_id
        != messages[k].tool_call_id by {
        no_call_is_answered_twice(messages, i, k);
    }
}

/// A trajectory whose links hold is accepted: where no two calls have one identifier, every result names
/// the call it answers, that call is declared earlier, and no two results name the same.
pub proof fn a_well_linked_trajectory_is_accepted(messages: Seq<MessageView>)
    requires
        forall|m: int, c: int, n: int, d: int|
            #[trigger] is_call(messages, m, c) && #[trigger] is_call(messages, n, d) && (m != n || c != d)
                && messages[m].tool_calls->0[c].id is Some ==> messages[m].tool_calls->0[c].id
                != messages[n].tool_calls->0[d].id,
        forall|i: int|
            #[trigger] is_result(messages, i) ==> messages[i].tool_call_id is Some
                && names_an_earlier_call(messages, i),
        forall|i: int, k: int|
            i < k && #[trigger] is_result(messages, i) && #[trigger] is_result(messages, k)
                ==> messages[i].tool_call_id != messages[k].tool_call_id,
    ensures
        links_fault(messages) is None,
{
    let list = declared(messages);
    lemma_repeated(list);
    if let Some(id) = repeated(list) {
        let (i, k) = choose|i: int, k: int|
            0 <= i < k < list.len() && (#[trigger] list[i]).id == Some(id) && (#[trigger] list[k]).id
                == Some(id);
        let p = lemma_every_declared_is_a_call(messages, i);
        let q = lemma_every_declared_is_a_call(messages, k);
        lemma_place(messages, p.0, p.1);
        lemma_place(messages, q.0, q.1);
        assert(is_call(messages, p.0, p.1) && is_call(messages, q.0, q.1));
        assert(false);
    }
    lemma_faultless(list, messages, messages.len() as int);
    assert(messages.take(messages.len() as int) =~= messages);
}

proof fn lemma_faultless(list: Seq<DeclaredView>, messages: Seq<MessageView>, n: int)
    requires
        list == declared(messages),
        repeated(list) is None,
        0 <= n <= messages.len(),
        forall|i: int|
            #[trigger] is_result(messages, i) ==> messages[i].tool_call_id is Some
                && names_an_earlier_call(messages, i),
        forall|i: int, k: int|
            i < k && #[trigger] is_result(messages, i) && #[trigger] is_result(messages, k)
                ==> messages[i].tool_call_id != messages[k].tool_call_id,
    ensures
        first_fault(list, messages.take(n)) is None,
    decreases n,
{
    if n > 0 {
        let now = messages.take(n);
        assert(now.drop_last() =~= messages.take(n - 1));
        lemma_faultless(list, messages, n - 1);
        let earlier = messages.take(n - 1);
        let m = messages[n - 1];
        assert(now.last() == m);
        if m.role == Role::Tool {
            assert(is_result(messages, n - 1));
            let id = m.tool_call_id->0;
            let (a, b) = choose|a: int, b: int|
                #[trigger] is_call(messages, a, b) && a < n - 1 && messages[a].tool_calls->0[b].id
                    == m.tool_call_id;
            lemma_place(messages, a, b);
            let p = place(messages, a, b);
            lemma_call_with(list, id);
            lemma_repeated(list);
            assert(list[p].id == Some(id));
            let q = call_with(list, id);
            assert(q is Some);
            if q->0 < p {
                assert(list[q->0].id is Some && list[p].id != list[q->0].id);
            } else if p < q->0 {
                assert(list[p].id is Some && list[q->0].id != list[p].id);
            }
            assert(q == Some(p));
            if answered(list, earlier, id) {
                let k = choose|k: int|
                    0 <= k < earlier.len() && (#[trigger] earlier[k]).role == Role::Tool && target(
                        list,
                        earlier[k],
                    ) == Some(id);
                assert(messages[k] == earlier[k]);
                assert(is_result(messages, k) && is_result(messages, n - 1));
            }
        }
    }
}

/// Of a result that names no call, one call alone can be meant: it is accepted only where a single call
/// of the conversation is of the tool that it names, and that call has an identifier and comes earlier.
pub proof fn a_result_without_a_link_has_one_call_by_name(
    messages: Seq<MessageView>,
    i: int,
    m: int,
    c: int,
    n: int,
    d: int,
)
    requires
        links_fault(messages) is None,
        0 <= i < messages.len(),
        messages[i].role == Role::Tool,
        messages[i].tool_call_id is None,
        is_call(messages, m, c),
        is_call(messages, n, d),
        messages[i].name == Some(messages[m].tool_calls->0[c].function.name),
        messages[i].name == Some(messages[n].tool_calls->0[d].function.name),
    ensures
        m == n && c == d,
        m < i,
        messages[m].tool_calls->0[c].id is Some,
{
    let list = declared(messages);
    let name = name_of(messages[i]);
    lemma_each_is_sound(list, messages, i);
    lemma_place(messages, m, c);
    lemma_place(messages, n, d);
    if place(messages, m, c) != place(messages, n, d) {
        lemma_named_all(list, name, place(messages, m, c), place(messages, n, d));
    }
    lemma_named_has(list, name, place(messages, m, c));
}

proof fn lemma_named_has(list: Seq<DeclaredView>, name: Seq<char>, p: int)
    requires
        0 <= p < list.len(),
        list[p].name == name,
    ensures
        named(list, name).contains(list[p]),
    decreases list.len(),
{
    let before = list.drop_last();
    if p < before.len() {
        assert(before[p] == list[p]);
        lemma_named_has(before, name, p);
        let k = choose|k: int| 0 <= k < named(before, name).len() && named(before, name)[k] == list[p];
        assert(named(list, name)[k] == list[p]);
    } else {
        assert(named(list, name).last() == list[p]);
    }
}

proof fn lemma_named_all(list: Seq<DeclaredView>, name: Seq<char>, p: int, q: int)
    requires
        0 <= p < list.len(),
        0 <= q < list.len(),
        list[p].name == name,
        list[q].name == name,
        p != q,
    ensures
        named(list, name).len() >= 2,
    decreases list.len(),
{
    let before = list.drop_last();
    if p < before.len() && q < before.len() {
        assert(before[p] == list[p] && before[q] == list[q]);
        lemma_named_all(before, name, p, q);
    } else if p < before.len() {
        assert(before[p] == list[p]);
        lemma_named_has(before, name, p);
    } else {
        assert(before[q] == list[q]);
        lemma_named_has(before, name, q);
    }
}

} // verus!
