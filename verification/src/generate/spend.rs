//! Paying a teacher: what may be sent, and what comes of the answer.

use vstd::prelude::*;

use crate::generate::assistant::{accumulate, AssistantTurn};
use crate::generate::assistant::{
    a_stream_adds_up_to_all_it_says,
    a_turn_says_what_was_streamed,
    drained,
    the_first_error_ends_a_stream,
    turn_of,
    AssistantTurnView,
};
use crate::generate::error::GenerateError;
use crate::generate::error::GenerateErrorView;
use crate::generate::request::{request_of, TeacherCallView};
use crate::generate::request::TeacherCall;
use crate::generate::user_synth::passes;
use crate::generate::user_synth::GatedUserTurn;
use crate::providers::delta::StreamDelta;
use crate::providers::error::ProviderError;
use crate::providers::request::ChatRequest;
use crate::providers::request::ChatRequestView;
use crate::schema::message::{ContentView, Role};
use crate::schema::record::UserTurnVerdict;
use crate::text::begins;
use crate::text::joined;

verus! {

fn flag(b: bool) -> (s: &'static str)
    ensures
        s@ == flag_words(b),
{
    if b {
        "true"
    } else {
        "false"
    }
}

/// The word for a truth value.
pub open spec fn flag_words(b: bool) -> Seq<char> {
    if b {
        "true"@
    } else {
        "false"@
    }
}

/// The words for a turn that did not pass the filter.
pub open spec fn blocked_words(v: UserTurnVerdict) -> Seq<char> {
    "refusing to spend teacher tokens: user-turn QC gate failed (answerable="@ + flag_words(
        v.answerable,
    ) + ", difficulty_targeted="@ + flag_words(v.difficulty_targeted) + ", diverse="@ + flag_words(
        v.diverse,
    ) + ", in_scope_safe="@ + flag_words(v.in_scope_safe) + ")"@
}

/// The request that a gated turn may be answered by, or why there is none: the turn did not pass, or
/// the call has no token cap.
pub open spec fn permitted(gated: GatedUserTurn, call: TeacherCallView) -> Result<
    ChatRequestView,
    GenerateErrorView,
> {
    if !passes(gated.verdict) {
        Err(GenerateErrorView::Invariant(blocked_words(gated.verdict)))
    } else {
        request_of(call)
    }
}

/// The request that a gated turn may be answered by. Teachers are called with what comes from here
/// and with nothing else.
pub fn permit(gated: &GatedUserTurn, call: &TeacherCall) -> (r: Result<ChatRequest, GenerateError>)
    ensures
        match r {
            Ok(q) => permitted(*gated, call.deep_view()) == Ok::<ChatRequestView, GenerateErrorView>(
                q.deep_view(),
            ),
            Err(e) => permitted(*gated, call.deep_view()) == Err::<
                ChatRequestView,
                GenerateErrorView,
            >(e.deep_view()),
        },
{
    if !gated.passed() {
        let v = &gated.verdict;
        let mut words = joined(
            "refusing to spend teacher tokens: user-turn QC gate failed (answerable=",
            flag(v.answerable),
        );
        words.append(", difficulty_targeted=");
        words.append(flag(v.difficulty_targeted));
        words.append(", diverse=");
        words.append(flag(v.diverse));
        words.append(", in_scope_safe=");
        words.append(flag(v.in_scope_safe));
        words.append(")");
        return Err(GenerateError::Invariant(words));
    }
    call.build()
}

/// No teacher is paid for a turn that did not pass: there is a request only where all four
/// judgements let the turn pass, and then it is capped.
pub proof fn no_teacher_is_paid_for_a_blocked_turn(gated: GatedUserTurn, call: TeacherCallView)
    ensures
        permitted(gated, call) is Ok ==> passes(gated.verdict) && call.max_tokens > 0,
        !passes(gated.verdict) ==> permitted(gated, call) is Err,
{
}

/// The turn that a stream gives, or the first error in it, or why it gives none.
pub open spec fn answered(items: Seq<Result<StreamDelta, ProviderError>>) -> Result<
    AssistantTurnView,
    GenerateErrorView,
> {
    match drained(items) {
        Err(e) => Err(e),
        Ok(acc) => turn_of(acc),
    }
}

/// The turn that a teacher's stream gives.
pub fn generate_turn(items: Vec<Result<StreamDelta, ProviderError>>) -> (r: Result<
    AssistantTurn,
    GenerateError,
>)
    ensures
        match r {
            Ok(t) => answered(items@) == Ok::<AssistantTurnView, GenerateErrorView>(t.deep_view()),
            Err(e) => answered(items@) == Err::<AssistantTurnView, GenerateErrorView>(
                e.deep_view(),
            ),
        },
{
    match accumulate(items) {
        Ok(acc) => acc.into_turn(),
        Err(e) => Err(e),
    }
}

/// A teacher is asked exactly where all four judgements of the turn passed, and then for what was to be
/// asked.
pub proof fn a_passed_turn_is_paid_for(gated: GatedUserTurn, call: TeacherCallView)
    ensures
        ({
            let v = gated.verdict;
            let passed = v.answerable && v.difficulty_targeted && v.diverse && v.in_scope_safe;
            &&& passed ==> permitted(gated, call) == request_of(call)
            &&& !passed ==> (permitted(gated, call) matches Err(GenerateErrorView::Invariant(_)))
        }),
{
}

/// A turn is what its stream said: where no chunk failed and the answer opens with no chain of thought of
/// its own, the text of the turn is what all chunks said of the answer, one after the other, and its chain
/// of thought what they said of that.
pub proof fn a_turn_is_what_its_stream_said(
    items: Seq<Result<StreamDelta, ProviderError>>,
    contents: Seq<Seq<char>>,
    thoughts: Seq<Seq<char>>,
)
    requires
        answered(items) is Ok,
        contents.len() == items.len(),
        thoughts.len() == items.len(),
        forall|i: int|
            0 <= i < items.len() ==> (#[trigger] items[i] matches Ok(d) && contents[i] == (
            match d.deep_view().content {
                Some(t) => t,
                None => Seq::empty(),
            }) && thoughts[i] == (match d.deep_view().reasoning {
                Some(t) => t,
                None => Seq::empty(),
            })),
        contents.flatten().len() > 0,
        !begins(contents.flatten(), "<think>"@),
        !begins(contents.flatten(), "<|channel>thought\n"@),
        !begins(contents.flatten(), "<|start|>assistant<|channel|>analysis<|message|>"@),
    ensures
        answered(items)->Ok_0.message.content == ContentView::Text(contents.flatten()),
        answered(items)->Ok_0.message.role == Role::Assistant,
        thoughts.flatten().len() > 0 ==> answered(items)->Ok_0.message.reasoning == Some(
            thoughts.flatten(),
        ),
        thoughts.flatten().len() == 0 ==> answered(items)->Ok_0.message.reasoning is None,
{
    a_stream_adds_up_to_all_it_says(items, contents, thoughts);
    a_turn_says_what_was_streamed(drained(items)->Ok_0);
}

/// The first failure of a stream is what comes of asking for a turn.
pub proof fn a_failed_stream_makes_no_turn(items: Seq<Result<StreamDelta, ProviderError>>, i: int)
    requires
        0 <= i < items.len(),
        items[i] is Err,
        forall|k: int| 0 <= k < i ==> (#[trigger] items[k]) is Ok,
    ensures
        answered(items) == Err::<AssistantTurnView, GenerateErrorView>(
            GenerateErrorView::Provider(items[i]->Err_0.deep_view()),
        ),
{
    the_first_error_ends_a_stream(items, i);
}

} // verus!
