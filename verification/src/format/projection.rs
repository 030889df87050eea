//! Projecting a training record down to what a trainer takes.
//!
//! A record keeps everything that is known about its making; only here is it reduced. Which of the
//! rendered text enters the loss is the trainer's to apply, so it is recorded beside the text and
//! changes nothing of it.

use vstd::prelude::*;

use crate::format::error::{FormatError, FormatErrorView};
use crate::format::render::{effective_reasoning, render};
use crate::format::render::{rendered, shown};
use crate::schema::message::{
    content_text,
    content_words,
    CotPolicy,
    Message,
    MessageView,
    MultiTurnLoss,
    Role,
    TrlFormat,
};
use crate::schema::record::{PreferenceRecord, PreferenceSide, TrainingRecord};
use crate::schema::record::{PreferenceRecordView, PreferenceSideView};
use crate::text::{debug_of, decimal};
use crate::text::{debug_text, decimal_text, joined, same_text};

verus! {

/// A rendered record with what a trainer needs to know of the loss.
#[derive(Debug, Clone, PartialEq)]
pub struct SftProjection {
    /// The target it was rendered for.
    pub target: TrlFormat,
    /// The rendered text.
    pub rendered: String,
    /// What became of the chain of thought.
    pub cot_policy: CotPolicy,
    /// Whether the trainer must mask the chain of thought out of the loss.
    pub cot_masked: bool,
    /// Which assistant turns enter the loss.
    pub multi_turn_loss: MultiTurnLoss,
}

/// What a projection is, as mathematics.
#[verifier::ext_equal]
pub struct SftProjectionView {
    pub target: TrlFormat,
    pub rendered: Seq<char>,
    pub cot_policy: CotPolicy,
    pub cot_masked: bool,
    pub multi_turn_loss: MultiTurnLoss,
}

impl DeepView for SftProjection {
    type V = SftProjectionView;

    open spec fn deep_view(&self) -> SftProjectionView {
        SftProjectionView {
            target: self.target,
            rendered: self.rendered@,
            cot_policy: self.cot_policy,
            cot_masked: self.cot_masked,
            multi_turn_loss: self.multi_turn_loss,
        }
    }
}

/// How many turns are an assistant's.
pub open spec fn answers(messages: Seq<MessageView>) -> nat
    decreases messages.len(),
{
    if messages.len() == 0 {
        0
    } else {
        answers(messages.drop_last()) + if messages.last().role == Role::Assistant {
            1nat
        } else {
            0nat
        }
    }
}

/// Where the last assistant's turn stands.
pub open spec fn last_answer(messages: Seq<MessageView>) -> Option<int>
    decreases messages.len(),
{
    if messages.len() == 0 {
        None
    } else if messages.last().role == Role::Assistant {
        Some(messages.len() - 1)
    } else {
        last_answer(messages.drop_last())
    }
}

fn count_answers(messages: &[Message]) -> (n: usize)
    ensures
        n == answers(messages.deep_view()),
        n <= messages@.len(),
{
    let ghost view = messages.deep_view();
    let mut n: usize = 0;
    let mut i: usize = 0;
    assert(view.take(0) =~= Seq::empty());
    while i < messages.len()
        invariant
            n <= i <= messages@.len(),
            view == messages.deep_view(),
            n == answers(view.take(i as int)),
        decreases messages@.len() - i,
    {
        proof {
            assert(view.take(i + 1).drop_last() =~= view.take(i as int));
            assert(view.take(i + 1).last() == messages@[i as int].deep_view());
        }
        if messages[i].role == Role::Assistant {
            n += 1;
        }
        i += 1;
    }
    assert(view.take(i as int) =~= view);
    n
}

/// The words for a prompt and completion pair of which more than the last turn should be learned.
pub open spec fn too_many_words(n: nat) -> Seq<char> {
    "prompt-completion supervises only the final assistant turn, but MultiTurnLoss::AllAssistant was requested with "@
        + decimal(n) + " assistant turns (use MultiTurnLoss::FinalTurnOnly)"@
}

/// The projection of a conversation, or why there is none: it has no turn to learn from, or the
/// target cannot learn from all of them, or it cannot be rendered.
pub open spec fn sft(
    messages: Seq<MessageView>,
    target: TrlFormat,
    cot: CotPolicy,
    loss: MultiTurnLoss,
) -> Result<SftProjectionView, FormatErrorView> {
    if answers(messages) == 0 {
        Err(FormatErrorView::Projection("record has no assistant turn to project"@))
    } else if target == TrlFormat::TrlPromptCompletion && loss == MultiTurnLoss::AllAssistant
        && answers(messages) > 1 {
        Err(FormatErrorView::Projection(too_many_words(answers(messages))))
    } else {
        match rendered(messages, target, cot) {
            Err(e) => Err(e),
            Ok(s) => Ok(
                SftProjectionView {
                    target,
                    rendered: s,
                    cot_policy: cot,
                    cot_masked: cot == CotPolicy::Masked,
                    multi_turn_loss: loss,
                },
            ),
        }
    }
}

/// Projects a record for supervised fine-tuning.
pub fn project_sft(
    record: &TrainingRecord,
    target: TrlFormat,
    cot: CotPolicy,
    multi_turn_loss: MultiTurnLoss,
) -> (r: Result<SftProjection, FormatError>)
    ensures
        match r {
            Ok(p) => sft(record.messages.deep_view(), target, cot, multi_turn_loss) == Ok::<
                SftProjectionView,
                FormatErrorView,
            >(p.deep_view()),
            Err(e) => sft(record.messages.deep_view(), target, cot, multi_turn_loss) == Err::<
                SftProjectionView,
                FormatErrorView,
            >(e.deep_view()),
        },
{
    let messages = record.messages.as_slice();
    assert(messages.deep_view() =~= record.messages.deep_view());
    let n: usize = count_answers(messages);
    if n == 0 {
        return Err(FormatError::Projection("record has no assistant turn to project".to_owned()));
    }
    if target == TrlFormat::TrlPromptCompletion && multi_turn_loss == MultiTurnLoss::AllAssistant
        && n > 1 {
        let digits = decimal_text(n as u64);
        let mut words = joined(
            "prompt-completion supervises only the final assistant turn, but MultiTurnLoss::AllAssistant was requested with ",
            digits.as_str(),
        );
        words.append(" assistant turns (use MultiTurnLoss::FinalTurnOnly)");
        return Err(FormatError::Projection(words));
    }
    match render(messages, target, cot) {
        Ok(rendered) => Ok(
            SftProjection {
                target,
                rendered,
                cot_policy: cot,
                cot_masked: cot == CotPolicy::Masked,
                multi_turn_loss,
            },
        ),
        Err(e) => Err(e),
    }
}

/// The last assistant's turn of a record as a side of a pair, and where it stands.
pub open spec fn side(
    messages: Seq<MessageView>,
    record_id: Seq<char>,
    aggregate: Option<crate::double::Double>,
    cot: CotPolicy,
) -> Result<(int, PreferenceSideView), FormatErrorView> {
    match last_answer(messages) {
        None => Err(
            FormatErrorView::Projection("record "@ + record_id + " has no assistant turn"@),
        ),
        Some(i) => Ok(
            (
                i,
                PreferenceSideView {
                    content: content_words(messages[i].content),
                    reasoning: shown(messages[i], cot).reasoning,
                    record_id,
                    aggregate,
                },
            ),
        ),
    }
}

fn final_assistant_side(record: &TrainingRecord, cot: CotPolicy) -> (r: Result<
    (usize, PreferenceSide),
    FormatError,
>)
    ensures
        ({
            let s = side(
                record.messages.deep_view(),
                record.record_id@,
                record.judging.aggregate,
                cot,
            );
            match r {
                Ok((i, p)) => i < record.messages@.len() && s == Ok::<
                    (int, PreferenceSideView),
                    FormatErrorView,
                >((i as int, p.deep_view())),
                Err(e) => s == Err::<(int, PreferenceSideView), FormatErrorView>(e.deep_view()),
            }
        }),
{
    let ghost view = record.messages.deep_view();
    let mut end: usize = record.messages.len();
    assert(view.take(end as int) =~= view);
    while end > 0
        invariant
            end <= record.messages@.len(),
            view == record.messages.deep_view(),
            last_answer(view) == last_answer(view.take(end as int)),
        decreases end,
    {
        let msg = &record.messages[end - 1];
        proof {
            assert(view.take(end as int).drop_last() =~= view.take(end - 1));
            assert(view.take(end as int).last() == msg.deep_view());
        }
        if msg.role == Role::Assistant {
            let reasoning = match effective_reasoning(msg, cot) {
                Some(r) => Some(r.to_owned()),
                None => None,
            };
            let p = PreferenceSide {
                content: content_text(&msg.content),
                reasoning,
                record_id: record.record_id.clone(),
                aggregate: record.judging.aggregate,
            };
            return Ok((end - 1, p));
        }
        end -= 1;
    }
    let mut words = joined("record ", record.record_id.as_str());
    words.append(" has no assistant turn");
    Err(FormatError::Projection(words))
}

/// The words for two records that do not belong together.
pub open spec fn unpaired_words(chosen: Seq<char>, rejected: Seq<char>) -> Seq<char> {
    "chosen/rejected must share a non-empty prompt_hash (chosen="@ + debug_of(chosen)
        + ", rejected="@ + debug_of(rejected) + ")"@
}

/// The preference pair of two records, or why they make none: they belong to different prompts, or
/// one of them has no answer.
pub open spec fn preference(
    chosen: TrainingRecord,
    rejected: TrainingRecord,
    cot: CotPolicy,
) -> Result<PreferenceRecordView, FormatErrorView> {
    let hash = chosen.hashes.prompt_hash@;
    if hash.len() == 0 || hash != rejected.hashes.prompt_hash@ {
        Err(FormatErrorView::Projection(unpaired_words(hash, rejected.hashes.prompt_hash@)))
    } else {
        match side(
            chosen.messages.deep_view(),
            chosen.record_id@,
            chosen.judging.aggregate,
            cot,
        ) {
            Err(e) => Err(e),
            Ok((i, c)) => match side(
                rejected.messages.deep_view(),
                rejected.record_id@,
                rejected.judging.aggregate,
                cot,
            ) {
                Err(e) => Err(e),
                Ok((_, r)) => Ok(
                    PreferenceRecordView {
                        prompt: chosen.messages.deep_view().take(i),
                        chosen: c,
                        rejected: r,
                        prompt_hash: hash,
                    },
                ),
            },
        }
    }
}

/// Projects an admitted record and a rejected sibling to a preference pair. The prompt is what
/// stands before the chosen record's last assistant turn.
pub fn project_preference(
    chosen: &TrainingRecord,
    rejected: &TrainingRecord,
    cot: CotPolicy,
) -> (r: Result<PreferenceRecord, FormatError>)
    ensures
        match r {
            Ok(p) => preference(*chosen, *rejected, cot) == Ok::<
                PreferenceRecordView,
                FormatErrorView,
            >(p.deep_view()),
            Err(e) => preference(*chosen, *rejected, cot) == Err::<
                PreferenceRecordView,
                FormatErrorView,
            >(e.deep_view()),
        },
{
    let hash = chosen.hashes.prompt_hash.as_str();
    let other = rejected.hashes.prompt_hash.as_str();
    if hash.unicode_len() == 0 || !same_text(hash, other) {
        let mut words = joined(
            "chosen/rejected must share a non-empty prompt_hash (chosen=",
            debug_text(hash).as_str(),
        );
        words.append(", rejected=");
        words.append(debug_text(other).as_str());
        words.append(")");
        return Err(FormatError::Projection(words));
    }
    let (end, chosen_side) = match final_assistant_side(chosen, cot) {
        Ok(p) => p,
        Err(e) => {
            return Err(e);
        },
    };
    let (_, rejected_side) = match final_assistant_side(rejected, cot) {
        Ok(p) => p,
        Err(e) => {
            return Err(e);
        },
    };
    let ghost view = chosen.messages.deep_view();
    let mut prompt: Vec<Message> = Vec::new();
    let mut i: usize = 0;
    assert(prompt.deep_view() =~= view.take(0));
    while i < end
        invariant
            i <= end <= chosen.messages@.len(),
            view == chosen.messages.deep_view(),
            prompt.deep_view() == view.take(i as int),
        decreases end - i,
    {
        let ghost before = prompt.deep_view();
        let m = chosen.messages[i].clone();
        prompt.push(m);
        proof {
            assert(prompt.deep_view() =~= before.push(m.deep_view()));
            assert(view.take(i + 1) =~= view.take(i as int).push(view[i as int]));
        }
        i += 1;
    }
    Ok(
        PreferenceRecord {
            prompt,
            chosen: chosen_side,
            rejected: rejected_side,
            prompt_hash: chosen.hashes.prompt_hash.clone(),
        },
    )
}

/// The last assistant's turn is one, and no turn behind it is.
proof fn lemma_last_answer(messages: Seq<MessageView>)
    ensures
        match last_answer(messages) {
            Some(i) => 0 <= i < messages.len() && messages[i].role == Role::Assistant && forall|k: int|
                i < k < messages.len() ==> (#[trigger] messages[k]).role != Role::Assistant,
            None => forall|k: int|
                0 <= k < messages.len() ==> (#[trigger] messages[k]).role != Role::Assistant,
        },
    decreases messages.len(),
{
    if messages.len() > 0 && messages.last().role != Role::Assistant {
        let rest = messages.drop_last();
        lemma_last_answer(rest);
        assert forall|k: int|
            0 <= k < messages.len() && (last_answer(messages) is Some ==> last_answer(messages)->0
                < k) implies (#[trigger] messages[k]).role != Role::Assistant by {
            if k < rest.len() {
                assert(rest[k] == messages[k]);
            } else {
                assert(messages[k] == messages.last());
            }
        }
        if last_answer(rest) is Some {
            assert(rest[last_answer(rest)->0] == messages[last_answer(rest)->0]);
        }
    }
}

/// What is chosen is the last answer: a pair's sides are the last assistant turns of their records,
/// its prompt is what stands before the chosen one, and a chain of thought is never part of an
/// answer's text.
pub proof fn a_pair_is_made_of_last_answers(
    chosen: TrainingRecord,
    rejected: TrainingRecord,
    cot: CotPolicy,
)
    requires
        preference(chosen, rejected, cot) is Ok,
    ensures
        ({
            let p = preference(chosen, rejected, cot)->Ok_0;
            let messages = chosen.messages.deep_view();
            let end = p.prompt.len() as int;
            &&& end < messages.len()
            &&& p.prompt == messages.take(end)
            &&& messages[end].role == Role::Assistant
            &&& forall|k: int|
                end < k < messages.len() ==> (#[trigger] messages[k]).role != Role::Assistant
            &&& p.chosen.content == content_words(messages[end].content)
            &&& p.chosen.reasoning == shown(messages[end], cot).reasoning
            &&& p.prompt_hash == rejected.hashes.prompt_hash@
        }),
        cot == CotPolicy::Stripped ==> preference(chosen, rejected, cot)->Ok_0.chosen.reasoning is None
            && preference(chosen, rejected, cot)->Ok_0.rejected.reasoning is None,
{
    lemma_last_answer(chosen.messages.deep_view());
    let i = last_answer(chosen.messages.deep_view())->0;
    assert(chosen.messages.deep_view().take(i).len() == i);
}

/// A record can be projected exactly where an assistant speaks in it, its conversation can be rendered,
/// and no more than one answer is asked of a target that trains on one; what comes out is the
/// conversation as it is rendered, under the policy and with the loss that were asked for.
pub proof fn a_projection_is_the_rendering(
    messages: Seq<MessageView>,
    target: TrlFormat,
    cot: CotPolicy,
    loss: MultiTurnLoss,
)
    ensures
        ({
            let p = sft(messages, target, cot, loss);
            let some = exists|i: int|
                0 <= i < messages.len() && (#[trigger] messages[i]).role == Role::Assistant;
            let several = exists|i: int, k: int|
                0 <= i < k < messages.len() && (#[trigger] messages[i]).role == Role::Assistant && (
                #[trigger] messages[k]).role == Role::Assistant;
            let asks = target == TrlFormat::TrlPromptCompletion && loss == MultiTurnLoss::AllAssistant;
            &&& !some ==> (p matches Err(FormatErrorView::Projection(_)))
            &&& asks && several ==> (p matches Err(FormatErrorView::Projection(_)))
            &&& some && !(asks && several) ==> match rendered(messages, target, cot) {
                Ok(text) => p matches Ok(out) && out.rendered == text && out.target == target
                    && out.cot_policy == cot && out.cot_masked == (cot == CotPolicy::Masked)
                    && out.multi_turn_loss == loss,
                Err(e) => p == Err::<SftProjectionView, FormatErrorView>(e),
            }
        }),
{
    lemma_answers(messages);
}

proof fn lemma_answers(messages: Seq<MessageView>)
    ensures
        answers(messages) > 0 <==> exists|i: int|
            0 <= i < messages.len() && (#[trigger] messages[i]).role == Role::Assistant,
        answers(messages) > 1 <==> exists|i: int, k: int|
            0 <= i < k < messages.len() && (#[trigger] messages[i]).role == Role::Assistant && (
            #[trigger] messages[k]).role == Role::Assistant,
    decreases messages.len(),
{
    if messages.len() > 0 {
        let before = messages.drop_last();
        let n = messages.len() - 1;
        lemma_answers(before);
        assert forall|i: int| 0 <= i < n implies #[trigger] messages[i] == before[i] by {}
        if answers(before) > 0 {
            let i = choose|i: int|
                0 <= i < before.len() && (#[trigger] before[i]).role == Role::Assistant;
            assert(messages[i].role == Role::Assistant);
            if messages[n].role == Role::Assistant {
                assert(messages[i].role == Role::Assistant && messages[n].role == Role::Assistant);
            }
        }
        if answers(before) > 1 {
            let (i, k) = choose|i: int, k: int|
                0 <= i < k < before.len() && (#[trigger] before[i]).role == Role::Assistant && (
                #[trigger] before[k]).role == Role::Assistant;
            assert(messages[i].role == Role::Assistant && messages[k].role == Role::Assistant);
        }
        if exists|i: int| 0 <= i < messages.len() && (#[trigger] messages[i]).role == Role::Assistant {
            let i = choose|i: int|
                0 <= i < messages.len() && (#[trigger] messages[i]).role == Role::Assistant;
            if i < n {
                assert(before[i].role == Role::Assistant);
            }
        }
        if exists|i: int, k: int|
            0 <= i < k < messages.len() && (#[trigger] messages[i]).role == Role::Assistant && (
            #[trigger] messages[k]).role == Role::Assistant {
            let (i, k) = choose|i: int, k: int|
                0 <= i < k < messages.len() && (#[trigger] messages[i]).role == Role::Assistant && (
                #[trigger] messages[k]).role == Role::Assistant;
            assert(before[i].role == Role::Assistant);
            if k < n {
                assert(before[i].role == Role::Assistant && before[k].role == Role::Assistant);
            }
        }
    }
}

/// A pair is made of two records of one prompt, each with an answer: what is preferred is the last
/// answer of the one, what is not is the last answer of the other, with their thoughts as the policy
/// shows them, and what is asked is all that the first holds before its last answer.
pub proof fn a_pair_is_owed_to_two_answers_of_one_prompt(
    chosen: TrainingRecord,
    rejected: TrainingRecord,
    cot: CotPolicy,
    i: int,
    k: int,
)
    requires
        chosen.hashes.prompt_hash@.len() > 0,
        chosen.hashes.prompt_hash@ == rejected.hashes.prompt_hash@,
        0 <= i < chosen.messages.deep_view().len(),
        0 <= k < rejected.messages.deep_view().len(),
        chosen.messages.deep_view()[i].role == Role::Assistant,
        rejected.messages.deep_view()[k].role == Role::Assistant,
        forall|n: int|
            i < n < chosen.messages.deep_view().len() ==> (
            #[trigger] chosen.messages.deep_view()[n]).role != Role::Assistant,
        forall|n: int|
            k < n < rejected.messages.deep_view().len() ==> (
            #[trigger] rejected.messages.deep_view()[n]).role != Role::Assistant,
    ensures
        ({
            let c = chosen.messages.deep_view()[i];
            let r = rejected.messages.deep_view()[k];
            let shows = cot != CotPolicy::Stripped;
            preference(chosen, rejected, cot) matches Ok(p) && p.prompt_hash
                == chosen.hashes.prompt_hash@ && p.prompt == chosen.messages.deep_view().take(i)
                && p.chosen.content == content_words(c.content) && p.rejected.content
                == content_words(r.content) && p.chosen.reasoning == (if shows {
                c.reasoning
            } else {
                None
            }) && p.rejected.reasoning == (if shows {
                r.reasoning
            } else {
                None
            }) && p.chosen.record_id == chosen.record_id@ && p.rejected.record_id
                == rejected.record_id@ && p.chosen.aggregate == chosen.judging.aggregate
                && p.rejected.aggregate == rejected.judging.aggregate
        }),
{
    lemma_last_answer_is(chosen.messages.deep_view(), i);
    lemma_last_answer_is(rejected.messages.deep_view(), k);
}

/// Records of two prompts, or of none that is known, make no pair, and neither does one without an
/// answer.
pub proof fn no_pair_without_a_common_prompt(
    chosen: TrainingRecord,
    rejected: TrainingRecord,
    cot: CotPolicy,
)
    requires
        chosen.hashes.prompt_hash@.len() == 0 || chosen.hashes.prompt_hash@
            != rejected.hashes.prompt_hash@,
    ensures
        preference(chosen, rejected, cot) matches Err(FormatErrorView::Projection(_)),
{
}

proof fn lemma_last_answer_is(messages: Seq<MessageView>, i: int)
    requires
        0 <= i < messages.len(),
        messages[i].role == Role::Assistant,
        forall|n: int| i < n < messages.len() ==> (#[trigger] messages[n]).role != Role::Assistant,
    ensures
        last_answer(messages) == Some(i),
    decreases messages.len(),
{
    if i < messages.len() - 1 {
        let before = messages.drop_last();
        assert(messages[messages.len() - 1].role != Role::Assistant);
        assert forall|n: int| i < n < before.len() implies (#[trigger] before[n]).role
            != Role::Assistant by {
            assert(messages[n].role != Role::Assistant);
        }
        lemma_last_answer_is(before, i);
    }
}

} // verus!
