//! Assembling a training record from a user turn and the answer to it.
//!
//! What later stages decide is left open here: the hashes, which the store computes, the checks, the
//! judgement, and the sibling group, whose name is the hash of the prompt.

use vstd::prelude::*;

use crate::double::Double;
use crate::generate::assistant::{earlier, AssistantTurnView};
use crate::generate::assistant::AssistantTurn;
use crate::generate::sibling::SiblingPlan;
use crate::generate::user_synth::{GatedUserTurn, UserSeed, UserTurnCandidate};
use crate::schema::judging::no_judging;
use crate::schema::judging::Judging;
use crate::schema::message::Message;
use crate::schema::record::{
    Cost,
    Generation,
    Hashes,
    Lifecycle,
    LifecycleState,
    Provenance,
    StateTransition,
    TeacherRef,
    TrainingRecord,
    UserTurnVerdict,
};
use crate::schema::record::{
    GenerationView,
    LifecycleView,
    ProvenanceView,
    StateTransitionView,
    TeacherRefView,
    TrainingRecordView,
};
use crate::schema::verification::no_verification;
use crate::schema::verification::{Verification, VerificationKind};

verus! {

/// What the caller knows of a record that cannot be known here.
#[derive(Debug, Clone, PartialEq)]
pub struct RecordContext {
    /// The record's identity.
    pub record_id: String,
    /// The run.
    pub run_id: String,
    /// The area it trains.
    pub training_area: String,
    /// The version of this software.
    pub harness_version: String,
    /// The commit of this software.
    pub git_commit: Option<String>,
    /// Now.
    pub now_rfc3339: String,
    /// The model that wrote the user turn.
    pub user_synth_model: Option<String>,
}

/// The spelling of a kind of check.
pub open spec fn kind_spelling(kind: VerificationKind) -> Seq<char> {
    match kind {
        VerificationKind::NumericMatch => "numeric_match"@,
        VerificationKind::SetMatch => "set_match"@,
        VerificationKind::SqlResultMatch => "sql_result_match"@,
        VerificationKind::SchemaShape => "schema_shape"@,
        VerificationKind::RefusalExpected => "refusal_expected"@,
        VerificationKind::Unchecked => "none"@,
    }
}

/// The spelling of a kind of check.
pub fn verification_kind_str(kind: VerificationKind) -> (s: String)
    ensures
        s@ == kind_spelling(kind),
{
    match kind {
        VerificationKind::NumericMatch => "numeric_match".to_owned(),
        VerificationKind::SetMatch => "set_match".to_owned(),
        VerificationKind::SqlResultMatch => "sql_result_match".to_owned(),
        VerificationKind::SchemaShape => "schema_shape".to_owned(),
        VerificationKind::RefusalExpected => "refusal_expected".to_owned(),
        VerificationKind::Unchecked => "none".to_owned(),
    }
}

/// A generation with what the user turn was made from and with its place in the sibling group. What
/// the generation tells already stands.
pub open spec fn seeded(
    g: GenerationView,
    seed: UserSeed,
    sibling: Option<SiblingPlan>,
) -> GenerationView {
    GenerationView {
        persona: earlier(g.persona, seed.persona.deep_view()),
        taxonomy_node: earlier(g.taxonomy_node, seed.taxonomy_node.deep_view()),
        prompt_template_id: earlier(g.prompt_template_id, seed.prompt_template_id.deep_view()),
        n_completions: match sibling {
            Some(s) => Some(s.n_completions),
            None => g.n_completions,
        },
        completion_index: match sibling {
            Some(s) => Some(s.completion_index),
            None => g.completion_index,
        },
        ..g
    }
}

fn apply_seed(
    generation: Generation,
    seed: &UserSeed,
    sibling: Option<SiblingPlan>,
) -> (r: Generation)
    ensures
        r.deep_view() == seeded(generation.deep_view(), *seed, sibling),
{
    let mut g = generation;
    if g.persona.is_none() {
        g.persona = seed.persona.clone();
    }
    if g.taxonomy_node.is_none() {
        g.taxonomy_node = seed.taxonomy_node.clone();
    }
    if g.prompt_template_id.is_none() {
        g.prompt_template_id = seed.prompt_template_id.clone();
    }
    if let Some(s) = sibling {
        g.n_completions = Some(s.n_completions);
        g.completion_index = Some(s.completion_index);
    }
    g
}

/// Where a record comes from: the teacher is the one that the stream named the server of.
pub open spec fn origin(
    ctx: RecordContext,
    verdict: UserTurnVerdict,
    kind: VerificationKind,
    teacher: TeacherRefView,
    served_by: Option<Seq<char>>,
) -> ProvenanceView {
    ProvenanceView {
        run_id: ctx.run_id@,
        parent_ids: Seq::empty(),
        teacher: TeacherRefView { served_by, ..teacher },
        user_synth_model: ctx.user_synth_model.deep_view(),
        user_turn_kind: Some(kind_spelling(kind)),
        in_scope_safe: Some(verdict.in_scope_safe),
        judge_models: Seq::empty(),
        harness_version: ctx.harness_version@,
        git_commit: ctx.git_commit.deep_view(),
    }
}

fn build_provenance(
    ctx: &RecordContext,
    verdict: &UserTurnVerdict,
    candidate: &UserTurnCandidate,
    teacher: TeacherRef,
    turn: &AssistantTurn,
) -> (p: Provenance)
    ensures
        p.deep_view() == origin(
            *ctx,
            *verdict,
            candidate.contract.kind,
            teacher.deep_view(),
            turn.deep_view().served_by,
        ),
{
    let mut teacher = teacher;
    teacher.served_by = turn.served_by.clone();
    let p = Provenance {
        run_id: ctx.run_id.clone(),
        parent_ids: Vec::new(),
        teacher,
        user_synth_model: ctx.user_synth_model.clone(),
        user_turn_kind: Some(verification_kind_str(candidate.contract.kind)),
        in_scope_safe: Some(verdict.in_scope_safe),
        judge_models: Vec::new(),
        harness_version: ctx.harness_version.clone(),
        git_commit: ctx.git_commit.clone(),
    };
    proof {
        assert(p.parent_ids.deep_view() =~= Seq::empty());
        assert(p.judge_models.deep_view() =~= Seq::empty());
    }
    p
}

/// A count as a record holds it: none counts as zero, and what is too large as the largest.
pub open spec fn held_count(n: Option<u64>) -> u32 {
    match n {
        Some(n) => if n > u32::MAX {
            u32::MAX
        } else {
            n as u32
        },
        None => 0,
    }
}

/// What a turn cost, as a record holds it.
pub open spec fn cost_of(t: AssistantTurnView) -> Cost {
    Cost {
        prompt_tokens: held_count(t.prompt_tokens),
        completion_tokens: held_count(t.completion_tokens),
        reasoning_tokens: held_count(t.reasoning_tokens),
        usd: match t.cost {
            Some(c) => c,
            None => Double { bits: 0 },
        },
        latency_ms: 0,
    }
}

fn hold_count(n: Option<u64>) -> (r: u32)
    ensures
        r == held_count(n),
{
    match n {
        Some(n) => if n > 0xffff_ffff {
            0xffff_ffff
        } else {
            n as u32
        },
        None => 0,
    }
}

fn build_cost(turn: &AssistantTurn) -> (c: Cost)
    ensures
        c == cost_of(turn.deep_view()),
{
    Cost {
        prompt_tokens: hold_count(turn.prompt_tokens),
        completion_tokens: hold_count(turn.completion_tokens),
        reasoning_tokens: hold_count(turn.reasoning_tokens),
        usd: match turn.cost {
            Some(c) => c,
            None => Double::zero(),
        },
        latency_ms: 0,
    }
}

/// The way of a record whose assistant turn is there.
pub open spec fn generated_at(at: Seq<char>) -> LifecycleView {
    LifecycleView {
        state: LifecycleState::AssistantGenerated,
        history: seq![
            StateTransitionView { state: LifecycleState::UserSynthesized, at, attempt: 0 },
            StateTransitionView { state: LifecycleState::AssistantGenerated, at, attempt: 0 },
        ],
        error: None,
        attempts: 0,
    }
}

fn build_lifecycle(at: &str) -> (l: Lifecycle)
    ensures
        l.deep_view() == generated_at(at@),
{
    let mut history: Vec<StateTransition> = Vec::new();
    history.push(
        StateTransition {
            state: LifecycleState::UserSynthesized,
            at: at.to_owned(),
            attempt: 0,
        },
    );
    history.push(
        StateTransition {
            state: LifecycleState::AssistantGenerated,
            at: at.to_owned(),
            attempt: 0,
        },
    );
    assert(history.deep_view() =~= generated_at(at@).history);
    Lifecycle { state: LifecycleState::AssistantGenerated, history, error: None, attempts: 0 }
}

/// The record of a user turn and the answer to it.
pub open spec fn assembled(
    ctx: RecordContext,
    gated: GatedUserTurn,
    turn: AssistantTurnView,
    teacher: TeacherRefView,
    generation: GenerationView,
    sibling: Option<SiblingPlan>,
) -> TrainingRecordView {
    TrainingRecordView {
        record_id: ctx.record_id@,
        schema_version: (1, 0, 0),
        dataset_version: None,
        training_area: ctx.training_area@,
        tags: Seq::empty(),
        messages: seq![gated.candidate.message.deep_view(), turn.message],
        tools: None,
        provenance: origin(
            ctx,
            gated.verdict,
            gated.candidate.contract.kind,
            teacher,
            turn.served_by,
        ),
        generation: seeded(generation, gated.candidate.seed, sibling),
        verification_contract: Some(gated.candidate.contract.deep_view()),
        execution_evidence: None,
        verification: no_verification(),
        judging: no_judging(),
        reasoning_quality: None,
        lifecycle: generated_at(ctx.now_rfc3339@),
        record_hash: Seq::empty(),
        prompt_hash: Seq::empty(),
        cost: cost_of(turn),
    }
}

/// Assembles the record of a user turn and the answer to it.
#[must_use]
pub fn assemble(
    ctx: &RecordContext,
    gated: &GatedUserTurn,
    turn: AssistantTurn,
    teacher: TeacherRef,
    generation: Generation,
    sibling: Option<SiblingPlan>,
) -> (r: TrainingRecord)
    ensures
        r.deep_view() == assembled(
            *ctx,
            *gated,
            turn.deep_view(),
            teacher.deep_view(),
            generation.deep_view(),
            sibling,
        ),
{
    let generation = apply_seed(generation, &gated.candidate.seed, sibling);
    let provenance = build_provenance(ctx, &gated.verdict, &gated.candidate, teacher, &turn);
    let cost = build_cost(&turn);
    let lifecycle = build_lifecycle(ctx.now_rfc3339.as_str());
    let mut messages: Vec<Message> = Vec::new();
    messages.push(gated.candidate.message.clone());
    messages.push(turn.message);
    let r = TrainingRecord {
        record_id: ctx.record_id.clone(),
        schema_version: semver::Version::new(1, 0, 0),
        dataset_version: None,
        training_area: ctx.training_area.clone(),
        tags: Vec::new(),
        messages,
        tools: None,
        provenance,
        generation,
        verification_contract: Some(gated.candidate.contract.clone()),
        execution_evidence: None,
        verification: Verification::default(),
        judging: Judging::default(),
        reasoning_quality: None,
        lifecycle,
        hashes: Hashes::default(),
        cost,
    };
    proof {
        assert(r.tags.deep_view() =~= Seq::empty());
        assert(r.messages.deep_view() =~= seq![
            gated.candidate.message.deep_view(),
            turn.message.deep_view(),
        ]);
    }
    r
}

/// What the store and later stages decide is left open, and the turns stand in the record as they
/// are.
pub proof fn a_new_record_is_undecided(
    ctx: RecordContext,
    gated: GatedUserTurn,
    turn: AssistantTurnView,
    teacher: TeacherRefView,
    generation: GenerationView,
    sibling: Option<SiblingPlan>,
)
    ensures
        ({
            let r = assembled(ctx, gated, turn, teacher, generation, sibling);
            &&& r.record_hash.len() == 0 && r.prompt_hash.len() == 0
            &&& r.verification == no_verification() && r.judging == no_judging()
            &&& r.generation.sibling_group_id == generation.sibling_group_id
            &&& r.lifecycle.state == LifecycleState::AssistantGenerated
            &&& r.messages == seq![gated.candidate.message.deep_view(), turn.message]
        }),
{
}

/// A record tells where it came from: the question and the answer, in that order, who asked for it and
/// when, which teacher answered and through whom, how the question was judged, what it was seeded with,
/// which sibling it is, and what it cost, counts that are too large held to the largest.
pub proof fn a_record_tells_where_it_came_from(
    ctx: RecordContext,
    gated: GatedUserTurn,
    turn: AssistantTurnView,
    teacher: TeacherRefView,
    generation: GenerationView,
    sibling: Option<SiblingPlan>,
)
    ensures
        ({
            let r = assembled(ctx, gated, turn, teacher, generation, sibling);
            let count = |n: Option<u64>|
                match n {
                    Some(n) => if n <= u32::MAX {
                        n as u32
                    } else {
                        u32::MAX
                    },
                    None => 0,
                };
            &&& r.record_id == ctx.record_id@ && r.training_area == ctx.training_area@
            &&& r.messages.len() == 2 && r.messages[0] == gated.candidate.message.deep_view()
                && r.messages[1] == turn.message
            &&& r.provenance.run_id == ctx.run_id@
            &&& r.provenance.user_synth_model == ctx.user_synth_model.deep_view()
            &&& r.provenance.harness_version == ctx.harness_version@ && r.provenance.git_commit
                == ctx.git_commit.deep_view()
            &&& r.provenance.teacher.served_by == turn.served_by && r.provenance.teacher.slug
                == teacher.slug && r.provenance.teacher.provider == teacher.provider
            &&& r.provenance.in_scope_safe == Some(gated.verdict.in_scope_safe)
            &&& r.provenance.user_turn_kind == Some(
                match gated.candidate.contract.kind {
                    VerificationKind::NumericMatch => "numeric_match"@,
                    VerificationKind::SetMatch => "set_match"@,
                    VerificationKind::SqlResultMatch => "sql_result_match"@,
                    VerificationKind::SchemaShape => "schema_shape"@,
                    VerificationKind::RefusalExpected => "refusal_expected"@,
                    VerificationKind::Unchecked => "none"@,
                },
            )
            &&& r.provenance.judge_models.len() == 0 && r.provenance.parent_ids.len() == 0
            &&& r.verification_contract == Some(gated.candidate.contract.deep_view())
            &&& r.generation.seed == generation.seed && r.generation.temperature
                == generation.temperature && r.generation.top_p == generation.top_p
                && r.generation.max_tokens == generation.max_tokens
            &&& r.generation.persona == (if generation.persona is Some {
                generation.persona
            } else {
                gated.candidate.seed.persona.deep_view()
            })
            &&& r.generation.taxonomy_node == (if generation.taxonomy_node is Some {
                generation.taxonomy_node
            } else {
                gated.candidate.seed.taxonomy_node.deep_view()
            })
            &&& r.generation.prompt_template_id == (if generation.prompt_template_id is Some {
                generation.prompt_template_id
            } else {
                gated.candidate.seed.prompt_template_id.deep_view()
            })
            &&& sibling is Some ==> r.generation.n_completions == Some(sibling->0.n_completions)
                && r.generation.completion_index == Some(sibling->0.completion_index)
            &&& sibling is None ==> r.generation.n_completions == generation.n_completions
                && r.generation.completion_index == generation.completion_index
            &&& r.cost.prompt_tokens == count(turn.prompt_tokens) && r.cost.completion_tokens == count(
                turn.completion_tokens,
            ) && r.cost.reasoning_tokens == count(turn.reasoning_tokens)
            &&& turn.cost is Some ==> r.cost.usd == turn.cost->0
            &&& turn.cost is None ==> r.cost.usd == (Double { bits: 0 })
            &&& r.lifecycle.history.len() == 2 && r.lifecycle.history[0].state
                == LifecycleState::UserSynthesized && r.lifecycle.history[1].state
                == LifecycleState::AssistantGenerated
            &&& r.lifecycle.history[0].at == ctx.now_rfc3339@ && r.lifecycle.history[1].at
                == ctx.now_rfc3339@
            &&& r.lifecycle.error is None
        }),
{
}

} // verus!
