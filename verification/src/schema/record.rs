//! The training record: a conversation with everything that is known about its making.

use vstd::prelude::*;

use crate::double::Double;
use crate::schema::judging::{Judging, JudgingView};
use crate::schema::message::{Message, MessageView, ReasoningEffort};
use crate::schema::verification::{ExecutionEvidence, Verification, VerificationContract};
use crate::schema::verification::{
    ExecutionEvidenceView,
    VerificationContractView,
    VerificationView,
};

verus! {

/// A version of `semver`.
#[verifier::external_type_specification]
#[verifier::external_body]
pub struct ExVersion(semver::Version);

/// The major, minor and patch numbers of a version without labels.
pub uninterp spec fn version_numbers(v: semver::Version) -> (u64, u64, u64);

/// `semver::Version::new`: the version with these numbers and no labels.
pub assume_specification[ semver::Version::new ](major: u64, minor: u64, patch: u64) -> (v:
    semver::Version)
    ensures
        version_numbers(v) == (major, minor, patch),
;

/// Where a record stands on its way.
#[derive(Debug, Clone, Copy, PartialEq, Eq, Structural)]
pub enum LifecycleState {
    /// The user turn is there.
    UserSynthesized,
    /// The assistant turn is there.
    AssistantGenerated,
    /// The record is being revised.
    Revising,
    /// The record is admitted.
    Admitted,
    /// The record is rejected.
    Rejected,
    /// The record waits for a decision.
    NeedsReview,
}

/// One step of a record on its way.
#[derive(Debug, Clone, PartialEq)]
pub struct StateTransition {
    /// The state entered.
    pub state: LifecycleState,
    /// When.
    pub at: String,
    /// At which attempt.
    pub attempt: u32,
}

/// What a step is, as mathematics.
#[verifier::ext_equal]
pub struct StateTransitionView {
    pub state: LifecycleState,
    pub at: Seq<char>,
    pub attempt: u32,
}

impl DeepView for StateTransition {
    type V = StateTransitionView;

    open spec fn deep_view(&self) -> StateTransitionView {
        StateTransitionView { state: self.state, at: self.at@, attempt: self.attempt }
    }
}

/// The way of a record so far.
#[derive(Debug, Clone, PartialEq)]
pub struct Lifecycle {
    /// The state it is in.
    pub state: LifecycleState,
    /// The states it went through.
    pub history: Vec<StateTransition>,
    /// What went wrong, where something did.
    pub error: Option<String>,
    /// How often it was tried.
    pub attempts: u32,
}

/// What a way is, as mathematics.
#[verifier::ext_equal]
pub struct LifecycleView {
    pub state: LifecycleState,
    pub history: Seq<StateTransitionView>,
    pub error: Option<Seq<char>>,
    pub attempts: u32,
}

impl DeepView for Lifecycle {
    type V = LifecycleView;

    open spec fn deep_view(&self) -> LifecycleView {
        LifecycleView {
            state: self.state,
            history: self.history.deep_view(),
            error: self.error.deep_view(),
            attempts: self.attempts,
        }
    }
}

/// The model that produced the assistant turn.
#[derive(Debug, Clone, PartialEq)]
pub struct TeacherRef {
    /// The gateway.
    pub provider: String,
    /// The model.
    pub slug: String,
    /// The upstream that served the request.
    pub served_by: Option<String>,
    /// The revision of the model card.
    pub model_card_revision: Option<String>,
}

/// What a teacher is, as mathematics.
#[verifier::ext_equal]
pub struct TeacherRefView {
    pub provider: Seq<char>,
    pub slug: Seq<char>,
    pub served_by: Option<Seq<char>>,
    pub model_card_revision: Option<Seq<char>>,
}

impl DeepView for TeacherRef {
    type V = TeacherRefView;

    open spec fn deep_view(&self) -> TeacherRefView {
        TeacherRefView {
            provider: self.provider@,
            slug: self.slug@,
            served_by: self.served_by.deep_view(),
            model_card_revision: self.model_card_revision.deep_view(),
        }
    }
}

/// Where a record comes from.
#[derive(Debug, Clone, PartialEq)]
pub struct Provenance {
    /// The run.
    pub run_id: String,
    /// The records it was made from.
    pub parent_ids: Vec<String>,
    /// The teacher.
    pub teacher: TeacherRef,
    /// The model that wrote the user turn.
    pub user_synth_model: Option<String>,
    /// The kind of the user turn.
    pub user_turn_kind: Option<String>,
    /// Whether the user turn is in scope and safe.
    pub in_scope_safe: Option<bool>,
    /// The judges.
    pub judge_models: Vec<String>,
    /// The version of this software.
    pub harness_version: String,
    /// The commit of this software.
    pub git_commit: Option<String>,
}

/// What an origin is, as mathematics.
#[verifier::ext_equal]
pub struct ProvenanceView {
    pub run_id: Seq<char>,
    pub parent_ids: Seq<Seq<char>>,
    pub teacher: TeacherRefView,
    pub user_synth_model: Option<Seq<char>>,
    pub user_turn_kind: Option<Seq<char>>,
    pub in_scope_safe: Option<bool>,
    pub judge_models: Seq<Seq<char>>,
    pub harness_version: Seq<char>,
    pub git_commit: Option<Seq<char>>,
}

impl DeepView for Provenance {
    type V = ProvenanceView;

    open spec fn deep_view(&self) -> ProvenanceView {
        ProvenanceView {
            run_id: self.run_id@,
            parent_ids: self.parent_ids.deep_view(),
            teacher: self.teacher.deep_view(),
            user_synth_model: self.user_synth_model.deep_view(),
            user_turn_kind: self.user_turn_kind.deep_view(),
            in_scope_safe: self.in_scope_safe,
            judge_models: self.judge_models.deep_view(),
            harness_version: self.harness_version@,
            git_commit: self.git_commit.deep_view(),
        }
    }
}

/// How the assistant turn was generated.
#[derive(Debug, Clone, PartialEq)]
pub struct Generation {
    /// The seed.
    pub seed: Option<i64>,
    /// The temperature.
    pub temperature: Option<Double>,
    /// The nucleus.
    pub top_p: Option<Double>,
    /// The cap on all completion tokens.
    pub max_tokens: Option<u32>,
    /// The reasoning effort asked for.
    pub reasoning_effort: Option<ReasoningEffort>,
    /// The reasoning budget asked for.
    pub reasoning_max_tokens: Option<u32>,
    /// The size of the sibling group.
    pub n_completions: Option<u32>,
    /// The place in the sibling group.
    pub completion_index: Option<u32>,
    /// The sibling group.
    pub sibling_group_id: Option<String>,
    /// The persona of the user turn.
    pub persona: Option<String>,
    /// The node of the taxonomy.
    pub taxonomy_node: Option<String>,
    /// The template of the user turn.
    pub prompt_template_id: Option<String>,
}

/// What a generation is, as mathematics.
#[verifier::ext_equal]
pub struct GenerationView {
    pub seed: Option<i64>,
    pub temperature: Option<Double>,
    pub top_p: Option<Double>,
    pub max_tokens: Option<u32>,
    pub reasoning_effort: Option<ReasoningEffort>,
    pub reasoning_max_tokens: Option<u32>,
    pub n_completions: Option<u32>,
    pub completion_index: Option<u32>,
    pub sibling_group_id: Option<Seq<char>>,
    pub persona: Option<Seq<char>>,
    pub taxonomy_node: Option<Seq<char>>,
    pub prompt_template_id: Option<Seq<char>>,
}

impl DeepView for Generation {
    type V = GenerationView;

    open spec fn deep_view(&self) -> GenerationView {
        GenerationView {
            seed: self.seed,
            temperature: self.temperature,
            top_p: self.top_p,
            max_tokens: self.max_tokens,
            reasoning_effort: self.reasoning_effort,
            reasoning_max_tokens: self.reasoning_max_tokens,
            n_completions: self.n_completions,
            completion_index: self.completion_index,
            sibling_group_id: self.sibling_group_id.deep_view(),
            persona: self.persona.deep_view(),
            taxonomy_node: self.taxonomy_node.deep_view(),
            prompt_template_id: self.prompt_template_id.deep_view(),
        }
    }
}

impl Default for Generation {
    fn default() -> (g: Generation)
        ensures
            g == (Generation {
                seed: None,
                temperature: None,
                top_p: None,
                max_tokens: None,
                reasoning_effort: None,
                reasoning_max_tokens: None,
                n_completions: None,
                completion_index: None,
                sibling_group_id: None,
                persona: None,
                taxonomy_node: None,
                prompt_template_id: None,
            }),
    {
        Generation {
            seed: None,
            temperature: None,
            top_p: None,
            max_tokens: None,
            reasoning_effort: None,
            reasoning_max_tokens: None,
            n_completions: None,
            completion_index: None,
            sibling_group_id: None,
            persona: None,
            taxonomy_node: None,
            prompt_template_id: None,
        }
    }
}

/// What the generation of the assistant turn cost.
#[derive(Debug, Clone, Copy, PartialEq, Eq, Structural)]
pub struct Cost {
    /// The tokens of the prompt.
    pub prompt_tokens: u32,
    /// The tokens of the completion.
    pub completion_tokens: u32,
    /// The tokens of the chain of thought.
    pub reasoning_tokens: u32,
    /// The price in dollars.
    pub usd: Double,
    /// The time taken.
    pub latency_ms: u64,
}

/// The content hashes of a record; the store computes them.
#[derive(Debug, Clone, PartialEq)]
pub struct Hashes {
    /// The hash of the record.
    pub record_hash: String,
    /// The hash of the prompt.
    pub prompt_hash: String,
}

impl Default for Hashes {
    fn default() -> (h: Hashes)
        ensures
            h.record_hash@ == Seq::<char>::empty(),
            h.prompt_hash@ == Seq::<char>::empty(),
    {
        Hashes { record_hash: String::new(), prompt_hash: String::new() }
    }
}

/// One training example with everything that is known about its making.
#[derive(Debug, PartialEq)]
pub struct TrainingRecord {
    /// The record's identity.
    pub record_id: String,
    /// The version of this shape.
    pub schema_version: semver::Version,
    /// The dataset it was released in.
    pub dataset_version: Option<String>,
    /// The area it trains.
    pub training_area: String,
    /// Labels.
    pub tags: Vec<String>,
    /// The conversation.
    pub messages: Vec<Message>,
    /// The tools on offer.
    pub tools: Option<Vec<String>>,
    /// Where it comes from.
    pub provenance: Provenance,
    /// How it was generated.
    pub generation: Generation,
    /// How its answer can be checked.
    pub verification_contract: Option<VerificationContract>,
    /// The execution report it carries.
    pub execution_evidence: Option<ExecutionEvidence>,
    /// The outcome of the deterministic checks.
    pub verification: Verification,
    /// What the judges decided.
    pub judging: Judging,
    /// The quality of its chain of thought.
    pub reasoning_quality: Option<String>,
    /// Its way so far.
    pub lifecycle: Lifecycle,
    /// Its hashes.
    pub hashes: Hashes,
    /// Its cost.
    pub cost: Cost,
}

/// What a record is, as mathematics.
#[verifier::ext_equal]
pub struct TrainingRecordView {
    pub record_id: Seq<char>,
    pub schema_version: (u64, u64, u64),
    pub dataset_version: Option<Seq<char>>,
    pub training_area: Seq<char>,
    pub tags: Seq<Seq<char>>,
    pub messages: Seq<MessageView>,
    pub tools: Option<Seq<Seq<char>>>,
    pub provenance: ProvenanceView,
    pub generation: GenerationView,
    pub verification_contract: Option<VerificationContractView>,
    pub execution_evidence: Option<ExecutionEvidenceView>,
    pub verification: VerificationView,
    pub judging: JudgingView,
    pub reasoning_quality: Option<Seq<char>>,
    pub lifecycle: LifecycleView,
    pub record_hash: Seq<char>,
    pub prompt_hash: Seq<char>,
    pub cost: Cost,
}

impl DeepView for TrainingRecord {
    type V = TrainingRecordView;

    open spec fn deep_view(&self) -> TrainingRecordView {
        TrainingRecordView {
            record_id: self.record_id@,
            schema_version: version_numbers(self.schema_version),
            dataset_version: self.dataset_version.deep_view(),
            training_area: self.training_area@,
            tags: self.tags.deep_view(),
            messages: self.messages.deep_view(),
            tools: self.tools.deep_view(),
            provenance: self.provenance.deep_view(),
            generation: self.generation.deep_view(),
            verification_contract: self.verification_contract.deep_view(),
            execution_evidence: self.execution_evidence.deep_view(),
            verification: self.verification.deep_view(),
            judging: self.judging.deep_view(),
            reasoning_quality: self.reasoning_quality.deep_view(),
            lifecycle: self.lifecycle.deep_view(),
            record_hash: self.hashes.record_hash@,
            prompt_hash: self.hashes.prompt_hash@,
            cost: self.cost,
        }
    }
}

/// One side of a preference pair.
#[derive(Debug, Clone, PartialEq)]
pub struct PreferenceSide {
    /// The clean final answer.
    pub content: String,
    /// The chain of thought beside it.
    pub reasoning: Option<String>,
    /// The record it comes from.
    pub record_id: String,
    /// That record's consensus score.
    pub aggregate: Option<Double>,
}

/// What a side is, as mathematics.
#[verifier::ext_equal]
pub struct PreferenceSideView {
    pub content: Seq<char>,
    pub reasoning: Option<Seq<char>>,
    pub record_id: Seq<char>,
    pub aggregate: Option<Double>,
}

impl DeepView for PreferenceSide {
    type V = PreferenceSideView;

    open spec fn deep_view(&self) -> PreferenceSideView {
        PreferenceSideView {
            content: self.content@,
            reasoning: self.reasoning.deep_view(),
            record_id: self.record_id@,
            aggregate: self.aggregate,
        }
    }
}

/// A prompt with a chosen and a rejected answer.
#[derive(Debug, Clone, PartialEq)]
pub struct PreferenceRecord {
    /// The prompt.
    pub prompt: Vec<Message>,
    /// The chosen answer.
    pub chosen: PreferenceSide,
    /// The rejected answer.
    pub rejected: PreferenceSide,
    /// The hash that pairs the two.
    pub prompt_hash: String,
}

/// What a preference pair is, as mathematics.
#[verifier::ext_equal]
pub struct PreferenceRecordView {
    pub prompt: Seq<MessageView>,
    pub chosen: PreferenceSideView,
    pub rejected: PreferenceSideView,
    pub prompt_hash: Seq<char>,
}

impl DeepView for PreferenceRecord {
    type V = PreferenceRecordView;

    open spec fn deep_view(&self) -> PreferenceRecordView {
        PreferenceRecordView {
            prompt: self.prompt.deep_view(),
            chosen: self.chosen.deep_view(),
            rejected: self.rejected.deep_view(),
            prompt_hash: self.prompt_hash@,
        }
    }
}

/// Whether a provider may keep what it is sent.
#[derive(Debug, Clone, Copy, PartialEq, Eq, Structural)]
pub enum DataCollection {
    /// It may.
    Allow,
    /// It may not.
    Deny,
}

/// How an area's teacher is reached.
#[derive(Debug, PartialEq)]
pub struct TeacherRouting {
    /// The upstreams to use, in order.
    pub provider_only: Option<Vec<String>>,
    /// Whether the upstream may keep what it is sent.
    pub data_collection: DataCollection,
    /// Whether the upstream must support every parameter sent.
    pub require_parameters: bool,
    /// The reasoning effort asked for.
    pub reasoning_effort: ReasoningEffort,
    /// The temperature, where it is pinned.
    pub temperature: Option<Double>,
    /// The nucleus, where it is pinned.
    pub top_p: Option<Double>,
}

/// What a routing is, as mathematics.
#[verifier::ext_equal]
pub struct TeacherRoutingView {
    pub provider_only: Option<Seq<Seq<char>>>,
    pub data_collection: DataCollection,
    pub require_parameters: bool,
    pub reasoning_effort: ReasoningEffort,
    pub temperature: Option<Double>,
    pub top_p: Option<Double>,
}

impl DeepView for TeacherRouting {
    type V = TeacherRoutingView;

    open spec fn deep_view(&self) -> TeacherRoutingView {
        TeacherRoutingView {
            provider_only: self.provider_only.deep_view(),
            data_collection: self.data_collection,
            require_parameters: self.require_parameters,
            reasoning_effort: self.reasoning_effort,
            temperature: self.temperature,
            top_p: self.top_p,
        }
    }
}

/// No pin, no collection of data, every parameter required, the highest effort.
pub open spec fn default_routing() -> TeacherRoutingView {
    TeacherRoutingView {
        provider_only: None,
        data_collection: DataCollection::Deny,
        require_parameters: true,
        reasoning_effort: ReasoningEffort::Xhigh,
        temperature: None,
        top_p: None,
    }
}

impl Default for TeacherRouting {
    fn default() -> (r: TeacherRouting)
        ensures
            r.deep_view() == default_routing(),
    {
        TeacherRouting {
            provider_only: None,
            data_collection: DataCollection::Deny,
            require_parameters: true,
            reasoning_effort: ReasoningEffort::Xhigh,
            temperature: None,
            top_p: None,
        }
    }
}

impl Clone for TeacherRouting {
    fn clone(&self) -> (r: TeacherRouting)
        ensures
            r.deep_view() == self.deep_view(),
    {
        let r = TeacherRouting {
            provider_only: self.provider_only.clone(),
            data_collection: self.data_collection,
            require_parameters: self.require_parameters,
            reasoning_effort: self.reasoning_effort,
            temperature: self.temperature,
            top_p: self.top_p,
        };
        proof {
            if self.provider_only is Some {
                assert(r.provider_only->0.deep_view() =~= self.provider_only->0.deep_view());
            }
        }
        r
    }
}

/// The four judgements of a synthesized user turn.
#[derive(Debug, Clone, PartialEq)]
pub struct UserTurnVerdict {
    /// A competent teacher could answer it.
    pub answerable: bool,
    /// Its difficulty is the one asked for.
    pub difficulty_targeted: bool,
    /// It is no repetition.
    pub diverse: bool,
    /// It is in scope and safe.
    pub in_scope_safe: bool,
    /// Remarks.
    pub notes: Option<String>,
}

} // verus!
