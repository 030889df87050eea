//! The teachers and how they are reached.

use vstd::prelude::*;

use crate::generate::request::{ReasoningPolicy, SamplingPreset};
use crate::providers::request::{open_routing, ProviderRoutingView};
use crate::providers::request::ProviderRouting;
use crate::schema::record::{default_routing, TeacherRoutingView};
use crate::schema::record::{TeacherRef, TeacherRouting};
use crate::text::same_text;

verus! {

/// The teachers: a closed set.
#[derive(Debug, Clone, Copy, PartialEq, Eq, Structural, Hash)]
pub enum Teacher {
    /// GLM.
    Glm52,
    /// MiniMax.
    MinimaxM3,
    /// DeepSeek.
    DeepseekV4Pro,
    /// Gemma.
    Gemma431bIt,
}

/// The model that a teacher is.
pub open spec fn slug_of(t: Teacher) -> Seq<char> {
    match t {
        Teacher::Glm52 => "z-ai/glm-5.2"@,
        Teacher::MinimaxM3 => "minimax/minimax-m3"@,
        Teacher::DeepseekV4Pro => "deepseek/deepseek-v4-pro"@,
        Teacher::Gemma431bIt => "google/gemma-4-31b-it"@,
    }
}

impl Teacher {
    /// Every teacher.
    pub const ALL: [Teacher; 4] = [
        Teacher::Glm52,
        Teacher::MinimaxM3,
        Teacher::DeepseekV4Pro,
        Teacher::Gemma431bIt,
    ];

    /// The model that the teacher is.
    #[must_use]
    pub fn slug(self) -> (s: &'static str)
        ensures
            s@ == slug_of(self),
    {
        match self {
            Teacher::Glm52 => "z-ai/glm-5.2",
            Teacher::MinimaxM3 => "minimax/minimax-m3",
            Teacher::DeepseekV4Pro => "deepseek/deepseek-v4-pro",
            Teacher::Gemma431bIt => "google/gemma-4-31b-it",
        }
    }

    /// The teacher that a model is, where it is one.
    #[must_use]
    pub fn from_slug(slug: &str) -> (r: Option<Teacher>)
        ensures
            match r {
                Some(t) => slug@ == slug_of(t),
                None => forall|t: Teacher| slug@ != #[trigger] slug_of(t),
            },
    {
        if same_text(slug, "z-ai/glm-5.2") {
            Some(Teacher::Glm52)
        } else if same_text(slug, "minimax/minimax-m3") {
            Some(Teacher::MinimaxM3)
        } else if same_text(slug, "deepseek/deepseek-v4-pro") {
            Some(Teacher::DeepseekV4Pro)
        } else if same_text(slug, "google/gemma-4-31b-it") {
            Some(Teacher::Gemma431bIt)
        } else {
            None
        }
    }

    /// The teacher as a record names it; who serves it is not known beforehand.
    #[must_use]
    pub fn teacher_ref(self) -> (r: TeacherRef)
        ensures
            r.provider@ == "openrouter"@,
            r.slug@ == slug_of(self),
            r.served_by is None,
            r.model_card_revision is None,
    {
        TeacherRef {
            provider: "openrouter".to_owned(),
            slug: self.slug().to_owned(),
            served_by: None,
            model_card_revision: None,
        }
    }
}

/// A teacher is known by its model: no two are the same one.
pub proof fn a_slug_names_one_teacher(a: Teacher, b: Teacher)
    requires
        slug_of(a) == slug_of(b),
    ensures
        a == b,
{
    reveal_strlit("z-ai/glm-5.2");
    reveal_strlit("minimax/minimax-m3");
    reveal_strlit("deepseek/deepseek-v4-pro");
    reveal_strlit("google/gemma-4-31b-it");
    assert("z-ai/glm-5.2"@[0] == 'z');
    assert("minimax/minimax-m3"@[0] == 'm');
    assert("deepseek/deepseek-v4-pro"@[0] == 'd');
    assert("google/gemma-4-31b-it"@[0] == 'g');
}

/// Which teacher serves an area, and how it is reached. Every implementation is the user's own.
pub trait TeacherSelector {
    /// The teacher for an area and how it is reached.
    fn select(&self, training_area: &str) -> (Teacher, TeacherRouting);
}

/// One teacher for every area.
#[derive(Debug, Clone, PartialEq)]
pub struct FixedTeacher {
    teacher: Teacher,
    routing: TeacherRouting,
}

impl FixedTeacher {
    /// The teacher.
    pub closed spec fn pinned(&self) -> Teacher {
        self.teacher
    }

    /// How it is reached.
    pub closed spec fn reached(&self) -> TeacherRoutingView {
        self.routing.deep_view()
    }

    /// One teacher for every area, reached in the default way.
    #[must_use]
    pub fn new(teacher: Teacher) -> (f: FixedTeacher)
        ensures
            f.pinned() == teacher,
            f.reached() == default_routing(),
    {
        FixedTeacher { teacher, routing: TeacherRouting::default() }
    }

    /// One teacher for every area.
    #[must_use]
    pub fn with_routing(teacher: Teacher, routing: TeacherRouting) -> (f: FixedTeacher)
        ensures
            f.pinned() == teacher,
            f.reached() == routing.deep_view(),
    {
        FixedTeacher { teacher, routing }
    }
}

impl TeacherSelector for FixedTeacher {
    fn select(&self, _training_area: &str) -> (r: (Teacher, TeacherRouting))
        ensures
            r.0 == self.pinned(),
            r.1.deep_view() == self.reached(),
    {
        (self.teacher, self.routing.clone())
    }
}

/// The routing of the requests of an area. Its stance on data collection and on parameters goes out
/// with every one of them.
pub open spec fn provider_of(r: TeacherRoutingView) -> ProviderRoutingView {
    ProviderRoutingView {
        order: match r.provider_only {
            Some(slugs) => slugs,
            None => Seq::empty(),
        },
        data_collection: Some(r.data_collection),
        require_parameters: Some(r.require_parameters),
        ..open_routing()
    }
}

/// The routing of the requests of an area.
#[must_use]
pub fn routing_to_provider(routing: &TeacherRouting) -> (p: ProviderRouting)
    ensures
        p.deep_view() == provider_of(routing.deep_view()),
{
    let base = match &routing.provider_only {
        Some(slugs) => {
            let order = slugs.clone();
            assert(order.deep_view() =~= slugs.deep_view());
            ProviderRouting::ordered(order)
        },
        None => ProviderRouting::default(),
    };
    base.with_data_posture(routing.data_collection, routing.require_parameters)
}

/// How the teacher of an area is asked to think.
#[must_use]
pub fn routing_to_reasoning(routing: &TeacherRouting) -> (p: ReasoningPolicy)
    ensures
        p == ReasoningPolicy::Effort(routing.reasoning_effort),
{
    ReasoningPolicy::Effort(routing.reasoning_effort)
}

/// How the teacher of an area is sampled: what the routing pins stands, the preset tells the rest.
#[must_use]
pub fn routing_to_sampling(routing: &TeacherRouting, base: SamplingPreset) -> (s: SamplingPreset)
    ensures
        s == (SamplingPreset {
            temperature: match routing.temperature {
                Some(t) => t,
                None => base.temperature,
            },
            top_p: match routing.top_p {
                Some(p) => Some(p),
                None => base.top_p,
            },
            seed: base.seed,
        }),
{
    SamplingPreset {
        temperature: match routing.temperature {
            Some(t) => t,
            None => base.temperature,
        },
        top_p: match routing.top_p {
            Some(p) => Some(p),
            None => base.top_p,
        },
        seed: base.seed,
    }
}

/// The stance on data collection goes out with every request, pinned or not.
pub proof fn the_stance_always_goes_out(r: TeacherRoutingView)
    ensures
        provider_of(r).data_collection == Some(r.data_collection),
        provider_of(r).require_parameters == Some(r.require_parameters),
        provider_of(r) != open_routing(),
{
}

/// Where a routing names upstreams, those are the ones that are tried, in that order; where it names
/// none, none is preferred.
pub proof fn named_upstreams_are_tried_in_order(r: TeacherRoutingView)
    ensures
        r.provider_only is Some ==> provider_of(r).order == r.provider_only->0,
        r.provider_only is None ==> provider_of(r).order.len() == 0,
        provider_of(r).only is None && provider_of(r).allow_fallbacks is None && provider_of(r).sort
            is None,
{
}

} // verus!
