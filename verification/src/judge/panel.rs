//! The panel of judges: how a judge is asked, and how its reply becomes a grade.
//!
//! Every judge is asked on its own; a request is made of the judge, the rubric and the candidate
//! and nothing else, so no judge sees what another said. Scores are brought onto `[0, 1]`.

use vstd::prelude::*;

use crate::arithmetic::is_over;
use crate::arithmetic::Arithmetic;
use crate::double::Double;
use crate::judge::decision::Verdict;
use crate::judge::error::{JudgeError, JudgeErrorView};
use crate::json::{compact_json, Json};
use crate::json::{compact_text, double_in, lemma_object_view, object_view, packed, JsonView};
use crate::providers::delta::StreamDelta;
use crate::providers::delta::StreamDeltaView;
use crate::providers::delta_wire::read_text;
use crate::providers::delta_wire::text_field;
use crate::providers::request::{ChatRequest, ChatRequestView, ReasoningParam};
use crate::schema::judging::{clone_dimensions, JudgeVote, JudgeVoteView};
use crate::schema::judging::{dimensions_view, scores_view};
use crate::schema::message::{plain_message, Message, ReasoningEffort, Role};
use crate::schema::message::{content_words, text_message};
use crate::text::{
    chars_of,
    debug_number_text,
    debug_option_text,
    decimal_text,
    is_blank,
    joined,
    lower_chars,
    same_text,
    stands_at,
    string_of,
    string_of_range,
    trimmed,
};
use crate::text::{begins, blank, debug_number, debug_option, decimal, lower, trim};
use crate::typed::{field, reading, record_fault};
use crate::typed::{find_fault, read_as, read_field, Form};

verus! {

/// How a judge's score is produced.
#[derive(Debug, Clone, Copy, PartialEq, Eq, Hash, Structural)]
pub enum JudgeScoring {
    /// Weighted by the probabilities of the score tokens.
    GEvalLogprob,
    /// A plain integer scale.
    IntegerLikert,
}

/// The tokens that a judge may think with by default.
pub const DEFAULT_JUDGE_REASONING_MAX_TOKENS: u32 = 2_000;

/// The cap on a judge's whole answer by default, its thoughts included.
pub const DEFAULT_JUDGE_MAX_TOKENS: u32 = 3_500;

/// The least that is left for the verdict beside a judge's thoughts.
pub const MIN_JUDGE_VERDICT_TOKENS: u32 = 1_500;

impl JudgeScoring {
    /// The token kept for audit.
    pub open spec fn token(self) -> Seq<char> {
        match self {
            JudgeScoring::GEvalLogprob => "g_eval_logprob"@,
            JudgeScoring::IntegerLikert => "integer_likert"@,
        }
    }

    /// The token kept for audit.
    #[must_use]
    pub fn as_str(self) -> (r: &'static str)
        ensures
            r@ == self.token(),
    {
        match self {
            JudgeScoring::GEvalLogprob => "g_eval_logprob",
            JudgeScoring::IntegerLikert => "integer_likert",
        }
    }
}

/// How a judge is asked to think.
#[derive(Debug, Clone, Copy, PartialEq, Eq, Hash, Structural)]
pub enum JudgeReasoning {
    /// By effort; nothing is set aside for the verdict.
    Effort(ReasoningEffort),
    /// By budget.
    MaxTokens(u32),
}

impl JudgeReasoning {
    /// The request parameter.
    pub open spec fn param(self) -> ReasoningParam {
        match self {
            JudgeReasoning::Effort(effort) => ReasoningParam::Effort { effort },
            JudgeReasoning::MaxTokens(max_tokens) => ReasoningParam::MaxTokens { max_tokens },
        }
    }

    /// The request parameter.
    pub fn to_param(self) -> (p: ReasoningParam)
        ensures
            p == self.param(),
    {
        match self {
            JudgeReasoning::Effort(effort) => ReasoningParam::effort(effort),
            JudgeReasoning::MaxTokens(max_tokens) => ReasoningParam::max_tokens(max_tokens),
        }
    }
}

/// How a judge's answer is sampled.
#[derive(Debug, Clone, Copy, PartialEq, Eq, Structural)]
pub struct JudgeSampling {
    /// The temperature.
    pub temperature: Double,
    /// The nucleus.
    pub top_p: Option<Double>,
    /// The seed.
    pub seed: Option<i64>,
}

impl Default for JudgeSampling {
    fn default() -> (r: JudgeSampling)
        ensures
            r == (JudgeSampling { temperature: Double { bits: 0 }, top_p: None, seed: None }),
    {
        JudgeSampling { temperature: Double::zero(), top_p: None, seed: None }
    }
}

/// One judge of a panel.
#[derive(Debug, Clone, PartialEq)]
pub struct PanelJudge {
    /// The model.
    pub slug: String,
    /// The family of the model.
    pub family: String,
    /// The rubric.
    pub rubric_id: Option<String>,
    /// How its score is produced.
    pub scoring: JudgeScoring,
    /// How its answer is sampled.
    pub sampling: JudgeSampling,
    /// The cap on its whole answer.
    pub max_tokens: u32,
    /// How it is asked to think.
    pub reasoning: Option<JudgeReasoning>,
}

/// What a judge is, as mathematics.
#[verifier::ext_equal]
pub struct PanelJudgeView {
    pub slug: Seq<char>,
    pub family: Seq<char>,
    pub rubric_id: Option<Seq<char>>,
    pub scoring: JudgeScoring,
    pub sampling: JudgeSampling,
    pub max_tokens: u32,
    pub reasoning: Option<JudgeReasoning>,
}

impl DeepView for PanelJudge {
    type V = PanelJudgeView;

    open spec fn deep_view(&self) -> PanelJudgeView {
        PanelJudgeView {
            slug: self.slug@,
            family: self.family@,
            rubric_id: self.rubric_id.deep_view(),
            scoring: self.scoring,
            sampling: self.sampling,
            max_tokens: self.max_tokens,
            reasoning: self.reasoning,
        }
    }
}

impl PanelJudgeView {
    /// The cap on the whole answer that leaves room for the verdict beside a budgeted thought.
    pub open spec fn cap(self) -> u32 {
        match self.reasoning {
            Some(JudgeReasoning::MaxTokens(budget)) => {
                let floor = if budget + MIN_JUDGE_VERDICT_TOKENS > u32::MAX {
                    u32::MAX
                } else {
                    (budget + MIN_JUDGE_VERDICT_TOKENS) as u32
                };
                if self.max_tokens >= floor {
                    self.max_tokens
                } else {
                    floor
                }
            },
            _ => self.max_tokens,
        }
    }
}

/// A judge with a budget for its thoughts has at least the verdict's share beside them, as far as
/// the number of tokens can be told at all, and never less than it was given.
pub proof fn the_verdict_keeps_its_share(judge: PanelJudgeView, budget: u32)
    requires
        judge.reasoning == Some(JudgeReasoning::MaxTokens(budget)),
    ensures
        judge.cap() >= judge.max_tokens,
        judge.cap() - budget >= MIN_JUDGE_VERDICT_TOKENS || judge.cap() == u32::MAX,
{
}

impl PanelJudge {
    /// A judge with defaults for everything but the model and its family.
    #[must_use]
    pub fn new(slug: String, family: String) -> (j: PanelJudge)
        ensures
            j.deep_view() == (PanelJudgeView {
                slug: slug@,
                family: family@,
                rubric_id: None,
                scoring: JudgeScoring::IntegerLikert,
                sampling: JudgeSampling { temperature: Double { bits: 0 }, top_p: None, seed: None },
                max_tokens: DEFAULT_JUDGE_MAX_TOKENS,
                reasoning: Some(JudgeReasoning::MaxTokens(DEFAULT_JUDGE_REASONING_MAX_TOKENS)),
            }),
    {
        PanelJudge {
            slug,
            family,
            rubric_id: None,
            scoring: JudgeScoring::IntegerLikert,
            sampling: JudgeSampling::default(),
            max_tokens: DEFAULT_JUDGE_MAX_TOKENS,
            reasoning: Some(JudgeReasoning::MaxTokens(DEFAULT_JUDGE_REASONING_MAX_TOKENS)),
        }
    }

    /// This judge with a rubric.
    #[must_use]
    pub fn with_rubric(self, rubric_id: String) -> (j: PanelJudge)
        ensures
            j.deep_view() == (PanelJudgeView { rubric_id: Some(rubric_id@), ..self.deep_view() }),
    {
        let mut j = self;
        j.rubric_id = Some(rubric_id);
        j
    }

    /// This judge with a way to score.
    #[must_use]
    pub fn with_scoring(self, scoring: JudgeScoring) -> (j: PanelJudge)
        ensures
            j.deep_view() == (PanelJudgeView { scoring, ..self.deep_view() }),
    {
        let mut j = self;
        j.scoring = scoring;
        j
    }

    /// This judge with a way to sample.
    #[must_use]
    pub fn with_sampling(self, sampling: JudgeSampling) -> (j: PanelJudge)
        ensures
            j.deep_view() == (PanelJudgeView { sampling, ..self.deep_view() }),
    {
        let mut j = self;
        j.sampling = sampling;
        j
    }

    /// This judge with a cap on its whole answer.
    #[must_use]
    pub fn with_max_tokens(self, max_tokens: u32) -> (j: PanelJudge)
        ensures
            j.deep_view() == (PanelJudgeView { max_tokens, ..self.deep_view() }),
    {
        let mut j = self;
        j.max_tokens = max_tokens;
        j
    }

    /// This judge with a way to think.
    #[must_use]
    pub fn with_reasoning(self, reasoning: Option<JudgeReasoning>) -> (j: PanelJudge)
        ensures
            j.deep_view() == (PanelJudgeView { reasoning, ..self.deep_view() }),
    {
        let mut j = self;
        j.reasoning = reasoning;
        j
    }

    /// This judge with a budget for its thoughts.
    #[must_use]
    pub fn with_reasoning_max_tokens(self, max_tokens: u32) -> (j: PanelJudge)
        ensures
            j.deep_view() == (PanelJudgeView {
                reasoning: Some(JudgeReasoning::MaxTokens(max_tokens)),
                ..self.deep_view()
            }),
    {
        self.with_reasoning(Some(JudgeReasoning::MaxTokens(max_tokens)))
    }

    /// This judge with an effort to think.
    #[must_use]
    pub fn with_reasoning_effort(self, effort: ReasoningEffort) -> (j: PanelJudge)
        ensures
            j.deep_view() == (PanelJudgeView {
                reasoning: Some(JudgeReasoning::Effort(effort)),
                ..self.deep_view()
            }),
    {
        self.with_reasoning(Some(JudgeReasoning::Effort(effort)))
    }

    /// The cap on the whole answer that leaves room for the verdict beside a budgeted thought.
    #[must_use]
    pub fn effective_max_tokens(&self) -> (n: u32)
        ensures
            n == self.deep_view().cap(),
    {
        match self.reasoning {
            Some(JudgeReasoning::MaxTokens(budget)) => {
                let floor: u32 = budget.saturating_add(MIN_JUDGE_VERDICT_TOKENS);
                if self.max_tokens >= floor {
                    self.max_tokens
                } else {
                    floor
                }
            },
            _ => self.max_tokens,
        }
    }
}

/// What one judge said of a candidate.
#[derive(Debug, Clone, PartialEq)]
pub struct Grade {
    /// The judge's model.
    pub judge_model: String,
    /// The score in `[0, 1]`.
    pub score: Double,
    /// The verdict.
    pub verdict: Verdict,
    /// How sure the judge says it is; kept for audit, never a weight.
    pub confidence: Double,
    /// The mean score of the panel that the judge predicts.
    pub meta_prediction: Option<Double>,
    /// The scores by criterion, ordered by criterion; kept for audit.
    pub dimensions: Option<Vec<(String, Double)>>,
    /// The judge's words.
    pub rationale: Option<String>,
    /// The judge's reply as it came, and how it was scored.
    pub raw: Json,
    /// The temperature used.
    pub temperature: Double,
    /// The nucleus used.
    pub top_p: Option<Double>,
    /// The seed used.
    pub seed: Option<i64>,
    /// The rubric used.
    pub rubric_id: Option<String>,
}

/// What a grade is, as mathematics.
#[verifier::ext_equal]
pub struct GradeView {
    pub judge_model: Seq<char>,
    pub score: Double,
    pub verdict: Verdict,
    pub confidence: Double,
    pub meta_prediction: Option<Double>,
    pub dimensions: Option<Seq<(Seq<char>, Double)>>,
    pub rationale: Option<Seq<char>>,
    pub raw: JsonView,
    pub temperature: Double,
    pub top_p: Option<Double>,
    pub seed: Option<i64>,
    pub rubric_id: Option<Seq<char>>,
}

impl DeepView for Grade {
    type V = GradeView;

    open spec fn deep_view(&self) -> GradeView {
        GradeView {
            judge_model: self.judge_model@,
            score: self.score,
            verdict: self.verdict,
            confidence: self.confidence,
            meta_prediction: self.meta_prediction,
            dimensions: dimensions_view(self.dimensions),
            rationale: self.rationale.deep_view(),
            raw: self.raw@,
            temperature: self.temperature,
            top_p: self.top_p,
            seed: self.seed,
            rubric_id: self.rubric_id.deep_view(),
        }
    }
}

/// The vote that a record keeps of a grade.
pub open spec fn vote_of(g: GradeView) -> JudgeVoteView {
    JudgeVoteView {
        judge_model: g.judge_model,
        rubric_id: g.rubric_id,
        temperature: Some(g.temperature),
        top_p: g.top_p,
        seed: g.seed,
        score: g.score,
        dimensions: g.dimensions,
        rationale: g.rationale,
        raw_response: Some(compact_text(packed(g.raw))),
    }
}

impl Grade {
    /// The vote that a record keeps of this grade.
    #[must_use]
    pub fn to_vote(&self) -> (v: JudgeVote)
        ensures
            v.deep_view() == vote_of(self.deep_view()),
    {
        JudgeVote {
            judge_model: self.judge_model.clone(),
            rubric_id: self.rubric_id.clone(),
            temperature: Some(self.temperature),
            top_p: self.top_p,
            seed: self.seed,
            score: self.score,
            dimensions: clone_dimensions(&self.dimensions),
            rationale: self.rationale.clone(),
            raw_response: Some(compact_json(&self.raw)),
        }
    }
}

/// The bits of ten.
pub const TEN: u64 = 0x4024_0000_0000_0000;

/// A raw score on `[0, 1]`: one above one counts on a scale of ten, one that is no finite number
/// counts nothing, and what still lies outside is held to the ends.
pub open spec fn unit_score(raw: Double, tenth: Double) -> Double {
    if !raw.finite() {
        Double { bits: 0 }
    } else if (Double { bits: 0x3ff0_0000_0000_0000 }).below(raw) {
        tenth.held()
    } else {
        raw.held()
    }
}

/// A raw score on `[0, 1]`; `tenth` is a tenth of it.
pub fn normalize_score(raw: Double, tenth: Double) -> (r: Double)
    ensures
        r == unit_score(raw, tenth),
{
    if !raw.is_finite() {
        return Double::zero();
    }
    if Double::one().is_below(raw) {
        tenth.clamped()
    } else {
        raw.clamped()
    }
}

/// Every score on `[0, 1]` lies there, provided that a tenth of a number is a number.
pub proof fn scores_lie_between_zero_and_one(raw: Double, tenth: Double)
    requires
        raw.finite() ==> !tenth.nan(),
    ensures
        unit_score(raw, tenth).at_least(Double { bits: 0 }),
        (Double { bits: 0x3ff0_0000_0000_0000 }).at_least(unit_score(raw, tenth)),
{
}

/// The verdict that a token stands for; an unknown one decides nothing.
pub open spec fn verdict_of(token: Seq<char>) -> Verdict {
    let t = lower(trim(token));
    if t == "accept"@ || t == "admit"@ {
        Verdict::Accept
    } else if t == "revise"@ {
        Verdict::Revise
    } else if t == "reject"@ {
        Verdict::Reject
    } else {
        Verdict::Uncertain
    }
}

/// The verdict that a token stands for, regardless of case and surrounding white space; an unknown
/// one decides nothing.
pub fn parse_verdict(token: &str) -> (v: Verdict)
    ensures
        v == verdict_of(token@),
{
    let t = trimmed(token);
    let c = chars_of(t.as_str());
    let l = lower_chars(c.as_slice());
    let word = string_of(l.as_slice());
    if same_text(word.as_str(), "accept") || same_text(word.as_str(), "admit") {
        Verdict::Accept
    } else if same_text(word.as_str(), "revise") {
        Verdict::Revise
    } else if same_text(word.as_str(), "reject") {
        Verdict::Reject
    } else {
        Verdict::Uncertain
    }
}

/// From the first opening brace to the last closing one.
pub open spec fn braced(text: Seq<char>) -> Option<Seq<char>> {
    match (text.index_of_first('{'), text.index_of_last('}')) {
        (Some(a), Some(b)) => if b > a {
            Some(text.subrange(a, b + 1))
        } else {
            None
        },
        _ => None,
    }
}

/// How often a character stands in a text.
pub open spec fn tally(text: Seq<char>, c: char) -> nat
    decreases text.len(),
{
    if text.len() == 0 {
        0
    } else {
        tally(text.drop_last(), c) + (if text.last() == c {
            1nat
        } else {
            0nat
        })
    }
}

/// What follows the tag of a fence: the text after the line that opens the fence, where the text opens
/// with one and no object begins on that line that the line does not close.
pub open spec fn after_tag(text: Seq<char>) -> Option<Seq<char>> {
    let t = trim(text);
    if begins(t, "```"@) {
        match t.index_of_first('\n') {
            Some(n) => if tally(t.take(n), '{') <= tally(t.take(n), '}') {
                Some(t.skip(n + 1))
            } else {
                None
            },
            None => None,
        }
    } else {
        None
    }
}

/// The outermost object in a reply, from the first opening brace to the last closing one. The tag of a
/// fence is left out where an object follows it; the marks of a fence and the white space around it
/// hold no braces, and are left behind with any other words around the object.
pub open spec fn embedded(text: Seq<char>) -> Option<Seq<char>> {
    match after_tag(text) {
        Some(rest) => if braced(rest) is Some {
            braced(rest)
        } else {
            braced(text)
        },
        None => braced(text),
    }
}

fn first_of(v: &[char], c: char) -> (r: Option<usize>)
    ensures
        match r {
            Some(i) => v@.index_of_first(c) == Some(i as int) && i < v@.len(),
            None => v@.index_of_first(c) is None,
        },
{
    proof {
        v@.index_of_first_ensures(c);
    }
    let mut i: usize = 0;
    while i < v.len()
        invariant
            i <= v@.len(),
            forall|j: int| 0 <= j < i ==> v@[j] != c,
        decreases v@.len() - i,
    {
        if v[i] == c {
            proof {
                v@.index_of_first_ensures(c);
                assert(v@.contains(c));
            }
            return Some(i);
        }
        i += 1;
    }
    None
}

fn last_of(v: &[char], c: char) -> (r: Option<usize>)
    ensures
        match r {
            Some(i) => v@.index_of_last(c) == Some(i as int) && i < v@.len(),
            None => v@.index_of_last(c) is None,
        },
{
    proof {
        v@.index_of_last_ensures(c);
    }
    let mut i: usize = v.len();
    while i > 0
        invariant
            i <= v@.len(),
            forall|j: int| i <= j < v@.len() ==> v@[j] != c,
        decreases i,
    {
        i -= 1;
        if v[i] == c {
            proof {
                v@.index_of_last_ensures(c);
                assert(v@.contains(c));
            }
            return Some(i);
        }
    }
    None
}

fn braced_in(v: &[char]) -> (r: Option<String>)
    ensures
        r.deep_view() == braced(v@),
{
    let total: usize = v.len();
    match (first_of(v, '{'), last_of(v, '}')) {
        (Some(a), Some(b)) => if b > a && b < total {
            Some(string_of_range(v, a, b + 1))
        } else {
            None
        },
        _ => None,
    }
}

fn count_to(v: &[char], c: char, n: usize) -> (r: usize)
    requires
        n <= v@.len(),
    ensures
        r == tally(v@.take(n as int), c),
{
    let mut r: usize = 0;
    let mut i: usize = 0;
    assert(v@.take(0) =~= Seq::empty());
    while i < n
        invariant
            i <= n <= v@.len(),
            r <= i,
            r == tally(v@.take(i as int), c),
        decreases n - i,
    {
        assert(v@.take(i + 1).drop_last() =~= v@.take(i as int));
        if v[i] == c {
            r += 1;
        }
        i += 1;
    }
    r
}

fn untagged(text: &str) -> (r: Option<Vec<char>>)
    ensures
        match r {
            Some(rest) => after_tag(text@) == Some(rest@),
            None => after_tag(text@) is None,
        },
{
    let t = chars_of(trimmed(text).as_str());
    let mark = chars_of("```");
    if !stands_at(t.as_slice(), mark.as_slice(), 0) {
        return None;
    }
    match first_of(t.as_slice(), '\n') {
        Some(n) => if count_to(t.as_slice(), '{', n) <= count_to(t.as_slice(), '}', n) {
            let total: usize = t.len();
            assert(n < total);
            let mut rest: Vec<char> = Vec::new();
            let mut i: usize = n + 1;
            while i < total
                invariant
                    total == t@.len(),
                    n < i <= t@.len(),
                    rest@ == t@.subrange(n + 1, i as int),
                decreases t@.len() - i,
            {
                rest.push(t[i]);
                i += 1;
                assert(rest@ =~= t@.subrange(n + 1, i as int));
            }
            assert(rest@ =~= t@.skip(n + 1));
            Some(rest)
        } else {
            None
        },
        None => None,
    }
}

/// The outermost object in a reply, whatever words or fences stand around it; none where there is no
/// pair of braces.
pub fn extract_json(text: &str) -> (r: Option<String>)
    ensures
        r.deep_view() == embedded(text@),
{
    if let Some(rest) = untagged(text) {
        let found = braced_in(rest.as_slice());
        if found.is_some() {
            return found;
        }
    }
    let v = chars_of(text);
    braced_in(v.as_slice())
}

/// A judge's reply.
#[derive(Debug, PartialEq)]
pub struct JudgeReply {
    /// The raw score.
    pub score: Double,
    /// The token of the verdict.
    pub verdict: String,
    /// How sure the judge says it is.
    pub confidence: Option<Double>,
    /// The mean score of the panel that the judge predicts.
    pub meta_prediction: Option<Double>,
    /// The scores by criterion.
    pub dimensions: Option<Vec<(String, Double)>>,
    /// The judge's words.
    pub rationale: Option<String>,
}

/// What a reply is, as mathematics.
#[verifier::ext_equal]
pub struct JudgeReplyView {
    pub score: Double,
    pub verdict: Seq<char>,
    pub confidence: Option<Double>,
    pub meta_prediction: Option<Double>,
    pub dimensions: Option<Seq<(Seq<char>, Double)>>,
    pub rationale: Option<Seq<char>>,
}

impl DeepView for JudgeReply {
    type V = JudgeReplyView;

    open spec fn deep_view(&self) -> JudgeReplyView {
        JudgeReplyView {
            score: self.score,
            verdict: self.verdict@,
            confidence: self.confidence,
            meta_prediction: self.meta_prediction,
            dimensions: dimensions_view(self.dimensions),
            rationale: self.rationale.deep_view(),
        }
    }
}

/// What a field that should hold a number holds.
pub open spec fn number_field(j: JsonView, name: Seq<char>, place: int) -> Result<Option<Double>, Seq<char>> {
    match field(j, name, place) {
        None => Ok(None),
        Some(JsonView::Null) => Ok(None),
        Some(v) => match double_in(v) {
            Some(d) => Ok(Some(d)),
            None => Err("field `"@ + name + "` is not a number"@),
        },
    }
}

fn read_number(j: &Json, name: &str, place: usize) -> (r: Result<Option<Double>, String>)
    ensures
        match r {
            Ok(d) => number_field(j@, name@, place as int) == Ok::<Option<Double>, Seq<char>>(d),
            Err(e) => number_field(j@, name@, place as int) == Err::<Option<Double>, Seq<char>>(e@),
        },
{
    match read_field(j, name, place) {
        None => Ok(None),
        Some(Json::Null) => Ok(None),
        Some(v) => match v.as_double() {
            Some(d) => Ok(Some(d)),
            None => {
                let mut e = "field `".to_owned();
                e.append(name);
                e.append("` is not a number");
                Err(e)
            },
        },
    }
}

/// The scores by criterion that the members of an object are, where all are numbers.
pub open spec fn scores_in(members: Seq<(Seq<char>, JsonView)>) -> Option<
    Seq<(Seq<char>, Double)>,
>
    decreases members.len(),
{
    if members.len() == 0 {
        Some(Seq::empty())
    } else {
        match (scores_in(members.drop_last()), double_in(members.last().1)) {
            (Some(s), Some(d)) => Some(s.push((members.last().0, d))),
            _ => None,
        }
    }
}

/// What a field that should hold scores by criterion holds.
pub open spec fn scores_field(j: JsonView, name: Seq<char>, place: int) -> Result<
    Option<Seq<(Seq<char>, Double)>>,
    Seq<char>,
> {
    match field(j, name, place) {
        None => Ok(None),
        Some(JsonView::Null) => Ok(None),
        Some(JsonView::Object(members)) => match scores_in(members) {
            Some(s) => Ok(Some(s)),
            None => Err("field `"@ + name + "` is not an object of numbers"@),
        },
        Some(_) => Err("field `"@ + name + "` is not an object of numbers"@),
    }
}

proof fn lemma_scores_none(members: Seq<(Seq<char>, JsonView)>, n: int)
    requires
        0 <= n <= members.len(),
        scores_in(members.take(n)) is None,
    ensures
        scores_in(members) is None,
    decreases members.len() - n,
{
    if n < members.len() {
        assert(members.take(n + 1).drop_last() =~= members.take(n));
        lemma_scores_none(members, n + 1);
    } else {
        assert(members.take(n) =~= members);
    }
}

pub(crate) fn read_members(members: &Vec<(String, Json)>) -> (r: Option<Vec<(String, Double)>>)
    ensures
        dimensions_view(r) == scores_in(object_view(members@)),
{
    let ghost view = object_view(members@);
    let mut out: Vec<(String, Double)> = Vec::new();
    let mut i: usize = 0;
    assert(scores_view(out@) =~= Seq::empty());
    assert(view.take(0) =~= Seq::empty());
    while i < members.len()
        invariant
            i <= members@.len(),
            view == object_view(members@),
            scores_in(view.take(i as int)) == Some(scores_view(out@)),
        decreases members@.len() - i,
    {
        proof {
            assert(view.take(i + 1).drop_last() =~= view.take(i as int));
            assert(view.take(i + 1).last() == view[i as int]);
        }
        match members[i].1.as_double() {
            Some(d) => {
                let ghost before = scores_view(out@);
                let key = members[i].0.clone();
                out.push((key, d));
                assert(scores_view(out@) =~= before.push((key@, d)));
            },
            None => {
                proof {
                    lemma_scores_none(view, i + 1);
                }
                return None;
            },
        }
        i += 1;
    }
    assert(view.take(i as int) =~= view);
    Some(out)
}

fn read_scores(j: &Json, name: &str, place: usize) -> (r: Result<Option<Vec<(String, Double)>>, String>)
    ensures
        match r {
            Ok(d) => scores_field(j@, name@, place as int) == Ok::<Option<Seq<(Seq<char>, Double)>>, Seq<char>>(
                dimensions_view(d),
            ),
            Err(e) => scores_field(j@, name@, place as int) == Err::<Option<Seq<(Seq<char>, Double)>>, Seq<char>>(
                e@,
            ),
        },
{
    match read_field(j, name, place) {
        None => {
            return Ok(None);
        },
        Some(Json::Null) => {
            return Ok(None);
        },
        Some(Json::Object(members)) => {
            proof {
                lemma_object_view(*members);
            }
            match read_members(members) {
                Some(s) => {
                    return Ok(Some(s));
                },
                None => {},
            }
        },
        Some(_) => {},
    }
    let mut e = "field `".to_owned();
    e.append(name);
    e.append("` is not an object of numbers");
    Err(e)
}

/// The reply that a JSON value is, or why it is none: a score and a verdict are owed, the rest is
/// not.
pub open spec fn reply_of(j: JsonView) -> Result<JudgeReplyView, Seq<char>> {
    match record_fault(j, Form::Reply) {
        Some(e) => Err(e),
        None => match number_field(j, "score"@, 0) {
            Err(e) => Err(e),
            Ok(None) => Err("missing field `score`"@),
            Ok(Some(score)) => match text_field(j, "verdict"@, 1) {
                Err(e) => Err(e),
                Ok(None) => Err("missing field `verdict`"@),
                Ok(Some(verdict)) => match number_field(j, "confidence"@, 2) {
                    Err(e) => Err(e),
                    Ok(confidence) => match number_field(j, "meta_prediction"@, 3) {
                        Err(e) => Err(e),
                        Ok(meta_prediction) => match scores_field(j, "dimensions"@, 4) {
                            Err(e) => Err(e),
                            Ok(dimensions) => match text_field(j, "rationale"@, 5) {
                                Err(e) => Err(e),
                                Ok(rationale) => Ok(
                                    JudgeReplyView {
                                        score,
                                        verdict,
                                        confidence,
                                        meta_prediction,
                                        dimensions,
                                        rationale,
                                    },
                                ),
                            },
                        },
                    },
                },
            },
        },
    }
}

/// Reads a reply off a JSON value.
pub fn read_reply(j: &Json) -> (r: Result<JudgeReply, String>)
    ensures
        match r {
            Ok(p) => reply_of(j@) == Ok::<JudgeReplyView, Seq<char>>(p.deep_view()),
            Err(e) => reply_of(j@) == Err::<JudgeReplyView, Seq<char>>(e@),
        },
{
    if let Some(e) = find_fault(j, Form::Reply) {
        return Err(e);
    }
    let score = match read_number(j, "score", 0) {
        Ok(Some(d)) => d,
        Ok(None) => {
            return Err("missing field `score`".to_owned());
        },
        Err(e) => {
            return Err(e);
        },
    };
    let verdict = match read_text(j, "verdict", 1) {
        Ok(Some(t)) => t,
        Ok(None) => {
            return Err("missing field `verdict`".to_owned());
        },
        Err(e) => {
            return Err(e);
        },
    };
    let confidence = match read_number(j, "confidence", 2) {
        Ok(d) => d,
        Err(e) => {
            return Err(e);
        },
    };
    let meta_prediction = match read_number(j, "meta_prediction", 3) {
        Ok(d) => d,
        Err(e) => {
            return Err(e);
        },
    };
    let dimensions = match read_scores(j, "dimensions", 4) {
        Ok(d) => d,
        Err(e) => {
            return Err(e);
        },
    };
    let rationale = match read_text(j, "rationale", 5) {
        Ok(t) => t,
        Err(e) => {
            return Err(e);
        },
    };
    Ok(JudgeReply { score, verdict, confidence, meta_prediction, dimensions, rationale })
}

/// The reply that a JSON text encodes, or why it encodes none.
pub open spec fn reply_text(text: Seq<char>) -> Result<JudgeReplyView, Seq<char>> {
    match reading(text, Form::Reply) {
        Ok(j) => reply_of(j),
        Err(e) => Err(e),
    }
}

/// The reply in a judge's answer: the answer itself, or else the outermost object in it.
pub open spec fn reply_in(text: Seq<char>) -> Result<JudgeReplyView, Seq<char>> {
    match reply_text(trim(text)) {
        Ok(r) => Ok(r),
        Err(first) => match embedded(text) {
            Some(body) => reply_text(body),
            None => Err(first),
        },
    }
}

fn parse_reply_text(text: &str) -> (r: Result<JudgeReply, String>)
    ensures
        match r {
            Ok(p) => reply_text(text@) == Ok::<JudgeReplyView, Seq<char>>(p.deep_view()),
            Err(e) => reply_text(text@) == Err::<JudgeReplyView, Seq<char>>(e@),
        },
{
    match read_as(text, Form::Reply) {
        Ok(j) => read_reply(&j),
        Err(e) => Err(e),
    }
}

/// Reads the reply in a judge's answer.
pub fn parse_reply(text: &str) -> (r: Result<JudgeReply, String>)
    ensures
        match r {
            Ok(p) => reply_in(text@) == Ok::<JudgeReplyView, Seq<char>>(p.deep_view()),
            Err(e) => reply_in(text@) == Err::<JudgeReplyView, Seq<char>>(e@),
        },
{
    let plain = trimmed(text);
    match parse_reply_text(plain.as_str()) {
        Ok(p) => Ok(p),
        Err(first) => match extract_json(text) {
            Some(body) => parse_reply_text(body.as_str()),
            None => Err(first),
        },
    }
}

/// What is kept of an answer for audit.
pub open spec fn audit(text: Seq<char>, scoring: JudgeScoring) -> JsonView {
    JsonView::Object(
        seq![("response"@, JsonView::Text(text)), ("scoring_used"@, JsonView::Text(scoring.token()))],
    )
}

/// The grade that a reply makes. `tenth` and `meta_tenth` are a tenth of its score and of its
/// prediction.
pub open spec fn graded(
    judge: PanelJudgeView,
    reply: JudgeReplyView,
    text: Seq<char>,
    scoring: JudgeScoring,
    tenth: Double,
    meta_tenth: Double,
) -> GradeView {
    GradeView {
        judge_model: judge.slug,
        score: unit_score(reply.score, tenth),
        verdict: verdict_of(reply.verdict),
        confidence: match reply.confidence {
            Some(c) => c.held(),
            None => Double { bits: 0 },
        },
        meta_prediction: match reply.meta_prediction {
            Some(m) => Some(unit_score(m, meta_tenth)),
            None => None,
        },
        dimensions: reply.dimensions,
        rationale: reply.rationale,
        raw: audit(text, scoring),
        temperature: judge.sampling.temperature,
        top_p: judge.sampling.top_p,
        seed: judge.sampling.seed,
        rubric_id: judge.rubric_id,
    }
}

/// The grade that a reply makes. `tenth` and `meta_tenth` are a tenth of its score and of its
/// prediction.
pub fn grade_reply(
    judge: &PanelJudge,
    reply: JudgeReply,
    response_text: &str,
    scoring_used: JudgeScoring,
    tenth: Double,
    meta_tenth: Double,
) -> (g: Grade)
    ensures
        g.deep_view() == graded(
            judge.deep_view(),
            reply.deep_view(),
            response_text@,
            scoring_used,
            tenth,
            meta_tenth,
        ),
{
    let mut members: Vec<(String, Json)> = Vec::new();
    members.push(("response".to_owned(), Json::Text(response_text.to_owned())));
    members.push(("scoring_used".to_owned(), Json::Text(scoring_used.as_str().to_owned())));
    proof {
        lemma_object_view(members);
        assert(object_view(members@) =~= audit(response_text@, scoring_used)->Object_0);
    }
    let confidence = match reply.confidence {
        Some(c) => c.clamped(),
        None => Double::zero(),
    };
    let meta_prediction = match reply.meta_prediction {
        Some(m) => Some(normalize_score(m, meta_tenth)),
        None => None,
    };
    Grade {
        judge_model: judge.slug.clone(),
        score: normalize_score(reply.score, tenth),
        verdict: parse_verdict(reply.verdict.as_str()),
        confidence,
        meta_prediction,
        dimensions: reply.dimensions,
        rationale: reply.rationale,
        raw: Json::Object(members),
        temperature: judge.sampling.temperature,
        top_p: judge.sampling.top_p,
        seed: judge.sampling.seed,
        rubric_id: judge.rubric_id.clone(),
    }
}

/// Whether `g` is the grade of `reply`, its tenths taken from `scale`.
pub open spec fn scaled<S: Arithmetic>(
    scale: &S,
    judge: PanelJudgeView,
    reply: JudgeReplyView,
    text: Seq<char>,
    scoring: JudgeScoring,
    g: GradeView,
) -> bool {
    exists|tenth: Double, meta_tenth: Double|
        is_over(scale, reply.score, Double { bits: TEN }, tenth) && (reply.meta_prediction is Some
            ==> is_over(scale, reply.meta_prediction->0, Double { bits: TEN }, meta_tenth)) && g
            == #[trigger] graded(judge, reply, text, scoring, tenth, meta_tenth)
}

/// The error of an answer that is no reply.
pub open spec fn unreadable(judge: PanelJudgeView, why: Seq<char>) -> JudgeErrorView {
    JudgeErrorView::JudgeParse(
        "judge "@ + judge.slug + " returned an unparseable response: "@ + why,
    )
}

/// Reads the grade off a judge's answer. An answer that is no reply is an error, never a grade.
pub fn parse_grade<S: Arithmetic>(
    judge: &PanelJudge,
    response_text: &str,
    scoring_used: JudgeScoring,
    scale: &S,
) -> (r: Result<Grade, JudgeError>)
    ensures
        match reply_in(response_text@) {
            Ok(reply) => r matches Ok(g) && scaled(
                scale,
                judge.deep_view(),
                reply,
                response_text@,
                scoring_used,
                g.deep_view(),
            ),
            Err(why) => r matches Err(e) && e.deep_view() == unreadable(judge.deep_view(), why),
        },
{
    match parse_reply(response_text) {
        Ok(reply) => {
            let ghost view = reply.deep_view();
            let tenth = scale.over(reply.score, Double { bits: TEN });
            let meta_tenth = match reply.meta_prediction {
                Some(m) => scale.over(m, Double { bits: TEN }),
                None => Double::zero(),
            };
            let g = grade_reply(judge, reply, response_text, scoring_used, tenth, meta_tenth);
            assert(g.deep_view() == graded(
                judge.deep_view(),
                view,
                response_text@,
                scoring_used,
                tenth,
                meta_tenth,
            ));
            Ok(g)
        },
        Err(why) => {
            let mut m = joined("judge ", judge.slug.as_str());
            m.append(" returned an unparseable response: ");
            m.append(why.as_str());
            Err(JudgeError::JudgeParse(m))
        },
    }
}

/// What a judge is told before the rubric.
pub const JUDGE_FRAMING: &'static str = "You are a strict grading judge. Apply the rubric and return ONLY a JSON object with keys: score (0..1), verdict (\"accept\"|\"revise\"|\"reject\"|\"uncertain\"), confidence (0..1), meta_prediction (0..1, your prediction of the panel-mean score), dimensions (object of criterion->0..1), rationale (string, required on reject). Rubric:\n";

/// The request that a judge is sent.
pub open spec fn judge_request(
    judge: PanelJudgeView,
    rubric: Seq<char>,
    candidate: Seq<char>,
) -> ChatRequestView {
    ChatRequestView {
        model: judge.slug,
        messages: seq![
            text_message(Role::System, JUDGE_FRAMING@ + rubric),
            text_message(Role::User, "Grade this candidate trace:\n"@ + candidate),
        ],
        stream: true,
        temperature: Some(judge.sampling.temperature),
        top_p: judge.sampling.top_p,
        seed: judge.sampling.seed,
        max_tokens: Some(judge.cap()),
        reasoning: match judge.reasoning {
            Some(r) => Some(r.param()),
            None => None,
        },
        provider: None,
        usage: None,
    }
}

/// The request that a judge is sent: the rubric and the candidate, with the judge's own sampling,
/// and always with a cap.
#[must_use]
pub fn build_judge_request(judge: &PanelJudge, rubric: &str, candidate_render: &str) -> (r:
    ChatRequest)
    ensures
        r.deep_view() == judge_request(judge.deep_view(), rubric@, candidate_render@),
{
    let mut messages: Vec<Message> = Vec::new();
    messages.push(plain_message(Role::System, joined(JUDGE_FRAMING, rubric)));
    messages.push(
        plain_message(Role::User, joined("Grade this candidate trace:\n", candidate_render)),
    );
    proof {
        assert(messages.deep_view() =~= seq![
            text_message(Role::System, JUDGE_FRAMING@ + rubric@),
            text_message(Role::User, "Grade this candidate trace:\n"@ + candidate_render@),
        ]);
    }
    let mut req = ChatRequest::new(judge.slug.clone(), messages).with_temperature(
        judge.sampling.temperature,
    ).with_max_tokens(judge.effective_max_tokens());
    if let Some(reasoning) = judge.reasoning {
        req = req.with_reasoning(reasoning.to_param());
    }
    if let Some(p) = judge.sampling.top_p {
        req = req.with_top_p(p);
    }
    if let Some(s) = judge.sampling.seed {
        req = req.with_seed(s);
    }
    req
}

/// A judge's answer, drained.
#[derive(Debug, PartialEq)]
pub struct DrainedContent {
    /// The text.
    pub content: String,
    /// Why it stopped.
    pub finish_reason: Option<String>,
    /// Why it stopped, in the upstream's own words.
    pub native_finish_reason: Option<String>,
}

/// What a drained answer is, as mathematics.
#[verifier::ext_equal]
pub struct DrainedView {
    pub content: Seq<char>,
    pub finish_reason: Option<Seq<char>>,
    pub native_finish_reason: Option<Seq<char>>,
}

impl DeepView for DrainedContent {
    type V = DrainedView;

    open spec fn deep_view(&self) -> DrainedView {
        DrainedView {
            content: self.content@,
            finish_reason: self.finish_reason.deep_view(),
            native_finish_reason: self.native_finish_reason.deep_view(),
        }
    }
}

/// What was drained after one more chunk: its text is appended, its reasons to stop replace earlier
/// ones.
pub open spec fn drained_with(d: DrainedView, delta: StreamDeltaView) -> DrainedView {
    DrainedView {
        content: match delta.content {
            Some(c) => d.content + c,
            None => d.content,
        },
        finish_reason: if delta.finish_reason is Some {
            delta.finish_reason
        } else {
            d.finish_reason
        },
        native_finish_reason: if delta.native_finish_reason is Some {
            delta.native_finish_reason
        } else {
            d.native_finish_reason
        },
    }
}

/// Whether an answer stopped because it reached its cap.
pub open spec fn capped(d: DrainedView) -> bool {
    d.finish_reason == Some("length"@) || d.native_finish_reason == Some("length"@)
}

fn is_length(reason: &Option<String>) -> (r: bool)
    ensures
        r == (reason.deep_view() == Some("length"@)),
{
    match reason {
        Some(s) => same_text(s.as_str(), "length"),
        None => false,
    }
}

impl DrainedContent {
    /// Nothing drained yet.
    pub fn new() -> (d: DrainedContent)
        ensures
            d.deep_view() == (DrainedView {
                content: Seq::empty(),
                finish_reason: None,
                native_finish_reason: None,
            }),
    {
        let d = DrainedContent {
            content: String::new(),
            finish_reason: None,
            native_finish_reason: None,
        };
        assert(d.content@ =~= Seq::<char>::empty());
        d
    }

    /// Takes one more chunk.
    pub fn ingest(&mut self, delta: StreamDelta)
        ensures
            final(self).deep_view() == drained_with(old(self).deep_view(), delta.deep_view()),
    {
        if let Some(c) = delta.content {
            self.content.append(c.as_str());
        }
        if delta.finish_reason.is_some() {
            self.finish_reason = delta.finish_reason;
        }
        if delta.native_finish_reason.is_some() {
            self.native_finish_reason = delta.native_finish_reason;
        }
    }

    /// Whether the answer stopped because it reached its cap.
    pub fn hit_length_cap(&self) -> (r: bool)
        ensures
            r == capped(self.deep_view()),
    {
        is_length(&self.finish_reason) || is_length(&self.native_finish_reason)
    }
}

/// What `{:?}` writes for an effort.
pub open spec fn effort_name(effort: ReasoningEffort) -> Seq<char> {
    match effort {
        ReasoningEffort::Xhigh => "Xhigh"@,
        ReasoningEffort::High => "High"@,
        ReasoningEffort::Medium => "Medium"@,
        ReasoningEffort::Low => "Low"@,
        ReasoningEffort::Minimal => "Minimal"@,
        ReasoningEffort::Off => "None"@,
    }
}

/// What `{:?}` writes for an optional way to think.
pub open spec fn reasoning_name(reasoning: Option<ReasoningParam>) -> Seq<char> {
    match reasoning {
        Some(ReasoningParam::Effort { effort }) => "Some(Effort { effort: "@ + effort_name(effort)
            + " })"@,
        Some(ReasoningParam::MaxTokens { max_tokens }) => "Some(MaxTokens { max_tokens: "@
            + decimal(max_tokens as nat) + " })"@,
        None => "None"@,
    }
}

fn reasoning_words(reasoning: Option<ReasoningParam>) -> (s: String)
    ensures
        s@ == reasoning_name(reasoning),
{
    match reasoning {
        Some(ReasoningParam::Effort { effort }) => {
            let name = match effort {
                ReasoningEffort::Xhigh => "Xhigh",
                ReasoningEffort::High => "High",
                ReasoningEffort::Medium => "Medium",
                ReasoningEffort::Low => "Low",
                ReasoningEffort::Minimal => "Minimal",
                ReasoningEffort::Off => "None",
            };
            let mut s = joined("Some(Effort { effort: ", name);
            s.append(" })");
            s
        },
        Some(ReasoningParam::MaxTokens { max_tokens }) => {
            let digits = decimal_text(max_tokens as u64);
            let mut s = joined("Some(MaxTokens { max_tokens: ", digits.as_str());
            s.append(" })");
            s
        },
        None => "None".to_owned(),
    }
}

/// The error of an answer without a grade: it was cut off, or it is empty.
pub open spec fn no_verdict(
    judge: PanelJudgeView,
    d: DrainedView,
    max_tokens: Option<u32>,
    reasoning: Option<ReasoningParam>,
) -> JudgeErrorView {
    JudgeErrorView::JudgeParse(
        if capped(d) {
            "judge "@ + judge.slug
                + " was truncated at max_tokens before emitting a verdict (finish_reason="@
                + debug_option(d.finish_reason) + ", native_finish_reason="@ + debug_option(
                d.native_finish_reason,
            ) + ", max_tokens="@ + debug_number(
                match max_tokens {
                    Some(n) => Some(n as int),
                    None => None,
                },
            ) + ", reasoning="@ + reasoning_name(reasoning)
                + "); raise judge max_tokens or lower the judge reasoning budget"@
        } else {
            "judge "@ + judge.slug + " returned an empty completion (finish_reason="@ + debug_option(
                d.finish_reason,
            ) + ", native_finish_reason="@ + debug_option(d.native_finish_reason) + ")"@
        },
    )
}

/// The error of an answer that holds no verdict.
pub fn empty_completion_error(
    judge: &PanelJudge,
    drained: &DrainedContent,
    max_tokens: Option<u32>,
    reasoning: Option<ReasoningParam>,
) -> (e: JudgeError)
    ensures
        e.deep_view() == no_verdict(
            judge.deep_view(),
            drained.deep_view(),
            max_tokens,
            reasoning,
        ),
{
    let finish = debug_option_text(&drained.finish_reason);
    let native = debug_option_text(&drained.native_finish_reason);
    let mut m = joined("judge ", judge.slug.as_str());
    if drained.hit_length_cap() {
        let cap = debug_number_text(
            match max_tokens {
                Some(n) => Some(n as i64),
                None => None,
            },
        );
        let thought = reasoning_words(reasoning);
        m.append(" was truncated at max_tokens before emitting a verdict (finish_reason=");
        m.append(finish.as_str());
        m.append(", native_finish_reason=");
        m.append(native.as_str());
        m.append(", max_tokens=");
        m.append(cap.as_str());
        m.append(", reasoning=");
        m.append(thought.as_str());
        m.append("); raise judge max_tokens or lower the judge reasoning budget");
    } else {
        m.append(" returned an empty completion (finish_reason=");
        m.append(finish.as_str());
        m.append(", native_finish_reason=");
        m.append(native.as_str());
        m.append(")");
    }
    JudgeError::JudgeParse(m)
}

/// Whether `r` is what a judge's drained answer comes to: an empty answer, one that is no reply, and
/// one that was cut off before it became a reply are errors, every other one is a grade.
pub open spec fn is_completion<S: Arithmetic>(
    scale: &S,
    judge: PanelJudgeView,
    d: DrainedView,
    max_tokens: Option<u32>,
    reasoning: Option<ReasoningParam>,
    r: Result<GradeView, JudgeErrorView>,
) -> bool {
    let cut = no_verdict(judge, d, max_tokens, reasoning);
    if blank(d.content) {
        r == Err::<GradeView, JudgeErrorView>(cut)
    } else {
        match reply_in(d.content) {
            Ok(reply) => r matches Ok(g) && scaled(
                scale,
                judge,
                reply,
                d.content,
                judge.scoring,
                g,
            ),
            Err(why) => r == Err::<GradeView, JudgeErrorView>(
                if capped(d) {
                    cut
                } else {
                    unreadable(judge, why)
                },
            ),
        }
    }
}

/// Reads the grade off a judge's drained answer: an empty answer, one that is no reply, and one
/// that was cut off before it became a reply are errors.
pub fn grade_completion<S: Arithmetic>(
    judge: &PanelJudge,
    drained: &DrainedContent,
    max_tokens: Option<u32>,
    reasoning: Option<ReasoningParam>,
    scale: &S,
) -> (r: Result<Grade, JudgeError>)
    ensures
        is_completion(
            scale,
            judge.deep_view(),
            drained.deep_view(),
            max_tokens,
            reasoning,
            match r {
                Ok(g) => Ok(g.deep_view()),
                Err(e) => Err(e.deep_view()),
            },
        ),
{
    if is_blank(drained.content.as_str()) {
        return Err(empty_completion_error(judge, drained, max_tokens, reasoning));
    }
    match parse_grade(judge, drained.content.as_str(), judge.scoring, scale) {
        Ok(g) => Ok(g),
        Err(e) => if drained.hit_length_cap() {
            Err(empty_completion_error(judge, drained, max_tokens, reasoning))
        } else {
            Err(e)
        },
    }
}

/// Refuses a panel without judges.
pub fn require_judges(judges: &[PanelJudge]) -> (r: Result<(), JudgeError>)
    ensures
        match r {
            Ok(()) => judges@.len() > 0,
            Err(e) => judges@.len() == 0 && e.deep_view() == JudgeErrorView::EmptyPanel(
                "grade_panel requires at least one judge"@,
            ),
        },
{
    if judges.len() == 0 {
        Err(JudgeError::EmptyPanel("grade_panel requires at least one judge".to_owned()))
    } else {
        Ok(())
    }
}

/// How a judge's answer is cut into chunks makes no difference: what was drained before stays, and what
/// a chunk says is added behind it, so that two pieces of text leave what one text of both does.
pub proof fn an_answer_may_be_cut_anywhere(
    d: DrainedView,
    first: StreamDeltaView,
    second: StreamDeltaView,
    whole: StreamDeltaView,
    a: Seq<char>,
    b: Seq<char>,
)
    requires
        first.content == Some(a),
        second.content == Some(b),
        whole.content == Some(a + b),
        first.finish_reason is None,
        first.native_finish_reason is None,
        second.finish_reason == whole.finish_reason,
        second.native_finish_reason == whole.native_finish_reason,
    ensures
        drained_with(drained_with(d, first), second) == drained_with(d, whole),
        drained_with(d, first).content == d.content + a,
{
    assert(d.content + a + b =~= d.content + (a + b));
    assert(drained_with(drained_with(d, first), second) =~= drained_with(d, whole));
}

/// A chunk that says nothing of the text leaves it, and why an answer stopped is what was last told of
/// it.
pub proof fn the_last_reason_to_stop_stands(d: DrainedView, delta: StreamDeltaView)
    ensures
        delta.content is None ==> drained_with(d, delta).content == d.content,
        drained_with(d, delta).finish_reason == (match delta.finish_reason {
            Some(r) => Some(r),
            None => d.finish_reason,
        }),
        drained_with(d, delta).native_finish_reason == (match delta.native_finish_reason {
            Some(r) => Some(r),
            None => d.native_finish_reason,
        }),
{
}

/// What a judge's whole answer adds up to: every chunk's text, one after the other.
pub proof fn an_answer_adds_up_to_all_its_chunks(
    states: Seq<DrainedView>,
    chunks: Seq<StreamDeltaView>,
    contents: Seq<Seq<char>>,
)
    requires
        states.len() == chunks.len() + 1,
        contents.len() == chunks.len(),
        forall|i: int|
            0 <= i < chunks.len() ==> states[i + 1] == drained_with(states[i], #[trigger] chunks[i]),
        forall|i: int|
            0 <= i < chunks.len() ==> #[trigger] contents[i] == (match chunks[i].content {
                Some(t) => t,
                None => Seq::empty(),
            }),
    ensures
        states.last().content == states[0].content + contents.flatten(),
    decreases chunks.len(),
{
    if chunks.len() == 0 {
        assert(states[0].content + contents.flatten() =~= states[0].content);
    } else {
        let most = chunks.drop_last();
        let earlier = states.drop_last();
        assert forall|i: int| 0 <= i < most.len() implies earlier[i + 1] == drained_with(
            earlier[i],
            #[trigger] most[i],
        ) by {
            assert(chunks[i] == most[i]);
        }
        assert forall|i: int| 0 <= i < most.len() implies #[trigger] contents.drop_last()[i] == (
        match most[i].content {
            Some(t) => t,
            None => Seq::empty(),
        }) by {
            assert(contents[i] == contents.drop_last()[i]);
        }
        an_answer_adds_up_to_all_its_chunks(earlier, most, contents.drop_last());
        let n = chunks.len() - 1;
        assert(states[n + 1] == drained_with(states[n], chunks[n]));
        assert(contents[n] == contents.last());
        contents.drop_last().lemma_flatten_push(contents.last());
        assert(contents.drop_last().push(contents.last()) =~= contents);
        let a = states[0].content;
        let b = contents.drop_last().flatten();
        let c = contents.last();
        assert(a + b + c =~= a + (b + c));
        assert(states[n].content + Seq::<char>::empty() =~= states[n].content);
    }
}

/// A grade is made of a reply: the score as it is where it lies between zero and one, a tenth of it
/// where it is greater, nothing where it is no finite number, and held to the ends; the verdict by its
/// word; the prediction like the score; the rest as it is told, and what the judge was asked with.
pub proof fn a_reply_makes_the_grade<S: Arithmetic>(
    scale: &S,
    judge: PanelJudgeView,
    reply: JudgeReplyView,
    text: Seq<char>,
    scoring: JudgeScoring,
    g: GradeView,
)
    requires
        scaled(scale, judge, reply, text, scoring, g),
    ensures
        g.judge_model == judge.slug,
        g.rubric_id == judge.rubric_id,
        g.temperature == judge.sampling.temperature,
        g.top_p == judge.sampling.top_p,
        g.seed == judge.sampling.seed,
        g.dimensions == reply.dimensions,
        g.rationale == reply.rationale,
        g.raw == JsonView::Object(
            seq![
                ("response"@, JsonView::Text(text)),
                (
                    "scoring_used"@,
                    JsonView::Text(
                        match scoring {
                            JudgeScoring::GEvalLogprob => "g_eval_logprob"@,
                            JudgeScoring::IntegerLikert => "integer_likert"@,
                        },
                    ),
                ),
            ],
        ),
        is_on_scale(scale, reply.score, g.score),
        match reply.meta_prediction {
            Some(m) => g.meta_prediction matches Some(p) && is_on_scale(scale, m, p),
            None => g.meta_prediction is None,
        },
        match reply.confidence {
            Some(c) => {
                &&& c.at_least(Double { bits: 0 }) && (Double { bits: ONE }).at_least(c) ==> g.confidence
                    == c
                &&& c.below(Double { bits: 0 }) ==> g.confidence == (Double { bits: 0 })
                &&& (Double { bits: ONE }).below(c) ==> g.confidence == (Double { bits: ONE })
            },
            None => g.confidence == (Double { bits: 0 }),
        },
        ({
            let word = lower(trim(reply.verdict));
            &&& g.verdict == Verdict::Accept <==> word == "accept"@ || word == "admit"@
            &&& g.verdict == Verdict::Revise <==> word == "revise"@
            &&& g.verdict == Verdict::Reject <==> word == "reject"@
        }),
{
    reveal_strlit("accept");
    reveal_strlit("admit");
    reveal_strlit("revise");
    reveal_strlit("reject");
    assert("accept"@.len() == 6 && "admit"@.len() == 5 && "revise"@.len() == 6 && "reject"@.len() == 6);
    assert("accept"@[0] == 'a' && "revise"@[2] == 'v' && "reject"@[2] == 'j' && "revise"@[0] == 'r'
        && "reject"@[0] == 'r');
    let (tenth, meta_tenth) = choose|tenth: Double, meta_tenth: Double|
        is_over(scale, reply.score, Double { bits: TEN }, tenth) && (reply.meta_prediction is Some
            ==> is_over(scale, reply.meta_prediction->0, Double { bits: TEN }, meta_tenth)) && g
            == #[trigger] graded(judge, reply, text, scoring, tenth, meta_tenth);
    assert(is_over(scale, reply.score, Double { bits: TEN }, tenth));
}

/// The bits of one.
pub const ONE: u64 = 0x3ff0_0000_0000_0000;

/// Whether `x` may be where a raw score comes to lie on the scale from zero to one.
pub open spec fn is_on_scale<S: Arithmetic>(scale: &S, raw: Double, x: Double) -> bool {
    let zero = Double { bits: 0 };
    let one = Double { bits: ONE };
    &&& !raw.finite() ==> x == zero
    &&& raw.finite() && raw.at_least(zero) && one.at_least(raw) ==> x == raw
    &&& raw.finite() && raw.below(zero) ==> x == zero
    &&& raw.finite() && one.below(raw) ==> exists|tenth: Double|
        #[trigger] is_over(scale, raw, Double { bits: TEN }, tenth) && (tenth.below(zero) ==> x == zero)
            && (one.below(tenth) ==> x == one) && (!tenth.below(zero) && !one.below(tenth) ==> x == tenth)
}

/// What comes of a judge's answer: a blank one is an error; one that holds a reply is graded by it, even
/// where it was cut off; one that holds none is an error that tells whether it was cut off.
pub proof fn an_answer_is_graded_by_the_reply_in_it<S: Arithmetic>(
    scale: &S,
    judge: PanelJudgeView,
    d: DrainedView,
    max_tokens: Option<u32>,
    reasoning: Option<ReasoningParam>,
    r: Result<GradeView, JudgeErrorView>,
)
    requires
        is_completion(scale, judge, d, max_tokens, reasoning, r),
    ensures
        blank(d.content) ==> (r matches Err(JudgeErrorView::JudgeParse(_))),
        !blank(d.content) && reply_in(d.content) is Ok ==> (r matches Ok(g) && scaled(
            scale,
            judge,
            reply_in(d.content)->Ok_0,
            d.content,
            judge.scoring,
            g,
        )),
        !blank(d.content) && reply_in(d.content) is Err ==> (r matches Err(
            JudgeErrorView::JudgeParse(_),
        )),
{
}

/// The reply is looked for in the whole answer first, and then in the outermost object in it.
pub proof fn the_whole_answer_is_read_first(text: Seq<char>)
    ensures
        reply_text(trim(text)) is Ok ==> reply_in(text) == reply_text(trim(text)),
        reply_text(trim(text)) is Err && embedded(text) is Some ==> reply_in(text) == reply_text(
            embedded(text)->0,
        ),
        reply_text(trim(text)) is Err && embedded(text) is None ==> reply_in(text) is Err,
{
}

/// Words around an object do not matter: where it begins with the first opening brace of an answer that
/// opens no fence, and ends with the last closing one, it is the object that is found.
pub proof fn words_around_an_object_do_not_matter(
    before: Seq<char>,
    object: Seq<char>,
    after: Seq<char>,
)
    requires
        object.len() >= 2,
        object.first() == '{',
        object.last() == '}',
        forall|i: int| 0 <= i < before.len() ==> #[trigger] before[i] != '{',
        forall|i: int| 0 <= i < after.len() ==> #[trigger] after[i] != '}',
        !begins(trim(before + object + after), "```"@),
    ensures
        embedded(before + object + after) == Some(object),
{
    let text = before + object + after;
    lemma_braced(before, object, after);
}

proof fn lemma_braced(before: Seq<char>, object: Seq<char>, after: Seq<char>)
    requires
        object.len() >= 2,
        object.first() == '{',
        object.last() == '}',
        forall|i: int| 0 <= i < before.len() ==> #[trigger] before[i] != '{',
        forall|i: int| 0 <= i < after.len() ==> #[trigger] after[i] != '}',
    ensures
        braced(before + object + after) == Some(object),
{
    let text = before + object + after;
    let a = before.len() as int;
    let b = before.len() + object.len() - 1;
    assert(text[a] == '{');
    assert(text[b] == '}');
    text.index_of_first_ensures('{');
    text.index_of_last_ensures('}');
    assert(text.contains('{') && text.contains('}'));
    let first = text.index_of_first('{')->0;
    let last = text.index_of_last('}')->0;
    if first < a {
        assert(text[first] == before[first]);
    }
    assert(first == a);
    if last > b {
        assert(text[last] == after[last - b - 1]);
    }
    assert(last == b);
    assert(text.subrange(a, b + 1) =~= object);
}

/// An object on the lines behind the one that opens a fence is found, whatever tag stands on that line,
/// unless an object begins on it that the line does not close.
pub proof fn the_tag_of_a_fence_does_not_matter(
    tag: Seq<char>,
    before: Seq<char>,
    object: Seq<char>,
    after: Seq<char>,
)
    requires
        object.len() >= 2,
        object.first() == '{',
        object.last() == '}',
        forall|i: int| 0 <= i < tag.len() ==> #[trigger] tag[i] != '\n',
        tally("```"@ + tag, '{') <= tally("```"@ + tag, '}'),
        forall|i: int| 0 <= i < before.len() ==> #[trigger] before[i] != '{',
        forall|i: int| 0 <= i < after.len() ==> #[trigger] after[i] != '}',
        trim("```"@ + tag + seq!['\n'] + (before + object + after)) == "```"@ + tag + seq!['\n'] + (before
            + object + after),
    ensures
        embedded("```"@ + tag + seq!['\n'] + (before + object + after)) == Some(object),
{
    reveal_strlit("```");
    let line = "```"@ + tag;
    let rest = before + object + after;
    let text = line + seq!['\n'] + rest;
    let n = line.len() as int;
    assert(text.subrange(0, 3) =~= "```"@);
    assert(text[n] == '\n');
    text.index_of_first_ensures('\n');
    assert(text.contains('\n'));
    let first = text.index_of_first('\n')->0;
    if first < n {
        if first < 3 {
            assert(text[first] == "```"@[first]);
        } else {
            assert(text[first] == tag[first - 3]);
        }
    }
    assert(first == n);
    assert(text.take(n) =~= line);
    assert(text.skip(n + 1) =~= rest);
    lemma_braced(before, object, after);
}

/// How often a character stands in a text is counted character by character.
pub proof fn a_tally_counts_every_place(a: Seq<char>, b: Seq<char>, c: char)
    ensures
        tally(a + b, c) == tally(a, c) + tally(b, c),
        tally(seq![c], c) == 1,
        forall|d: char| d != c ==> #[trigger] tally(seq![d], c) == 0,
    decreases b.len(),
{
    assert(seq![c].drop_last() =~= Seq::empty());
    assert(tally(seq![c].drop_last(), c) == 0);
    assert forall|d: char| d != c implies #[trigger] tally(seq![d], c) == 0 by {
        assert(seq![d].drop_last() =~= Seq::empty());
        assert(tally(seq![d].drop_last(), c) == 0);
    }
    if b.len() == 0 {
        assert(a + b =~= a);
    } else {
        a_tally_counts_every_place(a, b.drop_last(), c);
        assert((a + b).drop_last() =~= a + b.drop_last());
        assert((a + b).last() == b.last());
    }
}

/// A reply is read off its fields: a score and a verdict are owed, the rest is not, and null stands for
/// nothing.
pub proof fn a_reply_is_its_fields(j: JsonView)
    ensures
        match reply_of(j) {
            Ok(r) => {
                &&& record_fault(j, Form::Reply) is None
                &&& field(j, "score"@, 0) is Some && double_in(field(j, "score"@, 0)->0) == Some(r.score)
                &&& field(j, "verdict"@, 1) == Some(JsonView::Text(r.verdict))
                &&& match field(j, "confidence"@, 2) {
                    None | Some(JsonView::Null) => r.confidence is None,
                    Some(v) => r.confidence is Some && r.confidence == double_in(v),
                }
                &&& match field(j, "meta_prediction"@, 3) {
                    None | Some(JsonView::Null) => r.meta_prediction is None,
                    Some(v) => r.meta_prediction is Some && r.meta_prediction == double_in(v),
                }
                &&& match field(j, "dimensions"@, 4) {
                    None | Some(JsonView::Null) => r.dimensions is None,
                    Some(v) => v is Object && r.dimensions is Some && r.dimensions->0.len()
                        == v->Object_0.len() && forall|i: int|
                        0 <= i < v->Object_0.len() ==> (#[trigger] r.dimensions->0[i]).0
                            == v->Object_0[i].0 && Some(r.dimensions->0[i].1) == double_in(
                            v->Object_0[i].1,
                        ),
                }
                &&& match field(j, "rationale"@, 5) {
                    None | Some(JsonView::Null) => r.rationale is None,
                    Some(v) => v is Text && r.rationale == Some(v->Text_0),
                }
            },
            Err(_) => {
                ||| record_fault(j, Form::Reply) is Some
                ||| field(j, "score"@, 0) is None || double_in(field(j, "score"@, 0)->0) is None
                ||| field(j, "verdict"@, 1) is None || !(field(j, "verdict"@, 1)->0 is Text)
                ||| field(j, "confidence"@, 2) is Some && !(field(j, "confidence"@, 2)->0 is Null)
                    && double_in(field(j, "confidence"@, 2)->0) is None
                ||| field(j, "meta_prediction"@, 3) is Some && !(field(j, "meta_prediction"@, 3)->0
                    is Null) && double_in(field(j, "meta_prediction"@, 3)->0) is None
                ||| field(j, "dimensions"@, 4) is Some && !(field(j, "dimensions"@, 4)->0 is Null) && (
                !(field(j, "dimensions"@, 4)->0 is Object) || exists|i: int|
                    0 <= i < field(j, "dimensions"@, 4)->0->Object_0.len() && double_in(
                        (#[trigger] field(j, "dimensions"@, 4)->0->Object_0[i]).1,
                    ) is None)
                ||| field(j, "rationale"@, 5) is Some && !(field(j, "rationale"@, 5)->0 is Null)
                    && !(field(j, "rationale"@, 5)->0 is Text)
            },
        },
{
    if let Some(JsonView::Object(members)) = field(j, "dimensions"@, 4) {
        lemma_scores_are_read(members);
    }
}

proof fn lemma_scores_are_read(members: Seq<(Seq<char>, JsonView)>)
    ensures
        match scores_in(members) {
            Some(s) => s.len() == members.len() && forall|i: int|
                0 <= i < members.len() ==> (#[trigger] s[i]).0 == members[i].0 && Some(s[i].1)
                    == double_in(members[i].1),
            None => exists|i: int|
                0 <= i < members.len() && double_in((#[trigger] members[i]).1) is None,
        },
    decreases members.len(),
{
    if members.len() > 0 {
        let before = members.drop_last();
        lemma_scores_are_read(before);
        match scores_in(before) {
            Some(most) => {
                if let Some(s) = scores_in(members) {
                    assert forall|i: int| 0 <= i < members.len() implies (#[trigger] s[i]).0
                        == members[i].0 && Some(s[i].1) == double_in(members[i].1) by {
                        if i < before.len() {
                            assert(most[i] == s[i]);
                            assert(before[i] == members[i]);
                        }
                    }
                } else {
                    assert(double_in(members[members.len() - 1].1) is None);
                }
            },
            None => {
                let i = choose|i: int|
                    0 <= i < before.len() && double_in((#[trigger] before[i]).1) is None;
                assert(members[i] == before[i]);
            },
        }
    }
}

/// A judge is asked with the rubric and the candidate and nothing else of the panel: its own model and
/// sampling, the rubric behind the framing, the candidate behind a line of its own, and a cap.
pub proof fn a_judge_sees_the_rubric_and_the_candidate(
    judge: PanelJudgeView,
    rubric: Seq<char>,
    candidate: Seq<char>,
)
    ensures
        ({
            let q = judge_request(judge, rubric, candidate);
            &&& q.model == judge.slug
            &&& q.messages.len() == 2
            &&& q.messages[0].role == Role::System && q.messages[1].role == Role::User
            &&& content_words(q.messages[0].content) == JUDGE_FRAMING@ + rubric
            &&& content_words(q.messages[1].content) == "Grade this candidate trace:\n"@ + candidate
            &&& q.stream
            &&& q.temperature == Some(judge.sampling.temperature)
            &&& q.top_p == judge.sampling.top_p && q.seed == judge.sampling.seed
            &&& q.max_tokens matches Some(n) && n >= judge.max_tokens
            &&& match judge.reasoning {
                Some(JudgeReasoning::Effort(effort)) => q.reasoning == Some(
                    ReasoningParam::Effort { effort },
                ),
                Some(JudgeReasoning::MaxTokens(max_tokens)) => q.reasoning == Some(
                    ReasoningParam::MaxTokens { max_tokens },
                ),
                None => q.reasoning is None,
            }
        }),
{
}

/// Whether an answer was cut off is told by either reason to stop, and where an answer without a reply was
/// cut off, the error says so.
pub proof fn a_cut_answer_is_told<S: Arithmetic>(
    scale: &S,
    judge: PanelJudgeView,
    d: DrainedView,
    max_tokens: Option<u32>,
    reasoning: Option<ReasoningParam>,
    r: Result<GradeView, JudgeErrorView>,
)
    requires
        is_completion(scale, judge, d, max_tokens, reasoning, r),
        r is Err,
    ensures
        ({
            let cut = d.finish_reason == Some("length"@) || d.native_finish_reason == Some("length"@);
            let words = r->Err_0->JudgeParse_0;
            &&& r->Err_0 is JudgeParse
            &&& cut ==> begins(
                words,
                "judge "@ + judge.slug
                    + " was truncated at max_tokens before emitting a verdict (finish_reason="@,
            )
            &&& !cut && blank(d.content) ==> begins(
                words,
                "judge "@ + judge.slug + " returned an empty completion (finish_reason="@,
            )
            &&& !cut && !blank(d.content) ==> begins(
                words,
                "judge "@ + judge.slug + " returned an unparseable response: "@,
            )
        }),
{
    let words = r->Err_0->JudgeParse_0;
    let head = "judge "@ + judge.slug
        + " was truncated at max_tokens before emitting a verdict (finish_reason="@;
    let other = "judge "@ + judge.slug + " returned an empty completion (finish_reason="@;
    let third = "judge "@ + judge.slug + " returned an unparseable response: "@;
    if capped(d) {
        assert(words.subrange(0, head.len() as int) =~= head);
    } else if blank(d.content) {
        assert(words.subrange(0, other.len() as int) =~= other);
    } else {
        assert(words.subrange(0, third.len() as int) =~= third);
    }
}

/// The cap on an answer is the judge's own, raised only where the budget for thinking would leave too
/// little for the verdict, and then no further than to leave it that much.
pub proof fn a_cap_is_raised_no_further_than_needed(judge: PanelJudgeView)
    ensures
        match judge.reasoning {
            Some(JudgeReasoning::MaxTokens(budget)) => {
                let needed = budget + MIN_JUDGE_VERDICT_TOKENS;
                &&& judge.max_tokens >= needed ==> judge.cap() == judge.max_tokens
                &&& judge.max_tokens < needed <= u32::MAX ==> judge.cap() == needed
                &&& needed > u32::MAX ==> judge.cap() == u32::MAX
            },
            _ => judge.cap() == judge.max_tokens,
        },
{
}

} // verus!
