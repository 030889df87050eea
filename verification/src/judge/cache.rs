//! The cache of grades: what is asked once is never asked again.
//!
//! A grade is kept under the candidate, the judge, the rubric and the temperature. The temperature
//! is part of the key by its bits, so that a grade given at one temperature never stands for one at
//! another.

use vstd::prelude::*;

use crate::arithmetic::Arithmetic;
use crate::double::Double;
use crate::judge::decision::Verdict;
use crate::judge::error::{JudgeError, JudgeErrorView};
use crate::judge::panel::{grade_completion, read_members, DrainedContent, Grade, PanelJudge};
use crate::judge::panel::{is_completion, scores_in, GradeView, PanelJudgeView};
use crate::json::{double_in, lemma_lookup_at, lookup, member, signed_of, Held, JsonView};
use crate::json::lemma_object_view;
use crate::json::Json;
use crate::providers::request::ChatRequest;
use crate::schema::judging::{dimensions_view, scores_view};
use crate::text::{decimal_text, same_text};
use crate::text::{decimal, digit};
use crate::wire::{members_view, outbound_view, OutboundView};
use crate::wire::{lemma_members_view, ObjectBuilder, Outbound};

verus! {

/// The kind under which grades are kept.
pub const JUDGE_CACHE_KIND: &'static str = "judge";

/// The part of a key that tells the rubric and the temperature.
pub open spec fn folded(rubric_id: Option<Seq<char>>, temperature: Double) -> Seq<char> {
    (match rubric_id {
        Some(r) => r,
        None => Seq::empty(),
    }) + "#t"@ + decimal(temperature.bits as nat)
}

/// The part of a key that tells the rubric and the temperature: the rubric, a mark, and the bits of
/// the temperature.
#[must_use]
pub fn folded_rubric_key(rubric_id: Option<&str>, temperature: Double) -> (key: String)
    ensures
        key@ == folded(rubric_id.deep_view(), temperature),
{
    let digits = decimal_text(temperature.bits);
    let mut key = match rubric_id {
        Some(r) => r.to_owned(),
        None => {
            let empty = String::new();
            assert(empty@ =~= Seq::<char>::empty());
            empty
        },
    };
    key.append("#t");
    key.append(digits.as_str());
    key
}

/// Whether every character of a text is a decimal digit.
pub open spec fn all_digits(s: Seq<char>) -> bool {
    forall|i: int| 0 <= i < s.len() ==> '0' <= #[trigger] s[i] <= '9'
}

proof fn lemma_decimal_digits(n: nat)
    ensures
        all_digits(decimal(n)),
        decimal(n).len() > 0,
    decreases n,
{
    if n >= 10 {
        lemma_decimal_digits(n / 10);
    }
}

proof fn lemma_decimal_injective(m: nat, n: nat)
    requires
        decimal(m) == decimal(n),
    ensures
        m == n,
    decreases m,
{
    lemma_decimal_digits(m / 10);
    lemma_decimal_digits(n / 10);
    let s = decimal(m);
    assert(s.last() == digit((m % 10) as int));
    assert(s.last() == digit((n % 10) as int));
    if m >= 10 && n >= 10 {
        assert(s.drop_last() =~= decimal(m / 10));
        assert(s.drop_last() =~= decimal(n / 10));
        lemma_decimal_injective(m / 10, n / 10);
    } else if m >= 10 {
        assert(decimal(n).len() == 1);
    } else if n >= 10 {
        assert(decimal(m).len() == 1);
    }
}

/// A key tells the rubric and the temperature: two keys are the same only for the same temperature
/// and the same rubric, no rubric counting as an empty one.
pub proof fn keys_tell_rubric_and_temperature(
    r1: Option<Seq<char>>,
    t1: Double,
    r2: Option<Seq<char>>,
    t2: Double,
)
    requires
        folded(r1, t1) == folded(r2, t2),
    ensures
        t1 == t2,
        r1.unwrap_or(Seq::empty()) == r2.unwrap_or(Seq::empty()),
{
    let a = r1.unwrap_or(Seq::empty());
    let b = r2.unwrap_or(Seq::empty());
    let d = decimal(t1.bits as nat);
    let e = decimal(t2.bits as nat);
    let s = folded(r1, t1);
    reveal_strlit("#t");
    lemma_decimal_digits(t1.bits as nat);
    lemma_decimal_digits(t2.bits as nat);
    assert(s =~= a + "#t"@ + d);
    assert(s =~= b + "#t"@ + e);
    assert(s[a.len() as int] == '#');
    assert(s[a.len() + 1int] == 't');
    assert(s[b.len() as int] == '#');
    assert(s[b.len() + 1int] == 't');
    if a.len() > b.len() {
        if a.len() > b.len() + 1 {
            assert(s[a.len() as int] == e[a.len() - b.len() - 2]);
        }
        assert(false);
    }
    if b.len() > a.len() {
        if b.len() > a.len() + 1 {
            assert(s[b.len() as int] == d[b.len() - a.len() - 2]);
        }
        assert(false);
    }
    assert(a =~= s.take(a.len() as int));
    assert(b =~= s.take(b.len() as int));
    assert(d =~= s.skip(a.len() + 2int));
    assert(e =~= s.skip(b.len() + 2int));
    lemma_decimal_injective(t1.bits as nat, t2.bits as nat);
}

/// Under what a grade is kept.
#[derive(Debug, PartialEq)]
pub struct CacheKey {
    /// The candidate.
    pub content_hash: String,
    /// The kind of what is kept.
    pub kind: String,
    /// The judge's model.
    pub model: String,
    /// The rubric and the temperature.
    pub rubric: String,
}

/// What a key is, as mathematics.
#[verifier::ext_equal]
pub struct CacheKeyView {
    pub content_hash: Seq<char>,
    pub kind: Seq<char>,
    pub model: Seq<char>,
    pub rubric: Seq<char>,
}

impl DeepView for CacheKey {
    type V = CacheKeyView;

    open spec fn deep_view(&self) -> CacheKeyView {
        CacheKeyView {
            content_hash: self.content_hash@,
            kind: self.kind@,
            model: self.model@,
            rubric: self.rubric@,
        }
    }
}

/// Under what the grade of a judge on a candidate is kept.
pub open spec fn key_of(judge: PanelJudgeView, content_hash: Seq<char>) -> CacheKeyView {
    CacheKeyView {
        content_hash,
        kind: JUDGE_CACHE_KIND@,
        model: judge.slug,
        rubric: folded(judge.rubric_id, judge.sampling.temperature),
    }
}

/// Under what the grade of a judge on a candidate is kept.
pub fn cache_key(judge: &PanelJudge, content_hash: &str) -> (key: CacheKey)
    ensures
        key.deep_view() == key_of(judge.deep_view(), content_hash@),
{
    let rubric_id: Option<&str> = match &judge.rubric_id {
        Some(r) => Some(r.as_str()),
        None => None,
    };
    CacheKey {
        content_hash: content_hash.to_owned(),
        kind: JUDGE_CACHE_KIND.to_owned(),
        model: judge.slug.clone(),
        rubric: folded_rubric_key(rubric_id, judge.sampling.temperature),
    }
}

/// Two judges share a kept grade only where they share model, rubric and temperature.
pub proof fn a_grade_is_never_shared(
    a: PanelJudgeView,
    b: PanelJudgeView,
    candidate: Seq<char>,
    other: Seq<char>,
)
    requires
        key_of(a, candidate) == key_of(b, other),
    ensures
        candidate == other,
        a.slug == b.slug,
        a.sampling.temperature == b.sampling.temperature,
        a.rubric_id.unwrap_or(Seq::empty()) == b.rubric_id.unwrap_or(Seq::empty()),
{
    keys_tell_rubric_and_temperature(
        a.rubric_id,
        a.sampling.temperature,
        b.rubric_id,
        b.sampling.temperature,
    );
}

/// The token of a verdict in a kept grade.
pub open spec fn verdict_spelling(v: Verdict) -> Seq<char> {
    match v {
        Verdict::Accept => "accept"@,
        Verdict::Revise => "revise"@,
        Verdict::Reject => "reject"@,
        Verdict::Uncertain => "uncertain"@,
    }
}

/// The token of a verdict in a kept grade.
pub fn verdict_token(v: Verdict) -> (r: &'static str)
    ensures
        r@ == verdict_spelling(v),
{
    match v {
        Verdict::Accept => "accept",
        Verdict::Revise => "revise",
        Verdict::Reject => "reject",
        Verdict::Uncertain => "uncertain",
    }
}

/// A double, or `null` where there is none.
pub open spec fn double_or_null(d: Option<Double>) -> OutboundView {
    match d {
        Some(x) => OutboundView::Double(x),
        None => OutboundView::Null,
    }
}

/// A text, or `null` where there is none.
pub open spec fn text_or_null(t: Option<Seq<char>>) -> OutboundView {
    match t {
        Some(x) => OutboundView::Text(x),
        None => OutboundView::Null,
    }
}

/// Scores by criterion, or `null` where there are none.
pub open spec fn scores_or_null(d: Option<Seq<(Seq<char>, Double)>>) -> OutboundView {
    match d {
        Some(scores) => OutboundView::Object(
            scores.map_values(|s: (Seq<char>, Double)| (s.0, OutboundView::Double(s.1))),
        ),
        None => OutboundView::Null,
    }
}

/// The members of a kept grade, ordered by key.
pub open spec fn kept_members(g: GradeView) -> Seq<(Seq<char>, OutboundView)> {
    seq![
        ("confidence"@, OutboundView::Double(g.confidence)),
        ("dimensions"@, scores_or_null(g.dimensions)),
        ("judge_model"@, OutboundView::Text(g.judge_model)),
        ("meta_prediction"@, double_or_null(g.meta_prediction)),
        ("rationale"@, text_or_null(g.rationale)),
        ("raw"@, OutboundView::Raw(g.raw)),
        ("rubric_id"@, text_or_null(g.rubric_id)),
        ("score"@, OutboundView::Double(g.score)),
        (
            "seed"@,
            match g.seed {
                Some(s) => OutboundView::Signed(s),
                None => OutboundView::Null,
            },
        ),
        ("temperature"@, OutboundView::Double(g.temperature)),
        ("top_p"@, double_or_null(g.top_p)),
        ("verdict"@, OutboundView::Text(verdict_spelling(g.verdict))),
    ]
}

fn write_double(d: Option<Double>) -> (o: Outbound)
    ensures
        o@ == double_or_null(d),
{
    match d {
        Some(x) => Outbound::Double(x),
        None => Outbound::Null,
    }
}

fn write_text(t: &Option<String>) -> (o: Outbound)
    ensures
        o@ == text_or_null(t.deep_view()),
{
    match t {
        Some(x) => Outbound::Text(x.clone()),
        None => Outbound::Null,
    }
}

fn write_scores(d: &Option<Vec<(String, Double)>>) -> (o: Outbound)
    ensures
        o@ == scores_or_null(dimensions_view(*d)),
{
    match d {
        Some(scores) => {
            let ghost view = scores_view(scores@);
            let mut members: Vec<(String, Outbound)> = Vec::new();
            let mut i: usize = 0;
            while i < scores.len()
                invariant
                    i <= scores@.len(),
                    members@.len() == i,
                    forall|p: int|
                        0 <= p < i ==> (#[trigger] members@[p]).0@ == scores@[p].0@
                            && outbound_view(members@[p].1) == OutboundView::Double(scores@[p].1),
                decreases scores@.len() - i,
            {
                members.push((scores[i].0.clone(), Outbound::Double(scores[i].1)));
                i += 1;
            }
            proof {
                lemma_members_view(members);
                assert(members_view(members@) =~= view.map_values(
                    |s: (Seq<char>, Double)| (s.0, OutboundView::Double(s.1)),
                ));
            }
            Outbound::Object(members)
        },
        None => Outbound::Null,
    }
}

/// A grade as it is kept.
pub fn grade_to_cache_value(grade: &Grade) -> (o: Outbound)
    ensures
        o@ == OutboundView::Object(kept_members(grade.deep_view())),
{
    let seed = match grade.seed {
        Some(s) => Outbound::Signed(s),
        None => Outbound::Null,
    };
    let mut b = ObjectBuilder::new();
    b.put("confidence", Outbound::Double(grade.confidence));
    b.put("dimensions", write_scores(&grade.dimensions));
    b.put_text("judge_model", grade.judge_model.as_str());
    b.put("meta_prediction", write_double(grade.meta_prediction));
    b.put("rationale", write_text(&grade.rationale));
    b.put("raw", Outbound::Raw(grade.raw.clone()));
    b.put("rubric_id", write_text(&grade.rubric_id));
    b.put("score", Outbound::Double(grade.score));
    b.put("seed", seed);
    b.put("temperature", Outbound::Double(grade.temperature));
    b.put("top_p", write_double(grade.top_p));
    b.put_text("verdict", verdict_token(grade.verdict));
    assert(b@ =~= kept_members(grade.deep_view()));
    b.finish()
}

/// The verdict that a kept token stands for; anything else decides nothing.
pub open spec fn kept_verdict(j: Option<JsonView>) -> Verdict {
    match j {
        Some(JsonView::Text(t)) => if t == "accept"@ {
            Verdict::Accept
        } else if t == "revise"@ {
            Verdict::Revise
        } else if t == "reject"@ {
            Verdict::Reject
        } else {
            Verdict::Uncertain
        },
        _ => Verdict::Uncertain,
    }
}

/// The double of a member, where it holds one.
pub open spec fn double_member(j: JsonView, key: Seq<char>) -> Option<Double> {
    match member(j, key) {
        Some(v) => double_in(v),
        None => None,
    }
}

/// The text of a member, where it holds one.
pub open spec fn text_member(j: JsonView, key: Seq<char>) -> Option<Seq<char>> {
    match member(j, key) {
        Some(JsonView::Text(t)) => Some(t),
        _ => None,
    }
}

/// The grade that a kept value stands for. What is missing or cannot be read is empty, zero or
/// absent, and a verdict that cannot be read decides nothing.
pub open spec fn kept_grade(j: JsonView) -> GradeView {
    let zero = Double { bits: 0 };
    GradeView {
        judge_model: text_member(j, "judge_model"@).unwrap_or(Seq::empty()),
        score: double_member(j, "score"@).unwrap_or(zero),
        verdict: kept_verdict(member(j, "verdict"@)),
        confidence: double_member(j, "confidence"@).unwrap_or(zero),
        meta_prediction: double_member(j, "meta_prediction"@),
        dimensions: match member(j, "dimensions"@) {
            Some(JsonView::Object(members)) => scores_in(members),
            _ => None,
        },
        rationale: text_member(j, "rationale"@),
        raw: member(j, "raw"@).unwrap_or(JsonView::Null),
        temperature: double_member(j, "temperature"@).unwrap_or(zero),
        top_p: double_member(j, "top_p"@),
        seed: match member(j, "seed"@) {
            Some(v) => signed_of(v),
            None => None,
        },
        rubric_id: text_member(j, "rubric_id"@),
    }
}

fn read_double(j: &Json, key: &str) -> (r: Option<Double>)
    ensures
        r == double_member(j@, key@),
{
    match j.get(key) {
        Some(v) => v.as_double(),
        None => None,
    }
}

fn read_string(j: &Json, key: &str) -> (r: Option<String>)
    ensures
        r.deep_view() == text_member(j@, key@),
{
    match j.get(key) {
        Some(v) => match v.as_text() {
            Some(t) => Some(t.to_owned()),
            None => None,
        },
        None => None,
    }
}

/// Reads a kept grade.
pub fn grade_from_cache_value(value: &Json) -> (g: Grade)
    ensures
        g.deep_view() == kept_grade(value@),
{
    let verdict = match value.get("verdict") {
        Some(v) => match v.as_text() {
            Some(t) => if same_text(t, "accept") {
                Verdict::Accept
            } else if same_text(t, "revise") {
                Verdict::Revise
            } else if same_text(t, "reject") {
                Verdict::Reject
            } else {
                Verdict::Uncertain
            },
            None => Verdict::Uncertain,
        },
        None => Verdict::Uncertain,
    };
    let judge_model = match read_string(value, "judge_model") {
        Some(s) => s,
        None => {
            let empty = String::new();
            assert(empty@ =~= Seq::<char>::empty());
            empty
        },
    };
    let dimensions = match value.get("dimensions") {
        Some(Json::Object(members)) => {
            proof {
                lemma_object_view(*members);
            }
            read_members(members)
        },
        _ => None,
    };
    let raw = match value.get("raw") {
        Some(v) => v.clone(),
        None => Json::Null,
    };
    let seed = match value.get("seed") {
        Some(v) => v.as_signed(),
        None => None,
    };
    Grade {
        judge_model,
        score: read_double(value, "score").unwrap_or(Double::zero()),
        verdict,
        confidence: read_double(value, "confidence").unwrap_or(Double::zero()),
        meta_prediction: read_double(value, "meta_prediction"),
        dimensions,
        rationale: read_string(value, "rationale"),
        raw,
        temperature: read_double(value, "temperature").unwrap_or(Double::zero()),
        top_p: read_double(value, "top_p"),
        seed,
        rubric_id: read_string(value, "rubric_id"),
    }
}

/// What a lookup in the cache leads to.
#[derive(Debug, PartialEq)]
pub enum Lookup {
    /// The grade is there; no judge is asked.
    Hit(Grade),
    /// The judge has to be asked.
    Miss,
}

/// What a lookup in the cache leads to: what is there is used, and a judge is asked only where
/// nothing is.
pub fn after_lookup(cached: Option<&Json>) -> (l: Lookup)
    ensures
        match cached {
            Some(j) => l matches Lookup::Hit(g) && g.deep_view() == kept_grade(j@),
            None => l is Miss,
        },
{
    match cached {
        Some(j) => Lookup::Hit(grade_from_cache_value(j)),
        None => Lookup::Miss,
    }
}

/// A grade that was just given, and where and as what it is kept.
#[derive(Debug, PartialEq)]
pub struct Kept {
    /// Where it is kept.
    pub key: CacheKey,
    /// What is kept.
    pub value: Outbound,
    /// The grade.
    pub grade: Grade,
}

/// What a judge's drained answer to `request` leads to: the grade that is read off it, to be kept
/// under the judge and the candidate. An answer that gives no grade is an error, and nothing is kept
/// of it.
pub fn after_answer<S: Arithmetic>(
    judge: &PanelJudge,
    content_hash: &str,
    request: &ChatRequest,
    drained: &DrainedContent,
    scale: &S,
) -> (r: Result<Kept, JudgeError>)
    ensures
        is_completion(
            scale,
            judge.deep_view(),
            drained.deep_view(),
            request.max_tokens,
            request.reasoning,
            match r {
                Ok(kept) => Ok(kept.grade.deep_view()),
                Err(e) => Err(e.deep_view()),
            },
        ),
        r matches Ok(kept) ==> {
            &&& kept.key.deep_view() == key_of(judge.deep_view(), content_hash@)
            &&& kept.value@ == OutboundView::Object(kept_members(kept.grade.deep_view()))
        },
{
    match grade_completion(judge, drained, request.max_tokens, request.reasoning, scale) {
        Ok(grade) => {
            let key = cache_key(judge, content_hash);
            let value = grade_to_cache_value(&grade);
            Ok(Kept { key, value, grade })
        },
        Err(e) => Err(e),
    }
}

/// Refuses a panel without judges.
pub fn require_cached_judges(judges: &[PanelJudge]) -> (r: Result<(), JudgeError>)
    ensures
        match r {
            Ok(()) => judges@.len() > 0,
            Err(e) => judges@.len() == 0 && e.deep_view() == JudgeErrorView::EmptyPanel(
                "grade_panel_cached requires at least one judge"@,
            ),
        },
{
    if judges.len() == 0 {
        Err(JudgeError::EmptyPanel("grade_panel_cached requires at least one judge".to_owned()))
    } else {
        Ok(())
    }
}

/// Whether `j` is what comes back of a document that was written: the same value, its numbers told
/// by what they hold, a double that is not finite as `null`.
pub open spec fn reads_back(o: OutboundView, j: JsonView) -> bool
    decreases o,
{
    match o {
        OutboundView::Null => j == JsonView::Null,
        OutboundView::Bool(b) => j == JsonView::Bool(b),
        OutboundView::Unsigned(n) => j matches JsonView::Number(Held::PosInt(m), _) && m == n,
        OutboundView::Signed(n) => signed_of(j) == Some(n),
        OutboundView::Double(d) => if d.finite() {
            double_in(j) == Some(d)
        } else {
            j == JsonView::Null
        },
        OutboundView::Text(t) => j == JsonView::Text(t),
        OutboundView::Array(items) => j matches JsonView::Array(js) && js.len() == items.len()
            && forall|i: int|
            0 <= i < items.len() ==> reads_back(items[i], #[trigger] js[i]),
        OutboundView::Object(members) => j matches JsonView::Object(js) && js.len() == members.len()
            && forall|i: int|
            0 <= i < members.len() ==> (#[trigger] js[i]).0 == members[i].0 && reads_back(
                members[i].1,
                js[i].1,
            ),
        OutboundView::Raw(r) => j == r,
    }
}

proof fn lemma_scores_read_back(
    scores: Seq<(Seq<char>, Double)>,
    js: Seq<(Seq<char>, JsonView)>,
)
    requires
        js.len() == scores.len(),
        forall|i: int|
            0 <= i < scores.len() ==> (#[trigger] js[i]).0 == scores[i].0 && double_in(js[i].1)
                == Some(scores[i].1),
    ensures
        scores_in(js) == Some(scores),
    decreases scores.len(),
{
    if scores.len() > 0 {
        let s = scores.drop_last();
        let j = js.drop_last();
        assert forall|i: int| 0 <= i < s.len() implies (#[trigger] j[i]).0 == s[i].0 && double_in(
            j[i].1,
        ) == Some(s[i].1) by {
            assert(j[i] == js[i]);
            assert(s[i] == scores[i]);
        }
        lemma_scores_read_back(s, j);
        assert(js.last() == js[js.len() - 1]);
        assert(scores =~= s.push(scores.last()));
    } else {
        assert(scores =~= Seq::empty());
    }
}

/// Whether every double of a grade is a finite number.
pub open spec fn finite_grade(g: GradeView) -> bool {
    &&& g.score.finite()
    &&& g.confidence.finite()
    &&& g.temperature.finite()
    &&& g.meta_prediction is Some ==> g.meta_prediction->0.finite()
    &&& g.top_p is Some ==> g.top_p->0.finite()
    &&& g.dimensions is Some ==> forall|i: int|
        0 <= i < g.dimensions->0.len() ==> (#[trigger] g.dimensions->0[i]).1.finite()
}

proof fn lemma_keys_differ(g: GradeView)
    ensures
        forall|i: int, k: int|
            0 <= k < i < 12 ==> (#[trigger] kept_members(g)[k]).0 != (#[trigger] kept_members(g)[i]).0,
{
    reveal_strlit("confidence");
    reveal_strlit("dimensions");
    reveal_strlit("judge_model");
    reveal_strlit("meta_prediction");
    reveal_strlit("rationale");
    reveal_strlit("raw");
    reveal_strlit("rubric_id");
    reveal_strlit("score");
    reveal_strlit("seed");
    reveal_strlit("temperature");
    reveal_strlit("top_p");
    reveal_strlit("verdict");
    assert("confidence"@.len() == 10 && "confidence"@[0] == 'c');
    assert("dimensions"@.len() == 10 && "dimensions"@[0] == 'd');
    assert("judge_model"@.len() == 11 && "judge_model"@[0] == 'j');
    assert("meta_prediction"@.len() == 15);
    assert("rationale"@.len() == 9 && "rationale"@[1] == 'a');
    assert("raw"@.len() == 3);
    assert("rubric_id"@.len() == 9 && "rubric_id"@[1] == 'u');
    assert("score"@.len() == 5 && "score"@[0] == 's');
    assert("seed"@.len() == 4);
    assert("temperature"@.len() == 11 && "temperature"@[0] == 't');
    assert("top_p"@.len() == 5 && "top_p"@[0] == 't');
    assert("verdict"@.len() == 7);
}

/// A grade survives the cache: what is read of a grade that was written is the grade, provided that
/// its numbers are finite.
#[verifier::rlimit(50)]
pub proof fn a_grade_survives_the_cache(g: GradeView, j: JsonView)
    requires
        finite_grade(g),
        reads_back(OutboundView::Object(kept_members(g)), j),
    ensures
        kept_grade(j) == g,
{
    let members = kept_members(g);
    let js = j->Object_0;
    lemma_keys_differ(g);
    assert forall|i: int| 0 <= i < 12 implies lookup(js, (#[trigger] members[i]).0) == Some(js[i].1)
        && reads_back(members[i].1, js[i].1) by {
        assert(js[i].0 == members[i].0);
        assert forall|k: int| 0 <= k < i implies (#[trigger] js[k]).0 != js[i].0 by {
            assert(js[k].0 == members[k].0);
            assert(members[k].0 != members[i].0);
        }
        lemma_lookup_at(js, i);
    }
    assert(members[0].0 == "confidence"@);
    assert(members[1].0 == "dimensions"@);
    assert(members[2].0 == "judge_model"@);
    assert(members[3].0 == "meta_prediction"@);
    assert(members[4].0 == "rationale"@);
    assert(members[5].0 == "raw"@);
    assert(members[6].0 == "rubric_id"@);
    assert(members[7].0 == "score"@);
    assert(members[8].0 == "seed"@);
    assert(members[9].0 == "temperature"@);
    assert(members[10].0 == "top_p"@);
    assert(members[11].0 == "verdict"@);
    if g.dimensions is Some {
        let scores = g.dimensions->0;
        let inner = js[1].1->Object_0;
        let written = scores.map_values(|s: (Seq<char>, Double)| (s.0, OutboundView::Double(s.1)));
        assert(members[1].1 == OutboundView::Object(written));
        assert(reads_back(OutboundView::Object(written), js[1].1));
        assert forall|i: int| 0 <= i < scores.len() implies (#[trigger] inner[i]).0 == scores[i].0
            && double_in(inner[i].1) == Some(scores[i].1) by {
            assert(inner[i].0 == written[i].0);
            assert(reads_back(written[i].1, inner[i].1));
            assert(written[i].1 == OutboundView::Double(scores[i].1));
        }
        lemma_scores_read_back(scores, inner);
    }
    lemma_verdict_survives(g.verdict);
    assert(kept_grade(j) =~= g);
}

/// A kept grade whose verdict is missing, no text or no known token is read all the same, and decides
/// nothing.
pub proof fn an_unknown_verdict_decides_nothing(j: JsonView)
    requires
        forall|v: Verdict|
            member(j, "verdict"@) != Some(JsonView::Text(#[trigger] verdict_spelling(v))),
    ensures
        kept_grade(j).verdict == Verdict::Uncertain,
{
    let accept = verdict_spelling(Verdict::Accept);
    let revise = verdict_spelling(Verdict::Revise);
    let reject = verdict_spelling(Verdict::Reject);
}

proof fn lemma_verdict_survives(v: Verdict)
    ensures
        kept_verdict(Some(JsonView::Text(verdict_spelling(v)))) == v,
{
    reveal_strlit("accept");
    reveal_strlit("revise");
    reveal_strlit("reject");
    reveal_strlit("uncertain");
    assert("accept"@[0] == 'a');
    assert("revise"@[2] == 'v');
    assert("reject"@[2] == 'j');
    assert("reject"@[0] == 'r');
    assert("revise"@[0] == 'r');
    assert("uncertain"@[0] == 'u');
}

} // verus!
