//! The filter before a teacher is paid: whether a user turn is worth an answer.
//!
//! A user turn passes where it is answerable, as difficult as asked, unlike the turns that were
//! admitted before, and in scope. Only one that passes may be answered by a teacher.

use vstd::prelude::*;

use crate::arithmetic::{is_over, is_plus, is_sqrt, is_sum, is_times};
use crate::arithmetic::Arithmetic;
use crate::double::Double;
use crate::format::validate::first_control_token;
use crate::format::validate::{a_clean_text_holds_no_control_token, clean, leak};
use crate::generate::error::GenerateError;
use crate::generate::error::GenerateErrorView;
use crate::schema::message::{content_text, Content, Message, Role};
use crate::schema::message::{content_words, ContentView, MessageView};
use crate::schema::record::UserTurnVerdict;
use crate::schema::verification::{VerificationContract, VerificationKind};
use crate::text::occurs;

verus! {

/// The bits of 0.86: a turn that is this similar to an earlier one repeats it.
pub const DEFAULT_COSINE_THRESHOLD: u64 = 0x3feb_851e_b851_eb85;

/// Turns text into a vector. Every implementation is the user's own.
pub trait Embedder {
    /// The vector of a text, or what went wrong.
    fn embed(&self, text: &str) -> Result<Vec<Double>, String>;
}

/// What an embedder may make of a text.
pub open spec fn may_embed<E: Embedder + ?Sized>(
    e: &E,
    text: Seq<char>,
    r: Result<Vec<Double>, String>,
) -> bool {
    exists|s: &str| s@ == text && #[trigger] call_ensures(E::embed, (e, s), r)
}

/// The embedder that finds everything new: its vectors are empty, and an empty vector is like no
/// other.
#[derive(Debug, Default, Clone, Copy)]
pub struct NullEmbedder;

impl Embedder for NullEmbedder {
    fn embed(&self, _text: &str) -> (r: Result<Vec<Double>, String>)
        ensures
            r matches Ok(v) && v@.len() == 0,
    {
        Ok(Vec::new())
    }
}

/// `t` may be the scalar product of two vectors, added from the left.
pub open spec fn is_dot<A: Arithmetic + ?Sized>(
    a: &A,
    xs: Seq<Double>,
    ys: Seq<Double>,
    t: Double,
) -> bool
    decreases xs.len(),
{
    if xs.len() == 0 {
        t == (Double { bits: 0 })
    } else {
        exists|before: Double, product: Double|
            is_dot(a, xs.drop_last(), ys.drop_last(), before) && #[trigger] is_times(
                a,
                xs.last(),
                ys.last(),
                product,
            ) && #[trigger] is_plus(a, before, product, t)
    }
}

/// Whether two vectors can be compared.
pub open spec fn comparable(xs: Seq<Double>, ys: Seq<Double>) -> bool {
    xs.len() > 0 && xs.len() == ys.len()
}

/// `r` may be the scalar product of two vectors over the product of their lengths, whose squares
/// are `nx` and `ny`.
pub open spec fn is_quotient<A: Arithmetic + ?Sized>(
    a: &A,
    dot: Double,
    nx: Double,
    ny: Double,
    r: Double,
) -> bool {
    exists|rx: Double, ry: Double, m: Double| #[trigger]
        is_sqrt(a, nx, rx) && #[trigger] is_sqrt(a, ny, ry) && #[trigger] is_times(a, rx, ry, m)
            && is_over(a, dot, m, r)
}

/// `r` may be the cosine of two vectors, given their scalar product and the squares of their
/// lengths: a vector without length is like no other.
pub open spec fn is_cosine_of<A: Arithmetic + ?Sized>(
    a: &A,
    dot: Double,
    nx: Double,
    ny: Double,
    r: Double,
) -> bool {
    if nx.null() || ny.null() {
        r == (Double { bits: 0 })
    } else {
        is_quotient(a, dot, nx, ny, r)
    }
}

/// `r` may be the cosine of two vectors: zero where they cannot be compared or one has no length.
pub open spec fn is_cosine<A: Arithmetic + ?Sized>(
    a: &A,
    xs: Seq<Double>,
    ys: Seq<Double>,
    r: Double,
) -> bool {
    if !comparable(xs, ys) {
        r == (Double { bits: 0 })
    } else {
        exists|dot: Double, nx: Double, ny: Double|
            is_dot(a, xs, ys, dot) && is_dot(a, xs, xs, nx) && is_dot(a, ys, ys, ny)
                && #[trigger] is_cosine_of(a, dot, nx, ny, r)
    }
}

fn dot_product<A: Arithmetic + ?Sized>(a: &A, xs: &[Double], ys: &[Double]) -> (t: Double)
    requires
        xs@.len() == ys@.len(),
    ensures
        is_dot(a, xs@, ys@, t),
{
    let mut t = Double::zero();
    let mut i: usize = 0;
    assert(xs@.take(0) =~= Seq::empty());
    while i < xs.len()
        invariant
            xs@.len() == ys@.len(),
            i <= xs@.len(),
            is_dot(a, xs@.take(i as int), ys@.take(i as int), t),
        decreases xs@.len() - i,
    {
        let ghost before = t;
        let product = a.times(xs[i], ys[i]);
        t = a.plus(t, product);
        proof {
            let lx = xs@.take(i + 1);
            let ly = ys@.take(i + 1);
            assert(lx.drop_last() =~= xs@.take(i as int));
            assert(ly.drop_last() =~= ys@.take(i as int));
            assert(is_dot(a, lx.drop_last(), ly.drop_last(), before));
            assert(is_times(a, lx.last(), ly.last(), product));
            assert(is_plus(a, before, product, t));
        }
        i += 1;
    }
    assert(xs@.take(i as int) =~= xs@);
    assert(ys@.take(i as int) =~= ys@);
    t
}

/// The cosine of two vectors: zero where they cannot be compared or one has no length.
#[must_use]
pub fn cosine<A: Arithmetic + ?Sized>(xs: &[Double], ys: &[Double], a: &A) -> (r: Double)
    ensures
        is_cosine(a, xs@, ys@, r),
{
    if xs.len() == 0 || xs.len() != ys.len() {
        return Double::zero();
    }
    let dot = dot_product(a, xs, ys);
    let nx = dot_product(a, xs, xs);
    let ny = dot_product(a, ys, ys);
    if nx.is_null() || ny.is_null() {
        assert(is_cosine_of(a, dot, nx, ny, Double { bits: 0 }));
        return Double::zero();
    }
    let rx = a.sqrt(nx);
    let ry = a.sqrt(ny);
    let m = a.times(rx, ry);
    let r = a.over(dot, m);
    assert(is_sqrt(a, nx, rx) && is_sqrt(a, ny, ry) && is_times(a, rx, ry, m));
    assert(is_cosine_of(a, dot, nx, ny, r));
    r
}

/// `t` may be how similar a vector is to the most similar of others.
pub open spec fn is_nearest<A: Arithmetic + ?Sized>(
    a: &A,
    xs: Seq<Double>,
    others: Seq<Vec<Double>>,
    t: Double,
) -> bool
    decreases others.len(),
{
    if others.len() == 0 {
        t == (Double { bits: 0 })
    } else {
        exists|before: Double, c: Double|
            is_nearest(a, xs, others.drop_last(), before) && #[trigger] is_cosine(
                a,
                xs,
                others.last()@,
                c,
            ) && t == #[trigger] before.greater(c)
    }
}

fn nearest<A: Arithmetic + ?Sized>(a: &A, xs: &[Double], others: &[Vec<Double>]) -> (t: Double)
    ensures
        is_nearest(a, xs@, others@, t),
{
    let mut t = Double::zero();
    let mut i: usize = 0;
    assert(others@.take(0) =~= Seq::empty());
    while i < others.len()
        invariant
            i <= others@.len(),
            is_nearest(a, xs@, others@.take(i as int), t),
        decreases others@.len() - i,
    {
        let ghost before = t;
        let c = cosine(xs, others[i].as_slice(), a);
        t = t.max_with(c);
        proof {
            let longer = others@.take(i + 1);
            assert(longer.drop_last() =~= others@.take(i as int));
            assert(is_nearest(a, xs@, longer.drop_last(), before));
            assert(is_cosine(a, xs@, longer.last()@, c));
            assert(t == before.greater(c));
        }
        i += 1;
    }
    assert(others@.take(i as int) =~= others@);
    t
}

/// What a user turn was made from.
#[derive(Debug, Clone, PartialEq, Eq, Default)]
pub struct UserSeed {
    /// The persona.
    pub persona: Option<String>,
    /// The node of the taxonomy.
    pub taxonomy_node: Option<String>,
    /// The template.
    pub prompt_template_id: Option<String>,
    /// The difficulty asked for.
    pub difficulty: Option<String>,
}

/// A user turn with what the filter needs to know of it.
#[derive(Debug, Clone, PartialEq)]
pub struct UserTurnCandidate {
    /// The turn.
    pub message: Message,
    /// What it was made from.
    pub seed: UserSeed,
    /// How its answer can be checked.
    pub contract: VerificationContract,
    /// Whether a teacher could answer it.
    pub answerable: bool,
    /// Whether it is as difficult as asked.
    pub difficulty_targeted: bool,
    /// Whether it is in scope.
    pub in_scope: bool,
}

/// A user turn with the filter's verdict.
#[derive(Debug, Clone, PartialEq)]
pub struct GatedUserTurn {
    /// The turn.
    pub candidate: UserTurnCandidate,
    /// The verdict.
    pub verdict: UserTurnVerdict,
}

/// Whether a verdict lets a turn pass: all four of its judgements do.
pub open spec fn passes(v: UserTurnVerdict) -> bool {
    v.answerable && v.difficulty_targeted && v.diverse && v.in_scope_safe
}

impl GatedUserTurn {
    /// Whether the turn passed, so that a teacher may answer it.
    #[must_use]
    pub fn passed(&self) -> (r: bool)
        ensures
            r == passes(self.verdict),
    {
        self.verdict.answerable && self.verdict.difficulty_targeted && self.verdict.diverse
            && self.verdict.in_scope_safe
    }
}

/// The verdict on a turn that is `nearest` similar to the most similar earlier one. A turn whose
/// right answer is a refusal is always in scope: the refusal is what is wanted of it.
pub open spec fn verdict_of(
    c: UserTurnCandidate,
    nearest: Double,
    threshold: Double,
) -> UserTurnVerdict {
    UserTurnVerdict {
        answerable: c.answerable,
        difficulty_targeted: c.difficulty_targeted,
        diverse: nearest.below(threshold),
        in_scope_safe: c.in_scope || c.contract.kind == VerificationKind::RefusalExpected,
        notes: None,
    }
}

/// The text of a turn.
pub open spec fn turn_text(c: UserTurnCandidate) -> Seq<char> {
    content_words(c.message.deep_view().content)
}

/// The verdict on a turn, given its vector.
#[must_use]
pub fn judge_turn<A: Arithmetic + ?Sized>(
    candidate: &UserTurnCandidate,
    embedding: &[Double],
    prior_embeddings: &[Vec<Double>],
    threshold: Double,
    a: &A,
) -> (v: UserTurnVerdict)
    ensures
        exists|near: Double| #[trigger]
            is_nearest(a, embedding@, prior_embeddings@, near) && v == verdict_of(
                *candidate,
                near,
                threshold,
            ),
{
    let near = nearest(a, embedding, prior_embeddings);
    UserTurnVerdict {
        answerable: candidate.answerable,
        difficulty_targeted: candidate.difficulty_targeted,
        diverse: near.is_below(threshold),
        in_scope_safe: candidate.in_scope || candidate.contract.kind
            == VerificationKind::RefusalExpected,
        notes: None,
    }
}

/// What the filter may say of a turn: that it leaks, that the embedder failed, or its verdict.
pub open spec fn may_judge<E: Embedder + ?Sized, A: Arithmetic + ?Sized>(
    c: UserTurnCandidate,
    e: &E,
    priors: Seq<Vec<Double>>,
    threshold: Double,
    a: &A,
    r: Result<UserTurnVerdict, GenerateErrorView>,
) -> bool {
    match leak(turn_text(c)) {
        Some(token) => r == Err::<UserTurnVerdict, _>(GenerateErrorView::LeakedUserTurn(token)),
        None => exists|v: Result<Vec<Double>, String>| #[trigger]
            may_embed(e, turn_text(c), v) && match v {
                Err(words) => r == Err::<UserTurnVerdict, _>(GenerateErrorView::Embed(words@)),
                Ok(xs) => exists|near: Double| #[trigger]
                    is_nearest(a, xs@, priors, near) && r == Ok::<_, GenerateErrorView>(
                        verdict_of(c, near, threshold),
                    ),
            },
    }
}

/// A result with its error as mathematics.
pub open spec fn seen<T>(r: Result<T, GenerateError>) -> Result<T, GenerateErrorView> {
    match r {
        Ok(t) => Ok(t),
        Err(e) => Err(e.deep_view()),
    }
}

/// The verdict on a turn. A turn that holds a control token is refused before it is embedded.
pub fn evaluate<E: Embedder + ?Sized, A: Arithmetic + ?Sized>(
    candidate: &UserTurnCandidate,
    embedder: &E,
    prior_embeddings: &[Vec<Double>],
    threshold: Double,
    a: &A,
) -> (r: Result<UserTurnVerdict, GenerateError>)
    ensures
        may_judge(*candidate, embedder, prior_embeddings@, threshold, a, seen(r)),
{
    let text = content_text(&candidate.message.content);
    if let Some(token) = first_control_token(text.as_str()) {
        return Err(GenerateError::LeakedUserTurn(token));
    }
    let v = embedder.embed(text.as_str());
    assert(may_embed(embedder, turn_text(*candidate), v));
    match v {
        Err(words) => Err(GenerateError::Embed(words)),
        Ok(xs) => Ok(judge_turn(candidate, xs.as_slice(), prior_embeddings, threshold, a)),
    }
}

/// Passes a turn through the filter at the default threshold.
pub fn gate<E: Embedder + ?Sized, A: Arithmetic + ?Sized>(
    candidate: UserTurnCandidate,
    embedder: &E,
    prior_embeddings: &[Vec<Double>],
    a: &A,
) -> (r: Result<GatedUserTurn, GenerateError>)
    ensures
        r is Ok ==> r->Ok_0.candidate == candidate,
        may_judge(
            candidate,
            embedder,
            prior_embeddings@,
            Double { bits: DEFAULT_COSINE_THRESHOLD },
            a,
            match r {
                Ok(g) => Ok(g.verdict),
                Err(e) => Err(e.deep_view()),
            },
        ),
{
    match evaluate(
        &candidate,
        embedder,
        prior_embeddings,
        Double { bits: DEFAULT_COSINE_THRESHOLD },
        a,
    ) {
        Ok(verdict) => Ok(GatedUserTurn { candidate, verdict }),
        Err(e) => Err(e),
    }
}

/// Passes a turn through the filter. No teacher is paid.
pub fn synthesize_user_turn<E: Embedder + ?Sized, A: Arithmetic + ?Sized>(
    candidate: UserTurnCandidate,
    embedder: &E,
    prior_embeddings: &[Vec<Double>],
    a: &A,
) -> (r: Result<GatedUserTurn, GenerateError>)
    ensures
        r is Ok ==> r->Ok_0.candidate == candidate,
        may_judge(
            candidate,
            embedder,
            prior_embeddings@,
            Double { bits: DEFAULT_COSINE_THRESHOLD },
            a,
            match r {
                Ok(g) => Ok(g.verdict),
                Err(e) => Err(e.deep_view()),
            },
        ),
{
    gate(candidate, embedder, prior_embeddings, a)
}

/// A user turn with a text and nothing else.
#[must_use]
pub fn user_message(text: String) -> (m: Message)
    ensures
        m.deep_view() == (MessageView {
            role: Role::User,
            content: ContentView::Text(text@),
            reasoning: None,
            reasoning_details: None,
            tool_calls: None,
            tool_call_id: None,
            name: None,
        }),
{
    Message {
        role: Role::User,
        content: Content::Text(text),
        reasoning: None,
        reasoning_details: None,
        tool_calls: None,
        tool_call_id: None,
        name: None,
    }
}

/// One judgement against it keeps a turn from passing.
pub proof fn one_judgement_blocks(c: UserTurnCandidate, nearest: Double, threshold: Double)
    ensures
        !c.answerable ==> !passes(verdict_of(c, nearest, threshold)),
        !c.difficulty_targeted ==> !passes(verdict_of(c, nearest, threshold)),
        nearest.at_least(threshold) ==> !passes(verdict_of(c, nearest, threshold)),
        !c.in_scope && c.contract.kind != VerificationKind::RefusalExpected ==> !passes(
            verdict_of(c, nearest, threshold),
        ),
{
}

/// With empty vectors nothing is a repetition.
pub proof fn empty_vectors_are_always_new<A: Arithmetic + ?Sized>(
    a: &A,
    priors: Seq<Vec<Double>>,
    near: Double,
)
    requires
        is_nearest(a, Seq::empty(), priors, near),
    ensures
        near == (Double { bits: 0 }),
        near.below(Double { bits: DEFAULT_COSINE_THRESHOLD }),
    decreases priors.len(),
{
    if priors.len() > 0 {
        let (before, c) = choose|before: Double, c: Double|
            is_nearest(a, Seq::empty(), priors.drop_last(), before) && #[trigger] is_cosine(
                a,
                Seq::empty(),
                priors.last()@,
                c,
            ) && near == #[trigger] before.greater(c);
        empty_vectors_are_always_new(a, priors.drop_last(), before);
    }
}

/// How near a turn is to those before it is how near it is to the nearest: to one of them, or nothing
/// where none is nearer than that, and no less than to any of them.
pub proof fn the_nearest_turn_counts<A: Arithmetic + ?Sized>(
    a: &A,
    xs: Seq<Double>,
    others: Seq<Vec<Double>>,
    t: Double,
)
    requires
        is_nearest(a, xs, others, t),
    ensures
        exists|cs: Seq<Double>|
            #[trigger] cs.len() == others.len() && (forall|k: int|
                0 <= k < cs.len() ==> is_cosine(a, xs, others[k]@, #[trigger] cs[k])) && (forall|k: int|
                0 <= k < cs.len() ==> (#[trigger] cs[k]).nan() || t.at_least(cs[k])) && (t == (Double {
                bits: 0,
            }) || cs.contains(t)),
        !t.nan(),
        t.at_least(Double { bits: 0 }),
    decreases others.len(),
{
    if others.len() == 0 {
        assert(Seq::<Double>::empty().len() == others.len());
    } else {
        let (before, c) = choose|before: Double, c: Double|
            is_nearest(a, xs, others.drop_last(), before) && #[trigger] is_cosine(
                a,
                xs,
                others.last()@,
                c,
            ) && t == #[trigger] before.greater(c);
        let most = others.drop_last();
        the_nearest_turn_counts(a, xs, most, before);
        let cs = choose|cs: Seq<Double>|
            #[trigger] cs.len() == most.len() && (forall|k: int|
                0 <= k < cs.len() ==> is_cosine(a, xs, most[k]@, #[trigger] cs[k])) && (forall|k: int|
                0 <= k < cs.len() ==> (#[trigger] cs[k]).nan() || before.at_least(cs[k])) && (before == (
            Double { bits: 0 }) || cs.contains(before));
        let all = cs.push(c);
        assert forall|k: int| 0 <= k < all.len() implies is_cosine(a, xs, others[k]@, #[trigger] all[k]) by {
            if k < cs.len() {
                assert(cs[k] == all[k]);
                assert(most[k] == others[k]);
            }
        }
        assert forall|k: int| 0 <= k < all.len() implies (#[trigger] all[k]).nan() || t.at_least(all[k]) by {
            if k < cs.len() {
                assert(cs[k] == all[k]);
            }
        }
        if t == before && cs.contains(before) {
            let k = choose|k: int| 0 <= k < cs.len() && cs[k] == before;
            assert(all[k] == t);
        } else if t == c {
            assert(all[cs.len() as int] == t);
        }
        assert(all.len() == others.len());
    }
}

/// A turn passes exactly where it can be answered, is as hard as was asked for, is not too near to one
/// before it, and is in scope or meant to be refused.
pub proof fn four_judgements_pass_a_turn(c: UserTurnCandidate, nearest: Double, threshold: Double)
    ensures
        passes(verdict_of(c, nearest, threshold)) <==> c.answerable && c.difficulty_targeted
            && nearest.below(threshold) && (c.in_scope || c.contract.kind
            == VerificationKind::RefusalExpected),
        verdict_of(c, nearest, threshold).answerable == c.answerable,
        verdict_of(c, nearest, threshold).difficulty_targeted == c.difficulty_targeted,
        verdict_of(c, nearest, threshold).diverse == nearest.below(threshold),
        verdict_of(c, nearest, threshold).in_scope_safe == (c.in_scope || c.contract.kind
            == VerificationKind::RefusalExpected),
{
}

/// A turn in whose text a control token stands is refused before anything is asked of the embedder;
/// otherwise what is embedded is its text, a failure to embed is told, and the turn is judged by how near
/// its vector is to those before it.
pub proof fn a_clean_turn_is_judged_by_its_text<E: Embedder + ?Sized, A: Arithmetic + ?Sized>(
    c: UserTurnCandidate,
    e: &E,
    priors: Seq<Vec<Double>>,
    threshold: Double,
    a: &A,
    r: Result<UserTurnVerdict, GenerateErrorView>,
)
    requires
        may_judge(c, e, priors, threshold, a, r),
    ensures
        ({
            let text = content_words(c.message.deep_view().content);
            &&& !clean(text) ==> (r matches Err(GenerateErrorView::LeakedUserTurn(token)) && occurs(
                text,
                token,
            ))
            &&& clean(text) ==> exists|v: Result<Vec<Double>, String>| #[trigger]
                may_embed(e, text, v) && (v is Err ==> r == Err::<UserTurnVerdict, GenerateErrorView>(
                    GenerateErrorView::Embed(v->Err_0@),
                )) && (v is Ok ==> r is Ok && exists|near: Double|
                    is_nearest(a, v->Ok_0@, priors, near) && r->Ok_0 == #[trigger] verdict_of(
                        c,
                        near,
                        threshold,
                    ))
        }),
{
    a_clean_text_holds_no_control_token(content_words(c.message.deep_view().content));
}

/// Vectors are compared by their cosine: the sum of the products of their components, over the product
/// of their lengths, nothing where one has none, where there are none, or where they differ in
/// dimension.
pub proof fn a_cosine_is_a_quotient<A: Arithmetic + ?Sized>(
    a: &A,
    xs: Seq<Double>,
    ys: Seq<Double>,
    r: Double,
)
    requires
        is_cosine(a, xs, ys, r),
    ensures
        xs.len() == 0 || xs.len() != ys.len() ==> r == (Double { bits: 0 }),
        xs.len() > 0 && xs.len() == ys.len() ==> exists|dot: Double, nx: Double, ny: Double|
            #[trigger] is_dot(a, xs, ys, dot) && #[trigger] is_dot(a, xs, xs, nx) && #[trigger] is_dot(
                a,
                ys,
                ys,
                ny,
            ) && (nx.null() || ny.null() ==> r == (Double { bits: 0 })) && (!nx.null() && !ny.null()
                ==> exists|rx: Double, ry: Double, m: Double| #[trigger]
                is_sqrt(a, nx, rx) && #[trigger] is_sqrt(a, ny, ry) && #[trigger] is_times(a, rx, ry, m)
                    && is_over(a, dot, m, r)),
{
    if xs.len() > 0 && xs.len() == ys.len() {
        let (dot, nx, ny) = choose|dot: Double, nx: Double, ny: Double|
            is_dot(a, xs, ys, dot) && is_dot(a, xs, xs, nx) && is_dot(a, ys, ys, ny)
                && #[trigger] is_cosine_of(a, dot, nx, ny, r);
        assert(is_dot(a, xs, ys, dot) && is_dot(a, xs, xs, nx) && is_dot(a, ys, ys, ny));
    }
}

/// The product of two vectors adds up the products of all their components, one after the other.
pub proof fn a_product_has_partial_sums<A: Arithmetic + ?Sized>(
    a: &A,
    xs: Seq<Double>,
    ys: Seq<Double>,
    t: Double,
)
    requires
        xs.len() == ys.len(),
        is_dot(a, xs, ys, t),
    ensures
        exists|ps: Seq<Double>|
            #[trigger] ps.len() == xs.len() && (forall|i: int|
                0 <= i < xs.len() ==> is_times(a, xs[i], ys[i], #[trigger] ps[i])) && is_sum(a, ps, t),
    decreases xs.len(),
{
    if xs.len() == 0 {
        assert(Seq::<Double>::empty().len() == xs.len());
        assert(is_sum(a, Seq::<Double>::empty(), t));
    } else {
        let (before, product) = choose|before: Double, product: Double|
            is_dot(a, xs.drop_last(), ys.drop_last(), before) && #[trigger] is_times(
                a,
                xs.last(),
                ys.last(),
                product,
            ) && #[trigger] is_plus(a, before, product, t);
        a_product_has_partial_sums(a, xs.drop_last(), ys.drop_last(), before);
        let ps = choose|ps: Seq<Double>|
            #[trigger] ps.len() == xs.drop_last().len() && (forall|i: int|
                0 <= i < xs.drop_last().len() ==> is_times(
                    a,
                    xs.drop_last()[i],
                    ys.drop_last()[i],
                    #[trigger] ps[i],
                )) && is_sum(a, ps, before);
        let all = ps.push(product);
        assert(all.drop_last() =~= ps);
        assert forall|i: int| 0 <= i < xs.len() implies is_times(a, xs[i], ys[i], #[trigger] all[i]) by {
            if i < ps.len() {
                assert(ps[i] == all[i]);
            }
        }
        assert(is_sum(a, all.drop_last(), before) && is_plus(a, before, all.last(), t));
        assert(is_sum(a, all, t));
        assert(all.len() == xs.len());
    }
}

} // verus!
