//! How much each judge counts.
//!
//! A judge counts by its track record, never by how sure it says it is. Both scores of a track
//! record are better the lower they are; a weight is the panel-wide softmax of the negated penalty.
//! A judge without a track record takes the mean penalty of the others, and a panel without any
//! counts every judge alike.

use vstd::multiset::Multiset;
use vstd::prelude::*;

use crate::arithmetic::{sum, Arithmetic};
use crate::arithmetic::{is_count, is_exp, is_minus, is_over, is_plus, is_sum, is_times, not_positive};
use crate::double::{Double, INFINITE};
use crate::judge::consensus::{not_negative, nought, orderly_products, orderly_sums, unit};
use crate::schema::judging::{RatingRecord, RatingSubject};
use crate::text::same_text;

verus! {

/// The bits of two: how much the Brier score counts by default.
pub const DEFAULT_BETA: u64 = 0x4000_0000_0000_0000;

/// The bits of one: how much the logarithmic score counts by default.
pub const DEFAULT_GAMMA: u64 = 0x3ff0_0000_0000_0000;

/// How much the two scores of a track record count.
#[derive(Debug, Clone, Copy, PartialEq, Eq, Structural)]
pub struct CalibrationParams {
    /// The Brier score.
    pub beta: Double,
    /// The logarithmic score.
    pub gamma: Double,
}

impl Default for CalibrationParams {
    fn default() -> (r: CalibrationParams)
        ensures
            r == (CalibrationParams {
                beta: Double { bits: DEFAULT_BETA },
                gamma: Double { bits: DEFAULT_GAMMA },
            }),
    {
        CalibrationParams {
            beta: Double { bits: DEFAULT_BETA },
            gamma: Double { bits: DEFAULT_GAMMA },
        }
    }
}

/// `k` ones.
pub open spec fn ones(k: nat) -> Seq<Double> {
    Seq::new(k, |i: int| unit())
}

/// Equal weights for `k` judges.
#[must_use]
pub fn uniform_weights(k: usize) -> (w: Vec<Double>)
    ensures
        w@ == ones(k as nat),
{
    let mut w: Vec<Double> = Vec::new();
    let mut i: usize = 0;
    while i < k
        invariant
            i <= k,
            w@ == ones(i as nat),
        decreases k - i,
    {
        w.push(Double::one());
        i += 1;
        assert(w@ =~= ones(i as nat));
    }
    w
}

/// Whether a rating tells anything: it was updated, and one of the scores is known.
pub open spec fn usable(r: RatingRecord) -> bool {
    r.n_updates > 0 && (r.mean_brier is Some || r.mean_log_score is Some)
}

/// Whether a rating tells anything.
pub fn rating_is_usable(rating: &RatingRecord) -> (r: bool)
    ensures
        r == usable(*rating),
{
    rating.n_updates > 0 && (rating.mean_brier.is_some() || rating.mean_log_score.is_some())
}

/// Whether a rating is that of the judge `slug`.
pub open spec fn rates(r: RatingRecord, slug: Seq<char>) -> bool {
    r.subject == RatingSubject::Judge && r.model_slug@ == slug
}

/// Whether a rating is that of the judge `slug` for `area`.
pub open spec fn rates_in(r: RatingRecord, slug: Seq<char>, area: Option<Seq<char>>) -> bool {
    rates(r, slug) && area is Some && r.training_area.deep_view() == area
}

/// Whether a rating is that of the judge `slug` for every area.
pub open spec fn rates_globally(r: RatingRecord, slug: Seq<char>) -> bool {
    rates(r, slug) && r.training_area is None
}

/// The place of the first rating that `wanted` picks.
pub open spec fn first_rating(
    ratings: Seq<RatingRecord>,
    wanted: spec_fn(RatingRecord) -> bool,
) -> Option<int>
    decreases ratings.len(),
{
    if ratings.len() == 0 {
        None
    } else {
        match first_rating(ratings.drop_last(), wanted) {
            Some(i) => Some(i),
            None => if wanted(ratings.last()) {
                Some(ratings.len() - 1)
            } else {
                None
            },
        }
    }
}

/// The place of the rating that counts for a judge: one for the area that tells something, else a
/// global one that tells something, else any for the area, else any global one; of several the
/// first.
pub open spec fn rating_at(
    ratings: Seq<RatingRecord>,
    slug: Seq<char>,
    area: Option<Seq<char>>,
) -> Option<int> {
    match first_rating(ratings, |r: RatingRecord| rates_in(r, slug, area) && usable(r)) {
        Some(i) => Some(i),
        None => match first_rating(
            ratings,
            |r: RatingRecord| rates_globally(r, slug) && usable(r),
        ) {
            Some(i) => Some(i),
            None => match first_rating(ratings, |r: RatingRecord| rates_in(r, slug, area)) {
                Some(i) => Some(i),
                None => first_rating(ratings, |r: RatingRecord| rates_globally(r, slug)),
            },
        },
    }
}

proof fn lemma_first_rating(
    ratings: Seq<RatingRecord>,
    wanted: spec_fn(RatingRecord) -> bool,
)
    ensures
        match first_rating(ratings, wanted) {
            Some(i) => 0 <= i < ratings.len() && wanted(ratings[i]),
            None => forall|j: int| 0 <= j < ratings.len() ==> !wanted(#[trigger] ratings[j]),
        },
    decreases ratings.len(),
{
    if ratings.len() > 0 {
        lemma_first_rating(ratings.drop_last(), wanted);
        match first_rating(ratings.drop_last(), wanted) {
            Some(i) => {
                assert(ratings.drop_last()[i] == ratings[i]);
            },
            None => {
                if !wanted(ratings.last()) {
                    assert forall|j: int| 0 <= j < ratings.len() implies !wanted(
                        #[trigger] ratings[j],
                    ) by {
                        if j < ratings.len() - 1 {
                            assert(ratings.drop_last()[j] == ratings[j]);
                        }
                    }
                }
            },
        }
    }
}

proof fn lemma_rating_stays(
    ratings: Seq<RatingRecord>,
    wanted: spec_fn(RatingRecord) -> bool,
    n: int,
)
    requires
        0 <= n <= ratings.len(),
        first_rating(ratings.take(n), wanted) is Some,
    ensures
        first_rating(ratings, wanted) == first_rating(ratings.take(n), wanted),
    decreases ratings.len() - n,
{
    if n < ratings.len() {
        assert(ratings.take(n + 1).drop_last() =~= ratings.take(n));
        lemma_rating_stays(ratings, wanted, n + 1);
    } else {
        assert(ratings.take(n) =~= ratings);
    }
}

fn in_area(rating: &RatingRecord, area: Option<&str>) -> (r: bool)
    ensures
        r == (area is Some && rating.training_area.deep_view() == area.deep_view()),
{
    match (&rating.training_area, area) {
        (Some(a), Some(want)) => same_text(a.as_str(), want),
        _ => false,
    }
}

spec fn at(ratings: Seq<RatingRecord>, found: Option<&RatingRecord>, i: Option<int>) -> bool {
    match (found, i) {
        (Some(r), Some(i)) => 0 <= i < ratings.len() && ratings[i] == *r,
        (None, None) => true,
        _ => false,
    }
}

/// The rating that counts for a judge.
pub fn find_judge_rating<'a>(
    ratings: &'a [RatingRecord],
    slug: &str,
    area: Option<&str>,
) -> (found: Option<&'a RatingRecord>)
    ensures
        match rating_at(ratings@, slug@, area.deep_view()) {
            Some(i) => 0 <= i < ratings@.len() && found == Some(&ratings@[i]),
            None => found is None,
        },
{
    let ghost want = area.deep_view();
    let ghost best = |r: RatingRecord| rates_in(r, slug@, want) && usable(r);
    let ghost good = |r: RatingRecord| rates_globally(r, slug@) && usable(r);
    let ghost near = |r: RatingRecord| rates_in(r, slug@, want);
    let ghost far = |r: RatingRecord| rates_globally(r, slug@);
    let mut usable_global: Option<&'a RatingRecord> = None;
    let mut any_area: Option<&'a RatingRecord> = None;
    let mut any_global: Option<&'a RatingRecord> = None;
    let mut i: usize = 0;
    assert(ratings@.take(0) =~= Seq::empty());
    while i < ratings.len()
        invariant
            i <= ratings@.len(),
            want == area.deep_view(),
            best == (|r: RatingRecord| rates_in(r, slug@, want) && usable(r)),
            good == (|r: RatingRecord| rates_globally(r, slug@) && usable(r)),
            near == (|r: RatingRecord| rates_in(r, slug@, want)),
            far == (|r: RatingRecord| rates_globally(r, slug@)),
            first_rating(ratings@.take(i as int), best) is None,
            at(ratings@, usable_global, first_rating(ratings@.take(i as int), good)),
            at(ratings@, any_area, first_rating(ratings@.take(i as int), near)),
            at(ratings@, any_global, first_rating(ratings@.take(i as int), far)),
        decreases ratings@.len() - i,
    {
        let r = &ratings[i];
        proof {
            let longer = ratings@.take(i + 1);
            assert(longer.drop_last() =~= ratings@.take(i as int));
            assert(longer.last() == *r);
            assert(best(*r) == (rates_in(*r, slug@, want) && usable(*r)));
            assert(good(*r) == (rates_globally(*r, slug@) && usable(*r)));
            assert(near(*r) == rates_in(*r, slug@, want));
            assert(far(*r) == rates_globally(*r, slug@));
        }
        if r.subject == RatingSubject::Judge && same_text(r.model_slug.as_str(), slug) {
            if in_area(r, area) {
                if rating_is_usable(r) {
                    proof {
                        lemma_rating_stays(ratings@, best, i + 1);
                    }
                    return Some(r);
                }
                if any_area.is_none() {
                    any_area = Some(r);
                }
            } else if r.training_area.is_none() {
                if rating_is_usable(r) && usable_global.is_none() {
                    usable_global = Some(r);
                }
                if any_global.is_none() {
                    any_global = Some(r);
                }
            }
        }
        i += 1;
    }
    assert(ratings@.take(i as int) =~= ratings@);
    if usable_global.is_some() {
        usable_global
    } else if any_area.is_some() {
        any_area
    } else {
        any_global
    }
}

/// A rating that tells nothing never stands before one that does: where the judge has a rating for
/// the area, or a global one, that tells something, the one that counts tells something.
pub proof fn an_unproven_rating_never_shadows_a_proven_one(
    ratings: Seq<RatingRecord>,
    slug: Seq<char>,
    area: Option<Seq<char>>,
    proven: int,
)
    requires
        0 <= proven < ratings.len(),
        usable(ratings[proven]),
        rates_in(ratings[proven], slug, area) || rates_globally(ratings[proven], slug),
    ensures
        rating_at(ratings, slug, area) is Some,
        usable(ratings[rating_at(ratings, slug, area)->0]),
        rates(ratings[rating_at(ratings, slug, area)->0], slug),
{
    let best = |r: RatingRecord| rates_in(r, slug, area) && usable(r);
    let good = |r: RatingRecord| rates_globally(r, slug) && usable(r);
    lemma_first_rating(ratings, best);
    lemma_first_rating(ratings, good);
    assert(best(ratings[proven]) || good(ratings[proven]));
}

/// The score, or zero where it is not known.
pub open spec fn or_nought(score: Option<Double>) -> Double {
    match score {
        Some(x) => x,
        None => nought(),
    }
}

/// `p` may be the penalty of a track record; one that tells nothing has none.
pub open spec fn is_penalty<A: Arithmetic + ?Sized>(
    a: &A,
    rating: RatingRecord,
    params: CalibrationParams,
    p: Option<Double>,
) -> bool {
    if usable(rating) {
        p is Some && exists|left: Double, right: Double|
            #[trigger] is_times(a, params.beta, or_nought(rating.mean_brier), left)
                && #[trigger] is_times(a, params.gamma, or_nought(rating.mean_log_score), right)
                && is_plus(a, left, right, p->0)
    } else {
        p is None
    }
}

/// `p` may be the penalty of the judge `slug`.
pub open spec fn is_judge_penalty<A: Arithmetic + ?Sized>(
    a: &A,
    ratings: Seq<RatingRecord>,
    slug: Seq<char>,
    area: Option<Seq<char>>,
    params: CalibrationParams,
    p: Option<Double>,
) -> bool {
    match rating_at(ratings, slug, area) {
        Some(i) => is_penalty(a, ratings[i], params, p),
        None => p is None,
    }
}

fn penalty<A: Arithmetic + ?Sized>(
    rating: &RatingRecord,
    params: CalibrationParams,
    a: &A,
) -> (p: Option<Double>)
    ensures
        is_penalty(a, *rating, params, p),
{
    if !rating_is_usable(rating) {
        return None;
    }
    let brier = match rating.mean_brier {
        Some(x) => x,
        None => Double::zero(),
    };
    let log_score = match rating.mean_log_score {
        Some(x) => x,
        None => Double::zero(),
    };
    let left = a.times(params.beta, brier);
    let right = a.times(params.gamma, log_score);
    assert(is_times(a, params.beta, or_nought(rating.mean_brier), left));
    assert(is_times(a, params.gamma, or_nought(rating.mean_log_score), right));
    Some(a.plus(left, right))
}

/// The known ones among penalties.
pub open spec fn known(penalties: Seq<Option<Double>>) -> Seq<Double>
    decreases penalties.len(),
{
    if penalties.len() == 0 {
        Seq::empty()
    } else {
        match penalties.last() {
            Some(p) => known(penalties.drop_last()).push(p),
            None => known(penalties.drop_last()),
        }
    }
}

/// Penalties, those that are not known replaced by `prior`.
pub open spec fn filled(penalties: Seq<Option<Double>>, prior: Double) -> Seq<Double> {
    penalties.map_values(
        |p: Option<Double>|
            match p {
                Some(x) => x,
                None => prior,
            },
    )
}

/// The least of `xs`.
pub open spec fn least(xs: Seq<Double>) -> Double
    decreases xs.len(),
{
    if xs.len() == 0 {
        Double { bits: INFINITE }
    } else {
        least(xs.drop_last()).lesser(xs.last())
    }
}

/// `w` may be `v` brought to a total of one; where `v` amounts to nothing, equal shares.
pub open spec fn is_normalized<A: Arithmetic + ?Sized>(
    a: &A,
    v: Seq<Double>,
    w: Seq<Double>,
) -> bool {
    w.len() == v.len() && exists|total: Double|
        #[trigger] is_sum(a, v, total) && (if not_positive(total) {
            exists|n: Double, share: Double|
                #[trigger] is_count(a, v.len() as usize, n) && #[trigger] is_over(
                    a,
                    unit(),
                    n,
                    share,
                ) && forall|i: int| 0 <= i < w.len() ==> #[trigger] w[i] == share
        } else {
            forall|i: int| 0 <= i < w.len() ==> is_over(a, v[i], total, #[trigger] w[i])
        })
}

/// `e` may be the exponential of how far `p` lies above `low`, negated.
pub open spec fn is_decay<A: Arithmetic + ?Sized>(
    a: &A,
    p: Double,
    low: Double,
    e: Double,
) -> bool {
    exists|d: Double| #[trigger] is_minus(a, p, low, d) && is_exp(a, d.opposite(), e)
}

/// `w` may be the softmax of the negated penalties.
pub open spec fn is_softmax<A: Arithmetic + ?Sized>(
    a: &A,
    penalties: Seq<Double>,
    w: Seq<Double>,
) -> bool {
    exists|es: Seq<Double>|
        es.len() == penalties.len() && (forall|i: int|
            0 <= i < es.len() ==> is_decay(a, penalties[i], least(penalties), #[trigger] es[i]))
            && #[trigger] is_normalized(a, es, w)
}

/// Whether the penalties may be those of the judges.
pub open spec fn are_penalties<A: Arithmetic + ?Sized>(
    a: &A,
    slugs: Seq<Seq<char>>,
    ratings: Seq<RatingRecord>,
    area: Option<Seq<char>>,
    params: CalibrationParams,
    penalties: Seq<Option<Double>>,
) -> bool {
    penalties.len() == slugs.len() && forall|i: int|
        0 <= i < slugs.len() ==> is_judge_penalty(
            a,
            ratings,
            slugs[i],
            area,
            params,
            #[trigger] penalties[i],
        )
}

/// Whether `w` may be the weights that go with the penalties of a panel.
pub open spec fn are_weights_of<A: Arithmetic + ?Sized>(
    a: &A,
    penalties: Seq<Option<Double>>,
    w: Seq<Double>,
) -> bool {
    if known(penalties).len() == 0 {
        is_normalized(a, ones(penalties.len()), w)
    } else {
        exists|total: Double, n: Double, prior: Double|
            #[trigger] is_sum(a, known(penalties), total) && #[trigger] is_count(
                a,
                known(penalties).len() as usize,
                n,
            ) && #[trigger] is_over(a, total, n, prior) && is_softmax(
                a,
                filled(penalties, prior),
                w,
            )
    }
}

/// Whether `w` may be the calibration weights of the judges `slugs`.
pub open spec fn are_weights<A: Arithmetic + ?Sized>(
    a: &A,
    slugs: Seq<Seq<char>>,
    ratings: Seq<RatingRecord>,
    area: Option<Seq<char>>,
    params: CalibrationParams,
    w: Seq<Double>,
) -> bool {
    w.len() == slugs.len() && (slugs.len() > 0 ==> exists|penalties: Seq<Option<Double>>|
        #[trigger] are_penalties(a, slugs, ratings, area, params, penalties) && are_weights_of(
            a,
            penalties,
            w,
        ))
}

/// Whether differences from one number, exponentials, and quotients by one number that is not zero or
/// less keep the order of what they are taken of, and what is no number stays none.
pub open spec fn keeps_order<A: Arithmetic + ?Sized>(a: &A) -> bool {
    &&& forall|x: Double, y: Double, z: Double, d: Double, e: Double|
        y.at_least(x) && #[trigger] is_minus(a, x, z, d) && #[trigger] is_minus(a, y, z, e) ==> d.nan()
            || e.nan() || e.at_least(d)
    &&& forall|x: Double, y: Double, d: Double, e: Double|
        y.at_least(x) && #[trigger] is_exp(a, x, d) && #[trigger] is_exp(a, y, e) ==> e.at_least(d)
            && not_negative(d)
    &&& forall|x: Double, d: Double| x.nan() && #[trigger] is_exp(a, x, d) ==> d.nan()
    &&& forall|x: Double, y: Double, z: Double, d: Double, e: Double|
        not_negative(x) && y.at_least(x) && !not_positive(z) && #[trigger] is_over(a, x, z, d)
            && #[trigger] is_over(a, y, z, e) ==> d.nan() || e.nan() || e.at_least(d)
    &&& forall|x: Double, z: Double, d: Double| x.nan() && #[trigger] is_over(a, x, z, d) ==> d.nan()
}

proof fn lemma_lower_decays_less<A: Arithmetic + ?Sized>(
    a: &A,
    p: Double,
    q: Double,
    low: Double,
    e: Double,
    f: Double,
)
    requires
        keeps_order(a),
        q.at_least(p),
        is_decay(a, p, low, e),
        is_decay(a, q, low, f),
    ensures
        e.nan() || f.nan() || (e.at_least(f) && not_negative(f)),
{
    let d = choose|d: Double| #[trigger] is_minus(a, p, low, d) && is_exp(a, d.opposite(), e);
    let g = choose|g: Double| #[trigger] is_minus(a, q, low, g) && is_exp(a, g.opposite(), f);
    if !d.nan() && !g.nan() {
        assert(g.at_least(d));
        assert(d.opposite().at_least(g.opposite()));
    } else if d.nan() {
        assert(d.opposite().nan());
    } else {
        assert(g.opposite().nan());
    }
}

proof fn lemma_normalized_keeps_order<A: Arithmetic + ?Sized>(
    a: &A,
    v: Seq<Double>,
    w: Seq<Double>,
    i: int,
    j: int,
)
    requires
        keeps_order(a),
        is_normalized(a, v, w),
        0 <= i < v.len(),
        0 <= j < v.len(),
        v[i].nan() || v[j].nan() || (v[i].at_least(v[j]) && not_negative(v[j])),
    ensures
        w[i].nan() || w[j].nan() || w[i].at_least(w[j]),
{
    let total = choose|total: Double|
        #[trigger] is_sum(a, v, total) && (if not_positive(total) {
            exists|n: Double, share: Double|
                #[trigger] is_count(a, v.len() as usize, n) && #[trigger] is_over(
                    a,
                    unit(),
                    n,
                    share,
                ) && forall|i: int| 0 <= i < w.len() ==> #[trigger] w[i] == share
        } else {
            forall|i: int| 0 <= i < w.len() ==> is_over(a, v[i], total, #[trigger] w[i])
        });
    if not_positive(total) {
        assert(w[i] == w[j]);
    } else {
        assert(is_over(a, v[i], total, w[i]));
        assert(is_over(a, v[j], total, w[j]));
    }
}

proof fn lemma_known(penalties: Seq<Option<Double>>, i: int)
    requires
        0 <= i < penalties.len(),
        penalties[i] is Some,
    ensures
        known(penalties).len() > 0,
    decreases penalties.len(),
{
    if i < penalties.len() - 1 {
        assert(penalties.drop_last()[i] == penalties[i]);
        lemma_known(penalties.drop_last(), i);
    }
}

/// A judge never weighs less than one whose penalty is no lower, where the caller's arithmetic keeps
/// order; a weight that is no number is neither more nor less.
pub proof fn a_lower_penalty_never_weighs_less<A: Arithmetic + ?Sized>(
    a: &A,
    penalties: Seq<Option<Double>>,
    w: Seq<Double>,
    i: int,
    j: int,
)
    requires
        keeps_order(a),
        are_weights_of(a, penalties, w),
        0 <= i < penalties.len(),
        0 <= j < penalties.len(),
        penalties[i] is Some,
        penalties[j] is Some,
        penalties[j]->0.at_least(penalties[i]->0),
    ensures
        w[i].nan() || w[j].nan() || w[i].at_least(w[j]),
{
    lemma_known(penalties, i);
    let (total, n, prior) = choose|total: Double, n: Double, prior: Double|
        #[trigger] is_sum(a, known(penalties), total) && #[trigger] is_count(
            a,
            known(penalties).len() as usize,
            n,
        ) && #[trigger] is_over(a, total, n, prior) && is_softmax(a, filled(penalties, prior), w);
    let all = filled(penalties, prior);
    let es = choose|es: Seq<Double>|
        es.len() == all.len() && (forall|i: int|
            0 <= i < es.len() ==> is_decay(a, all[i], least(all), #[trigger] es[i]))
            && #[trigger] is_normalized(a, es, w);
    assert(is_decay(a, all[i], least(all), es[i]));
    assert(is_decay(a, all[j], least(all), es[j]));
    lemma_lower_decays_less(a, all[i], all[j], least(all), es[i], es[j]);
    lemma_normalized_keeps_order(a, es, w, i, j);
}

/// Whether a score can be one of a track record: a finite number, not negative.
pub open spec fn fair(x: Double) -> bool {
    x.finite() && not_negative(x)
}

/// A better track record never weighs less: of two judges with one, neither score of the first being
/// worse than the other's, the first weighs no less, where the caller's arithmetic keeps order; a
/// weight that is no number is neither more nor less.
pub proof fn a_better_record_never_weighs_less<A: Arithmetic + ?Sized>(
    a: &A,
    slugs: Seq<Seq<char>>,
    ratings: Seq<RatingRecord>,
    area: Option<Seq<char>>,
    params: CalibrationParams,
    w: Seq<Double>,
    i: int,
    j: int,
    s: int,
    t: int,
)
    requires
        keeps_order(a),
        orderly_sums(a),
        orderly_products(a),
        fair(params.beta),
        fair(params.gamma),
        are_weights(a, slugs, ratings, area, params, w),
        0 <= i < slugs.len(),
        0 <= j < slugs.len(),
        0 <= s < ratings.len(),
        0 <= t < ratings.len(),
        rating_at(ratings, slugs[i], area) == Some(s),
        rating_at(ratings, slugs[j], area) == Some(t),
        usable(ratings[s]),
        usable(ratings[t]),
        fair(or_nought(ratings[s].mean_brier)),
        fair(or_nought(ratings[t].mean_brier)),
        fair(or_nought(ratings[s].mean_log_score)),
        fair(or_nought(ratings[t].mean_log_score)),
        or_nought(ratings[t].mean_brier).at_least(or_nought(ratings[s].mean_brier)),
        or_nought(ratings[t].mean_log_score).at_least(or_nought(ratings[s].mean_log_score)),
    ensures
        w[i].nan() || w[j].nan() || w[i].at_least(w[j]),
{
    let penalties = choose|penalties: Seq<Option<Double>>|
        #[trigger] are_penalties(a, slugs, ratings, area, params, penalties) && are_weights_of(
            a,
            penalties,
            w,
        );
    assert(is_judge_penalty(a, ratings, slugs[i], area, params, penalties[i]));
    assert(is_judge_penalty(a, ratings, slugs[j], area, params, penalties[j]));
    let (l, r) = choose|l: Double, r: Double|
        #[trigger] is_times(a, params.beta, or_nought(ratings[s].mean_brier), l)
            && #[trigger] is_times(a, params.gamma, or_nought(ratings[s].mean_log_score), r)
            && is_plus(a, l, r, penalties[i]->0);
    let (m, n) = choose|m: Double, n: Double|
        #[trigger] is_times(a, params.beta, or_nought(ratings[t].mean_brier), m)
            && #[trigger] is_times(a, params.gamma, or_nought(ratings[t].mean_log_score), n)
            && is_plus(a, m, n, penalties[j]->0);
    assert(not_negative(l) && m.at_least(l));
    assert(not_negative(r) && n.at_least(r));
    assert(penalties[j]->0.at_least(penalties[i]->0));
    a_lower_penalty_never_weighs_less(a, penalties, w, i, j);
}

fn normalize<A: Arithmetic + ?Sized>(v: &[Double], a: &A) -> (w: Vec<Double>)
    ensures
        is_normalized(a, v@, w@),
{
    let total = sum(a, v);
    let mut w: Vec<Double> = Vec::new();
    let mut i: usize = 0;
    if Double::zero().is_at_least(total) {
        let n = a.count(v.len());
        let share = a.over(Double::one(), n);
        while i < v.len()
            invariant
                i <= v@.len(),
                w@.len() == i,
                forall|p: int| 0 <= p < i ==> #[trigger] w@[p] == share,
            decreases v@.len() - i,
        {
            w.push(share);
            i += 1;
        }
        assert(is_count(a, v@.len() as usize, n));
        assert(is_over(a, unit(), n, share));
    } else {
        while i < v.len()
            invariant
                i <= v@.len(),
                w@.len() == i,
                forall|p: int| 0 <= p < i ==> is_over(a, v@[p], total, #[trigger] w@[p]),
            decreases v@.len() - i,
        {
            w.push(a.over(v[i], total));
            i += 1;
        }
    }
    assert(is_sum(a, v@, total));
    w
}

fn least_of(xs: &[Double]) -> (r: Double)
    ensures
        r == least(xs@),
{
    let mut r = Double { bits: INFINITE };
    let mut i: usize = 0;
    assert(xs@.take(0) =~= Seq::empty());
    while i < xs.len()
        invariant
            i <= xs@.len(),
            r == least(xs@.take(i as int)),
        decreases xs@.len() - i,
    {
        assert(xs@.take(i + 1).drop_last() =~= xs@.take(i as int));
        r = r.min_with(xs[i]);
        i += 1;
    }
    assert(xs@.take(i as int) =~= xs@);
    r
}

fn softmax_neg<A: Arithmetic + ?Sized>(penalties: &[Double], a: &A) -> (w: Vec<Double>)
    ensures
        is_softmax(a, penalties@, w@),
{
    let low = least_of(penalties);
    let mut es: Vec<Double> = Vec::new();
    let mut i: usize = 0;
    while i < penalties.len()
        invariant
            i <= penalties@.len(),
            es@.len() == i,
            forall|p: int| 0 <= p < i ==> is_decay(a, penalties@[p], low, #[trigger] es@[p]),
        decreases penalties@.len() - i,
    {
        let d = a.minus(penalties[i], low);
        let e = a.exp(d.negated());
        assert(is_minus(a, penalties@[i as int], low, d));
        assert(is_decay(a, penalties@[i as int], low, e));
        es.push(e);
        i += 1;
    }
    let w = normalize(es.as_slice(), a);
    assert(is_normalized(a, es@, w@));
    w
}

/// The calibration weights of the judges `slugs`, one for each.
#[must_use]
pub fn calibration_weights<A: Arithmetic + ?Sized>(
    slugs: &[String],
    ratings: &[RatingRecord],
    area: Option<&str>,
    params: CalibrationParams,
    a: &A,
) -> (w: Vec<Double>)
    ensures
        are_weights(a, slugs.deep_view(), ratings@, area.deep_view(), params, w@),
{
    let ghost names = slugs.deep_view();
    if slugs.len() == 0 {
        return Vec::new();
    }
    let mut penalties: Vec<Option<Double>> = Vec::new();
    let mut some: Vec<Double> = Vec::new();
    let mut i: usize = 0;
    assert(some@ =~= known(penalties@));
    while i < slugs.len()
        invariant
            i <= slugs@.len(),
            names == slugs.deep_view(),
            penalties@.len() == i,
            some@ == known(penalties@),
            forall|p: int|
                0 <= p < i ==> is_judge_penalty(
                    a,
                    ratings@,
                    names[p],
                    area.deep_view(),
                    params,
                    #[trigger] penalties@[p],
                ),
        decreases slugs@.len() - i,
    {
        assert(names[i as int] == slugs@[i as int]@);
        let p = match find_judge_rating(ratings, slugs[i].as_str(), area) {
            Some(r) => penalty(r, params, a),
            None => None,
        };
        let ghost before = penalties@;
        penalties.push(p);
        if let Some(x) = p {
            some.push(x);
        }
        assert(penalties@.drop_last() =~= before);
        i += 1;
    }
    assert(are_penalties(a, names, ratings@, area.deep_view(), params, penalties@));
    if some.len() == 0 {
        let flat = uniform_weights(slugs.len());
        return normalize(flat.as_slice(), a);
    }
    let total = sum(a, some.as_slice());
    let n = a.count(some.len());
    let prior = a.over(total, n);
    let mut all: Vec<Double> = Vec::new();
    let mut j: usize = 0;
    while j < penalties.len()
        invariant
            j <= penalties@.len(),
            all@.len() == j,
            forall|p: int| 0 <= p < j ==> #[trigger] all@[p] == filled(penalties@, prior)[p],
        decreases penalties@.len() - j,
    {
        all.push(
            match penalties[j] {
                Some(x) => x,
                None => prior,
            },
        );
        j += 1;
    }
    assert(all@ =~= filled(penalties@, prior));
    let w = softmax_neg(all.as_slice(), a);
    proof {
        assert(is_sum(a, known(penalties@), total));
        assert(is_count(a, known(penalties@).len() as usize, n));
        assert(is_over(a, total, n, prior));
        assert(are_weights_of(a, penalties@, w@));
    }
    w
}

/// Whether differences of finite numbers are not negative where the first is no less, and nothing where
/// both are one, and the exponential of nothing is one.
pub open spec fn starts_at_one<A: Arithmetic + ?Sized>(a: &A) -> bool {
    &&& forall|x: Double, y: Double, d: Double|
        x.finite() && y.finite() && y.at_least(x) && #[trigger] is_minus(a, y, x, d) ==> not_negative(d)
    &&& forall|x: Double, d: Double| x.finite() && #[trigger] is_minus(a, x, x, d) ==> d.null()
    &&& forall|x: Double, e: Double| x.null() && #[trigger] is_exp(a, x, e) ==> e == unit()
}

/// Whether a sum of `k` numbers between zero and one is finite.
pub open spec fn sums_stay_finite<A: Arithmetic + ?Sized>(a: &A, k: nat) -> bool {
    forall|xs: Seq<Double>, t: Double|
        xs.len() == k && (forall|i: int|
            0 <= i < k ==> not_negative(#[trigger] xs[i]) && unit().at_least(xs[i]))
            && #[trigger] is_sum(a, xs, t) ==> t.finite()
}

/// Whether `p` can come out as the penalty of a Brier score and a logarithmic score: each times what it
/// counts, added up.
pub open spec fn penalizes<A: Arithmetic + ?Sized>(
    a: &A,
    params: CalibrationParams,
    brier: Double,
    log_score: Double,
    p: Double,
) -> bool {
    exists|l: Double, r: Double|
        #[trigger] is_times(a, params.beta, brier, l) && #[trigger] is_times(
            a,
            params.gamma,
            log_score,
            r,
        ) && is_plus(a, l, r, p)
}

/// Whether the arithmetic tells two penalties apart: the lower keeps the greater share, whatever lies
/// below both and whatever finite total is shared out.
pub open spec fn tells_apart<A: Arithmetic + ?Sized>(a: &A, p: Double, q: Double) -> bool {
    forall|low: Double, d: Double, e: Double, f: Double, g: Double, total: Double, u: Double, v: Double|
        fair(low) && p.at_least(low) && total.at_least(unit()) && total.finite() && #[trigger] is_minus(
            a,
            p,
            low,
            d,
        ) && #[trigger] is_minus(a, q, low, e) && is_exp(a, d.opposite(), f) && is_exp(
            a,
            e.opposite(),
            g,
        ) && #[trigger] is_over(a, f, total, u) && #[trigger] is_over(a, g, total, v) ==> v.below(u)
}

proof fn lemma_least(xs: Seq<Double>)
    requires
        xs.len() > 0,
        forall|i: int| 0 <= i < xs.len() ==> fair(#[trigger] xs[i]),
    ensures
        xs.contains(least(xs)),
        forall|i: int| 0 <= i < xs.len() ==> (#[trigger] xs[i]).at_least(least(xs)),
    decreases xs.len(),
{
    let before = xs.drop_last();
    let x = xs.last();
    assert(fair(xs[xs.len() - 1]));
    if before.len() == 0 {
        assert(least(before) == (Double { bits: INFINITE }));
        assert(least(xs) == x);
        assert(xs[0] == x);
    } else {
        assert forall|i: int| 0 <= i < before.len() implies fair(#[trigger] before[i]) by {
            assert(fair(xs[i]));
        }
        lemma_least(before);
        let m = choose|m: int| 0 <= m < before.len() && before[m] == least(before);
        assert(xs[m] == least(before));
        assert(fair(xs[m]));
        assert(xs[xs.len() - 1] == x);
        assert forall|i: int| 0 <= i < xs.len() implies (#[trigger] xs[i]).at_least(least(xs)) by {
            if i < before.len() {
                assert(before[i] == xs[i]);
                assert(before[i].at_least(least(before)));
            }
        }
    }
}

/// Whether the rating that counts for a judge tells anything.
pub open spec fn proven(
    ratings: Seq<RatingRecord>,
    slug: Seq<char>,
    area: Option<Seq<char>>,
) -> bool {
    rating_at(ratings, slug, area) is Some && usable(ratings[rating_at(ratings, slug, area)->0])
}

proof fn lemma_known_are_fair(penalties: Seq<Option<Double>>)
    requires
        forall|k: int|
            0 <= k < penalties.len() ==> ((#[trigger] penalties[k]) is Some ==> fair(penalties[k]->0)),
    ensures
        forall|k: int| 0 <= k < known(penalties).len() ==> fair(#[trigger] known(penalties)[k]),
        known(penalties).len() <= penalties.len(),
    decreases penalties.len(),
{
    if penalties.len() > 0 {
        let before = penalties.drop_last();
        assert forall|k: int| 0 <= k < before.len() implies ((#[trigger] before[k]) is Some ==> fair(
            before[k]->0,
        )) by {
            assert(penalties[k] is Some ==> fair(penalties[k]->0));
        }
        lemma_known_are_fair(before);
        assert(penalties[penalties.len() - 1] is Some ==> fair(penalties[penalties.len() - 1]->0));
        assert forall|k: int| 0 <= k < known(penalties).len() implies fair(
            #[trigger] known(penalties)[k],
        ) by {
            if k < known(before).len() {
                assert(known(before)[k] == known(penalties)[k]);
            }
        }
    }
}

proof fn lemma_sum_covers_its_parts<A: Arithmetic + ?Sized>(a: &A, xs: Seq<Double>, t: Double)
    requires
        orderly_sums(a),
        is_sum(a, xs, t),
        forall|i: int| 0 <= i < xs.len() ==> not_negative(#[trigger] xs[i]),
    ensures
        not_negative(t),
        forall|i: int| 0 <= i < xs.len() ==> t.at_least(#[trigger] xs[i]),
    decreases xs.len(),
{
    if xs.len() > 0 {
        let before = xs.drop_last();
        let s = choose|s: Double| is_sum(a, before, s) && #[trigger] is_plus(a, s, xs.last(), t);
        assert forall|i: int| 0 <= i < before.len() implies not_negative(#[trigger] before[i]) by {
            assert(not_negative(xs[i]));
        }
        lemma_sum_covers_its_parts(a, before, s);
        assert(not_negative(xs[xs.len() - 1]));
        assert forall|i: int| 0 <= i < xs.len() implies t.at_least(#[trigger] xs[i]) by {
            if i < before.len() {
                assert(s.at_least(before[i]));
            }
        }
    }
}

/// A better track record weighs more: where the arithmetic tells the penalties of two judges with one
/// apart, the one with the lower penalty weighs more, whether the others have one or not.
pub proof fn a_better_record_weighs_more<A: Arithmetic + ?Sized>(
    a: &A,
    slugs: Seq<Seq<char>>,
    ratings: Seq<RatingRecord>,
    area: Option<Seq<char>>,
    params: CalibrationParams,
    w: Seq<Double>,
    i: int,
    j: int,
)
    requires
        keeps_order(a),
        starts_at_one(a),
        orderly_sums(a),
        sums_stay_finite(a, slugs.len()),
        are_weights(a, slugs, ratings, area, params, w),
        0 <= i < slugs.len(),
        0 <= j < slugs.len(),
        proven(ratings, slugs[i], area),
        proven(ratings, slugs[j], area),
        forall|k: int, p: Double|
            0 <= k < slugs.len() && proven(ratings, slugs[k], area) && #[trigger] penalizes(
                a,
                params,
                or_nought(ratings[rating_at(ratings, slugs[k], area)->0].mean_brier),
                or_nought(ratings[rating_at(ratings, slugs[k], area)->0].mean_log_score),
                p,
            ) ==> fair(p),
        forall|xs: Seq<Double>, total: Double, n: Double, mean: Double|
            xs.len() > 0 && (forall|k: int| 0 <= k < xs.len() ==> fair(#[trigger] xs[k]))
                && #[trigger] is_sum(a, xs, total) && #[trigger] is_count(a, xs.len() as usize, n)
                && #[trigger] is_over(a, total, n, mean) && xs.len() <= slugs.len() ==> fair(mean),
        forall|p: Double, q: Double|
            #[trigger] penalizes(
                a,
                params,
                or_nought(ratings[rating_at(ratings, slugs[i], area)->0].mean_brier),
                or_nought(ratings[rating_at(ratings, slugs[i], area)->0].mean_log_score),
                p,
            ) && #[trigger] penalizes(
                a,
                params,
                or_nought(ratings[rating_at(ratings, slugs[j], area)->0].mean_brier),
                or_nought(ratings[rating_at(ratings, slugs[j], area)->0].mean_log_score),
                q,
            ) ==> p.below(q) && tells_apart(a, p, q),
    ensures
        w[j].below(w[i]),
{
    let penalties = choose|penalties: Seq<Option<Double>>|
        #[trigger] are_penalties(a, slugs, ratings, area, params, penalties) && are_weights_of(
            a,
            penalties,
            w,
        );
    assert forall|k: int| 0 <= k < slugs.len() implies (#[trigger] penalties[k]) is Some == proven(
        ratings,
        slugs[k],
        area,
    ) && (penalties[k] is Some ==> fair(penalties[k]->0) && penalizes(
        a,
        params,
        or_nought(ratings[rating_at(ratings, slugs[k], area)->0].mean_brier),
        or_nought(ratings[rating_at(ratings, slugs[k], area)->0].mean_log_score),
        penalties[k]->0,
    )) by {
        let at = rating_at(ratings, slugs[k], area);
        assert(is_judge_penalty(a, ratings, slugs[k], area, params, penalties[k]));
        if penalties[k] is Some {
            let p = penalties[k]->0;
            let brier = or_nought(ratings[at->0].mean_brier);
            let log_score = or_nought(ratings[at->0].mean_log_score);
            let (l, r) = choose|l: Double, r: Double|
                #[trigger] is_times(a, params.beta, brier, l) && #[trigger] is_times(
                    a,
                    params.gamma,
                    log_score,
                    r,
                ) && is_plus(a, l, r, p);
            assert(penalizes(a, params, brier, log_score, p));
        }
    }
    lemma_known(penalties, i);
    let (total_known, n, prior) = choose|total: Double, n: Double, prior: Double|
        #[trigger] is_sum(a, known(penalties), total) && #[trigger] is_count(
            a,
            known(penalties).len() as usize,
            n,
        ) && #[trigger] is_over(a, total, n, prior) && is_softmax(a, filled(penalties, prior), w);
    let all = filled(penalties, prior);
    lemma_known_are_fair(penalties);
    assert(fair(prior));
    assert forall|k: int| 0 <= k < all.len() implies fair(#[trigger] all[k]) by {
        assert(penalties[k] is Some ==> fair(penalties[k]->0));
    }
    lemma_least(all);
    let low = least(all);
    let m = choose|m: int| 0 <= m < all.len() && all[m] == low;
    assert(fair(all[m]));
    let es = choose|es: Seq<Double>|
        es.len() == all.len() && (forall|i: int|
            0 <= i < es.len() ==> is_decay(a, all[i], least(all), #[trigger] es[i]))
            && #[trigger] is_normalized(a, es, w);
    assert(is_decay(a, all[m], low, es[m]));
    let dm = choose|d: Double| #[trigger] is_minus(a, all[m], low, d) && is_exp(a, d.opposite(), es[m]);
    assert(dm.null());
    assert(es[m] == unit());
    assert forall|k: int| 0 <= k < es.len() implies not_negative(#[trigger] es[k])
        && unit().at_least(es[k]) by {
        assert(is_decay(a, all[k], low, es[k]));
        assert(fair(all[k]));
        let d = choose|d: Double|
            #[trigger] is_minus(a, all[k], low, d) && is_exp(a, d.opposite(), es[k]);
        assert(not_negative(d));
        assert(dm.opposite().at_least(d.opposite()));
    }
    let total = choose|total: Double|
        #[trigger] is_sum(a, es, total) && (if not_positive(total) {
            exists|n: Double, share: Double|
                #[trigger] is_count(a, es.len() as usize, n) && #[trigger] is_over(
                    a,
                    unit(),
                    n,
                    share,
                ) && forall|i: int| 0 <= i < w.len() ==> #[trigger] w[i] == share
        } else {
            forall|i: int| 0 <= i < w.len() ==> is_over(a, es[i], total, #[trigger] w[i])
        });
    lemma_sum_covers_its_parts(a, es, total);
    assert(total.at_least(es[m]));
    assert(total.finite());
    assert(is_over(a, es[i], total, w[i]));
    assert(is_over(a, es[j], total, w[j]));
    assert(is_decay(a, all[i], low, es[i]));
    assert(is_decay(a, all[j], low, es[j]));
    let d = choose|d: Double| #[trigger] is_minus(a, all[i], low, d) && is_exp(a, d.opposite(), es[i]);
    let e = choose|e: Double| #[trigger] is_minus(a, all[j], low, e) && is_exp(a, e.opposite(), es[j]);
    let p = penalties[i]->0;
    let q = penalties[j]->0;
    assert(penalties[i] is Some && penalties[j] is Some);
    assert(all[i] == p && all[j] == q);
    assert(tells_apart(a, p, q));
    assert(fair(low) && p.at_least(low));
}

/// Judges without any track record all weigh the same, as do judges with one track record: two judges
/// that the ratings tell nothing different of have the same weight, where the arithmetic gives one
/// result for one input.
pub proof fn equal_records_weigh_the_same<A: Arithmetic + ?Sized>(
    a: &A,
    penalties: Seq<Option<Double>>,
    w: Seq<Double>,
    i: int,
    j: int,
)
    requires
        forall|x: Double, y: Double, d: Double, e: Double|
            #[trigger] is_minus(a, x, y, d) && #[trigger] is_minus(a, x, y, e) ==> d == e,
        forall|x: Double, d: Double, e: Double|
            #[trigger] is_exp(a, x, d) && #[trigger] is_exp(a, x, e) ==> d == e,
        forall|x: Double, y: Double, d: Double, e: Double|
            #[trigger] is_over(a, x, y, d) && #[trigger] is_over(a, x, y, e) ==> d == e,
        are_weights_of(a, penalties, w),
        0 <= i < penalties.len(),
        0 <= j < penalties.len(),
        penalties[i] == penalties[j],
    ensures
        w.len() == penalties.len(),
        w[i] == w[j],
{
    if known(penalties).len() == 0 {
        let v = ones(penalties.len());
        lemma_equal_parts_equal_shares(a, v, w, i, j);
    } else {
        let (total, n, prior) = choose|total: Double, n: Double, prior: Double|
            #[trigger] is_sum(a, known(penalties), total) && #[trigger] is_count(
                a,
                known(penalties).len() as usize,
                n,
            ) && #[trigger] is_over(a, total, n, prior) && is_softmax(a, filled(penalties, prior), w);
        let all = filled(penalties, prior);
        let es = choose|es: Seq<Double>|
            es.len() == all.len() && (forall|i: int|
                0 <= i < es.len() ==> is_decay(a, all[i], least(all), #[trigger] es[i]))
                && #[trigger] is_normalized(a, es, w);
        assert(is_decay(a, all[i], least(all), es[i]));
        assert(is_decay(a, all[j], least(all), es[j]));
        assert(all[i] == all[j]);
        let d = choose|d: Double|
            #[trigger] is_minus(a, all[i], least(all), d) && is_exp(a, d.opposite(), es[i]);
        let e = choose|e: Double|
            #[trigger] is_minus(a, all[j], least(all), e) && is_exp(a, e.opposite(), es[j]);
        assert(d == e);
        assert(es[i] == es[j]);
        lemma_equal_parts_equal_shares(a, es, w, i, j);
    }
}

proof fn lemma_equal_parts_equal_shares<A: Arithmetic + ?Sized>(
    a: &A,
    v: Seq<Double>,
    w: Seq<Double>,
    i: int,
    j: int,
)
    requires
        forall|x: Double, y: Double, d: Double, e: Double|
            #[trigger] is_over(a, x, y, d) && #[trigger] is_over(a, x, y, e) ==> d == e,
        is_normalized(a, v, w),
        0 <= i < v.len(),
        0 <= j < v.len(),
        v[i] == v[j],
    ensures
        w[i] == w[j],
{
    let total = choose|total: Double|
        #[trigger] is_sum(a, v, total) && (if not_positive(total) {
            exists|n: Double, share: Double|
                #[trigger] is_count(a, v.len() as usize, n) && #[trigger] is_over(
                    a,
                    unit(),
                    n,
                    share,
                ) && forall|i: int| 0 <= i < w.len() ==> #[trigger] w[i] == share
        } else {
            forall|i: int| 0 <= i < w.len() ==> is_over(a, v[i], total, #[trigger] w[i])
        });
    if !not_positive(total) {
        assert(is_over(a, v[i], total, w[i]));
        assert(is_over(a, v[j], total, w[j]));
    }
}

/// The rating that counts for a judge is its own, for the area or for every area, and of the best kind
/// that there is: one that tells something goes before one that tells nothing, and among these one for
/// the area before one for every area; of two of one kind the first counts.
pub proof fn the_rating_that_counts(
    ratings: Seq<RatingRecord>,
    slug: Seq<char>,
    area: Option<Seq<char>>,
    k: int,
)
    requires
        0 <= k < ratings.len(),
        ratings[k].subject == RatingSubject::Judge,
        ratings[k].model_slug@ == slug,
        (area is Some && ratings[k].training_area.deep_view() == area) || ratings[k].training_area is None,
    ensures
        ({
            let near = |r: RatingRecord| area is Some && r.training_area.deep_view() == area;
            let tells = |r: RatingRecord|
                r.n_updates > 0 && (r.mean_brier is Some || r.mean_log_score is Some);
            rating_at(ratings, slug, area) matches Some(i) && 0 <= i < ratings.len()
                && ratings[i].subject == RatingSubject::Judge && ratings[i].model_slug@ == slug && (near(
                ratings[i],
            ) || ratings[i].training_area is None) && (tells(ratings[k]) ==> tells(ratings[i])) && (near(
                ratings[k],
            ) && tells(ratings[k]) == tells(ratings[i]) ==> near(ratings[i])) && (near(ratings[k])
                == near(ratings[i]) && tells(ratings[k]) == tells(ratings[i]) ==> i <= k)
        }),
{
    let best = |r: RatingRecord| rates_in(r, slug, area) && usable(r);
    let good = |r: RatingRecord| rates_globally(r, slug) && usable(r);
    let some = |r: RatingRecord| rates_in(r, slug, area);
    let any = |r: RatingRecord| rates_globally(r, slug);
    lemma_first_rating_is_first(ratings, best);
    lemma_first_rating_is_first(ratings, good);
    lemma_first_rating_is_first(ratings, some);
    lemma_first_rating_is_first(ratings, any);
    assert(best(ratings[k]) == (rates_in(ratings[k], slug, area) && usable(ratings[k])));
    assert(good(ratings[k]) == (rates_globally(ratings[k], slug) && usable(ratings[k])));
    assert(some(ratings[k]) == rates_in(ratings[k], slug, area));
    assert(any(ratings[k]) == rates_globally(ratings[k], slug));
}

proof fn lemma_first_rating_is_first(ratings: Seq<RatingRecord>, wanted: spec_fn(RatingRecord) -> bool)
    ensures
        match first_rating(ratings, wanted) {
            Some(i) => 0 <= i < ratings.len() && wanted(ratings[i]) && forall|k: int|
                0 <= k < i ==> !wanted(#[trigger] ratings[k]),
            None => forall|k: int| 0 <= k < ratings.len() ==> !wanted(#[trigger] ratings[k]),
        },
    decreases ratings.len(),
{
    if ratings.len() > 0 {
        let before = ratings.drop_last();
        lemma_first_rating_is_first(before, wanted);
        assert forall|k: int| 0 <= k < before.len() implies #[trigger] ratings[k] == before[k] by {}
        match first_rating(before, wanted) {
            Some(i) => {
                assert forall|k: int| 0 <= k < i implies !wanted(#[trigger] ratings[k]) by {
                    assert(before[k] == ratings[k]);
                }
            },
            None => {
                assert forall|k: int| 0 <= k < before.len() implies !wanted(#[trigger] ratings[k]) by {
                    assert(before[k] == ratings[k]);
                }
            },
        }
    }
}

/// Who is not rated weighs nothing by ratings: a rating that is not a judge's, not of this model, or of
/// another area, never counts for a judge.
pub proof fn foreign_ratings_never_count(
    ratings: Seq<RatingRecord>,
    slug: Seq<char>,
    area: Option<Seq<char>>,
)
    ensures
        rating_at(ratings, slug, area) is None <==> forall|k: int|
            0 <= k < ratings.len() ==> !((#[trigger] ratings[k]).subject == RatingSubject::Judge
                && ratings[k].model_slug@ == slug && (ratings[k].training_area is None || (area is Some
                && ratings[k].training_area.deep_view() == area))),
{
    let best = |r: RatingRecord| rates_in(r, slug, area) && usable(r);
    let good = |r: RatingRecord| rates_globally(r, slug) && usable(r);
    let some = |r: RatingRecord| rates_in(r, slug, area);
    let any = |r: RatingRecord| rates_globally(r, slug);
    lemma_first_rating_is_first(ratings, best);
    lemma_first_rating_is_first(ratings, good);
    lemma_first_rating_is_first(ratings, some);
    lemma_first_rating_is_first(ratings, any);
    assert forall|k: int| 0 <= k < ratings.len() implies (some(#[trigger] ratings[k]) || any(ratings[k]))
        == (ratings[k].subject == RatingSubject::Judge && ratings[k].model_slug@ == slug && (
    ratings[k].training_area is None || (area is Some && ratings[k].training_area.deep_view() == area))) by {}
}

/// A judge without a track record neither dominates nor starves: it takes the mean of the penalties that
/// are known, and weighs no more than a judge whose penalty the mean does not fall below, and no less
/// than one whose penalty the mean does not exceed.
pub proof fn an_unproven_judge_takes_the_mean<A: Arithmetic + ?Sized>(
    a: &A,
    penalties: Seq<Option<Double>>,
    w: Seq<Double>,
    new: int,
    i: int,
    j: int,
)
    requires
        keeps_order(a),
        are_weights_of(a, penalties, w),
        0 <= new < penalties.len(),
        0 <= i < penalties.len(),
        0 <= j < penalties.len(),
        penalties[new] is None,
        penalties[i] is Some,
        penalties[j] is Some,
        forall|xs: Seq<Double>, total: Double, n: Double, mean: Double|
            #[trigger] is_sum(a, xs, total) && #[trigger] is_count(a, xs.len() as usize, n)
                && #[trigger] is_over(a, total, n, mean) && xs.to_multiset() == told_penalties(penalties)
                ==> mean.at_least(penalties[i]->0) && penalties[j]->0.at_least(mean),
    ensures
        w[new].nan() || w[i].nan() || w[i].at_least(w[new]),
        w[new].nan() || w[j].nan() || w[new].at_least(w[j]),
{
    lemma_known(penalties, i);
    lemma_known_are_told(penalties);
    let (total, n, prior) = choose|total: Double, n: Double, prior: Double|
        #[trigger] is_sum(a, known(penalties), total) && #[trigger] is_count(
            a,
            known(penalties).len() as usize,
            n,
        ) && #[trigger] is_over(a, total, n, prior) && is_softmax(a, filled(penalties, prior), w);
    let all = filled(penalties, prior);
    let es = choose|es: Seq<Double>|
        es.len() == all.len() && (forall|i: int|
            0 <= i < es.len() ==> is_decay(a, all[i], least(all), #[trigger] es[i]))
            && #[trigger] is_normalized(a, es, w);
    assert(is_decay(a, all[i], least(all), es[i]));
    assert(is_decay(a, all[j], least(all), es[j]));
    assert(is_decay(a, all[new], least(all), es[new]));
    lemma_lower_decays_less(a, all[i], all[new], least(all), es[i], es[new]);
    lemma_lower_decays_less(a, all[new], all[j], least(all), es[new], es[j]);
    lemma_normalized_keeps_order(a, es, w, i, new);
    lemma_normalized_keeps_order(a, es, w, new, j);
}

/// The penalties that are known, however they are ordered.
pub open spec fn told_penalties(penalties: Seq<Option<Double>>) -> Multiset<Double>
    decreases penalties.len(),
{
    if penalties.len() == 0 {
        Multiset::empty()
    } else {
        match penalties.last() {
            Some(p) => told_penalties(penalties.drop_last()).insert(p),
            None => told_penalties(penalties.drop_last()),
        }
    }
}

proof fn lemma_known_are_told(penalties: Seq<Option<Double>>)
    ensures
        known(penalties).to_multiset() == told_penalties(penalties),
    decreases penalties.len(),
{
    broadcast use vstd::seq_lib::group_to_multiset_ensures;

    if penalties.len() > 0 {
        lemma_known_are_told(penalties.drop_last());
    } else {
        assert(known(penalties).to_multiset() =~= Multiset::empty());
    }
}

} // verus!
