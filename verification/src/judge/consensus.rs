//! The consensus of a panel.
//!
//! The aggregate of a panel is never a plain mean: each judge counts by its calibration weight, and
//! whether the aggregate may be trusted is told by the effective number of independent judges,
//! `(sum w)^2 / (w R w)`, where `R` holds how the judges correlate. A negative correlation counts
//! as none, so that no panel counts for more judges than it has.

use vstd::prelude::*;

use crate::arithmetic::{sum, Arithmetic};
use crate::arithmetic::{
    is_count,
    is_minus,
    is_over,
    is_plus,
    is_shown,
    is_sum,
    is_times,
    not_positive,
};
use crate::double::Double;
use crate::judge::error::{JudgeError, JudgeErrorView};
use crate::text::{decimal_text, joined};
use crate::text::decimal;

verus! {

/// How the judges of a panel correlate: a square matrix.
#[derive(Debug, PartialEq)]
pub struct CorrelationMatrix {
    rows: Vec<Vec<Double>>,
}

/// The double one.
pub open spec fn unit() -> Double {
    Double { bits: 0x3ff0_0000_0000_0000 }
}

/// The double zero.
pub open spec fn nought() -> Double {
    Double { bits: 0 }
}

/// Whether a matrix has as many columns as rows.
pub open spec fn square(rows: Seq<Seq<Double>>) -> bool {
    forall|i: int| 0 <= i < rows.len() ==> (#[trigger] rows[i]).len() == rows.len()
}

spec fn rows_view(rows: Seq<Vec<Double>>) -> Seq<Seq<Double>> {
    Seq::new(rows.len(), |i: int| rows[i]@)
}

/// The matrix of `k` judges in which every two share the correlation `rho`.
pub open spec fn shared(k: nat, rho: Double) -> Seq<Seq<Double>> {
    Seq::new(
        k,
        |i: int|
            Seq::new(
                k,
                |j: int|
                    if i == j {
                        unit()
                    } else {
                        rho
                    },
            ),
    )
}

/// The rows and columns of a matrix that `kept` picks.
pub open spec fn picked(rows: Seq<Seq<Double>>, kept: Seq<usize>) -> Seq<Seq<Double>> {
    Seq::new(
        kept.len(),
        |p: int| Seq::new(kept.len(), |q: int| rows[kept[p] as int][kept[q] as int]),
    )
}

/// The indices among `indices` that a matrix of `k` judges has.
pub open spec fn in_range(indices: Seq<usize>, k: nat) -> Seq<usize> {
    indices.filter(|i: usize| i < k)
}

/// Whether `near` may be told of `v` and `want`: that they differ by at most a millionth of a
/// millionth.
pub open spec fn nearness<A: Arithmetic + ?Sized>(
    a: &A,
    v: Double,
    want: Double,
    near: bool,
) -> bool {
    exists|d: Double|
        #[trigger] is_minus(a, v, want, d) && near == !(Double {
            bits: 0x3d71_9799_812d_ea11,
        }).below(d.unsigned())
}

/// What an identity matrix has at row `i` and column `j`.
pub open spec fn identity_entry(i: int, j: int) -> Double {
    if i == j {
        unit()
    } else {
        nought()
    }
}

/// Whether `r` may be told of a matrix: that it is an identity, not an empty one.
pub open spec fn identity_told<A: Arithmetic + ?Sized>(
    a: &A,
    rows: Seq<Seq<Double>>,
    r: bool,
) -> bool {
    if r {
        rows.len() > 0 && forall|i: int, j: int|
            0 <= i < rows.len() && 0 <= j < rows.len() ==> nearness(
                a,
                #[trigger] rows[i][j],
                identity_entry(i, j),
                true,
            )
    } else {
        rows.len() == 0 || exists|i: int, j: int|
            0 <= i < rows.len() && 0 <= j < rows.len() && nearness(
                a,
                #[trigger] rows[i][j],
                identity_entry(i, j),
                false,
            )
    }
}

impl View for CorrelationMatrix {
    type V = Seq<Seq<Double>>;

    closed spec fn view(&self) -> Seq<Seq<Double>> {
        rows_view(self.rows@)
    }
}

impl Clone for CorrelationMatrix {
    fn clone(&self) -> (r: CorrelationMatrix)
        ensures
            r@ == self@,
    {
        proof {
            use_type_invariant(self);
        }
        let mut rows: Vec<Vec<Double>> = Vec::new();
        let mut i: usize = 0;
        while i < self.rows.len()
            invariant
                i <= self.rows@.len(),
                rows@.len() == i,
                forall|p: int| 0 <= p < i ==> (#[trigger] rows@[p])@ == self.rows@[p]@,
            decreases self.rows@.len() - i,
        {
            rows.push(self.rows[i].clone());
            i += 1;
        }
        assert(rows_view(rows@) =~= rows_view(self.rows@));
        CorrelationMatrix { rows }
    }
}

impl CorrelationMatrix {
    #[verifier::type_invariant]
    spec fn well_formed(self) -> bool {
        square(rows_view(self.rows@))
    }

    /// Judges that do not correlate.
    #[must_use]
    pub fn identity(k: usize) -> (m: CorrelationMatrix)
        ensures
            m@ == shared(k as nat, nought()),
    {
        CorrelationMatrix::uniform_offdiagonal(k, Double::zero())
    }

    /// Judges of whom every two share the correlation `rho`.
    #[must_use]
    pub fn uniform_offdiagonal(k: usize, rho: Double) -> (m: CorrelationMatrix)
        ensures
            m@ == shared(k as nat, rho),
    {
        let mut rows: Vec<Vec<Double>> = Vec::new();
        let mut i: usize = 0;
        while i < k
            invariant
                i <= k,
                rows@.len() == i,
                forall|p: int|
                    0 <= p < i ==> (#[trigger] rows@[p])@ == shared(k as nat, rho)[p],
            decreases k - i,
        {
            let mut row: Vec<Double> = Vec::new();
            let mut j: usize = 0;
            while j < k
                invariant
                    i < k,
                    j <= k,
                    row@.len() == j,
                    forall|q: int|
                        0 <= q < j ==> #[trigger] row@[q] == shared(k as nat, rho)[i as int][q],
                decreases k - j,
            {
                row.push(
                    if i == j {
                        Double::one()
                    } else {
                        rho
                    },
                );
                j += 1;
            }
            assert(row@ =~= shared(k as nat, rho)[i as int]);
            rows.push(row);
            i += 1;
        }
        assert(rows_view(rows@) =~= shared(k as nat, rho));
        CorrelationMatrix { rows }
    }

    /// The matrix with the given rows, provided that it is square.
    pub fn from_rows(rows: Vec<Vec<Double>>) -> (r: Result<CorrelationMatrix, JudgeError>)
        ensures
            ({
                let given = Seq::new(rows@.len(), |i: int| rows@[i]@);
                match r {
                    Ok(m) => square(given) && m@ == given,
                    Err(e) => !square(given) && e.deep_view() == JudgeErrorView::Invariant(
                        "correlation matrix must be square; got "@ + decimal(rows@.len())
                            + " rows with mismatched widths"@,
                    ),
                }
            }),
    {
        let k: usize = rows.len();
        let ghost given = Seq::new(rows@.len(), |i: int| rows@[i]@);
        let mut i: usize = 0;
        while i < k
            invariant
                i <= k,
                k == rows@.len(),
                given == Seq::new(rows@.len(), |i: int| rows@[i]@),
                forall|p: int| 0 <= p < i ==> (#[trigger] given[p]).len() == k,
            decreases k - i,
        {
            if rows[i].len() != k {
                assert(given[i as int].len() != k);
                let digits = decimal_text(k as u64);
                let mut m = joined("correlation matrix must be square; got ", digits.as_str());
                m.append(" rows with mismatched widths");
                return Err(JudgeError::Invariant(m));
            }
            i += 1;
        }
        assert(rows_view(rows@) =~= given);
        Ok(CorrelationMatrix { rows })
    }

    /// The number of judges.
    #[must_use]
    pub fn dim(&self) -> (k: usize)
        ensures
            k == self@.len(),
    {
        self.rows.len()
    }

    /// Whether the judges do not correlate. There is no such panel without judges.
    #[must_use]
    pub fn is_identity<A: Arithmetic + ?Sized>(&self, a: &A) -> (r: bool)
        ensures
            identity_told(a, self@, r),
    {
        proof {
            use_type_invariant(self);
        }
        let k: usize = self.rows.len();
        let mut i: usize = 0;
        while i < k
            invariant
                i <= k,
                k == self@.len(),
                square(self@),
                self@ == rows_view(self.rows@),
                forall|p: int, q: int|
                    0 <= p < i && 0 <= q < k ==> nearness(
                        a,
                        #[trigger] self@[p][q],
                        identity_entry(p, q),
                        true,
                    ),
            decreases k - i,
        {
            let mut j: usize = 0;
            assert(self@[i as int].len() == k);
            while j < k
                invariant
                    i < k,
                    j <= k,
                    k == self@.len(),
                    square(self@),
                    self@ == rows_view(self.rows@),
                    self.rows@[i as int]@.len() == k,
                    forall|q: int|
                        0 <= q < j ==> nearness(
                            a,
                            #[trigger] self@[i as int][q],
                            identity_entry(i as int, q),
                            true,
                        ),
                decreases k - j,
            {
                let want = if i == j {
                    Double::one()
                } else {
                    Double::zero()
                };
                let v = self.rows[i][j];
                let d = a.minus(v, want);
                assert(self@[i as int][j as int] == v);
                assert(is_minus(a, v, want, d));
                if (Double { bits: 0x3d71_9799_812d_ea11 }).is_below(d.abs()) {
                    assert(nearness(a, v, want, false));
                    return false;
                }
                assert(nearness(a, v, want, true));
                j += 1;
            }
            i += 1;
        }
        k > 0
    }

    /// The matrix of the judges at `indices`, in that order; indices out of range are skipped.
    #[must_use]
    pub fn submatrix(&self, indices: &[usize]) -> (m: CorrelationMatrix)
        ensures
            m@ == picked(self@, in_range(indices@, self@.len())),
    {
        proof {
            use_type_invariant(self);
        }
        let k: usize = self.rows.len();
        let ghost kept_view = in_range(indices@, self@.len());
        let ghost wanted = |i: usize| i < self@.len();
        let mut kept: Vec<usize> = Vec::new();
        let mut n: usize = 0;
        assert(indices@.take(0).filter(wanted) =~= Seq::empty());
        while n < indices.len()
            invariant
                n <= indices@.len(),
                k == self@.len(),
                wanted == (|i: usize| i < self@.len()),
                kept@ == indices@.take(n as int).filter(wanted),
                forall|p: int| 0 <= p < kept@.len() ==> (#[trigger] kept@[p]) < k,
            decreases indices@.len() - n,
        {
            proof {
                let t = indices@.take(n as int);
                assert(indices@.take(n + 1) =~= t.push(indices@[n as int]));
                t.lemma_filter_push(indices@[n as int], wanted);
            }
            if indices[n] < k {
                kept.push(indices[n]);
            }
            n += 1;
        }
        assert(indices@.take(n as int) =~= indices@);
        let ghost goal = picked(self@, kept@);
        let mut rows: Vec<Vec<Double>> = Vec::new();
        let mut p: usize = 0;
        while p < kept.len()
            invariant
                p <= kept@.len(),
                k == self@.len(),
                square(self@),
                self@ == rows_view(self.rows@),
                goal == picked(self@, kept@),
                forall|x: int| 0 <= x < kept@.len() ==> (#[trigger] kept@[x]) < k,
                rows@.len() == p,
                forall|x: int| 0 <= x < p ==> (#[trigger] rows@[x])@ == goal[x],
            decreases kept@.len() - p,
        {
            let mut row: Vec<Double> = Vec::new();
            let mut q: usize = 0;
            assert(self@[kept@[p as int] as int].len() == k);
            while q < kept.len()
                invariant
                    p < kept@.len(),
                    q <= kept@.len(),
                    k == self@.len(),
                    self@ == rows_view(self.rows@),
                    goal == picked(self@, kept@),
                    forall|x: int| 0 <= x < kept@.len() ==> (#[trigger] kept@[x]) < k,
                    self.rows@[kept@[p as int] as int]@.len() == k,
                    row@.len() == q,
                    forall|y: int| 0 <= y < q ==> #[trigger] row@[y] == goal[p as int][y],
                decreases kept@.len() - q,
            {
                row.push(self.rows[kept[p]][kept[q]]);
                q += 1;
            }
            assert(row@ =~= goal[p as int]);
            rows.push(row);
            p += 1;
        }
        assert(rows_view(rows@) =~= goal);
        CorrelationMatrix { rows }
    }

    fn entry(&self, i: usize, j: usize) -> (r: Double)
        requires
            i < self@.len(),
            j < self@.len(),
        ensures
            r == self@[i as int][j as int],
    {
        proof {
            use_type_invariant(self);
            assert(self@[i as int].len() == self@.len());
        }
        self.rows[i][j]
    }
}

/// What is wrong with a number.
#[derive(Clone, Copy)]
enum Fault {
    Improper,
    Infinite,
    Negative,
}

spec fn faulty(fault: Fault, x: Double) -> bool {
    match fault {
        Fault::Improper => improper(x),
        Fault::Infinite => !x.finite(),
        Fault::Negative => x.below(nought()),
    }
}

/// Whether a weight is no finite number, or negative.
pub open spec fn improper(x: Double) -> bool {
    !x.finite() || x.below(nought())
}

/// The first of `xs` that `bad` picks.
pub open spec fn first_where(xs: Seq<Double>, bad: spec_fn(Double) -> bool) -> Option<Double>
    decreases xs.len(),
{
    if xs.len() == 0 {
        None
    } else {
        match first_where(xs.drop_last(), bad) {
            Some(x) => Some(x),
            None => if bad(xs.last()) {
                Some(xs.last())
            } else {
                None
            },
        }
    }
}

proof fn lemma_first_stays(xs: Seq<Double>, bad: spec_fn(Double) -> bool, n: int)
    requires
        0 <= n <= xs.len(),
        first_where(xs.take(n), bad) is Some,
    ensures
        first_where(xs, bad) == first_where(xs.take(n), bad),
    decreases xs.len() - n,
{
    if n < xs.len() {
        assert(xs.take(n + 1).drop_last() =~= xs.take(n));
        lemma_first_stays(xs, bad, n + 1);
    } else {
        assert(xs.take(n) =~= xs);
    }
}

fn find_fault(xs: &[Double], fault: Fault) -> (r: Option<Double>)
    ensures
        r == first_where(xs@, |x: Double| faulty(fault, x)),
{
    let ghost bad = |x: Double| faulty(fault, x);
    let mut i: usize = 0;
    assert(xs@.take(0) =~= Seq::empty());
    while i < xs.len()
        invariant
            i <= xs@.len(),
            bad == (|x: Double| faulty(fault, x)),
            first_where(xs@.take(i as int), bad) is None,
        decreases xs@.len() - i,
    {
        let x = xs[i];
        proof {
            assert(xs@.take(i + 1).drop_last() =~= xs@.take(i as int));
            assert(xs@.take(i + 1).last() == x);
        }
        let hit = match fault {
            Fault::Improper => !x.is_finite() || x.is_below(Double::zero()),
            Fault::Infinite => !x.is_finite(),
            Fault::Negative => x.is_below(Double::zero()),
        };
        if hit {
            proof {
                assert(bad(x));
                lemma_first_stays(xs@, bad, i + 1);
            }
            return Some(x);
        }
        assert(!bad(x));
        i += 1;
    }
    assert(xs@.take(i as int) =~= xs@);
    None
}

proof fn lemma_same_pick(
    xs: Seq<Double>,
    f: spec_fn(Double) -> bool,
    g: spec_fn(Double) -> bool,
)
    requires
        forall|x: Double| #[trigger] f(x) == g(x),
    ensures
        first_where(xs, f) == first_where(xs, g),
    decreases xs.len(),
{
    if xs.len() > 0 {
        lemma_same_pick(xs.drop_last(), f, g);
    }
}

/// How two judges correlate in the quadratic form: a judge with itself fully, two that correlate
/// negatively not at all.
pub open spec fn correlation(rows: Seq<Seq<Double>>, i: int, j: int) -> Double {
    if i == j {
        unit()
    } else {
        rows[i][j].greater(nought())
    }
}

/// `t` may be `before + wi * r * wj`.
pub open spec fn is_term<A: Arithmetic + ?Sized>(
    a: &A,
    before: Double,
    wi: Double,
    r: Double,
    wj: Double,
    t: Double,
) -> bool {
    exists|u: Double, v: Double|
        #[trigger] is_times(a, wi, r, u) && is_times(a, u, wj, v) && #[trigger] is_plus(
            a,
            before,
            v,
            t,
        )
}

/// `t` may be the quadratic form of the weights over the first `i` rows and the first `j` columns
/// of row `i`, added row by row.
pub open spec fn is_form<A: Arithmetic + ?Sized>(
    a: &A,
    weights: Seq<Double>,
    rows: Seq<Seq<Double>>,
    i: nat,
    j: nat,
    t: Double,
) -> bool
    decreases i, j,
{
    if j > 0 {
        exists|before: Double|
            is_form(a, weights, rows, i, (j - 1) as nat, before) && #[trigger] is_term(
                a,
                before,
                weights[i as int],
                correlation(rows, i as int, j - 1),
                weights[j - 1],
                t,
            )
    } else if i > 0 {
        is_form(a, weights, rows, (i - 1) as nat, weights.len(), t)
    } else {
        t == nought()
    }
}

/// An error about a broken rule.
pub open spec fn broken(words: Seq<char>) -> Result<Double, JudgeErrorView> {
    Err(JudgeErrorView::Invariant(words))
}

/// `r` may be `total^2 / form`, but no more than the number of judges.
pub open spec fn is_effect<A: Arithmetic + ?Sized>(
    a: &A,
    k: usize,
    total: Double,
    form: Double,
    r: Double,
) -> bool {
    exists|squared: Double, quotient: Double, judges: Double|
        #[trigger] is_times(a, total, total, squared) && #[trigger] is_over(
            a,
            squared,
            form,
            quotient,
        ) && #[trigger] is_count(a, k, judges) && r == quotient.lesser(judges)
}

/// What may come out of the quadratic form, once it is known.
pub open spec fn effect_of_form<A: Arithmetic + ?Sized>(
    a: &A,
    weights: Seq<Double>,
    rows: Seq<Seq<Double>>,
    total: Double,
    r: Result<Double, JudgeErrorView>,
) -> bool {
    exists|form: Double|
        #[trigger] is_form(a, weights, rows, weights.len(), 0, form) && (if not_positive(form) {
            r == broken("wᵀRw is non-positive; design effect is undefined"@)
        } else {
            r matches Ok(n) && is_effect(a, weights.len() as usize, total, form, n)
        })
}

/// What may come out as the effective number of independent judges: an error for a panel without
/// judges, for a matrix of another size, for a weight that is no finite number or negative, and for
/// weights that amount to nothing.
pub open spec fn is_effective_n<A: Arithmetic + ?Sized>(
    a: &A,
    weights: Seq<Double>,
    rows: Seq<Seq<Double>>,
    r: Result<Double, JudgeErrorView>,
) -> bool {
    if weights.len() == 0 {
        r == Err::<Double, JudgeErrorView>(
            JudgeErrorView::EmptyPanel("effective_n requires at least one judge weight"@),
        )
    } else if rows.len() != weights.len() {
        r == broken(
            "weight vector length "@ + decimal(weights.len()) + " != correlation matrix dim "@
                + decimal(rows.len()),
        )
    } else {
        match first_where(weights, |x: Double| improper(x)) {
            Some(bad) => exists|shown: Seq<char>|
                #[trigger] is_shown(a, bad, shown) && r == broken(
                    "calibration weight must be finite and non-negative; got "@ + shown,
                ),
            None => exists|total: Double|
                #[trigger] is_sum(a, weights, total) && (if not_positive(total) {
                    r == broken(
                        "calibration weights sum to zero; design effect is undefined"@,
                    )
                } else {
                    effect_of_form(a, weights, rows, total, r)
                }),
        }
    }
}

/// A result, its error as mathematics.
pub open spec fn told(r: Result<Double, JudgeError>) -> Result<Double, JudgeErrorView> {
    match r {
        Ok(x) => Ok(x),
        Err(e) => Err(e.deep_view()),
    }
}

fn quadratic_form<A: Arithmetic + ?Sized>(
    a: &A,
    weights: &[Double],
    r: &CorrelationMatrix,
) -> (t: Double)
    requires
        r@.len() == weights@.len(),
    ensures
        is_form(a, weights@, r@, weights@.len(), 0, t),
{
    let k: usize = weights.len();
    let mut t = Double::zero();
    let mut i: usize = 0;
    while i < k
        invariant
            i <= k,
            k == weights@.len(),
            k == r@.len(),
            is_form(a, weights@, r@, i as nat, 0, t),
        decreases k - i,
    {
        let mut j: usize = 0;
        while j < k
            invariant
                i < k,
                j <= k,
                k == weights@.len(),
                k == r@.len(),
                is_form(a, weights@, r@, i as nat, j as nat, t),
            decreases k - j,
        {
            let c = if i == j {
                Double::one()
            } else {
                r.entry(i, j).max_with(Double::zero())
            };
            let ghost before = t;
            let u = a.times(weights[i], c);
            let v = a.times(u, weights[j]);
            t = a.plus(t, v);
            proof {
                assert(c == correlation(r@, i as int, j as int));
                assert(is_times(a, weights@[i as int], c, u));
                assert(is_times(a, u, weights@[j as int], v));
                assert(is_plus(a, before, v, t));
                let next = (j + 1) as nat;
                assert(is_form(a, weights@, r@, i as nat, (next - 1) as nat, before));
                assert(is_term(
                    a,
                    before,
                    weights@[i as int],
                    correlation(r@, i as int, next - 1),
                    weights@[next - 1],
                    t,
                ));
                assert(is_form(a, weights@, r@, i as nat, next, t));
            }
            j += 1;
        }
        i += 1;
        assert(is_form(a, weights@, r@, i as nat, 0, t));
    }
    t
}

fn refuse<A: Arithmetic + ?Sized>(a: &A, words: &str, bad: Double) -> (e: JudgeError)
    ensures
        exists|shown: Seq<char>|
            #[trigger] is_shown(a, bad, shown) && e.deep_view() == JudgeErrorView::Invariant(
                words@ + shown,
            ),
{
    let shown = a.show(bad);
    assert(call_ensures(A::show, (a, bad), shown));
    assert(is_shown(a, bad, shown@));
    JudgeError::Invariant(joined(words, shown.as_str()))
}

/// The effective number of independent judges, `(sum w)^2 / (w R w)`, no more than the number of
/// judges.
pub fn effective_n<A: Arithmetic + ?Sized>(
    weights: &[Double],
    r: &CorrelationMatrix,
    a: &A,
) -> (n: Result<Double, JudgeError>)
    ensures
        is_effective_n(a, weights@, r@, told(n)),
{
    let k: usize = weights.len();
    if k == 0 {
        return Err(
            JudgeError::EmptyPanel("effective_n requires at least one judge weight".to_owned()),
        );
    }
    if r.dim() != k {
        let left = decimal_text(k as u64);
        let right = decimal_text(r.dim() as u64);
        let mut m = joined("weight vector length ", left.as_str());
        m.append(" != correlation matrix dim ");
        m.append(right.as_str());
        return Err(JudgeError::Invariant(m));
    }
    proof {
        lemma_same_pick(
            weights@,
            |x: Double| improper(x),
            |x: Double| faulty(Fault::Improper, x),
        );
    }
    if let Some(bad) = find_fault(weights, Fault::Improper) {
        return Err(
            refuse(a, "calibration weight must be finite and non-negative; got ", bad),
        );
    }
    let total = sum(a, weights);
    if Double::zero().is_at_least(total) {
        return Err(
            JudgeError::Invariant(
                "calibration weights sum to zero; design effect is undefined".to_owned(),
            ),
        );
    }
    let form = quadratic_form(a, weights, r);
    if Double::zero().is_at_least(form) {
        let e = JudgeError::Invariant(
            "wᵀRw is non-positive; design effect is undefined".to_owned(),
        );
        assert(effect_of_form(a, weights@, r@, total, Err(e.deep_view())));
        return Err(e);
    }
    let squared = a.times(total, total);
    let quotient = a.over(squared, form);
    let judges = a.count(k);
    let n = quotient.min_with(judges);
    proof {
        assert(is_times(a, total, total, squared));
        assert(is_over(a, squared, form, quotient));
        assert(is_count(a, k, judges));
        assert(is_effect(a, k, total, form, n));
        assert(effect_of_form(a, weights@, r@, total, Ok(n)));
    }
    Ok(n)
}

/// The effective number of judges by their weights alone: that of judges who do not correlate.
pub fn kish_effective_n<A: Arithmetic + ?Sized>(weights: &[Double], a: &A) -> (n: Result<
    Double,
    JudgeError,
>)
    ensures
        is_effective_n(
            a,
            weights@,
            shared(
                if weights@.len() == 0 {
                    1
                } else {
                    weights@.len()
                },
                nought(),
            ),
            told(n),
        ),
{
    let k: usize = if weights.len() == 0 {
        1
    } else {
        weights.len()
    };
    let r = CorrelationMatrix::identity(k);
    effective_n(weights, &r, a)
}

/// `ps` may be the products of `xs` and `ys`.
pub open spec fn are_products<A: Arithmetic + ?Sized>(
    a: &A,
    xs: Seq<Double>,
    ys: Seq<Double>,
    ps: Seq<Double>,
) -> bool {
    ps.len() == xs.len() && forall|i: int|
        0 <= i < xs.len() ==> is_times(a, xs[i], ys[i], #[trigger] ps[i])
}

/// `r` may be the mean of the scores, each counted by its weight, held between zero and one.
pub open spec fn is_weighted_mean<A: Arithmetic + ?Sized>(
    a: &A,
    scores: Seq<Double>,
    weights: Seq<Double>,
    total: Double,
    r: Double,
) -> bool {
    exists|ps: Seq<Double>, dot: Double, quotient: Double|
        #[trigger] are_products(a, scores, weights, ps) && #[trigger] is_sum(a, ps, dot)
            && #[trigger] is_over(a, dot, total, quotient) && r == quotient.held()
}

/// What may come out as the aggregate of a panel: an error for a panel without judges, for scores
/// and weights that do not go together, for a number that is not finite, for a negative weight, and
/// for weights that amount to nothing.
pub open spec fn is_aggregate<A: Arithmetic + ?Sized>(
    a: &A,
    scores: Seq<Double>,
    weights: Seq<Double>,
    r: Result<Double, JudgeErrorView>,
) -> bool {
    if scores.len() == 0 || weights.len() == 0 {
        r == Err::<Double, JudgeErrorView>(
            JudgeErrorView::EmptyPanel("weighted_aggregate requires at least one judge"@),
        )
    } else if scores.len() != weights.len() {
        r == broken(
            "score/weight length mismatch: "@ + decimal(scores.len()) + " scores vs "@ + decimal(
                weights.len(),
            ) + " weights"@,
        )
    } else {
        match first_infinite(scores, weights) {
            Some(bad) => exists|shown: Seq<char>|
                #[trigger] is_shown(a, bad, shown) && r == broken(
                    "score/weight must be finite; got "@ + shown,
                ),
            None => match first_where(weights, |x: Double| x.below(nought())) {
                Some(bad) => exists|shown: Seq<char>|
                    #[trigger] is_shown(a, bad, shown) && r == broken(
                        "calibration weight must be non-negative; got "@ + shown,
                    ),
                None => exists|total: Double|
                    #[trigger] is_sum(a, weights, total) && (if not_positive(total) {
                        r == broken("weights sum to zero; weighted aggregate is undefined"@)
                    } else {
                        r matches Ok(x) && is_weighted_mean(a, scores, weights, total, x)
                    }),
            },
        }
    }
}

/// The first number among the scores, or else among the weights, that is not finite.
pub open spec fn first_infinite(scores: Seq<Double>, weights: Seq<Double>) -> Option<Double> {
    match first_where(scores, |x: Double| !x.finite()) {
        Some(x) => Some(x),
        None => first_where(weights, |x: Double| !x.finite()),
    }
}

fn find_infinite(scores: &[Double], weights: &[Double]) -> (r: Option<Double>)
    ensures
        r == first_infinite(scores@, weights@),
{
    proof {
        let f = |x: Double| !x.finite();
        let g = |x: Double| faulty(Fault::Infinite, x);
        lemma_same_pick(scores@, f, g);
        lemma_same_pick(weights@, f, g);
    }
    match find_fault(scores, Fault::Infinite) {
        Some(x) => Some(x),
        None => find_fault(weights, Fault::Infinite),
    }
}

fn products<A: Arithmetic + ?Sized>(a: &A, xs: &[Double], ys: &[Double]) -> (ps: Vec<Double>)
    requires
        xs@.len() == ys@.len(),
    ensures
        are_products(a, xs@, ys@, ps@),
{
    let mut ps: Vec<Double> = Vec::new();
    let mut i: usize = 0;
    while i < xs.len()
        invariant
            i <= xs@.len(),
            xs@.len() == ys@.len(),
            ps@.len() == i,
            forall|p: int| 0 <= p < i ==> is_times(a, xs@[p], ys@[p], #[trigger] ps@[p]),
        decreases xs@.len() - i,
    {
        ps.push(a.times(xs[i], ys[i]));
        i += 1;
    }
    ps
}

/// The aggregate of a panel: the mean of the scores, each counted by its weight, held between zero
/// and one.
pub fn weighted_aggregate<A: Arithmetic + ?Sized>(
    scores: &[Double],
    weights: &[Double],
    a: &A,
) -> (r: Result<Double, JudgeError>)
    ensures
        is_aggregate(a, scores@, weights@, told(r)),
{
    if scores.len() == 0 || weights.len() == 0 {
        return Err(
            JudgeError::EmptyPanel("weighted_aggregate requires at least one judge".to_owned()),
        );
    }
    if scores.len() != weights.len() {
        let left = decimal_text(scores.len() as u64);
        let right = decimal_text(weights.len() as u64);
        let mut m = joined("score/weight length mismatch: ", left.as_str());
        m.append(" scores vs ");
        m.append(right.as_str());
        m.append(" weights");
        return Err(JudgeError::Invariant(m));
    }
    if let Some(bad) = find_infinite(scores, weights) {
        return Err(refuse(a, "score/weight must be finite; got ", bad));
    }
    proof {
        lemma_same_pick(
            weights@,
            |x: Double| x.below(nought()),
            |x: Double| faulty(Fault::Negative, x),
        );
    }
    if let Some(bad) = find_fault(weights, Fault::Negative) {
        return Err(refuse(a, "calibration weight must be non-negative; got ", bad));
    }
    let total = sum(a, weights);
    if Double::zero().is_at_least(total) {
        return Err(
            JudgeError::Invariant(
                "weights sum to zero; weighted aggregate is undefined".to_owned(),
            ),
        );
    }
    let ps = products(a, scores, weights);
    let dot = sum(a, ps.as_slice());
    let quotient = a.over(dot, total);
    let r = quotient.clamped();
    proof {
        assert(are_products(a, scores@, weights@, ps@));
        assert(is_sum(a, ps@, dot));
        assert(is_over(a, dot, total, quotient));
        assert(is_weighted_mean(a, scores@, weights@, total, r));
    }
    Ok(r)
}

/// `qs` may be the squares of how far the scores lie from `mean`.
pub open spec fn are_squares<A: Arithmetic + ?Sized>(
    a: &A,
    scores: Seq<Double>,
    mean: Double,
    qs: Seq<Double>,
) -> bool {
    qs.len() == scores.len() && forall|i: int|
        0 <= i < scores.len() ==> is_square(a, scores[i], mean, #[trigger] qs[i])
}

/// `q` may be the square of `x - mean`.
pub open spec fn is_square<A: Arithmetic + ?Sized>(
    a: &A,
    x: Double,
    mean: Double,
    q: Double,
) -> bool {
    exists|d: Double| #[trigger] is_minus(a, x, mean, d) && is_times(a, d, d, q)
}

/// `r` may be one less the variance of the scores about `mean`, held between zero and one.
pub open spec fn is_closeness<A: Arithmetic + ?Sized>(
    a: &A,
    scores: Seq<Double>,
    n: Double,
    mean: Double,
    r: Double,
) -> bool {
    exists|qs: Seq<Double>, spread: Double, variance: Double, rest: Double|
        #[trigger] are_squares(a, scores, mean, qs) && #[trigger] is_sum(a, qs, spread)
            && #[trigger] is_over(a, spread, n, variance) && #[trigger] is_minus(
            a,
            unit(),
            variance,
            rest,
        ) && r == rest.held()
}

/// What may come out as the agreement of a panel: an error for a panel without judges.
pub open spec fn is_agreement<A: Arithmetic + ?Sized>(
    a: &A,
    scores: Seq<Double>,
    r: Result<Double, JudgeErrorView>,
) -> bool {
    if scores.len() == 0 {
        r == Err::<Double, JudgeErrorView>(
            JudgeErrorView::EmptyPanel("agreement requires at least one judge"@),
        )
    } else {
        r matches Ok(x) && exists|n: Double, total: Double, mean: Double|
            #[trigger] is_count(a, scores.len() as usize, n) && #[trigger] is_sum(a, scores, total)
                && #[trigger] is_over(a, total, n, mean) && is_closeness(a, scores, n, mean, x)
    }
}

fn squares<A: Arithmetic + ?Sized>(a: &A, scores: &[Double], mean: Double) -> (qs: Vec<Double>)
    ensures
        are_squares(a, scores@, mean, qs@),
{
    let mut qs: Vec<Double> = Vec::new();
    let mut i: usize = 0;
    while i < scores.len()
        invariant
            i <= scores@.len(),
            qs@.len() == i,
            forall|p: int| 0 <= p < i ==> is_square(a, scores@[p], mean, #[trigger] qs@[p]),
        decreases scores@.len() - i,
    {
        let d = a.minus(scores[i], mean);
        let q = a.times(d, d);
        assert(is_minus(a, scores@[i as int], mean, d));
        assert(is_square(a, scores@[i as int], mean, q));
        qs.push(q);
        i += 1;
    }
    qs
}

/// How close the scores of a panel lie together: one less their variance, held between zero and
/// one.
pub fn agreement<A: Arithmetic + ?Sized>(scores: &[Double], a: &A) -> (r: Result<
    Double,
    JudgeError,
>)
    ensures
        is_agreement(a, scores@, told(r)),
{
    if scores.len() == 0 {
        return Err(JudgeError::EmptyPanel("agreement requires at least one judge".to_owned()));
    }
    let n = a.count(scores.len());
    let total = sum(a, scores);
    let mean = a.over(total, n);
    let qs = squares(a, scores, mean);
    let spread = sum(a, qs.as_slice());
    let variance = a.over(spread, n);
    let rest = a.minus(Double::one(), variance);
    let r = rest.clamped();
    proof {
        assert(is_count(a, scores@.len() as usize, n));
        assert(is_sum(a, scores@, total));
        assert(is_over(a, total, n, mean));
        assert(are_squares(a, scores@, mean, qs@));
        assert(is_sum(a, qs@, spread));
        assert(is_over(a, spread, n, variance));
        assert(is_minus(a, unit(), variance, rest));
        assert(is_closeness(a, scores@, n, mean, r));
    }
    Ok(r)
}

proof fn lemma_same_form<A: Arithmetic + ?Sized>(
    a: &A,
    weights: Seq<Double>,
    left: Seq<Seq<Double>>,
    right: Seq<Seq<Double>>,
    i: nat,
    j: nat,
    t: Double,
)
    requires
        i <= weights.len(),
        i == weights.len() ==> j == 0,
        j <= weights.len(),
        forall|p: int, q: int|
            0 <= p < weights.len() && 0 <= q < weights.len() ==> #[trigger] correlation(
                left,
                p,
                q,
            ) == correlation(right, p, q),
    ensures
        is_form(a, weights, left, i, j, t) == is_form(a, weights, right, i, j, t),
    decreases i, j,
{
    if j > 0 {
        assert forall|before: Double| #[trigger]
            is_form(a, weights, left, i, (j - 1) as nat, before) == is_form(
                a,
                weights,
                right,
                i,
                (j - 1) as nat,
                before,
            ) by {
            lemma_same_form(a, weights, left, right, i, (j - 1) as nat, before);
        }
        assert(correlation(left, i as int, j - 1) == correlation(right, i as int, j - 1));
        if is_form(a, weights, left, i, j, t) {
            let before = choose|before: Double|
                is_form(a, weights, left, i, (j - 1) as nat, before) && #[trigger] is_term(
                    a,
                    before,
                    weights[i as int],
                    correlation(left, i as int, j - 1),
                    weights[j - 1],
                    t,
                );
            assert(is_form(a, weights, right, i, (j - 1) as nat, before));
        }
        if is_form(a, weights, right, i, j, t) {
            let before = choose|before: Double|
                is_form(a, weights, right, i, (j - 1) as nat, before) && #[trigger] is_term(
                    a,
                    before,
                    weights[i as int],
                    correlation(right, i as int, j - 1),
                    weights[j - 1],
                    t,
                );
            assert(is_form(a, weights, left, i, (j - 1) as nat, before));
        }
    } else if i > 0 {
        lemma_same_form(a, weights, left, right, (i - 1) as nat, weights.len(), t);
    }
}

/// A negative correlation counts as none: raising every negative entry between two judges to zero
/// changes nothing of what may come out as their effective number.
pub proof fn anti_correlation_counts_as_independence<A: Arithmetic + ?Sized>(
    a: &A,
    weights: Seq<Double>,
    rows: Seq<Seq<Double>>,
    raised: Seq<Seq<Double>>,
    r: Result<Double, JudgeErrorView>,
)
    requires
        rows.len() == raised.len(),
        forall|i: int, j: int|
            0 <= i < rows.len() && 0 <= j < rows.len() && i != j ==> #[trigger] raised[i][j]
                == rows[i][j].greater(nought()),
    ensures
        is_effective_n(a, weights, rows, r) == is_effective_n(a, weights, raised, r),
{
    if rows.len() == weights.len() {
        assert forall|i: int, j: int|
            0 <= i < weights.len() && 0 <= j < weights.len() implies #[trigger] correlation(
            rows,
            i,
            j,
        ) == correlation(raised, i, j) by {
            if i != j {
                assert(raised[i][j] == rows[i][j].greater(nought()));
            }
        }
        assert forall|form: Double| #[trigger]
            is_form(a, weights, rows, weights.len(), 0, form) == is_form(
                a,
                weights,
                raised,
                weights.len(),
                0,
                form,
            ) by {
            lemma_same_form(a, weights, rows, raised, weights.len(), 0, form);
        }
        assert forall|total: Double| #[trigger]
            effect_of_form(a, weights, rows, total, r) == effect_of_form(
                a,
                weights,
                raised,
                total,
                r,
            ) by {
            if effect_of_form(a, weights, rows, total, r) {
                let form = choose|form: Double|
                    #[trigger] is_form(a, weights, rows, weights.len(), 0, form) && (
                    if not_positive(form) {
                        r == broken("wᵀRw is non-positive; design effect is undefined"@)
                    } else {
                        r matches Ok(n) && is_effect(a, weights.len() as usize, total, form, n)
                    });
                assert(is_form(a, weights, raised, weights.len(), 0, form));
            }
            if effect_of_form(a, weights, raised, total, r) {
                let form = choose|form: Double|
                    #[trigger] is_form(a, weights, raised, weights.len(), 0, form) && (
                    if not_positive(form) {
                        r == broken("wᵀRw is non-positive; design effect is undefined"@)
                    } else {
                        r matches Ok(n) && is_effect(a, weights.len() as usize, total, form, n)
                    });
                assert(is_form(a, weights, rows, weights.len(), 0, form));
            }
        }
    }
}

/// No panel counts for more judges than it has.
pub proof fn never_more_votes_than_judges<A: Arithmetic + ?Sized>(
    a: &A,
    weights: Seq<Double>,
    rows: Seq<Seq<Double>>,
    n: Double,
)
    requires
        is_effective_n(a, weights, rows, Ok(n)),
    ensures
        exists|judges: Double|
            #[trigger] is_count(a, weights.len() as usize, judges) && !judges.below(n),
{
    let total = choose|total: Double|
        #[trigger] is_sum(a, weights, total) && !not_positive(total) && effect_of_form(
            a,
            weights,
            rows,
            total,
            Ok(n),
        );
    let form = choose|form: Double|
        #[trigger] is_form(a, weights, rows, weights.len(), 0, form) && is_effect(
            a,
            weights.len() as usize,
            total,
            form,
            n,
        );
    let (squared, quotient, judges) = choose|squared: Double, quotient: Double, judges: Double|
        #[trigger] is_times(a, total, total, squared) && #[trigger] is_over(
            a,
            squared,
            form,
            quotient,
        ) && #[trigger] is_count(a, weights.len() as usize, judges) && n == quotient.lesser(judges);
    assert(is_count(a, weights.len() as usize, judges));
}

/// Whether a double is a number that is not negative.
pub open spec fn not_negative(x: Double) -> bool {
    x.at_least(nought())
}

/// Whether sums of numbers that are not negative keep their order, are no less than what was added,
/// and come to nothing where nothing was added.
pub open spec fn orderly_sums<A: Arithmetic + ?Sized>(a: &A) -> bool {
    &&& forall|x: Double, y: Double, s: Double|
        not_negative(x) && not_negative(y) && #[trigger] is_plus(a, x, y, s) ==> s.at_least(x)
            && s.at_least(y) && (x.null() && y.null() ==> s.null())
    &&& forall|x: Double, y: Double, s: Double, u: Double, v: Double, t: Double|
        not_negative(x) && not_negative(y) && u.at_least(x) && v.at_least(y)
            && #[trigger] is_plus(a, x, y, s) && #[trigger] is_plus(a, u, v, t) ==> t.at_least(s)
}

/// Whether products of finite numbers that are not negative keep their order, and a factor up to one
/// does not enlarge, and one changes nothing.
pub open spec fn orderly_products<A: Arithmetic + ?Sized>(a: &A) -> bool {
    &&& forall|x: Double, y: Double, p: Double|
        not_negative(x) && x.finite() && not_negative(y) && unit().at_least(y)
            && #[trigger] is_times(a, x, y, p) ==> x.at_least(p) && (y == unit() ==> p.at_least(x))
    &&& forall|x: Double, y: Double, p: Double, u: Double, v: Double, q: Double|
        not_negative(x) && not_negative(y) && u.at_least(x) && v.at_least(y) && u.finite()
            && v.finite() && #[trigger] is_times(a, x, y, p) && #[trigger] is_times(a, u, v, q)
            ==> not_negative(p) && q.at_least(p)
}

/// Whether quotients of finite numbers that are not negative, by positive ones, keep their order.
pub open spec fn orderly_quotients<A: Arithmetic + ?Sized>(a: &A) -> bool {
    forall|x: Double, y: Double, p: Double, u: Double, v: Double, q: Double|
        not_negative(x) && u.at_least(x) && u.finite() && nought().below(v) && y.at_least(v)
            && #[trigger] is_over(a, x, y, p) && #[trigger] is_over(a, u, v, q) ==> not_negative(p)
            && q.at_least(p)
}

/// Whether a count is told by one number, which is not negative.
pub open spec fn orderly_counts<A: Arithmetic + ?Sized>(a: &A) -> bool {
    forall|n: usize, x: Double, y: Double|
        #[trigger] is_count(a, n, x) && #[trigger] is_count(a, n, y) ==> x == y && not_negative(x)
}

/// What rounding leaves of the order of the numbers that are not negative, as far as it matters to
/// the effective number of judges.
pub open spec fn orderly<A: Arithmetic + ?Sized>(a: &A) -> bool {
    orderly_sums(a) && orderly_products(a) && orderly_quotients(a) && orderly_counts(a)
}

/// Whether the sum of the weights and its square are finite.
pub open spec fn moderate<A: Arithmetic + ?Sized>(a: &A, weights: Seq<Double>) -> bool {
    &&& forall|t: Double| #[trigger] is_sum(a, weights, t) ==> t.finite()
    &&& forall|t: Double, q: Double|
        is_sum(a, weights, t) && #[trigger] is_times(a, t, t, q) ==> q.finite()
}

spec fn all_proper(weights: Seq<Double>) -> bool {
    forall|i: int| 0 <= i < weights.len() ==> !improper(#[trigger] weights[i])
}

spec fn within_one(rows: Seq<Seq<Double>>, k: nat) -> bool {
    forall|i: int, j: int| 0 <= i < k && 0 <= j < k ==> !unit().below(#[trigger] rows[i][j])
}

proof fn lemma_none_improper(weights: Seq<Double>)
    requires
        first_where(weights, |x: Double| improper(x)) is None,
    ensures
        all_proper(weights),
    decreases weights.len(),
{
    if weights.len() > 0 {
        let before = weights.drop_last();
        lemma_none_improper(before);
        assert forall|i: int| 0 <= i < weights.len() implies !improper(#[trigger] weights[i]) by {
            if i < weights.len() - 1 {
                assert(before[i] == weights[i]);
            }
        }
    }
}

proof fn lemma_one_sum<A: Arithmetic + ?Sized>(a: &A, xs: Seq<Double>, s: Double, t: Double)
    requires
        orderly(a),
        all_proper(xs),
        is_sum(a, xs, s),
        is_sum(a, xs, t),
    ensures
        not_negative(s),
        s.at_least(t),
        t.at_least(s),
    decreases xs.len(),
{
    if xs.len() > 0 {
        let before = xs.drop_last();
        assert forall|i: int| 0 <= i < before.len() implies !improper(#[trigger] before[i]) by {
            assert(before[i] == xs[i]);
        }
        let u = choose|u: Double| is_sum(a, before, u) && #[trigger] is_plus(a, u, xs.last(), s);
        let v = choose|v: Double| is_sum(a, before, v) && #[trigger] is_plus(a, v, xs.last(), t);
        lemma_one_sum(a, before, u, v);
        assert(!improper(xs[xs.len() - 1]));
    }
}

proof fn lemma_correlation_in_range(rows: Seq<Seq<Double>>, k: nat, i: int, j: int)
    requires
        within_one(rows, k),
        0 <= i < k,
        0 <= j < k,
    ensures
        not_negative(correlation(rows, i, j)),
        unit().at_least(correlation(rows, i, j)),
{
    assert(!unit().below(rows[i][j]));
}

/// The factors of one term are finite, and a greater correlation makes no lesser term.
proof fn lemma_terms<A: Arithmetic + ?Sized>(
    a: &A,
    x: Double,
    c: Double,
    y: Double,
    u: Double,
    v: Double,
    d: Double,
    p: Double,
    q: Double,
)
    requires
        orderly(a),
        !improper(x),
        !improper(y),
        not_negative(c),
        d.at_least(c),
        unit().at_least(d),
        is_times(a, x, c, u),
        is_times(a, u, y, v),
        is_times(a, x, d, p),
        is_times(a, p, y, q),
    ensures
        not_negative(u),
        x.at_least(u),
        not_negative(v),
        q.at_least(v),
{
    assert(p.at_least(u));
    assert(x.at_least(p));
    assert(p.finite());
}

proof fn lemma_independent_form<A: Arithmetic + ?Sized>(
    a: &A,
    weights: Seq<Double>,
    rows: Seq<Seq<Double>>,
    i: nat,
    j: nat,
    t: Double,
    s: Double,
)
    requires
        orderly(a),
        all_proper(weights),
        within_one(rows, weights.len()),
        i <= weights.len(),
        i == weights.len() ==> j == 0,
        j <= weights.len(),
        is_form(a, weights, rows, i, j, t),
        is_form(a, weights, shared(weights.len(), nought()), i, j, s),
    ensures
        not_negative(s),
        t.at_least(s),
    decreases i, j,
{
    let flat = shared(weights.len(), nought());
    if j > 0 {
        let x = weights[i as int];
        let y = weights[j - 1];
        let d = correlation(rows, i as int, j - 1);
        let c = correlation(flat, i as int, j - 1);
        let before_t = choose|before: Double|
            is_form(a, weights, rows, i, (j - 1) as nat, before) && #[trigger] is_term(
                a,
                before,
                x,
                d,
                y,
                t,
            );
        let before_s = choose|before: Double|
            is_form(a, weights, flat, i, (j - 1) as nat, before) && #[trigger] is_term(
                a,
                before,
                x,
                c,
                y,
                s,
            );
        lemma_independent_form(a, weights, rows, i, (j - 1) as nat, before_t, before_s);
        lemma_correlation_in_range(rows, weights.len(), i as int, j - 1);
        let (p, q) = choose|p: Double, q: Double|
            #[trigger] is_times(a, x, d, p) && is_times(a, p, y, q) && #[trigger] is_plus(
                a,
                before_t,
                q,
                t,
            );
        let (u, v) = choose|u: Double, v: Double|
            #[trigger] is_times(a, x, c, u) && is_times(a, u, y, v) && #[trigger] is_plus(
                a,
                before_s,
                v,
                s,
            );
        assert(!improper(x) && !improper(y));
        lemma_terms(a, x, c, y, u, v, d, p, q);
    } else if i > 0 {
        lemma_independent_form(a, weights, rows, (i - 1) as nat, weights.len(), t, s);
    }
}

/// `v` may be the term of two judges.
spec fn is_product<A: Arithmetic + ?Sized>(
    a: &A,
    x: Double,
    c: Double,
    y: Double,
    u: Double,
    v: Double,
) -> bool {
    is_times(a, x, c, u) && is_times(a, u, y, v)
}

/// A form that is not nothing has a term that is not nothing.
proof fn lemma_some_term<A: Arithmetic + ?Sized>(
    a: &A,
    weights: Seq<Double>,
    rows: Seq<Seq<Double>>,
    i: nat,
    j: nat,
    t: Double,
) -> (r: (int, int, Double, Double))
    requires
        orderly(a),
        all_proper(weights),
        within_one(rows, weights.len()),
        i <= weights.len(),
        i == weights.len() ==> j == 0,
        j <= weights.len(),
        is_form(a, weights, rows, i, j, t),
    ensures
        not_negative(t),
        !t.null() ==> 0 <= r.0 < weights.len() && 0 <= r.1 < weights.len() && is_product(
            a,
            weights[r.0],
            correlation(rows, r.0, r.1),
            weights[r.1],
            r.2,
            r.3,
        ) && !r.3.null(),
    decreases i, j,
{
    if j > 0 {
        let x = weights[i as int];
        let y = weights[j - 1];
        let d = correlation(rows, i as int, j - 1);
        let before = choose|before: Double|
            is_form(a, weights, rows, i, (j - 1) as nat, before) && #[trigger] is_term(
                a,
                before,
                x,
                d,
                y,
                t,
            );
        let r = lemma_some_term(a, weights, rows, i, (j - 1) as nat, before);
        lemma_correlation_in_range(rows, weights.len(), i as int, j - 1);
        let (p, q) = choose|p: Double, q: Double|
            #[trigger] is_times(a, x, d, p) && is_times(a, p, y, q) && #[trigger] is_plus(
                a,
                before,
                q,
                t,
            );
        assert(!improper(x) && !improper(y));
        lemma_terms(a, x, d, y, p, q, d, p, q);
        if q.null() {
            r
        } else {
            (i as int, j - 1, p, q)
        }
    } else if i > 0 {
        lemma_some_term(a, weights, rows, (i - 1) as nat, weights.len(), t)
    } else {
        (0, 0, t, t)
    }
}

/// The form of independent judges is no less than the square of any weight.
proof fn lemma_square_counts<A: Arithmetic + ?Sized>(
    a: &A,
    weights: Seq<Double>,
    m: int,
    i: nat,
    j: nat,
    t: Double,
) -> (r: (Double, Double))
    requires
        orderly(a),
        all_proper(weights),
        0 <= m < weights.len(),
        i <= weights.len(),
        i == weights.len() ==> j == 0,
        j <= weights.len(),
        i > m || (i == m && j > m),
        is_form(a, weights, shared(weights.len(), nought()), i, j, t),
    ensures
        is_product(a, weights[m], unit(), weights[m], r.0, r.1),
        t.at_least(r.1),
    decreases i, j,
{
    let flat = shared(weights.len(), nought());
    if j > 0 {
        let x = weights[i as int];
        let y = weights[j - 1];
        let c = correlation(flat, i as int, j - 1);
        let before = choose|before: Double|
            is_form(a, weights, flat, i, (j - 1) as nat, before) && #[trigger] is_term(
                a,
                before,
                x,
                c,
                y,
                t,
            );
        let (u, v) = choose|u: Double, v: Double|
            #[trigger] is_times(a, x, c, u) && is_times(a, u, y, v) && #[trigger] is_plus(
                a,
                before,
                v,
                t,
            );
        assert(!improper(x) && !improper(y));
        lemma_terms(a, x, c, y, u, v, c, u, v);
        assert(within_one(flat, weights.len()));
        let _ = lemma_some_term(a, weights, flat, i, (j - 1) as nat, before);
        if i == m && j - 1 == m {
            (u, v)
        } else {
            lemma_square_counts(a, weights, m, i, (j - 1) as nat, before)
        }
    } else {
        lemma_square_counts(a, weights, m, (i - 1) as nat, weights.len(), t)
    }
}

/// Where correlated judges have a form, independent ones with the same weights have one.
proof fn lemma_independent_form_is_positive<A: Arithmetic + ?Sized>(
    a: &A,
    weights: Seq<Double>,
    rows: Seq<Seq<Double>>,
    t: Double,
    s: Double,
)
    requires
        orderly(a),
        all_proper(weights),
        within_one(rows, weights.len()),
        weights.len() > 0,
        is_form(a, weights, rows, weights.len(), 0, t),
        is_form(a, weights, shared(weights.len(), nought()), weights.len(), 0, s),
        !not_positive(t),
    ensures
        nought().below(s),
{
    let (p, q, u, v) = lemma_some_term(a, weights, rows, weights.len(), 0, t);
    let x = weights[p];
    let y = weights[q];
    let d = correlation(rows, p, q);
    assert(!improper(x) && !improper(y));
    lemma_correlation_in_range(rows, weights.len(), p, q);
    lemma_terms(a, x, d, y, u, v, d, u, v);
    let m = if x.at_least(y) {
        p
    } else {
        q
    };
    let w = weights[m];
    let (f, g) = lemma_square_counts(a, weights, m, weights.len(), 0, s);
    assert(!improper(w));
    assert(w.at_least(x) && w.at_least(y));
    lemma_terms(a, w, unit(), w, f, g, unit(), f, g);
    assert(f.at_least(w));
    assert(f.at_least(u));
    assert(g.at_least(v));
}

/// Correlation never adds votes: where judges have an effective number, the weights alone have one,
/// which is no less and at most the number of judges. That takes an arithmetic that keeps the order
/// of numbers, as rounding does, weights whose sum and its square are finite, and correlations of at
/// most one.
pub proof fn correlation_never_adds_votes<A: Arithmetic + ?Sized>(
    a: &A,
    weights: Seq<Double>,
    rows: Seq<Seq<Double>>,
    n: Double,
    alone: Result<Double, JudgeErrorView>,
)
    requires
        orderly(a),
        moderate(a, weights),
        forall|i: int, j: int|
            0 <= i < weights.len() && 0 <= j < weights.len() ==> !unit().below(
                #[trigger] rows[i][j],
            ),
        is_effective_n(a, weights, rows, Ok(n)),
        is_effective_n(a, weights, shared(weights.len(), nought()), alone),
    ensures
        alone matches Ok(most) && n.at_least(nought()) && most.at_least(n) && exists|judges: Double|
            #[trigger] is_count(a, weights.len() as usize, judges) && judges.at_least(most),
{
    let flat = shared(weights.len(), nought());
    lemma_none_improper(weights);
    let total = choose|total: Double|
        #[trigger] is_sum(a, weights, total) && !not_positive(total) && effect_of_form(
            a,
            weights,
            rows,
            total,
            Ok(n),
        );
    let form = choose|form: Double|
        #[trigger] is_form(a, weights, rows, weights.len(), 0, form) && !not_positive(form)
            && is_effect(a, weights.len() as usize, total, form, n);
    let (squared, quotient, judges) = choose|squared: Double, quotient: Double, judges: Double|
        #[trigger] is_times(a, total, total, squared) && #[trigger] is_over(
            a,
            squared,
            form,
            quotient,
        ) && #[trigger] is_count(a, weights.len() as usize, judges) && n == quotient.lesser(judges);
    let total0 = choose|t: Double|
        #[trigger] is_sum(a, weights, t) && (if not_positive(t) {
            alone == broken("calibration weights sum to zero; design effect is undefined"@)
        } else {
            effect_of_form(a, weights, flat, t, alone)
        });
    lemma_one_sum(a, weights, total, total0);
    let form0 = choose|f: Double|
        #[trigger] is_form(a, weights, flat, weights.len(), 0, f) && (if not_positive(f) {
            alone == broken("wᵀRw is non-positive; design effect is undefined"@)
        } else {
            alone matches Ok(n0) && is_effect(a, weights.len() as usize, total0, f, n0)
        });
    lemma_independent_form(a, weights, rows, weights.len(), 0, form, form0);
    lemma_independent_form_is_positive(a, weights, rows, form, form0);
    let most = alone->Ok_0;
    let (squared0, quotient0, judges0) = choose|squared: Double, quotient: Double, judges: Double|
        #[trigger] is_times(a, total0, total0, squared) && #[trigger] is_over(
            a,
            squared,
            form0,
            quotient,
        ) && #[trigger] is_count(a, weights.len() as usize, judges) && most == quotient.lesser(
            judges,
        );
    assert(squared0.at_least(squared));
    assert(quotient0.at_least(quotient));
    assert(judges == judges0);
}

/// An aggregate lies between zero and one, or is no number.
pub proof fn aggregates_lie_between_zero_and_one<A: Arithmetic + ?Sized>(
    a: &A,
    scores: Seq<Double>,
    weights: Seq<Double>,
    x: Double,
)
    requires
        is_aggregate(a, scores, weights, Ok(x)),
    ensures
        x.nan() || (x.at_least(nought()) && unit().at_least(x)),
{
}

/// An aggregate is the mean of the scores, each weighed: every score times its weight, summed, over the
/// sum of the weights, held between zero and one. There is one only where every score has a weight and
/// the weights are finite, not negative and not all zero.
pub proof fn an_aggregate_is_a_weighted_mean<A: Arithmetic + ?Sized>(
    a: &A,
    scores: Seq<Double>,
    weights: Seq<Double>,
    x: Double,
)
    requires
        is_aggregate(a, scores, weights, Ok(x)),
    ensures
        0 < scores.len() == weights.len(),
        forall|i: int| 0 <= i < scores.len() ==> (#[trigger] scores[i]).finite(),
        forall|i: int|
            0 <= i < weights.len() ==> (#[trigger] weights[i]).finite() && !weights[i].below(nought()),
        exists|ps: Seq<Double>, dot: Double, total: Double, quotient: Double|
            ps.len() == scores.len() && (forall|i: int|
                0 <= i < scores.len() ==> is_times(a, scores[i], weights[i], #[trigger] ps[i]))
                && #[trigger] is_sum(a, ps, dot) && #[trigger] is_sum(a, weights, total)
                && !not_positive(total) && #[trigger] is_over(a, dot, total, quotient) && x == (
            if quotient.below(nought()) {
                nought()
            } else if unit().below(quotient) {
                unit()
            } else {
                quotient
            }),
{
    the_first_fault_is_told(scores, |x: Double| !x.finite());
    the_first_fault_is_told(weights, |x: Double| !x.finite());
    the_first_fault_is_told(weights, |x: Double| x.below(nought()));
    assert(first_infinite(scores, weights) is None);
    let total = choose|total: Double|
        #[trigger] is_sum(a, weights, total) && !not_positive(total) && is_weighted_mean(
            a,
            scores,
            weights,
            total,
            x,
        );
    let (ps, dot, quotient) = choose|ps: Seq<Double>, dot: Double, quotient: Double|
        #[trigger] are_products(a, scores, weights, ps) && #[trigger] is_sum(a, ps, dot)
            && #[trigger] is_over(a, dot, total, quotient) && x == quotient.held();
    assert forall|i: int| 0 <= i < scores.len() implies (#[trigger] scores[i]).finite() by {
        let bad = |x: Double| !x.finite();
        assert(!bad(scores[i]));
    }
    assert forall|i: int| 0 <= i < weights.len() implies (#[trigger] weights[i]).finite()
        && !weights[i].below(nought()) by {
        let bad = |x: Double| !x.finite();
        let low = |x: Double| x.below(nought());
        assert(!bad(weights[i]));
        assert(!low(weights[i]));
    }
    assert(is_sum(a, ps, dot) && is_sum(a, weights, total) && is_over(a, dot, total, quotient));
}

/// The first of the numbers that a test finds wanting is told: it is one of them, it is found wanting,
/// and none before it is; where none is told, none is.
pub proof fn the_first_fault_is_told(xs: Seq<Double>, bad: spec_fn(Double) -> bool)
    ensures
        match first_where(xs, bad) {
            Some(x) => exists|i: int|
                0 <= i < xs.len() && #[trigger] xs[i] == x && bad(x) && forall|k: int|
                    0 <= k < i ==> !bad(#[trigger] xs[k]),
            None => forall|i: int| 0 <= i < xs.len() ==> !bad(#[trigger] xs[i]),
        },
    decreases xs.len(),
{
    if xs.len() > 0 {
        let before = xs.drop_last();
        the_first_fault_is_told(before, bad);
        match first_where(before, bad) {
            Some(x) => {
                let i = choose|i: int|
                    0 <= i < before.len() && #[trigger] before[i] == x && bad(x) && forall|k: int|
                        0 <= k < i ==> !bad(#[trigger] before[k]);
                assert(xs[i] == x);
                assert forall|k: int| 0 <= k < i implies !bad(#[trigger] xs[k]) by {
                    assert(before[k] == xs[k]);
                }
            },
            None => {
                assert forall|k: int| 0 <= k < xs.len() - 1 implies !bad(#[trigger] xs[k]) by {
                    assert(before[k] == xs[k]);
                }
                assert(xs[xs.len() - 1] == xs.last());
            },
        }
    }
}

/// Agreement is one less the variance of the scores: the mean of the squares of how far each lies from
/// their mean, held between zero and one.
pub proof fn agreement_is_one_less_the_variance<A: Arithmetic + ?Sized>(
    a: &A,
    scores: Seq<Double>,
    x: Double,
)
    requires
        is_agreement(a, scores, Ok(x)),
    ensures
        scores.len() > 0,
        exists|n: Double, total: Double, mean: Double|
            #[trigger] is_count(a, scores.len() as usize, n) && #[trigger] is_sum(a, scores, total)
                && #[trigger] is_over(a, total, n, mean) && exists|
                ds: Seq<Double>,
                qs: Seq<Double>,
                spread: Double,
                variance: Double,
                rest: Double,
            |
                #[trigger] ds.len() == scores.len() && qs.len() == scores.len() && (forall|i: int|
                    0 <= i < scores.len() ==> is_minus(a, scores[i], mean, #[trigger] ds[i])
                        && is_times(a, ds[i], ds[i], qs[i])) && #[trigger] is_sum(a, qs, spread)
                    && #[trigger] is_over(a, spread, n, variance) && #[trigger] is_minus(
                    a,
                    unit(),
                    variance,
                    rest,
                ) && x == (if rest.below(nought()) {
                    nought()
                } else if unit().below(rest) {
                    unit()
                } else {
                    rest
                }),
{
    let (n, total, mean) = choose|n: Double, total: Double, mean: Double|
        #[trigger] is_count(a, scores.len() as usize, n) && #[trigger] is_sum(a, scores, total)
            && #[trigger] is_over(a, total, n, mean) && is_closeness(a, scores, n, mean, x);
    let (qs, spread, variance, rest) = choose|
        qs: Seq<Double>,
        spread: Double,
        variance: Double,
        rest: Double,
    |
        #[trigger] are_squares(a, scores, mean, qs) && #[trigger] is_sum(a, qs, spread)
            && #[trigger] is_over(a, spread, n, variance) && #[trigger] is_minus(
            a,
            unit(),
            variance,
            rest,
        ) && x == rest.held();
    let ds = Seq::new(
        scores.len(),
        |i: int|
            choose|d: Double| #[trigger] is_minus(a, scores[i], mean, d) && is_times(a, d, d, qs[i]),
    );
    assert forall|i: int| 0 <= i < scores.len() implies is_minus(
        a,
        scores[i],
        mean,
        #[trigger] ds[i],
    ) && is_times(a, ds[i], ds[i], qs[i]) by {
        assert(is_square(a, scores[i], mean, qs[i]));
    }
    assert(ds.len() == scores.len());
}

/// How the sum over all pairs of judges is formed: the sum before each pair, the weight of the first
/// times how much the two correlate, and that times the weight of the second.
pub struct Pairwise {
    pub sums: spec_fn(int, int) -> Double,
    pub shares: spec_fn(int, int) -> Double,
    pub terms: spec_fn(int, int) -> Double,
}

/// How much two judges correlate, as it counts: wholly with themselves, and never less than not at all.
pub open spec fn counted(rows: Seq<Seq<Double>>, p: int, q: int) -> Double {
    if p == q {
        unit()
    } else if rows[p][q].nan() || rows[p][q].below(nought()) {
        nought()
    } else {
        rows[p][q]
    }
}

/// Whether the pair of `p` and the one before `q` is added as it should be.
pub open spec fn is_step<A: Arithmetic + ?Sized>(
    a: &A,
    weights: Seq<Double>,
    rows: Seq<Seq<Double>>,
    w: Pairwise,
    p: int,
    q: int,
) -> bool {
    is_times(a, weights[p], counted(rows, p, q - 1), (w.shares)(p, q)) && is_times(
        a,
        (w.shares)(p, q),
        weights[q - 1],
        (w.terms)(p, q),
    ) && is_plus(a, (w.sums)(p, q - 1), (w.terms)(p, q), (w.sums)(p, q))
}

/// Whether `w` are the steps of the sum over all pairs, row by row, up to the pair of `i` and the one
/// before `j`.
pub open spec fn goes_to<A: Arithmetic + ?Sized>(
    a: &A,
    weights: Seq<Double>,
    rows: Seq<Seq<Double>>,
    w: Pairwise,
    i: int,
    j: int,
) -> bool {
    let k = weights.len();
    &&& (w.sums)(0, 0) == nought()
    &&& forall|p: int| 0 < p <= i ==> #[trigger] (w.sums)(p, 0) == (w.sums)(p - 1, k as int)
    &&& forall|p: int, q: int|
        0 <= p && 0 < q <= k && (p < i || (p == i && q <= j)) ==> #[trigger] is_step(
            a,
            weights,
            rows,
            w,
            p,
            q,
        )
}

proof fn lemma_steps<A: Arithmetic + ?Sized>(
    a: &A,
    weights: Seq<Double>,
    rows: Seq<Seq<Double>>,
    i: nat,
    j: nat,
    t: Double,
) -> (w: Pairwise)
    requires
        is_form(a, weights, rows, i, j, t),
        j <= weights.len(),
        i <= weights.len(),
        i == weights.len() ==> j == 0,
    ensures
        goes_to(a, weights, rows, w, i as int, j as int),
        (w.sums)(i as int, j as int) == t,
    decreases i, j,
{
    let k = weights.len() as int;
    if j > 0 {
        let c = correlation(rows, i as int, j - 1);
        let before = choose|before: Double|
            is_form(a, weights, rows, i, (j - 1) as nat, before) && #[trigger] is_term(
                a,
                before,
                weights[i as int],
                c,
                weights[j - 1],
                t,
            );
        let w = lemma_steps(a, weights, rows, i, (j - 1) as nat, before);
        let (u, v) = choose|u: Double, v: Double|
            #[trigger] is_times(a, weights[i as int], c, u) && is_times(a, u, weights[j - 1], v)
                && #[trigger] is_plus(a, before, v, t);
        lemma_step_right(a, weights, rows, w, i as int, j as int, u, v, t)
    } else if i > 0 {
        let w = lemma_steps(a, weights, rows, (i - 1) as nat, weights.len(), t);
        lemma_step_down(a, weights, rows, w, i as int, t)
    } else {
        Pairwise {
            sums: |p: int, q: int| nought(),
            shares: |p: int, q: int| nought(),
            terms: |p: int, q: int| nought(),
        }
    }
}

proof fn lemma_step_right<A: Arithmetic + ?Sized>(
    a: &A,
    weights: Seq<Double>,
    rows: Seq<Seq<Double>>,
    w: Pairwise,
    i: int,
    j: int,
    u: Double,
    v: Double,
    t: Double,
) -> (n: Pairwise)
    requires
        0 <= i,
        0 < j <= weights.len(),
        goes_to(a, weights, rows, w, i, j - 1),
        is_times(a, weights[i], correlation(rows, i, j - 1), u),
        is_times(a, u, weights[j - 1], v),
        is_plus(a, (w.sums)(i, j - 1), v, t),
    ensures
        goes_to(a, weights, rows, n, i, j),
        (n.sums)(i, j) == t,
{
    let k = weights.len() as int;
    let n = Pairwise {
        sums: |p: int, q: int|
            if p == i && q == j {
                t
            } else {
                (w.sums)(p, q)
            },
        shares: |p: int, q: int|
            if p == i && q == j {
                u
            } else {
                (w.shares)(p, q)
            },
        terms: |p: int, q: int|
            if p == i && q == j {
                v
            } else {
                (w.terms)(p, q)
            },
    };
    assert forall|p: int, q: int|
        0 <= p && 0 < q <= k && (p < i || (p == i && q <= j)) implies #[trigger] is_step(
        a,
        weights,
        rows,
        n,
        p,
        q,
    ) by {
        if p == i && q == j {
            assert(counted(rows, i, j - 1) == correlation(rows, i, j - 1));
        } else {
            assert(is_step(a, weights, rows, w, p, q));
        }
    }
    assert forall|p: int| 0 < p <= i implies #[trigger] (n.sums)(p, 0) == (n.sums)(p - 1, k) by {
        assert((w.sums)(p, 0) == (w.sums)(p - 1, k));
    }
    n
}

proof fn lemma_step_down<A: Arithmetic + ?Sized>(
    a: &A,
    weights: Seq<Double>,
    rows: Seq<Seq<Double>>,
    w: Pairwise,
    i: int,
    t: Double,
) -> (n: Pairwise)
    requires
        0 < i,
        goes_to(a, weights, rows, w, i - 1, weights.len() as int),
        (w.sums)(i - 1, weights.len() as int) == t,
    ensures
        goes_to(a, weights, rows, n, i, 0),
        (n.sums)(i, 0) == t,
{
    let k = weights.len() as int;
    let n = Pairwise {
        sums: |p: int, q: int|
            if p == i && q == 0 {
                t
            } else {
                (w.sums)(p, q)
            },
        ..w
    };
    assert forall|p: int, q: int|
        0 <= p && 0 < q <= k && (p < i || (p == i && q <= 0)) implies #[trigger] is_step(
        a,
        weights,
        rows,
        n,
        p,
        q,
    ) by {
        assert(is_step(a, weights, rows, w, p, q));
    }
    assert forall|p: int| 0 < p <= i implies #[trigger] (n.sums)(p, 0) == (n.sums)(p - 1, k) by {
        if p < i {
            assert((w.sums)(p, 0) == (w.sums)(p - 1, k));
        }
    }
    n
}

/// What a panel is worth is the square of the sum of its weights over the sum, over all pairs of its
/// judges, of both weights times how much the two correlate, and no more than it has judges. A judge
/// correlates wholly with itself, and what is less than none counts as none. It is worth something only
/// where there is one weight for each row, all finite and not negative, and not all nothing.
pub proof fn a_panel_is_worth_its_design_effect<A: Arithmetic + ?Sized>(
    a: &A,
    weights: Seq<Double>,
    rows: Seq<Seq<Double>>,
    n: Double,
) -> (w: Pairwise)
    requires
        is_effective_n(a, weights, rows, Ok(n)),
    ensures
        0 < weights.len() == rows.len(),
        forall|i: int|
            0 <= i < weights.len() ==> (#[trigger] weights[i]).finite() && !weights[i].below(nought()),
        goes_to(a, weights, rows, w, weights.len() as int, 0),
        exists|total: Double, squared: Double, quotient: Double, judges: Double|
            #[trigger] is_sum(a, weights, total) && !not_positive(total) && #[trigger] is_times(
                a,
                total,
                total,
                squared,
            ) && #[trigger] is_over(a, squared, (w.sums)(weights.len() as int, 0), quotient)
                && #[trigger] is_count(a, weights.len() as usize, judges) && (if quotient.nan()
                || judges.below(quotient) {
                n == judges
            } else {
                n == quotient
            }),
{
    the_first_fault_is_told(weights, |x: Double| improper(x));
    let bad = |x: Double| improper(x);
    assert forall|i: int| 0 <= i < weights.len() implies (#[trigger] weights[i]).finite()
        && !weights[i].below(nought()) by {
        assert(!bad(weights[i]));
    }
    let total = choose|total: Double|
        #[trigger] is_sum(a, weights, total) && !not_positive(total) && effect_of_form(
            a,
            weights,
            rows,
            total,
            Ok(n),
        );
    let form = choose|form: Double|
        #[trigger] is_form(a, weights, rows, weights.len(), 0, form) && !not_positive(form)
            && is_effect(a, weights.len() as usize, total, form, n);
    let w = lemma_steps(a, weights, rows, weights.len(), 0, form);
    let (squared, quotient, judges) = choose|squared: Double, quotient: Double, judges: Double|
        #[trigger] is_times(a, total, total, squared) && #[trigger] is_over(a, squared, form, quotient)
            && #[trigger] is_count(a, weights.len() as usize, judges) && n == quotient.lesser(judges);
    assert(is_sum(a, weights, total) && is_times(a, total, total, squared) && is_over(
        a,
        squared,
        form,
        quotient,
    ) && is_count(a, weights.len() as usize, judges));
    w
}

/// A matrix of one shared correlation holds it between any two judges, and each judge correlates wholly
/// with itself.
pub proof fn a_shared_correlation_is_between_any_two(k: nat, rho: Double, i: int, j: int)
    requires
        0 <= i < k,
        0 <= j < k,
    ensures
        shared(k, rho).len() == k,
        shared(k, rho)[i].len() == k,
        shared(k, rho)[i][i] == unit(),
        i != j ==> shared(k, rho)[i][j] == rho,
{
}

/// Of a matrix those rows and columns are picked that are asked for, in the order in which they are asked
/// for; what it does not have is left out.
pub proof fn rows_and_columns_are_picked_together(
    rows: Seq<Seq<Double>>,
    a: Seq<usize>,
    b: Seq<usize>,
    i: usize,
    p: int,
    q: int,
)
    ensures
        in_range(a + b, rows.len()) == in_range(a, rows.len()) + in_range(b, rows.len()),
        in_range(seq![i], rows.len()) == (if i < rows.len() {
            seq![i]
        } else {
            Seq::empty()
        }),
        picked(rows, a).len() == a.len(),
        0 <= p < a.len() && 0 <= q < a.len() ==> picked(rows, a)[p].len() == a.len() && picked(
            rows,
            a,
        )[p][q] == rows[a[p] as int][a[q] as int],
{
    let k = rows.len();
    Seq::filter_distributes_over_add(a, b, |i: usize| i < k);
    reveal(Seq::filter);
    assert(seq![i].drop_last() =~= Seq::empty());
    assert(Seq::<usize>::empty().filter(|i: usize| i < k) =~= Seq::empty());
    assert(in_range(seq![i], k) =~= (if i < k {
        seq![i]
    } else {
        Seq::empty()
    }));
}

/// An aggregate is owed to scores that each have a weight, where all are finite, no weight is negative
/// and not all are nothing; agreement is owed to any scores at all.
pub proof fn an_aggregate_is_owed<A: Arithmetic + ?Sized>(
    a: &A,
    scores: Seq<Double>,
    weights: Seq<Double>,
    r: Result<Double, JudgeErrorView>,
    agreement: Result<Double, JudgeErrorView>,
)
    requires
        0 < scores.len() == weights.len(),
        forall|i: int| 0 <= i < scores.len() ==> (#[trigger] scores[i]).finite(),
        forall|i: int|
            0 <= i < weights.len() ==> (#[trigger] weights[i]).finite() && !weights[i].below(nought()),
        forall|t: Double| #[trigger] is_sum(a, weights, t) ==> !not_positive(t),
        is_aggregate(a, scores, weights, r),
        is_agreement(a, scores, agreement),
    ensures
        r is Ok,
        agreement is Ok,
{
    the_first_fault_is_told(scores, |x: Double| !x.finite());
    the_first_fault_is_told(weights, |x: Double| !x.finite());
    the_first_fault_is_told(weights, |x: Double| x.below(nought()));
}

/// What a panel is worth is owed to weights that each have a row, where all are finite, none is negative,
/// not all are nothing, and the sum over all pairs is more than nothing.
pub proof fn the_worth_of_a_panel_is_owed<A: Arithmetic + ?Sized>(
    a: &A,
    weights: Seq<Double>,
    rows: Seq<Seq<Double>>,
    r: Result<Double, JudgeErrorView>,
)
    requires
        0 < weights.len() == rows.len(),
        forall|i: int|
            0 <= i < weights.len() ==> (#[trigger] weights[i]).finite() && !weights[i].below(nought()),
        forall|t: Double| #[trigger] is_sum(a, weights, t) ==> !not_positive(t),
        forall|w: Pairwise|
            #[trigger] goes_to(a, weights, rows, w, weights.len() as int, 0) ==> !not_positive(
                (w.sums)(weights.len() as int, 0),
            ),
        is_effective_n(a, weights, rows, r),
    ensures
        r is Ok,
{
    the_first_fault_is_told(weights, |x: Double| improper(x));
    let total = choose|total: Double|
        #[trigger] is_sum(a, weights, total) && effect_of_form(a, weights, rows, total, r);
    let form = choose|form: Double|
        #[trigger] is_form(a, weights, rows, weights.len(), 0, form) && (if not_positive(form) {
            r == broken("wᵀRw is non-positive; design effect is undefined"@)
        } else {
            r matches Ok(n) && is_effect(a, weights.len() as usize, total, form, n)
        });
    let w = lemma_steps(a, weights, rows, weights.len(), 0, form);
}

/// A matrix in which no two judges correlate is told to be one, and one in which two clearly do is not,
/// where a number less itself is nothing.
pub proof fn independence_is_told<A: Arithmetic + ?Sized>(
    a: &A,
    k: nat,
    rows: Seq<Seq<Double>>,
    r: bool,
    i: int,
    j: int,
)
    requires
        identity_told(a, rows, r),
        forall|x: Double, d: Double| x.finite() && #[trigger] is_minus(a, x, x, d) ==> d.null(),
    ensures
        k > 0 && rows == shared(k, nought()) ==> r,
        rows.len() == 0 ==> !r,
        0 <= i < rows.len() && 0 <= j < rows.len() && i != j && (forall|d: Double|
            #[trigger] is_minus(a, rows[i][j], nought(), d) ==> (Double {
                bits: 0x3d71_9799_812d_ea11,
            }).below(d.unsigned())) ==> !r,
{
    if k > 0 && rows == shared(k, nought()) && !r {
        let (p, q) = choose|p: int, q: int|
            0 <= p < rows.len() && 0 <= q < rows.len() && nearness(
                a,
                #[trigger] rows[p][q],
                identity_entry(p, q),
                false,
            );
        assert(rows[p][q] == identity_entry(p, q));
    }
    if r && 0 <= i < rows.len() && 0 <= j < rows.len() {
        assert(nearness(a, rows[i][j], identity_entry(i, j), true));
    }
}

} // verus!
