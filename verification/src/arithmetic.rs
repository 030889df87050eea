//! The arithmetic of doubles, as the caller supplies it.
//!
//! The library decides what is added to what and in which order; the operations themselves are
//! the caller's. Nothing is claimed of them: what a function computes is stated as a chain of
//! results that the operations gave.

use vstd::prelude::*;

use crate::double::Double;

verus! {

/// The arithmetic of doubles. Every implementation is the user's own.
pub trait Arithmetic {
    /// `a + b`.
    fn plus(&self, a: Double, b: Double) -> Double;

    /// `a - b`.
    fn minus(&self, a: Double, b: Double) -> Double;

    /// `a * b`.
    fn times(&self, a: Double, b: Double) -> Double;

    /// `a / b`.
    fn over(&self, a: Double, b: Double) -> Double;

    /// The exponential of `a`.
    fn exp(&self, a: Double) -> Double;

    /// The square root of `a`.
    fn sqrt(&self, a: Double) -> Double;

    /// The double of a count.
    fn count(&self, n: usize) -> Double;

    /// The double that a text reads as.
    fn parse(&self, text: &str) -> Option<Double>;

    /// The text of a double.
    fn show(&self, a: Double) -> String;
}

/// `r` may be `x + y`.
pub open spec fn is_plus<A: Arithmetic + ?Sized>(a: &A, x: Double, y: Double, r: Double) -> bool {
    call_ensures(A::plus, (a, x, y), r)
}

/// `r` may be `x - y`.
pub open spec fn is_minus<A: Arithmetic + ?Sized>(a: &A, x: Double, y: Double, r: Double) -> bool {
    call_ensures(A::minus, (a, x, y), r)
}

/// `r` may be `x * y`.
pub open spec fn is_times<A: Arithmetic + ?Sized>(a: &A, x: Double, y: Double, r: Double) -> bool {
    call_ensures(A::times, (a, x, y), r)
}

/// `r` may be `x / y`.
pub open spec fn is_over<A: Arithmetic + ?Sized>(a: &A, x: Double, y: Double, r: Double) -> bool {
    call_ensures(A::over, (a, x, y), r)
}

/// `r` may be the exponential of `x`.
pub open spec fn is_exp<A: Arithmetic + ?Sized>(a: &A, x: Double, r: Double) -> bool {
    call_ensures(A::exp, (a, x), r)
}

/// `r` may be the square root of `x`.
pub open spec fn is_sqrt<A: Arithmetic + ?Sized>(a: &A, x: Double, r: Double) -> bool {
    call_ensures(A::sqrt, (a, x), r)
}

/// `r` may be the double of `n`.
pub open spec fn is_count<A: Arithmetic + ?Sized>(a: &A, n: usize, r: Double) -> bool {
    call_ensures(A::count, (a, n), r)
}

/// `text` may read as `r`.
pub open spec fn is_parsed<A: Arithmetic + ?Sized>(a: &A, text: &str, r: Option<Double>) -> bool {
    call_ensures(A::parse, (a, text), r)
}

/// `text` may be the text of `x`.
pub open spec fn is_shown<A: Arithmetic + ?Sized>(a: &A, x: Double, text: Seq<char>) -> bool {
    exists|s: String| s@ == text && #[trigger] call_ensures(A::show, (a, x), s)
}

/// `t` may be the sum of `xs`, added from the left.
pub open spec fn is_sum<A: Arithmetic + ?Sized>(a: &A, xs: Seq<Double>, t: Double) -> bool
    decreases xs.len(),
{
    if xs.len() == 0 {
        t == (Double { bits: 0 })
    } else {
        exists|before: Double|
            is_sum(a, xs.drop_last(), before) && #[trigger] is_plus(a, before, xs.last(), t)
    }
}

/// The sum of `xs`, added from the left.
pub fn sum<A: Arithmetic + ?Sized>(a: &A, xs: &[Double]) -> (t: Double)
    ensures
        is_sum(a, xs@, t),
{
    let mut t = Double::zero();
    let mut i: usize = 0;
    assert(xs@.take(0) =~= Seq::empty());
    while i < xs.len()
        invariant
            i <= xs@.len(),
            is_sum(a, xs@.take(i as int), t),
        decreases xs@.len() - i,
    {
        let ghost before = t;
        t = a.plus(t, xs[i]);
        proof {
            let longer = xs@.take(i + 1);
            assert(longer.drop_last() =~= xs@.take(i as int));
            assert(is_sum(a, longer.drop_last(), before));
            assert(is_plus(a, before, longer.last(), t));
        }
        i += 1;
    }
    assert(xs@.take(i as int) =~= xs@);
    t
}

/// Whether a number is not above zero.
pub open spec fn not_positive(x: Double) -> bool {
    (Double { bits: 0 }).at_least(x)
}

/// A sum is what the last of its partial sums is: they start at zero, and each adds one number to the
/// one before it.
pub proof fn a_sum_has_partial_sums<A: Arithmetic + ?Sized>(a: &A, xs: Seq<Double>, t: Double)
    requires
        is_sum(a, xs, t),
    ensures
        exists|ts: Seq<Double>|
            ts.len() == xs.len() + 1 && ts[0] == (Double { bits: 0 }) && #[trigger] ts.last() == t
                && forall|i: int|
                0 <= i < xs.len() ==> is_plus(a, ts[i], #[trigger] xs[i], ts[i + 1]),
    decreases xs.len(),
{
    if xs.len() == 0 {
        assert(seq![t].last() == t);
    } else {
        let before = choose|before: Double|
            is_sum(a, xs.drop_last(), before) && #[trigger] is_plus(a, before, xs.last(), t);
        a_sum_has_partial_sums(a, xs.drop_last(), before);
        let ts = choose|ts: Seq<Double>|
            ts.len() == xs.drop_last().len() + 1 && ts[0] == (Double { bits: 0 })
                && #[trigger] ts.last() == before && forall|i: int|
                0 <= i < xs.drop_last().len() ==> is_plus(
                    a,
                    ts[i],
                    #[trigger] xs.drop_last()[i],
                    ts[i + 1],
                );
        let all = ts.push(t);
        assert(all.last() == t);
        assert forall|i: int| 0 <= i < xs.len() implies is_plus(
            a,
            all[i],
            #[trigger] xs[i],
            all[i + 1],
        ) by {
            if i < xs.len() - 1 {
                assert(xs.drop_last()[i] == xs[i]);
            }
        }
    }
}

} // verus!
