//! Comparing an answer with the ground truth, by the kind of answer.
//!
//! A rule can be wrong about an answer that is right but written otherwise, so a comparison has
//! three outcomes: a match, a clear difference, and no decision.

use vstd::prelude::*;

use crate::arithmetic::Arithmetic;
use crate::arithmetic::{is_minus, is_parsed, is_times};
use crate::double::Double;
use crate::schema::verification::VerificationKind;
use crate::text::{
    chars_of,
    is_space_char,
    lower_chars,
    same_text,
    string_of,
    string_of_range,
    trim_range,
};
use crate::text::{blank, fields, fields_are_cut_at_every_mark, is_space, lower, trim};

verus! {

/// The outcome of comparing an answer with the ground truth.
#[derive(Debug, Clone, Copy, PartialEq, Eq, Structural)]
pub enum AnswerComparison {
    /// They are the same.
    Match,
    /// They clearly differ.
    NonMatch,
    /// The rule cannot tell.
    Undecided,
}

/// How two texts compare as numbers.
#[derive(Debug, Clone, Copy, PartialEq, Eq, Structural)]
pub enum NumericReading {
    /// One of them is no finite number.
    Unreadable,
    /// They lie within the tolerance of each other.
    Close,
    /// They do not.
    Apart,
}

/// The bits of the relative tolerance between two numbers, one millionth.
pub const NUMERIC_REL_TOL: u64 = 0x3eb0_c6f7_a0b5_ed8d;

/// The bits of the absolute tolerance between two numbers, one billionth; it counts near zero.
pub const NUMERIC_ABS_TOL: u64 = 0x3e11_2e0b_e826_d695;

/// How `answer` may compare with `expected` as a number: they are close where they differ by no
/// more than the greater of the absolute tolerance and the relative one of what is expected.
pub open spec fn numbers_compare<A: Arithmetic + ?Sized>(
    numeric: &A,
    answer: Option<Double>,
    expected: Option<Double>,
    reading: NumericReading,
) -> bool {
    match (answer, expected) {
        (Some(x), Some(y)) => if x.finite() && y.finite() {
            exists|difference: Double, relative: Double|
                #[trigger] is_minus(numeric, x, y, difference) && #[trigger] is_times(
                    numeric,
                    Double { bits: NUMERIC_REL_TOL },
                    y.unsigned(),
                    relative,
                ) && reading == (if (Double { bits: NUMERIC_ABS_TOL }).greater(relative).at_least(
                    difference.unsigned(),
                ) {
                    NumericReading::Close
                } else {
                    NumericReading::Apart
                })
        } else {
            reading == NumericReading::Unreadable
        },
        _ => reading == NumericReading::Unreadable,
    }
}

/// Compares two numbers within the tolerance.
pub fn compare_numbers<A: Arithmetic + ?Sized>(
    numeric: &A,
    answer: Option<Double>,
    expected: Option<Double>,
) -> (reading: NumericReading)
    ensures
        numbers_compare(numeric, answer, expected, reading),
{
    match (answer, expected) {
        (Some(x), Some(y)) => if x.is_finite() && y.is_finite() {
            let difference = numeric.minus(x, y);
            let relative = numeric.times(Double { bits: NUMERIC_REL_TOL }, y.abs());
            assert(is_minus(numeric, x, y, difference));
            assert(is_times(numeric, Double { bits: NUMERIC_REL_TOL }, y.unsigned(), relative));
            if (Double { bits: NUMERIC_ABS_TOL }).max_with(relative).is_at_least(difference.abs()) {
                NumericReading::Close
            } else {
                NumericReading::Apart
            }
        } else {
            NumericReading::Unreadable
        },
        _ => NumericReading::Unreadable,
    }
}

/// The characters that may stand in a number without changing it.
pub open spec fn is_numeric_noise(c: char) -> bool {
    c == ',' || c == '$' || c == '%' || c == '_' || c == ' '
}

/// `s` without the characters that may stand in a number without changing it.
pub open spec fn denoised(s: Seq<char>) -> Seq<char> {
    s.filter(|c: char| !is_numeric_noise(c))
}

/// The digits to read as a number; none where nothing is left.
pub open spec fn numeric_token(s: Seq<char>) -> Option<Seq<char>> {
    let cleaned = denoised(trim(s));
    if cleaned.len() == 0 {
        None
    } else {
        Some(cleaned)
    }
}

/// The digits to read as a number; none where nothing is left.
fn clean_numeric(s: &str) -> (r: Option<String>)
    ensures
        r.deep_view() == numeric_token(s@),
{
    let v = chars_of(s);
    let (a, b) = trim_range(v.as_slice(), 0, v.len());
    let ghost kept = trim(s@);
    proof {
        assert(v@.subrange(0, v@.len() as int) =~= v@);
    }
    let ghost keep = |c: char| !is_numeric_noise(c);
    let mut out: Vec<char> = Vec::new();
    let mut i: usize = a;
    while i < b
        invariant
            a <= i <= b <= v@.len(),
            kept == v@.subrange(a as int, b as int),
            keep == (|c: char| !is_numeric_noise(c)),
            out@ == kept.take(i - a).filter(keep),
        decreases b - i,
    {
        let c: char = v[i];
        proof {
            let t = kept.take(i - a);
            assert(kept.take(i - a + 1) =~= t.push(c));
            t.lemma_filter_push(c, keep);
        }
        if !(c == ',' || c == '$' || c == '%' || c == '_' || c == ' ') {
            out.push(c);
        }
        i += 1;
    }
    proof {
        assert(kept.take(i - a) =~= kept);
    }
    if out.len() == 0 {
        None
    } else {
        Some(string_of(out.as_slice()))
    }
}

/// The characters that separate the members of a collection.
pub open spec fn is_set_separator(c: char) -> bool {
    c == ',' || c == ' ' || c == '\t' || c == '\n' || c == ';'
}

/// The tokens among `parts`: trimmed, in lower case, the empty ones dropped.
pub open spec fn tokens_of(parts: Seq<Seq<char>>) -> Seq<Seq<char>>
    decreases parts.len(),
{
    if parts.len() == 0 {
        Seq::empty()
    } else {
        let before = tokens_of(parts.drop_last());
        let token = trim(parts.last());
        if token.len() == 0 {
            before
        } else {
            before.push(lower(token))
        }
    }
}

/// The members of a collection written as text.
pub open spec fn set_members(s: Seq<char>) -> Seq<Seq<char>> {
    tokens_of(fields(s, |c: char| is_set_separator(c)))
}

fn push_token(out: &mut Vec<String>, part: &Vec<char>)
    ensures
        final(out).deep_view() == (if trim(part@).len() == 0 {
            old(out).deep_view()
        } else {
            old(out).deep_view().push(lower(trim(part@)))
        }),
{
    let (a, b) = trim_range(part.as_slice(), 0, part.len());
    proof {
        assert(part@.subrange(0, part@.len() as int) =~= part@);
    }
    if a < b {
        let token = string_of_range(part.as_slice(), a, b);
        let chars = chars_of(token.as_str());
        let small = lower_chars(chars.as_slice());
        out.push(string_of(small.as_slice()));
        assert(out.deep_view() =~= old(out).deep_view().push(lower(trim(part@))));
    }
}

/// The members of a collection written as text.
fn set_tokens(s: &str) -> (r: Vec<String>)
    ensures
        r.deep_view() == set_members(s@),
{
    let v = chars_of(s);
    let ghost cut = |c: char| is_set_separator(c);
    let ghost mut done: Seq<Seq<char>> = Seq::empty();
    let mut out: Vec<String> = Vec::new();
    let mut part: Vec<char> = Vec::new();
    let mut i: usize = 0;
    proof {
        assert(v@.take(0) =~= Seq::<char>::empty());
        assert(done.push(part@) =~= seq![Seq::<char>::empty()]);
        assert(out.deep_view() =~= Seq::<Seq<char>>::empty());
    }
    while i < v.len()
        invariant
            v@ == s@,
            i <= v@.len(),
            cut == (|c: char| is_set_separator(c)),
            fields(s@.take(i as int), cut) == done.push(part@),
            out.deep_view() == tokens_of(done),
        decreases v@.len() - i,
    {
        let c: char = v[i];
        proof {
            assert(s@.take(i + 1).drop_last() =~= s@.take(i as int));
            assert(s@.take(i + 1).last() == c);
        }
        if c == ',' || c == ' ' || c == '\t' || c == '\n' || c == ';' {
            push_token(&mut out, &part);
            proof {
                assert(done.push(part@).drop_last() =~= done);
                done = done.push(part@);
            }
            part = Vec::new();
        } else {
            proof {
                assert(done.push(part@).drop_last() =~= done);
            }
            part.push(c);
        }
        i += 1;
    }
    push_token(&mut out, &part);
    proof {
        assert(s@.take(i as int) =~= s@);
        assert(done.push(part@).drop_last() =~= done);
    }
    out
}

/// Whether two collections have the same members, each as often.
pub open spec fn same_members(a: Seq<Seq<char>>, b: Seq<Seq<char>>) -> bool {
    a.to_multiset() == b.to_multiset()
}

/// The place of `token` in `list`.
fn position(list: &Vec<String>, token: &str) -> (r: Option<usize>)
    ensures
        match r {
            Some(i) => i < list@.len() && list.deep_view()[i as int] == token@,
            None => !list.deep_view().contains(token@),
        },
{
    let mut i: usize = 0;
    while i < list.len()
        invariant
            i <= list@.len(),
            forall|k: int| 0 <= k < i ==> list.deep_view()[k] != token@,
        decreases list@.len() - i,
    {
        if same_text(list[i].as_str(), token) {
            return Some(i);
        }
        i += 1;
    }
    None
}

proof fn lemma_prefix_count(s: Seq<Seq<char>>, i: int)
    requires
        0 <= i < s.len(),
    ensures
        s.to_multiset().count(s[i]) > s.take(i).to_multiset().count(s[i]),
        s.take(i + 1).to_multiset() == s.take(i).to_multiset().insert(s[i]),
{
    broadcast use vstd::seq_lib::group_to_multiset_ensures;

    let rest = s.skip(i + 1);
    assert(s =~= s.take(i + 1) + rest);
    assert(s.take(i + 1) =~= s.take(i).push(s[i]));
    vstd::seq_lib::lemma_multiset_commutative(s.take(i + 1), rest);
    assert(s.to_multiset() =~= s.take(i + 1).to_multiset().add(rest.to_multiset()));
}

/// Whether two collections have the same members, each as often.
fn equal_members(a: &Vec<String>, b: &Vec<String>) -> (r: bool)
    ensures
        r == same_members(a.deep_view(), b.deep_view()),
{
    broadcast use vstd::seq_lib::group_to_multiset_ensures;

    let ghost av = a.deep_view();
    let ghost bv = b.deep_view();
    let mut rest: Vec<String> = b.clone();
    let mut i: usize = 0;
    proof {
        assert(rest.deep_view() =~= bv);
        assert(av.take(0) =~= Seq::<Seq<char>>::empty());
        assert(bv.to_multiset() =~= av.take(0).to_multiset().add(bv.to_multiset()));
    }
    while i < a.len()
        invariant
            i <= a@.len(),
            av == a.deep_view(),
            bv == b.deep_view(),
            bv.to_multiset() == av.take(i as int).to_multiset().add(rest.deep_view().to_multiset()),
        decreases a@.len() - i,
    {
        proof {
            lemma_prefix_count(av, i as int);
        }
        match position(&rest, a[i].as_str()) {
            None => {
                proof {
                    let x = av[i as int];
                    vstd::seq_lib::to_multiset_contains(rest.deep_view(), x);
                    assert(rest.deep_view().to_multiset().count(x) == 0);
                    assert(bv.to_multiset().count(x) == av.take(i as int).to_multiset().count(x));
                    assert(av.to_multiset().count(x) != bv.to_multiset().count(x));
                }
                return false;
            },
            Some(j) => {
                let ghost before = rest.deep_view();
                let _ = rest.remove(j);
                proof {
                    assert(rest.deep_view() =~= before.remove(j as int));
                    vstd::seq_lib::to_multiset_remove(before, j as int);
                    let x = av[i as int];
                    assert(before.contains(x));
                    vstd::seq_lib::to_multiset_contains(before, x);
                    assert(before.to_multiset().count(x) > 0);
                    assert(av.take(i as int).to_multiset().insert(x).add(
                        before.to_multiset().remove(x),
                    ) =~= av.take(i as int).to_multiset().add(before.to_multiset()));
                }
            },
        }
        i += 1;
    }
    proof {
        assert(av.take(i as int) =~= av);
        if rest.deep_view().len() == 0 {
            assert(rest.deep_view() =~= Seq::<Seq<char>>::empty());
            assert(bv.to_multiset() =~= av.to_multiset());
        } else {
            let x = rest.deep_view()[0];
            assert(rest.deep_view().contains(x));
            assert(rest.deep_view().to_multiset().count(x) > 0);
            assert(bv.to_multiset().count(x) > av.to_multiset().count(x));
        }
    }
    rest.len() == 0
}

/// The words of `parts`: the empty ones dropped.
pub open spec fn words_of(parts: Seq<Seq<char>>) -> Seq<Seq<char>>
    decreases parts.len(),
{
    if parts.len() == 0 {
        Seq::empty()
    } else if parts.last().len() == 0 {
        words_of(parts.drop_last())
    } else {
        words_of(parts.drop_last()).push(parts.last())
    }
}

/// `words` with one blank between each two.
pub open spec fn spaced(words: Seq<Seq<char>>) -> Seq<char>
    decreases words.len(),
{
    if words.len() == 0 {
        Seq::empty()
    } else if words.len() == 1 {
        words[0]
    } else {
        spaced(words.drop_last()) + seq![' '] + words.last()
    }
}

/// The words of `s` in lower case, with one blank between each two.
pub open spec fn normalized(s: Seq<char>) -> Seq<char> {
    lower(spaced(words_of(fields(s, |c: char| is_space(c)))))
}

fn push_word(out: &mut Vec<char>, part: &Vec<char>, first: bool, Ghost(words): Ghost<Seq<Seq<char>>>)
    requires
        old(out)@ == spaced(words),
        first == (words.len() == 0),
        part@.len() > 0,
    ensures
        final(out)@ == spaced(words.push(part@)),
{
    if !first {
        out.push(' ');
    }
    let mut i: usize = 0;
    let ghost start = out@;
    while i < part.len()
        invariant
            i <= part@.len(),
            out@ == start + part@.take(i as int),
        decreases part@.len() - i,
    {
        out.push(part[i]);
        proof {
            assert(part@.take(i + 1) =~= part@.take(i as int).push(part@[i as int]));
            assert(out@ =~= start + part@.take(i + 1));
        }
        i += 1;
    }
    proof {
        assert(part@.take(i as int) =~= part@);
        assert(words.push(part@).drop_last() =~= words);
        if words.len() == 0 {
            assert(out@ =~= part@);
        } else {
            assert(start =~= spaced(words) + seq![' ']);
        }
    }
}

/// The words of `s` in lower case, with one blank between each two.
fn normalize_answer(s: &str) -> (r: String)
    ensures
        r@ == normalized(s@),
{
    let v = chars_of(s);
    let ghost cut = |c: char| is_space(c);
    let ghost mut done: Seq<Seq<char>> = Seq::empty();
    let mut first: bool = true;
    let mut out: Vec<char> = Vec::new();
    let mut part: Vec<char> = Vec::new();
    let mut i: usize = 0;
    proof {
        assert(v@.take(0) =~= Seq::<char>::empty());
        assert(done.push(part@) =~= seq![Seq::<char>::empty()]);
    }
    while i < v.len()
        invariant
            v@ == s@,
            i <= v@.len(),
            cut == (|c: char| is_space(c)),
            fields(s@.take(i as int), cut) == done.push(part@),
            out@ == spaced(words_of(done)),
            first == (words_of(done).len() == 0),
        decreases v@.len() - i,
    {
        let c: char = v[i];
        proof {
            assert(s@.take(i + 1).drop_last() =~= s@.take(i as int));
            assert(s@.take(i + 1).last() == c);
            assert(done.push(part@).drop_last() =~= done);
        }
        if is_space_char(c) {
            if part.len() > 0 {
                push_word(&mut out, &part, first, Ghost(words_of(done)));
                first = false;
            }
            proof {
                done = done.push(part@);
            }
            part = Vec::new();
        } else {
            part.push(c);
        }
        i += 1;
    }
    proof {
        assert(done.push(part@).drop_last() =~= done);
        assert(s@.take(i as int) =~= s@);
    }
    if part.len() > 0 {
        push_word(&mut out, &part, first, Ghost(words_of(done)));
    }
    let small = lower_chars(out.as_slice());
    string_of(small.as_slice())
}

/// What a comparison says, given how the two texts compare as numbers.
pub open spec fn comparison(
    kind: VerificationKind,
    answer: Seq<char>,
    expected: Option<Seq<char>>,
    reading: NumericReading,
) -> AnswerComparison {
    match expected {
        None => AnswerComparison::Undecided,
        Some(expected) => match kind {
            VerificationKind::NumericMatch => if numeric_token(answer) is None || numeric_token(
                expected,
            ) is None {
                AnswerComparison::Undecided
            } else {
                match reading {
                    NumericReading::Close => AnswerComparison::Match,
                    NumericReading::Apart => AnswerComparison::NonMatch,
                    NumericReading::Unreadable => AnswerComparison::Undecided,
                }
            },
            VerificationKind::SetMatch => if set_members(answer).len() == 0 || set_members(
                expected,
            ).len() == 0 {
                AnswerComparison::Undecided
            } else if same_members(set_members(answer), set_members(expected)) {
                AnswerComparison::Match
            } else {
                AnswerComparison::NonMatch
            },
            VerificationKind::SchemaShape | VerificationKind::SqlResultMatch => if normalized(
                answer,
            ) == normalized(expected) {
                AnswerComparison::Match
            } else {
                AnswerComparison::Undecided
            },
            VerificationKind::RefusalExpected | VerificationKind::Unchecked =>
                AnswerComparison::Undecided,
        },
    }
}

fn compare_numeric(answer: &str, expected: &str, reading: NumericReading) -> (r: AnswerComparison)
    ensures
        r == comparison(VerificationKind::NumericMatch, answer@, Some(expected@), reading),
{
    match (clean_numeric(answer), clean_numeric(expected)) {
        (Some(_), Some(_)) => match reading {
            NumericReading::Close => AnswerComparison::Match,
            NumericReading::Apart => AnswerComparison::NonMatch,
            NumericReading::Unreadable => AnswerComparison::Undecided,
        },
        _ => AnswerComparison::Undecided,
    }
}

fn compare_set(answer: &str, expected: &str) -> (r: AnswerComparison)
    ensures
        forall|reading: NumericReading|
            r == #[trigger] comparison(
                VerificationKind::SetMatch,
                answer@,
                Some(expected@),
                reading,
            ),
{
    let a = set_tokens(answer);
    let e = set_tokens(expected);
    assert(a.deep_view().len() == a@.len());
    assert(e.deep_view().len() == e@.len());
    if a.len() == 0 || e.len() == 0 {
        return AnswerComparison::Undecided;
    }
    if equal_members(&a, &e) {
        AnswerComparison::Match
    } else {
        AnswerComparison::NonMatch
    }
}

fn compare_conservative(answer: &str, expected: &str) -> (r: AnswerComparison)
    ensures
        r == (if normalized(answer@) == normalized(expected@) {
            AnswerComparison::Match
        } else {
            AnswerComparison::Undecided
        }),
{
    let a = normalize_answer(answer);
    let e = normalize_answer(expected);
    if same_text(a.as_str(), e.as_str()) {
        AnswerComparison::Match
    } else {
        AnswerComparison::Undecided
    }
}

/// Compares `answer` with `expected` by the rule for `kind`, given how the two compare as numbers.
/// Without a ground truth nothing is decided.
pub fn compare_with_reading(
    kind: VerificationKind,
    answer: &str,
    expected: Option<&str>,
    reading: NumericReading,
) -> (r: AnswerComparison)
    ensures
        r == comparison(kind, answer@, expected.deep_view(), reading),
{
    match expected {
        None => AnswerComparison::Undecided,
        Some(e) => match kind {
            VerificationKind::NumericMatch => compare_numeric(answer, e, reading),
            VerificationKind::SetMatch => compare_set(answer, e),
            VerificationKind::SchemaShape => compare_conservative(answer, e),
            VerificationKind::SqlResultMatch => compare_conservative(answer, e),
            VerificationKind::RefusalExpected => AnswerComparison::Undecided,
            VerificationKind::Unchecked => AnswerComparison::Undecided,
        },
    }
}

/// How the two texts may compare as numbers: their digits are read, and only where the answer is a
/// number and both sides have digits.
pub open spec fn reading_of<N: Arithmetic + ?Sized>(
    numeric: &N,
    kind: VerificationKind,
    answer: Seq<char>,
    expected: Option<Seq<char>>,
    reading: NumericReading,
) -> bool {
    (kind == VerificationKind::NumericMatch && expected is Some && numeric_token(answer) is Some
        && numeric_token(expected->0) is Some) ==> exists|
        a: &str,
        e: &str,
        x: Option<Double>,
        y: Option<Double>,
    |
        a@ == numeric_token(answer)->0 && e@ == numeric_token(expected->0)->0
            && #[trigger] is_parsed(numeric, a, x) && #[trigger] is_parsed(numeric, e, y)
            && numbers_compare(numeric, x, y, reading)
}

/// How the two texts compare as numbers, where that matters.
pub(crate) fn take_reading<N: Arithmetic + ?Sized>(
    kind: VerificationKind,
    answer: &str,
    expected: Option<&str>,
    numeric: &N,
) -> (reading: NumericReading)
    ensures
        reading_of(numeric, kind, answer@, expected.deep_view(), reading),
{
    if let Some(e) = expected {
        if kind == VerificationKind::NumericMatch {
            if let (Some(a_token), Some(e_token)) = (clean_numeric(answer), clean_numeric(e)) {
                let a_text = a_token.as_str();
                let e_text = e_token.as_str();
                let x = numeric.parse(a_text);
                let y = numeric.parse(e_text);
                assert(is_parsed(numeric, a_text, x));
                assert(is_parsed(numeric, e_text, y));
                return compare_numbers(numeric, x, y);
            }
        }
    }
    NumericReading::Unreadable
}

/// Compares `answer` with `expected` by the rule for `kind`. Without a ground truth nothing is
/// decided.
pub fn compare_answer<N: Arithmetic + ?Sized>(
    kind: VerificationKind,
    answer: &str,
    expected: Option<&str>,
    numeric: &N,
) -> (r: AnswerComparison)
    ensures
        exists|reading: NumericReading|
            #[trigger] reading_of(numeric, kind, answer@, expected.deep_view(), reading) && r
                == comparison(kind, answer@, expected.deep_view(), reading),
        kind != VerificationKind::NumericMatch ==> r == comparison(
            kind,
            answer@,
            expected.deep_view(),
            NumericReading::Unreadable,
        ),
{
    let reading = take_reading(kind, answer, expected, numeric);
    compare_with_reading(kind, answer, expected, reading)
}

/// The order in which a collection is written does not matter: two texts whose members are the
/// same compare as a match.
pub proof fn set_order_does_not_matter(answer: Seq<char>, expected: Seq<char>, reading: NumericReading)
    requires
        set_members(answer).to_multiset() == set_members(expected).to_multiset(),
        set_members(answer).len() > 0,
    ensures
        comparison(VerificationKind::SetMatch, answer, Some(expected), reading)
            == AnswerComparison::Match,
{
    broadcast use vstd::seq_lib::group_to_multiset_ensures;

    assert(set_members(answer).to_multiset().len() == set_members(answer).len());
    assert(set_members(expected).to_multiset().len() == set_members(expected).len());
}

/// Which of two collections is the answer does not matter: exchanging the two texts leaves what the
/// comparison says. It says nothing exactly where one of them is empty, and otherwise that they match
/// exactly where they have the same members, each as often.
pub proof fn set_sides_do_not_matter(answer: Seq<char>, expected: Seq<char>, reading: NumericReading)
    ensures
        comparison(VerificationKind::SetMatch, answer, Some(expected), reading) == comparison(
            VerificationKind::SetMatch,
            expected,
            Some(answer),
            reading,
        ),
        comparison(VerificationKind::SetMatch, answer, Some(expected), reading)
            == AnswerComparison::Undecided <==> set_members(answer).len() == 0 || set_members(
            expected,
        ).len() == 0,
        set_members(answer).len() > 0 && set_members(expected).len() > 0 ==> (comparison(
            VerificationKind::SetMatch,
            answer,
            Some(expected),
            reading,
        ) == AnswerComparison::Match <==> set_members(answer).to_multiset() == set_members(
            expected,
        ).to_multiset()),
{
    broadcast use vstd::seq_lib::group_to_multiset_ensures;

    assert(set_members(answer).to_multiset().len() == set_members(answer).len());
    assert(set_members(expected).to_multiset().len() == set_members(expected).len());
}

/// How two answers compare, kind by kind. Nothing is decided where nothing is expected. Numbers match
/// where both are readable and close, and differ where they are apart. Sets match where they hold the
/// same members the same number of times, and differ otherwise, unless one is empty. Anything else
/// matches where both read the same, and is otherwise left open.
pub proof fn answers_compare_by_kind(
    answer: Seq<char>,
    expected: Option<Seq<char>>,
    reading: NumericReading,
    kind: VerificationKind,
)
    ensures
        expected is None ==> comparison(kind, answer, expected, reading) == AnswerComparison::Undecided,
        expected is Some ==> {
            let r = comparison(kind, answer, expected, reading);
            let e = expected->0;
            match kind {
                VerificationKind::NumericMatch => {
                    let both = denoised(trim(answer)).len() > 0 && denoised(trim(e)).len() > 0;
                    &&& r == AnswerComparison::Match <==> both && reading == NumericReading::Close
                    &&& r == AnswerComparison::NonMatch <==> both && reading == NumericReading::Apart
                },
                VerificationKind::SetMatch => {
                    let both = set_members(answer).len() > 0 && set_members(e).len() > 0;
                    let same = set_members(answer).to_multiset() == set_members(e).to_multiset();
                    &&& r == AnswerComparison::Match <==> both && same
                    &&& r == AnswerComparison::NonMatch <==> both && !same
                },
                VerificationKind::SchemaShape | VerificationKind::SqlResultMatch => {
                    &&& r == AnswerComparison::Match <==> normalized(answer) == normalized(e)
                    &&& r != AnswerComparison::NonMatch
                },
                _ => r == AnswerComparison::Undecided,
            }
        },
{
}

/// Two numbers are close where they differ by no more than the absolute tolerance, or by no more than the
/// relative one of what is expected, whichever is more; what is no finite number is not readable.
pub proof fn close_numbers_lie_within_a_tolerance<A: Arithmetic + ?Sized>(
    numeric: &A,
    answer: Option<Double>,
    expected: Option<Double>,
    reading: NumericReading,
)
    requires
        numbers_compare(numeric, answer, expected, reading),
    ensures
        ({
            let readable = answer is Some && expected is Some && answer->0.finite()
                && expected->0.finite();
            &&& reading == NumericReading::Unreadable <==> !readable
            &&& readable ==> exists|difference: Double, relative: Double|
                #[trigger] is_minus(numeric, answer->0, expected->0, difference)
                    && #[trigger] is_times(
                    numeric,
                    Double { bits: NUMERIC_REL_TOL },
                    expected->0.unsigned(),
                    relative,
                ) && (!relative.nan() ==> (reading == NumericReading::Close <==> (Double {
                    bits: NUMERIC_ABS_TOL,
                }).at_least(difference.unsigned()) || relative.at_least(difference.unsigned())))
        }),
{
    if answer is Some && expected is Some && answer->0.finite() && expected->0.finite() {
        let x = answer->0;
        let y = expected->0;
        let (difference, relative) = choose|difference: Double, relative: Double|
            #[trigger] is_minus(numeric, x, y, difference) && #[trigger] is_times(
                numeric,
                Double { bits: NUMERIC_REL_TOL },
                y.unsigned(),
                relative,
            ) && reading == (if (Double { bits: NUMERIC_ABS_TOL }).greater(relative).at_least(
                difference.unsigned(),
            ) {
                NumericReading::Close
            } else {
                NumericReading::Apart
            });
        assert(!(Double { bits: NUMERIC_ABS_TOL }).nan());
    }
}

/// The noise in a number is what is left out of it, and nothing else: separators, signs of currency and
/// of percent, and blanks.
pub proof fn only_noise_is_left_out_of_a_number(a: Seq<char>, c: char, b: Seq<char>)
    ensures
        denoised(a + b) == denoised(a) + denoised(b),
        denoised(seq![c]) == (if c == ',' || c == '$' || c == '%' || c == '_' || c == ' ' {
            Seq::empty()
        } else {
            seq![c]
        }),
{
    let keep = |c: char| !is_numeric_noise(c);
    Seq::filter_distributes_over_add(a, b, keep);
    reveal(Seq::filter);
    assert(seq![c].drop_last() =~= Seq::empty());
    assert(Seq::<char>::empty().filter(keep) =~= Seq::empty());
    assert(denoised(seq![c]) =~= (if is_numeric_noise(c) {
        Seq::empty()
    } else {
        seq![c]
    }));
}

proof fn lemma_tokens_join(a: Seq<Seq<char>>, b: Seq<Seq<char>>)
    ensures
        tokens_of(a + b) == tokens_of(a) + tokens_of(b),
        words_of(a + b) == words_of(a) + words_of(b),
    decreases b.len(),
{
    if b.len() == 0 {
        assert(a + b =~= a);
        assert(tokens_of(a) + tokens_of(b) =~= tokens_of(a));
        assert(words_of(a) + words_of(b) =~= words_of(a));
    } else {
        lemma_tokens_join(a, b.drop_last());
        assert((a + b).drop_last() =~= a + b.drop_last());
        assert((a + b).last() == b.last());
        assert(tokens_of(a + b) =~= tokens_of(a) + tokens_of(b));
        assert(words_of(a + b) =~= words_of(a) + words_of(b));
    }
}

/// The members of a set stand between separators: those of two lists with a separator between them are
/// those of the one and then those of the other; a member without a separator is one, trimmed and in
/// lower case, and white space is none.
pub proof fn members_stand_between_separators(a: Seq<char>, c: char, b: Seq<char>, word: Seq<char>)
    requires
        c == ',' || c == ' ' || c == '\t' || c == '\n' || c == ';',
        forall|i: int|
            0 <= i < word.len() ==> (#[trigger] word[i]) != ',' && word[i] != ' ' && word[i] != '\t'
                && word[i] != '\n' && word[i] != ';',
    ensures
        set_members(a.push(c) + b) == set_members(a) + set_members(b),
        trim(word).len() > 0 ==> set_members(word) == seq![lower(trim(word))],
        trim(word).len() == 0 ==> set_members(word).len() == 0,
{
    let cut = |c: char| is_set_separator(c);
    fields_are_cut_at_every_mark(a, c, b, cut);
    lemma_tokens_join(fields(a, cut), fields(b, cut));
    assert forall|i: int| 0 <= i < word.len() implies !cut(#[trigger] word[i]) by {}
    fields_are_cut_at_every_mark(word, c, b, cut);
    assert(seq![word].drop_last() =~= Seq::empty());
    assert(tokens_of(seq![word].drop_last()) =~= Seq::empty());
    assert(seq![word].last() == word);
    assert(trim(word).len() > 0 ==> set_members(word) =~= seq![lower(trim(word))]);
}

/// Two texts read the same where they have the same words but for case, however much white space stands
/// between and around them: what is compared is the words, one blank between any two.
pub proof fn white_space_and_case_do_not_matter(
    a: Seq<char>,
    c: char,
    b: Seq<char>,
    word: Seq<char>,
)
    requires
        is_space(c),
        forall|i: int| 0 <= i < word.len() ==> !is_space(#[trigger] word[i]),
    ensures
        blank(a) ==> normalized(a.push(c) + b) == normalized(b),
        blank(b) ==> normalized(a.push(c) + b) == normalized(a),
        normalized(a.push(c) + b) == normalized(a.push(' ') + b),
        normalized(a.push(c).push(c) + b) == normalized(a.push(c) + b),
        normalized(word) == lower(word),
        word.len() > 0 && !blank(a) ==> normalized(a.push(c) + word) == normalized(a).push(' ') + lower(
            word,
        ),
{
    let cut = |c: char| is_space(c);
    fields_are_cut_at_every_mark(a, c, b, cut);
    fields_are_cut_at_every_mark(a, ' ', b, cut);
    fields_are_cut_at_every_mark(a, c, word, cut);
    fields_are_cut_at_every_mark(a.push(c), c, b, cut);
    fields_are_cut_at_every_mark(a, c, Seq::empty(), cut);
    assert(a.push(c) + Seq::empty() =~= a.push(c));
    lemma_tokens_join(fields(a, cut), fields(b, cut));
    lemma_tokens_join(fields(a, cut), fields(word, cut));
    lemma_tokens_join(fields(a.push(c), cut), fields(b, cut));
    lemma_tokens_join(fields(a, cut), fields(Seq::empty(), cut));
    assert forall|i: int| 0 <= i < word.len() implies !cut(#[trigger] word[i]) by {}
    fields_are_cut_at_every_mark(word, c, b, cut);
    assert(fields(word, cut) == seq![word]);
    assert(seq![word].drop_last() =~= Seq::empty());
    assert(words_of(seq![word].drop_last()) =~= Seq::empty());
    assert(seq![word].last() == word);
    let wa = words_of(fields(a, cut));
    let wb = words_of(fields(b, cut));
    let ww = words_of(fields(word, cut));
    assert(word.len() > 0 ==> ww =~= seq![word]);
    assert(word.len() == 0 ==> ww =~= Seq::empty());
    if word.len() == 0 {
        assert(word =~= Seq::<char>::empty());
        assert(spaced(ww) =~= word);
    }
    if blank(a) {
        lemma_blank_has_no_words(a);
        assert(wa + wb =~= wb);
    }
    if blank(b) {
        lemma_blank_has_no_words(b);
        assert(wa + wb =~= wa);
    }
    let none = words_of(fields(Seq::empty(), cut));
    lemma_blank_has_no_words(Seq::empty());
    assert(wa + none =~= wa);
    if word.len() > 0 && !blank(a) {
        lemma_words_of_some(a);
        assert((wa + ww).drop_last() =~= wa);
        assert((wa + ww).last() == word);
        assert(spaced(wa + ww) == spaced(wa) + seq![' '] + word);
        assert(lower(spaced(wa) + seq![' '] + word) =~= lower(spaced(wa)).push(' ') + lower(word));
    }
}

proof fn lemma_blank_has_no_words(s: Seq<char>)
    requires
        blank(s),
    ensures
        words_of(fields(s, |c: char| is_space(c))).len() == 0,
    decreases s.len(),
{
    let cut = |c: char| is_space(c);
    if s.len() > 0 {
        let before = s.drop_last();
        assert forall|i: int| 0 <= i < before.len() implies is_space(#[trigger] before[i]) by {
            assert(is_space(s[i]));
        }
        assert(is_space(s[s.len() - 1]));
        lemma_blank_has_no_words(before);
        let f = fields(before, cut);
        assert(f.push(Seq::empty()).drop_last() =~= f);
    } else {
        let f = fields(s, cut);
        assert(f.drop_last() =~= Seq::empty());
        assert(words_of(f.drop_last()).len() == 0);
    }
}

proof fn lemma_words_of_some(s: Seq<char>)
    requires
        !blank(s),
    ensures
        words_of(fields(s, |c: char| is_space(c))).len() > 0,
    decreases s.len(),
{
    let cut = |c: char| is_space(c);
    let before = s.drop_last();
    let f = fields(before, cut);
    fields_are_cut_at_every_mark(before, ' ', before, cut);
    if is_space(s.last()) {
        if blank(before) {
            assert forall|i: int| 0 <= i < s.len() implies is_space(#[trigger] s[i]) by {
                if i < before.len() {
                    assert(before[i] == s[i]);
                }
            }
        }
        lemma_words_of_some(before);
        assert(f.push(Seq::empty()).drop_last() =~= f);
    } else {
        let g = f.drop_last().push(f.last().push(s.last()));
        assert(g.last().len() > 0);
        assert(words_of(g).len() > 0);
    }
}

} // verus!
