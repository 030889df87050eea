//! Sampling several answers to one prompt.
//!
//! The siblings share everything but the seed: each gets its own, so that no two answers are drawn
//! the same way, and the group can be drawn again.

use vstd::prelude::*;

use crate::generate::request::SamplingPreset;

verus! {

/// The size of a group where none is asked for.
pub const DEFAULT_K: u32 = 1;

/// How one sibling is sampled.
#[derive(Debug, Clone, Copy, PartialEq, Eq, Structural)]
pub struct SiblingPlan {
    /// Its place in the group.
    pub completion_index: u32,
    /// The size of the group.
    pub n_completions: u32,
    /// How it is sampled.
    pub sampling: SamplingPreset,
}

/// The size of a group: at least one.
pub open spec fn group_size(k: u32) -> u32 {
    if k == 0 {
        1
    } else {
        k
    }
}

/// The seed that the group starts from.
pub open spec fn base_seed(base: SamplingPreset) -> int {
    match base.seed {
        Some(s) => s as int,
        None => 0,
    }
}

/// The seed of a sibling: as far behind the first as its place, past the largest seed going on at
/// the smallest.
pub open spec fn sibling_seed(base: int, i: int) -> int {
    if base + i > i64::MAX {
        base + i - 0x1_0000_0000_0000_0000
    } else {
        base + i
    }
}

/// The plan of a sibling.
pub open spec fn sibling_plan(base: SamplingPreset, k: u32, i: int) -> SiblingPlan {
    SiblingPlan {
        completion_index: i as u32,
        n_completions: group_size(k),
        sampling: SamplingPreset {
            seed: Some(sibling_seed(base_seed(base), i) as i64),
            ..base
        },
    }
}

fn seed_of(base: i64, i: u32) -> (s: i64)
    ensures
        s == sibling_seed(base as int, i as int),
{
    base.wrapping_add(i as i64)
}

/// Plans a group of `k` siblings.
#[must_use]
pub fn plan_group(base: SamplingPreset, k: u32) -> (plans: Vec<SiblingPlan>)
    ensures
        plans@.len() == group_size(k),
        forall|i: int|
            0 <= i < plans@.len() ==> #[trigger] plans@[i] == sibling_plan(base, k, i),
{
    let n: u32 = if k == 0 {
        1
    } else {
        k
    };
    let start: i64 = match base.seed {
        Some(s) => s,
        None => 0,
    };
    let mut plans: Vec<SiblingPlan> = Vec::new();
    let mut i: u32 = 0;
    while i < n
        invariant
            i <= n,
            n == group_size(k),
            start == base_seed(base),
            plans@.len() == i,
            forall|j: int| 0 <= j < i ==> #[trigger] plans@[j] == sibling_plan(base, k, j),
        decreases n - i,
    {
        plans.push(
            SiblingPlan {
                completion_index: i,
                n_completions: n,
                sampling: SamplingPreset {
                    temperature: base.temperature,
                    top_p: base.top_p,
                    seed: Some(seed_of(start, i)),
                },
            },
        );
        i += 1;
    }
    plans
}

/// Whether no two plans have the same seed.
pub open spec fn distinct_seeds(plans: Seq<SiblingPlan>) -> bool {
    forall|i: int, j: int|
        0 <= i < j < plans.len() ==> (#[trigger] plans[i]).sampling.seed != (
        #[trigger] plans[j]).sampling.seed
}

fn same_seed(a: Option<i64>, b: Option<i64>) -> (r: bool)
    ensures
        r == (a == b),
{
    match (a, b) {
        (Some(x), Some(y)) => x == y,
        (None, None) => true,
        _ => false,
    }
}

/// Whether no two plans have the same seed.
#[must_use]
pub fn seeds_are_distinct(plans: &[SiblingPlan]) -> (r: bool)
    ensures
        r == distinct_seeds(plans@),
{
    let mut j: usize = 0;
    while j < plans.len()
        invariant
            j <= plans@.len(),
            distinct_seeds(plans@.take(j as int)),
        decreases plans@.len() - j,
    {
        let mut i: usize = 0;
        while i < j
            invariant
                i <= j < plans@.len(),
                forall|h: int|
                    0 <= h < i ==> (#[trigger] plans@[h]).sampling.seed
                        != plans@[j as int].sampling.seed,
            decreases j - i,
        {
            if same_seed(plans[i].sampling.seed, plans[j].sampling.seed) {
                return false;
            }
            i += 1;
        }
        proof {
            let shorter = plans@.take(j as int);
            let longer = plans@.take(j + 1);
            assert forall|a: int, b: int| 0 <= a < b < longer.len() implies (
            #[trigger] longer[a]).sampling.seed != (#[trigger] longer[b]).sampling.seed by {
                if b < j {
                    assert(shorter[a] == longer[a]);
                    assert(shorter[b] == longer[b]);
                } else {
                    assert(longer[a] == plans@[a]);
                }
            }
        }
        j += 1;
    }
    assert(plans@.take(j as int) =~= plans@);
    true
}

/// No two siblings of a group are drawn with the same seed, and they share everything else.
pub proof fn siblings_differ_in_their_seeds(base: SamplingPreset, k: u32, i: int, j: int)
    requires
        0 <= i < group_size(k),
        0 <= j < group_size(k),
    ensures
        ({
            let a = sibling_plan(base, k, i).sampling;
            let b = sibling_plan(base, k, j).sampling;
            &&& i != j ==> a.seed != b.seed
            &&& a.temperature == b.temperature && a.top_p == b.top_p
        }),
{
    let start = base_seed(base);
    assert(i64::MIN <= sibling_seed(start, i) <= i64::MAX);
    assert(i64::MIN <= sibling_seed(start, j) <= i64::MAX);
}

/// A group has as many siblings as were asked for, and at least one; each is told its place and the size
/// of the group, the first has the seed of the base, or zero where it has none, each next the next seed,
/// and nothing else of the sampling changes.
pub proof fn siblings_count_up_from_the_base(base: SamplingPreset, k: u32, i: int)
    requires
        0 <= i < group_size(k),
    ensures
        group_size(k) >= 1,
        k > 0 ==> group_size(k) == k,
        sibling_plan(base, k, i).completion_index == i,
        sibling_plan(base, k, i).n_completions == group_size(k),
        sibling_plan(base, k, i).sampling.temperature == base.temperature,
        sibling_plan(base, k, i).sampling.top_p == base.top_p,
        ({
            let first = match base.seed {
                Some(s) => s,
                None => 0i64,
            };
            &&& sibling_plan(base, k, i).sampling.seed is Some
            &&& first + i <= i64::MAX ==> sibling_plan(base, k, i).sampling.seed->0 == first + i
            &&& first + i > i64::MAX ==> sibling_plan(base, k, i).sampling.seed->0 == first + i
                - 0x1_0000_0000_0000_0000
        }),
{
}

} // verus!
