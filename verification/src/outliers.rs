//! The items of a sample that lie outside a pair of fences.
//!
//! The fences are keys like those of the items. An item is an outlier when
//! its key is below the lower fence or above the upper one; an item on a
//! fence is none. Outliers are reported by position, in the order in which
//! they stand in the sample, and an item that occurs twice is reported twice.

use crate::ranks::lemma_runs_agree;
use vstd::prelude::*;

verus! {

/// Whether a key lies outside the fences.
pub open spec fn is_outlier(key: i64, lower: i64, upper: i64) -> bool {
    key < lower || key > upper
}

/// Whether `at` lists the positions of the outliers of a sample: nothing but
/// outliers, in ascending position, and every outlier.
pub open spec fn is_outlier_list(keys: Seq<i64>, lower: i64, upper: i64, at: Seq<usize>) -> bool {
    &&& forall|k: int|
        0 <= k < at.len() ==> #[trigger] at[k] < keys.len() && is_outlier(
            keys[at[k] as int],
            lower,
            upper,
        )
    &&& forall|a: int, b: int| #![trigger at[a], at[b]] 0 <= a < b < at.len() ==> at[a] < at[b]
    &&& forall|p: usize|
        p < keys.len() && is_outlier(keys[p as int], lower, upper) ==> #[trigger] at.contains(p)
}

/// Lists the positions of the items that lie outside the fences.
pub fn outlier_positions(keys: &Vec<i64>, lower: i64, upper: i64) -> (at: Vec<usize>)
    ensures
        is_outlier_list(keys@, lower, upper, at@),
{
    let mut at: Vec<usize> = Vec::new();
    let mut i: usize = 0;
    while i < keys.len()
        invariant
            i <= keys.len(),
            forall|k: int|
                0 <= k < at.len() ==> #[trigger] at[k] < i && is_outlier(
                    keys[at[k] as int],
                    lower,
                    upper,
                ),
            forall|a: int, b: int|
                #![trigger at[a], at[b]]
                0 <= a < b < at.len() ==> at[a] < at[b],
            forall|p: usize|
                p < i && is_outlier(keys[p as int], lower, upper) ==> #[trigger] at@.contains(p),
        decreases keys.len() - i,
    {
        let ghost before = at@;
        if keys[i] < lower || keys[i] > upper {
            at.push(i);
            proof {
                assert(forall|k: int| 0 <= k < before.len() ==> at[k] == before[k]);
                assert(at[before.len() as int] == i);
                assert forall|p: usize|
                    p < i + 1 && is_outlier(keys[p as int], lower, upper) implies #[trigger] at@
                    .contains(p) by {
                    if p < i {
                        assert(before.contains(p));
                        let k = choose|k: int| 0 <= k < before.len() && before[k] == p;
                        assert(at[k] == p);
                    }
                }
            }
        }
        i += 1;
    }
    at
}

/// A sample and a pair of fences have one list of outliers and no other.
pub proof fn lemma_outlier_list_unique(
    keys: Seq<i64>,
    lower: i64,
    upper: i64,
    p: Seq<usize>,
    q: Seq<usize>,
)
    requires
        is_outlier_list(keys, lower, upper, p),
        is_outlier_list(keys, lower, upper, q),
    ensures
        p == q,
{
    let level = Seq::new(keys.len(), |i: int| 0i64);
    let n = if p.len() <= q.len() {
        p.len() as int
    } else {
        q.len() as int
    };
    lemma_runs_agree(level, p, q, n);
    if p.len() < q.len() {
        let extra = q[n];
        assert(p.contains(extra));
        let w = choose|w: int| 0 <= w < p.len() && p[w] == extra;
        assert(q[w] == p[w]);
        assert(q[w] < q[n]);
    }
    if q.len() < p.len() {
        let extra = p[n];
        assert(q.contains(extra));
        let w = choose|w: int| 0 <= w < q.len() && q[w] == extra;
        assert(p[w] == q[w]);
        assert(p[w] < p[n]);
    }
    assert(p =~= q);
}

/// With the fences at the least and the greatest key that there is, no item
/// is an outlier.
pub proof fn lemma_widest_fences(keys: Seq<i64>, at: Seq<usize>)
    requires
        is_outlier_list(keys, i64::MIN, i64::MAX, at),
    ensures
        at.len() == 0,
{
    if at.len() > 0 {
        assert(at[0] < keys.len());
    }
}

} // verus!
