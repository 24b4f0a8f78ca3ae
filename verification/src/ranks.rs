//! The order of a sample's items, and the positions that order statistics
//! read.
//!
//! A sample is given by one key per item: an integer that orders the items
//! as their values do. Items are ranked by key, and items with the same key
//! by their position in the sample, so every sample has exactly one rank
//! order and equal values keep the order in which they came. What comes out
//! are positions in the sample, never keys: the caller reads the values
//! there.

use vstd::prelude::*;

verus! {

/// The key of a number held as a sign bit and a magnitude, the layout of
/// IEEE 754: the magnitude itself where the sign bit is clear, its negative
/// where it is set. Both zeros get the key 0. Keys order such numbers as
/// their values do; the patterns beyond the infinities, which stand for no
/// number, get the keys beyond all others on either side.
pub open spec fn order_key_of(bits: u64) -> int {
    if bits < 0x8000_0000_0000_0000 {
        bits as int
    } else {
        -(bits - 0x8000_0000_0000_0000)
    }
}

/// Computes the key of a sign-and-magnitude bit pattern.
pub fn order_key(bits: u64) -> (key: i64)
    ensures
        key == order_key_of(bits),
{
    if bits < 0x8000_0000_0000_0000 {
        bits as i64
    } else {
        let magnitude: u64 = bits - 0x8000_0000_0000_0000;
        -(magnitude as i64)
    }
}

/// Whether the item at `a` ranks before the item at `b`: by key, and among
/// equal keys by position.
pub open spec fn ranks_before(keys: Seq<i64>, a: int, b: int) -> bool {
    keys[a] < keys[b] || (keys[a] == keys[b] && a < b)
}

/// Whether `run` lists the positions from `lo` up to `hi`, each once, in
/// ascending rank.
pub open spec fn is_ranked_run(keys: Seq<i64>, run: Seq<usize>, lo: int, hi: int) -> bool {
    &&& run.len() == hi - lo
    &&& forall|k: int| 0 <= k < run.len() ==> lo <= #[trigger] run[k] < hi
    &&& forall|a: int, b: int|
        #![trigger run[a], run[b]]
        0 <= a < b < run.len() ==> ranks_before(keys, run[a] as int, run[b] as int)
    &&& forall|p: usize| lo <= p < hi ==> #[trigger] run.contains(p)
}

/// Whether `order` is the rank order of the sample: every position once, in
/// ascending rank.
pub open spec fn is_rank_order(keys: Seq<i64>, order: Seq<usize>) -> bool {
    is_ranked_run(keys, order, 0, keys.len() as int)
}

/// The rank order of a sample.
pub open spec fn rank_order_of(keys: Seq<i64>) -> Seq<usize> {
    choose|order: Seq<usize>| is_rank_order(keys, order)
}

/// Two runs in ascending rank that hold the same positions agree on their
/// first `n` items.
pub(crate) proof fn lemma_runs_agree(keys: Seq<i64>, p: Seq<usize>, q: Seq<usize>, n: int)
    requires
        0 <= n <= p.len(),
        n <= q.len(),
        forall|a: int, b: int|
            #![trigger p[a], p[b]]
            0 <= a < b < p.len() ==> ranks_before(keys, p[a] as int, p[b] as int),
        forall|a: int, b: int|
            #![trigger q[a], q[b]]
            0 <= a < b < q.len() ==> ranks_before(keys, q[a] as int, q[b] as int),
        forall|k: int| 0 <= k < p.len() ==> q.contains(#[trigger] p[k]),
        forall|k: int| 0 <= k < q.len() ==> p.contains(#[trigger] q[k]),
    ensures
        forall|k: int| 0 <= k < n ==> p[k] == q[k],
    decreases n,
{
    if n > 0 {
        lemma_runs_agree(keys, p, q, n - 1);
        let k = n - 1;
        let x = p[k];
        let y = q[k];
        assert(q.contains(x));
        let m = choose|m: int| 0 <= m < q.len() && q[m] == x;
        assert(p.contains(y));
        let w = choose|w: int| 0 <= w < p.len() && p[w] == y;
        if m < k {
            assert(p[m] == q[m]);
            assert(ranks_before(keys, p[m] as int, p[k] as int));
        }
        if w < k {
            assert(q[w] == p[w]);
            assert(ranks_before(keys, q[w] as int, q[k] as int));
        }
        if x != y {
            assert(ranks_before(keys, q[k] as int, q[m] as int));
            assert(ranks_before(keys, p[k] as int, p[w] as int));
        }
    }
}

/// A sample has at most one rank order.
pub proof fn lemma_rank_order_unique(keys: Seq<i64>, p: Seq<usize>, q: Seq<usize>)
    requires
        is_rank_order(keys, p),
        is_rank_order(keys, q),
    ensures
        p == q,
{
    lemma_runs_agree(keys, p, q, p.len() as int);
    assert(p =~= q);
}

/// Any rank order of a sample is the rank order of the sample.
pub proof fn lemma_rank_order_is(keys: Seq<i64>, order: Seq<usize>)
    requires
        is_rank_order(keys, order),
    ensures
        order == rank_order_of(keys),
{
    lemma_rank_order_unique(keys, order, rank_order_of(keys));
}

/// Merges two runs over adjoining spans into one.
fn merge_runs(
    keys: &Vec<i64>,
    left: &Vec<usize>,
    right: &Vec<usize>,
    Ghost(lo): Ghost<int>,
    Ghost(mid): Ghost<int>,
    Ghost(hi): Ghost<int>,
) -> (merged: Vec<usize>)
    requires
        0 <= lo <= mid <= hi <= keys.len(),
        is_ranked_run(keys@, left@, lo, mid),
        is_ranked_run(keys@, right@, mid, hi),
    ensures
        is_ranked_run(keys@, merged@, lo, hi),
{
    let mut merged: Vec<usize> = Vec::new();
    let mut i: usize = 0;
    let mut j: usize = 0;
    while i < left.len() || j < right.len()
        invariant
            0 <= lo <= mid <= hi <= keys.len(),
            is_ranked_run(keys@, left@, lo, mid),
            is_ranked_run(keys@, right@, mid, hi),
            i <= left.len(),
            j <= right.len(),
            merged.len() == i + j,
            forall|k: int| 0 <= k < merged.len() ==> lo <= #[trigger] merged[k] < hi,
            forall|a: int, b: int|
                #![trigger merged[a], merged[b]]
                0 <= a < b < merged.len() ==> ranks_before(
                    keys@,
                    merged[a] as int,
                    merged[b] as int,
                ),
            forall|k: int|
                0 <= k < merged.len() && i < left.len() ==> ranks_before(
                    keys@,
                    #[trigger] merged[k] as int,
                    left[i as int] as int,
                ),
            forall|k: int|
                0 <= k < merged.len() && j < right.len() ==> ranks_before(
                    keys@,
                    #[trigger] merged[k] as int,
                    right[j as int] as int,
                ),
            forall|a: int| 0 <= a < i ==> merged@.contains(#[trigger] left[a]),
            forall|b: int| 0 <= b < j ==> merged@.contains(#[trigger] right[b]),
        decreases left.len() - i + right.len() - j,
    {
        let ghost before = merged@;
        let take_left = if i >= left.len() {
            false
        } else if j >= right.len() {
            true
        } else {
            keys[left[i]] <= keys[right[j]]
        };
        if take_left {
            let item = left[i];
            merged.push(item);
            proof {
                assert(forall|k: int| 0 <= k < before.len() ==> merged[k] == before[k]);
                assert(merged[before.len() as int] == item);
                if i + 1 < left.len() {
                    assert(ranks_before(keys@, left[i as int] as int, left[i + 1] as int));
                }
                assert forall|a: int| 0 <= a < i + 1 implies merged@.contains(
                    #[trigger] left[a],
                ) by {
                    if a < i {
                        assert(before.contains(left[a]));
                        let k = choose|k: int| 0 <= k < before.len() && before[k] == left[a];
                        assert(merged[k] == left[a]);
                    } else {
                        assert(merged[before.len() as int] == left[a]);
                    }
                }
                assert forall|b: int| 0 <= b < j implies merged@.contains(#[trigger] right[b]) by {
                    assert(before.contains(right[b]));
                    let k = choose|k: int| 0 <= k < before.len() && before[k] == right[b];
                    assert(merged[k] == right[b]);
                }
            }
            i += 1;
        } else {
            let item = right[j];
            merged.push(item);
            proof {
                assert(forall|k: int| 0 <= k < before.len() ==> merged[k] == before[k]);
                assert(merged[before.len() as int] == item);
                if j + 1 < right.len() {
                    assert(ranks_before(keys@, right[j as int] as int, right[j + 1] as int));
                }
                assert forall|a: int| 0 <= a < i implies merged@.contains(#[trigger] left[a]) by {
                    assert(before.contains(left[a]));
                    let k = choose|k: int| 0 <= k < before.len() && before[k] == left[a];
                    assert(merged[k] == left[a]);
                }
                assert forall|b: int| 0 <= b < j + 1 implies merged@.contains(
                    #[trigger] right[b],
                ) by {
                    if b < j {
                        assert(before.contains(right[b]));
                        let k = choose|k: int| 0 <= k < before.len() && before[k] == right[b];
                        assert(merged[k] == right[b]);
                    } else {
                        assert(merged[before.len() as int] == right[b]);
                    }
                }
            }
            j += 1;
        }
    }
    proof {
        assert forall|p: usize| lo <= p < hi implies #[trigger] merged@.contains(p) by {
            if p < mid {
                assert(left@.contains(p));
                let a = choose|a: int| 0 <= a < left.len() && left[a] == p;
                assert(merged@.contains(left[a]));
            } else {
                assert(right@.contains(p));
                let b = choose|b: int| 0 <= b < right.len() && right[b] == p;
                assert(merged@.contains(right[b]));
            }
        }
    }
    merged
}

/// Ranks the positions from `lo` up to `hi`.
fn rank_span(keys: &Vec<i64>, lo: usize, hi: usize) -> (run: Vec<usize>)
    requires
        lo <= hi <= keys.len(),
    ensures
        is_ranked_run(keys@, run@, lo as int, hi as int),
    decreases hi - lo,
{
    let mut run: Vec<usize> = Vec::new();
    if hi - lo == 0 {
        run
    } else if hi - lo == 1 {
        run.push(lo);
        assert(run@[0] == lo);
        run
    } else {
        let mid = lo + (hi - lo) / 2;
        let left = rank_span(keys, lo, mid);
        let right = rank_span(keys, mid, hi);
        merge_runs(keys, &left, &right, Ghost(lo as int), Ghost(mid as int), Ghost(hi as int))
    }
}

/// Ranks the items of a sample: the positions of the sample in ascending
/// order of their keys, equal keys in the order in which they came.
pub fn rank_order(keys: &Vec<i64>) -> (order: Vec<usize>)
    ensures
        is_rank_order(keys@, order@),
        order@ == rank_order_of(keys@),
{
    let order = rank_span(keys, 0, keys.len());
    proof {
        lemma_rank_order_is(keys@, order@);
    }
    order
}

/// Where the median of a sample is read.
#[derive(Clone, Copy, Debug, PartialEq, Eq, Structural)]
pub enum MedianAt {
    /// The sample has an odd number of items: the median is the middle one.
    Single(usize),
    /// The sample has an even number of items: the median is the midpoint of
    /// the two middle ones, the lower first.
    Pair(usize, usize),
}

/// The positions in a sample at which its order statistics are read.
#[derive(Clone, Copy, Debug, PartialEq, Eq, Structural)]
pub struct RankPicks {
    pub sample_size: usize,
    pub min_at: usize,
    pub max_at: usize,
    pub median: MedianAt,
    pub q1_at: usize,
    pub q3_at: usize,
}

/// The rank at which the first quartile is read: a quarter of the size,
/// rounded down. No interpolation between ranks takes place.
pub open spec fn q1_rank(n: int) -> int {
    n / 4
}

/// The rank at which the third quartile is read: three quarters of the size,
/// rounded down.
pub open spec fn q3_rank(n: int) -> int {
    3 * n / 4
}

/// The picks that a rank order of at least one item gives: the least item at
/// rank 0, the greatest at the last rank, the median at the middle rank or
/// the two middle ranks, and the quartiles at a quarter and at three quarters
/// of the size, rounded down.
pub open spec fn picks_of(order: Seq<usize>) -> RankPicks
    recommends
        order.len() > 0,
{
    let n = order.len() as int;
    RankPicks {
        sample_size: n as usize,
        min_at: order[0],
        max_at: order[n - 1],
        median: if n % 2 == 0 {
            MedianAt::Pair(order[n / 2 - 1], order[n / 2])
        } else {
            MedianAt::Single(order[n / 2])
        },
        q1_at: order[q1_rank(n)],
        q3_at: order[q3_rank(n)],
    }
}

/// Reads the picks off a rank order; there are none for an empty one.
pub fn picks_from_order(order: &Vec<usize>) -> (picks: Option<RankPicks>)
    ensures
        picks is None <==> order.len() == 0,
        picks matches Some(p) ==> p == picks_of(order@),
{
    let n = order.len();
    if n == 0 {
        return None;
    }
    let median = if n % 2 == 0 {
        MedianAt::Pair(order[n / 2 - 1], order[n / 2])
    } else {
        MedianAt::Single(order[n / 2])
    };
    let q3 = (n / 4) * 3 + (n % 4) * 3 / 4;
    Some(
        RankPicks {
            sample_size: n,
            min_at: order[0],
            max_at: order[n - 1],
            median,
            q1_at: order[n / 4],
            q3_at: order[q3],
        },
    )
}

/// Finds the positions at which the order statistics of a sample are read;
/// there are none for an empty sample.
pub fn quantile_picks(keys: &Vec<i64>) -> (picks: Option<RankPicks>)
    ensures
        picks is None <==> keys.len() == 0,
        picks matches Some(p) ==> p == picks_of(rank_order_of(keys@)) && picks_in_sample(
            p,
            keys.len() as int,
        ),
{
    let order = rank_order(keys);
    picks_from_order(&order)
}

/// Whether every pick is a position of a sample of `len` items.
pub open spec fn picks_in_sample(picks: RankPicks, len: int) -> bool {
    &&& picks.sample_size == len
    &&& picks.min_at < len
    &&& picks.max_at < len
    &&& picks.q1_at < len
    &&& picks.q3_at < len
    &&& match picks.median {
        MedianAt::Single(at) => at < len,
        MedianAt::Pair(low, high) => low < len && high < len,
    }
}

/// Along the rank order the keys never fall, so the item at rank 0 holds a
/// least key and the item at the last rank a greatest one.
pub proof fn lemma_keys_rise_along_order(keys: Seq<i64>, a: int, b: int)
    requires
        0 <= a <= b < keys.len() <= usize::MAX,
    ensures
        keys[rank_order_of(keys)[a] as int] <= keys[rank_order_of(keys)[b] as int],
{
    let order = rank_order_of(keys);
    lemma_rank_order_exists(keys);
    if a < b {
        assert(ranks_before(keys, order[a] as int, order[b] as int));
    }
}

/// Every sample that fits in memory has a rank order.
pub proof fn lemma_rank_order_exists(keys: Seq<i64>)
    requires
        keys.len() <= usize::MAX,
    ensures
        is_rank_order(keys, rank_order_of(keys)),
    decreases keys.len(),
{
    if keys.len() == 0 {
        let none = Seq::<usize>::empty();
        assert(is_rank_order(keys, none));
    } else {
        let n = (keys.len() - 1) as int;
        let shorter = keys.drop_last();
        lemma_rank_order_exists(shorter);
        let rest = rank_order_of(shorter);
        let at = rank_among(keys, rest, n);
        let order = rest.insert(at, n as usize);
        lemma_insert_keeps_order(keys, rest, n);
        assert(is_rank_order(keys, order));
    }
}

/// How many of the first items of `run` rank before the item at `p`.
pub open spec fn rank_among(keys: Seq<i64>, run: Seq<usize>, p: int) -> int
    decreases run.len(),
{
    if run.len() == 0 {
        0
    } else if ranks_before(keys, run.last() as int, p) {
        run.len() as int
    } else {
        rank_among(keys, run.drop_last(), p)
    }
}

/// Putting the last position of a sample into the rank order of the items
/// before it, behind the items that rank before it, gives the rank order of
/// the sample.
proof fn lemma_insert_keeps_order(keys: Seq<i64>, rest: Seq<usize>, n: int)
    requires
        n == keys.len() - 1,
        0 <= n <= usize::MAX,
        is_rank_order(keys.drop_last(), rest),
    ensures
        is_rank_order(keys, rest.insert(rank_among(keys, rest, n), n as usize)),
{
    let shorter = keys.drop_last();
    assert forall|a: int, b: int|
        #![trigger rest[a], rest[b]]
        0 <= a < b < rest.len() implies ranks_before(keys, rest[a] as int, rest[b] as int) by {
        assert(ranks_before(shorter, rest[a] as int, rest[b] as int));
        assert(shorter[rest[a] as int] == keys[rest[a] as int]);
        assert(shorter[rest[b] as int] == keys[rest[b] as int]);
    }
    lemma_rank_among(keys, rest, n);
    let at = rank_among(keys, rest, n);
    let order = rest.insert(at, n as usize);
    assert forall|a: int, b: int|
        #![trigger order[a], order[b]]
        0 <= a < b < order.len() implies ranks_before(keys, order[a] as int, order[b] as int) by {
        if a == at {
            assert(order[b] == rest[b - 1]);
            assert(ranks_before(keys, n, rest[b - 1] as int));
        } else if b == at {
            assert(order[a] == rest[a]);
            assert(ranks_before(keys, rest[a] as int, n));
        } else {
            let ra = if a < at {
                a
            } else {
                a - 1
            };
            let rb = if b < at {
                b
            } else {
                b - 1
            };
            assert(order[a] == rest[ra]);
            assert(order[b] == rest[rb]);
            assert(ranks_before(keys, rest[ra] as int, rest[rb] as int));
        }
    }
    assert forall|p: usize| 0 <= p < keys.len() implies #[trigger] order.contains(p) by {
        if p == n {
            assert(order[at] == p);
        } else {
            assert(rest.contains(p));
            let k = choose|k: int| 0 <= k < rest.len() && rest[k] == p;
            if k < at {
                assert(order[k] == p);
            } else {
                assert(order[k + 1] == p);
            }
        }
    }
}

/// In a run in ascending rank, the items that rank before the item at `p`
/// are exactly the first `rank_among` ones.
proof fn lemma_rank_among(keys: Seq<i64>, run: Seq<usize>, p: int)
    requires
        forall|a: int, b: int|
            #![trigger run[a], run[b]]
            0 <= a < b < run.len() ==> ranks_before(keys, run[a] as int, run[b] as int),
        forall|k: int| 0 <= k < run.len() ==> #[trigger] run[k] != p,
    ensures
        0 <= rank_among(keys, run, p) <= run.len(),
        forall|k: int|
            0 <= k < rank_among(keys, run, p) ==> ranks_before(keys, #[trigger] run[k] as int, p),
        forall|k: int|
            rank_among(keys, run, p) <= k < run.len() ==> ranks_before(
                keys,
                p,
                #[trigger] run[k] as int,
            ),
    decreases run.len(),
{
    if run.len() > 0 {
        let last = run.len() - 1;
        if ranks_before(keys, run.last() as int, p) {
            assert forall|k: int| 0 <= k < run.len() implies ranks_before(
                keys,
                #[trigger] run[k] as int,
                p,
            ) by {
                if k < last {
                    assert(ranks_before(keys, run[k] as int, run[last] as int));
                }
            }
        } else {
            let shorter = run.drop_last();
            assert forall|a: int, b: int|
                #![trigger shorter[a], shorter[b]]
                0 <= a < b < shorter.len() implies ranks_before(
                keys,
                shorter[a] as int,
                shorter[b] as int,
            ) by {
                assert(ranks_before(keys, run[a] as int, run[b] as int));
            }
            assert forall|k: int| 0 <= k < shorter.len() implies #[trigger] shorter[k] != p by {
                assert(run[k] != p);
            }
            lemma_rank_among(keys, shorter, p);
            assert(run[last] != p);
            assert forall|k: int| rank_among(keys, run, p) <= k < run.len() implies ranks_before(
                keys,
                p,
                #[trigger] run[k] as int,
            ) by {
                if k < last {
                    assert(shorter[k] == run[k]);
                }
            }
            assert forall|k: int| 0 <= k < rank_among(keys, run, p) implies ranks_before(
                keys,
                #[trigger] run[k] as int,
                p,
            ) by {
                assert(shorter[k] == run[k]);
            }
        }
    }
}

} // verus!
