//! The pairs of variables of a correlation matrix.
//!
//! The variables come as the names of a mapping, so no name occurs twice;
//! a list in which one does is turned away. Every two different variables
//! form one pair. Within a pair the variable whose name is the lesser, read
//! character by character, is the first member, and the label of the pair is
//! the first name, an underscore and the second name. So the pairs and their
//! labels depend on the names alone and not on the order in which the names
//! are listed: only the place of a pair in the list of pairs follows that
//! order. A variable forms no pair with itself, and no pair is listed twice.
//! The pairs are independent of each other, so what is computed for them may
//! be computed in any order.

use crate::cells::texts_of;
use crate::text::{chars_of, same_text};
use vstd::prelude::*;
use vstd::string::StringExecFns;

verus! {

/// Two variables, by their positions in the list of names, and the label
/// under which what is computed for them is filed.
#[derive(Debug)]
pub struct NamedPair {
    /// The position of the variable with the lesser name.
    pub first: usize,
    /// The position of the variable with the greater name.
    pub second: usize,
    pub label: String,
}

/// Two positions in a list of names that hold the same name.
#[derive(Clone, Copy, Debug, PartialEq, Eq, Structural)]
pub struct DuplicateName {
    pub first: usize,
    pub second: usize,
}

/// The label of a pair: the first name, an underscore, the second name.
pub open spec fn pair_label(first: Seq<char>, second: Seq<char>) -> Seq<char> {
    first + seq!['_'] + second
}

/// The first position at or after `from` at which two names differ, or at
/// which one of them ends.
pub open spec fn differs_from(a: Seq<char>, b: Seq<char>, from: int) -> int
    decreases a.len() - from,
{
    if from < 0 || from >= a.len() || from >= b.len() || a[from] != b[from] {
        from
    } else {
        differs_from(a, b, from + 1)
    }
}

/// Whether the name `a` is less than the name `b`: at the first position at
/// which they differ `a` has the lesser character, or `a` ends there and `b`
/// goes on.
pub open spec fn name_before(a: Seq<char>, b: Seq<char>) -> bool {
    let at = differs_from(a, b, 0);
    if at >= b.len() {
        false
    } else if at >= a.len() {
        true
    } else {
        a[at] < b[at]
    }
}

/// Whether no name occurs twice in the list.
pub open spec fn distinct_names(names: Seq<String>) -> bool {
    forall|i: int, j: int|
        #![trigger names[i], names[j]]
        0 <= i < j < names.len() ==> names[i]@ != names[j]@
}

/// Whether `found` is the first pair of positions that hold the same name,
/// pairs being taken by their first member and then by their second.
pub open spec fn is_first_duplicate(names: Seq<String>, found: DuplicateName) -> bool {
    &&& found.first < found.second < names.len()
    &&& names[found.first as int]@ == names[found.second as int]@
    &&& forall|i: int, j: int|
        #![trigger names[i], names[j]]
        0 <= i < j < names.len() && (i < found.first || (i == found.first && j < found.second))
            ==> names[i]@ != names[j]@
}

/// The number of pairs among `n` variables whose earlier member is one of
/// the first `i` variables.
pub open spec fn pairs_before(n: int, i: int) -> int
    decreases i,
{
    if i <= 0 {
        0
    } else {
        pairs_before(n, i - 1) + (n - i)
    }
}

/// The number of pairs among `n` variables.
pub open spec fn pair_count(n: int) -> int {
    pairs_before(n, n)
}

/// The place in the list of pairs of the pair of the variables at `i` and
/// `j`, `i` being the earlier: pairs are listed by their earlier member, and
/// for one earlier member by the later.
pub open spec fn pair_rank(n: int, i: int, j: int) -> int {
    pairs_before(n, i) + (j - i - 1)
}

/// Whether the pair is that of the variables at `x` and `y`, in either
/// order.
pub open spec fn holds_both(entry: NamedPair, x: int, y: int) -> bool {
    (entry.first == x && entry.second == y) || (entry.first == y && entry.second == x)
}

/// Whether `entry` is the pair of the variables at `i` and `j`: it holds the
/// two, the one with the lesser name first, and its label is made of the two
/// names in that order.
pub open spec fn is_pair_of(names: Seq<String>, entry: NamedPair, i: int, j: int) -> bool {
    &&& holds_both(entry, i, j)
    &&& name_before(names[entry.first as int]@, names[entry.second as int]@)
    &&& entry.label@ == pair_label(names[entry.first as int]@, names[entry.second as int]@)
}

/// The earlier of the two positions of a pair.
pub open spec fn earlier(entry: NamedPair) -> int {
    if entry.first < entry.second {
        entry.first as int
    } else {
        entry.second as int
    }
}

/// The later of the two positions of a pair.
pub open spec fn later(entry: NamedPair) -> int {
    if entry.first < entry.second {
        entry.second as int
    } else {
        entry.first as int
    }
}

/// Whether `pairs` lists the pairs among the named variables: every pair of
/// two different variables at its own place, and nothing else.
pub open spec fn is_pair_list(names: Seq<String>, pairs: Seq<NamedPair>) -> bool {
    let n = names.len() as int;
    &&& pairs.len() == pair_count(n)
    &&& forall|i: int, j: int|
        0 <= i < j < n ==> 0 <= #[trigger] pair_rank(n, i, j) < pairs.len() && is_pair_of(
            names,
            pairs[pair_rank(n, i, j)],
            i,
            j,
        )
    &&& forall|k: int|
        0 <= k < pairs.len() ==> {
            let entry = #[trigger] pairs[k];
            &&& 0 <= earlier(entry) < later(entry) < n
            &&& pair_rank(n, earlier(entry), later(entry)) == k
        }
}

/// Whether an entry of one list of pairs and an entry of another are the
/// same pair: the same two names in the same order under the same label.
pub open spec fn same_pair(
    names: Seq<String>,
    entry: NamedPair,
    other_names: Seq<String>,
    other: NamedPair,
) -> bool {
    &&& names[entry.first as int]@ == other_names[other.first as int]@
    &&& names[entry.second as int]@ == other_names[other.second as int]@
    &&& entry.label@ == other.label@
}

/// Whether a list of pairs holds the given pair of another list.
pub open spec fn holds_pair(
    other_names: Seq<String>,
    others: Seq<NamedPair>,
    names: Seq<String>,
    entry: NamedPair,
) -> bool {
    exists|m: int| 0 <= m < others.len() && same_pair(names, entry, other_names, others[m])
}

/// Whether a list of pairs holds a pair with the given label.
pub open spec fn holds_label(pairs: Seq<NamedPair>, label: Seq<char>) -> bool {
    exists|k: int| 0 <= k < pairs.len() && pairs[k].label@ == label
}

/// Two names agree up to the first position at which they differ, and that
/// position is the same whichever name is taken first.
proof fn lemma_differs(a: Seq<char>, b: Seq<char>, from: int)
    requires
        0 <= from <= a.len(),
        from <= b.len(),
    ensures
        differs_from(a, b, from) == differs_from(b, a, from),
        from <= differs_from(a, b, from) <= a.len(),
        differs_from(a, b, from) <= b.len(),
        forall|k: int| from <= k < differs_from(a, b, from) ==> a[k] == b[k],
        differs_from(a, b, from) < a.len() && differs_from(a, b, from) < b.len() ==> a[differs_from(
            a,
            b,
            from,
        )] != b[differs_from(a, b, from)],
    decreases a.len() - from,
{
    if from < a.len() && from < b.len() && a[from] == b[from] {
        lemma_differs(a, b, from + 1);
    }
}

/// Of two different names exactly one is less than the other, and no name
/// is less than itself.
pub proof fn lemma_name_order(a: Seq<char>, b: Seq<char>)
    ensures
        a == b ==> !name_before(a, b),
        a != b ==> (name_before(a, b) <==> !name_before(b, a)),
{
    lemma_differs(a, b, 0);
    let at = differs_from(a, b, 0);
    if at >= a.len() && at >= b.len() {
        assert(a =~= b);
    }
}

/// Among `n` variables there are `n * (n - 1) / 2` pairs.
pub proof fn lemma_pair_count(n: int)
    requires
        0 <= n,
    ensures
        pair_count(n) == n * (n - 1) / 2,
{
    lemma_pairs_before(n, n);
    assert(n * (2 * n - n - 1) == n * (n - 1)) by (nonlinear_arith);
}

/// Twice the number of pairs whose earlier member is among the first `i` of
/// `n` variables is `i * (2 * n - i - 1)`.
proof fn lemma_pairs_before(n: int, i: int)
    requires
        0 <= i,
    ensures
        2 * pairs_before(n, i) == i * (2 * n - i - 1),
    decreases i,
{
    if i > 0 {
        lemma_pairs_before(n, i - 1);
        assert((i - 1) * (2 * n - (i - 1) - 1) + 2 * (n - i) == i * (2 * n - i - 1))
            by (nonlinear_arith);
    } else {
        assert(0 * (2 * n - 0 - 1) == 0) by (nonlinear_arith);
    }
}

/// The number of pairs with an earlier first member grows with the first
/// member, as long as there are variables left to pair it with.
proof fn lemma_pairs_before_rises(n: int, i: int, k: int)
    requires
        0 <= i <= k <= n,
    ensures
        pairs_before(n, i) <= pairs_before(n, k),
    decreases k - i,
{
    if i < k {
        lemma_pairs_before_rises(n, i, k - 1);
    }
}

/// Every pair has a place of its own: a pair that comes before another, by
/// earlier member and then by later, has the lower place, and all places lie
/// below the number of pairs.
pub proof fn lemma_pair_rank_rises(n: int, i: int, j: int, k: int, l: int)
    requires
        0 <= i < j < n,
        0 <= k < l < n,
        i < k || (i == k && j < l),
    ensures
        0 <= pair_rank(n, i, j) < pair_rank(n, k, l) < pair_count(n),
{
    lemma_pairs_before_rises(n, 0, i);
    lemma_pairs_before_rises(n, k + 1, n);
    if i < k {
        lemma_pairs_before_rises(n, i + 1, k);
    }
}

/// Every two different variables are paired exactly once, whichever of them
/// comes first in the list of names: one entry of the list of pairs holds
/// the two, and no other entry does.
pub proof fn lemma_every_two_paired_once(
    names: Seq<String>,
    pairs: Seq<NamedPair>,
    x: int,
    y: int,
) -> (k: int)
    requires
        is_pair_list(names, pairs),
        0 <= x < names.len(),
        0 <= y < names.len(),
        x != y,
    ensures
        0 <= k < pairs.len(),
        holds_both(pairs[k], x, y),
        forall|other: int|
            0 <= other < pairs.len() && holds_both(#[trigger] pairs[other], x, y) ==> other == k,
{
    let n = names.len() as int;
    let (i, j) = if x < y {
        (x, y)
    } else {
        (y, x)
    };
    let k = pair_rank(n, i, j);
    assert(is_pair_of(names, pairs[k], i, j));
    assert forall|other: int|
        0 <= other < pairs.len() && holds_both(#[trigger] pairs[other], x, y) implies other
        == k by {
        let entry = pairs[other];
        assert(earlier(entry) == i && later(entry) == j);
    }
    k
}

/// A list of names that has a list of pairs holds no name twice.
pub proof fn lemma_paired_names_distinct(names: Seq<String>, pairs: Seq<NamedPair>)
    requires
        is_pair_list(names, pairs),
    ensures
        distinct_names(names),
{
    let n = names.len() as int;
    assert forall|i: int, j: int|
        #![trigger names[i], names[j]]
        0 <= i < j < names.len() implies names[i]@ != names[j]@ by {
        assert(is_pair_of(names, pairs[pair_rank(n, i, j)], i, j));
        lemma_name_order(names[i]@, names[j]@);
    }
}

/// The names have one list of pairs and no other: two lists of the pairs
/// among the same names agree entry by entry.
pub proof fn lemma_pair_list_unique(names: Seq<String>, p: Seq<NamedPair>, q: Seq<NamedPair>)
    requires
        is_pair_list(names, p),
        is_pair_list(names, q),
    ensures
        p.len() == q.len(),
        forall|k: int|
            0 <= k < p.len() ==> (#[trigger] p[k]).first == q[k].first && p[k].second
                == q[k].second && p[k].label@ == q[k].label@,
{
    let n = names.len() as int;
    assert forall|k: int| 0 <= k < p.len() implies (#[trigger] p[k]).first == q[k].first
        && p[k].second == q[k].second && p[k].label@ == q[k].label@ by {
        let entry = p[k];
        let i = earlier(entry);
        let j = later(entry);
        assert(pair_rank(n, i, j) == k);
        assert(is_pair_of(names, p[pair_rank(n, i, j)], i, j));
        assert(is_pair_of(names, q[pair_rank(n, i, j)], i, j));
        lemma_name_order(names[i]@, names[j]@);
    }
}

/// A pair among the names of one list is a pair among the names of any list
/// that holds the same names.
proof fn lemma_pair_in_other(
    names: Seq<String>,
    pairs: Seq<NamedPair>,
    other_names: Seq<String>,
    others: Seq<NamedPair>,
    k: int,
) -> (m: int)
    requires
        is_pair_list(names, pairs),
        is_pair_list(other_names, others),
        texts_of(names).to_multiset() == texts_of(other_names).to_multiset(),
        0 <= k < pairs.len(),
    ensures
        0 <= m < others.len(),
        same_pair(names, pairs[k], other_names, others[m]),
{
    let n = names.len() as int;
    let entry = pairs[k];
    assert(is_pair_of(names, pairs[pair_rank(n, earlier(entry), later(entry))], earlier(entry), later(entry)));
    let a = names[entry.first as int]@;
    let b = names[entry.second as int]@;
    lemma_name_order(a, b);
    let texts = texts_of(names);
    let other_texts = texts_of(other_names);
    assert(texts[entry.first as int] == a);
    assert(texts[entry.second as int] == b);
    assert(texts.contains(a));
    assert(texts.contains(b));
    vstd::seq_lib::to_multiset_contains(texts, a);
    vstd::seq_lib::to_multiset_contains(texts, b);
    vstd::seq_lib::to_multiset_contains(other_texts, a);
    vstd::seq_lib::to_multiset_contains(other_texts, b);
    assert(other_texts.to_multiset().count(a) > 0);
    assert(other_texts.to_multiset().count(b) > 0);
    assert(other_texts.contains(a));
    assert(other_texts.contains(b));
    let x = choose|x: int| 0 <= x < other_texts.len() && other_texts[x] == a;
    let y = choose|y: int| 0 <= y < other_texts.len() && other_texts[y] == b;
    assert(other_names[x]@ == a);
    assert(other_names[y]@ == b);
    let m = lemma_every_two_paired_once(other_names, others, x, y);
    let found = others[m];
    assert(is_pair_of(
        other_names,
        others[pair_rank(other_names.len() as int, earlier(found), later(found))],
        earlier(found),
        later(found),
    ));
    m
}

/// The pairs depend on the names alone: two lists that hold the same names,
/// in whatever order, have the same number of pairs, and each pair of the
/// one is a pair of the other, with the same two names in the same order
/// under the same label. So the two have the same set of labels.
pub proof fn lemma_pairs_ignore_order(
    names: Seq<String>,
    pairs: Seq<NamedPair>,
    other_names: Seq<String>,
    others: Seq<NamedPair>,
)
    requires
        is_pair_list(names, pairs),
        is_pair_list(other_names, others),
        texts_of(names).to_multiset() == texts_of(other_names).to_multiset(),
    ensures
        pairs.len() == others.len(),
        forall|k: int|
            0 <= k < pairs.len() ==> holds_pair(other_names, others, names, #[trigger] pairs[k]),
        forall|m: int|
            0 <= m < others.len() ==> holds_pair(names, pairs, other_names, #[trigger] others[m]),
        forall|label: Seq<char>| holds_label(pairs, label) <==> holds_label(others, label),
{
    lemma_same_count(names, pairs, other_names, others);
    lemma_pairs_held(names, pairs, other_names, others);
    lemma_pairs_held(other_names, others, names, pairs);
}

/// Two lists that hold the same names have the same number of pairs.
proof fn lemma_same_count(
    names: Seq<String>,
    pairs: Seq<NamedPair>,
    other_names: Seq<String>,
    others: Seq<NamedPair>,
)
    requires
        pairs.len() == pair_count(names.len() as int),
        others.len() == pair_count(other_names.len() as int),
        texts_of(names).to_multiset() == texts_of(other_names).to_multiset(),
    ensures
        pairs.len() == others.len(),
{
    vstd::seq_lib::to_multiset_len(texts_of(names));
    vstd::seq_lib::to_multiset_len(texts_of(other_names));
}

/// Every pair and every label of one list is held by any list of the pairs
/// among the same names.
proof fn lemma_pairs_held(
    names: Seq<String>,
    pairs: Seq<NamedPair>,
    other_names: Seq<String>,
    others: Seq<NamedPair>,
)
    requires
        is_pair_list(names, pairs),
        is_pair_list(other_names, others),
        texts_of(names).to_multiset() == texts_of(other_names).to_multiset(),
    ensures
        forall|k: int|
            0 <= k < pairs.len() ==> holds_pair(other_names, others, names, #[trigger] pairs[k]),
        forall|label: Seq<char>| holds_label(pairs, label) ==> holds_label(others, label),
{
    assert forall|k: int| 0 <= k < pairs.len() implies holds_pair(
        other_names,
        others,
        names,
        #[trigger] pairs[k],
    ) by {
        lemma_pair_held(names, pairs, other_names, others, k);
    }
    assert forall|label: Seq<char>| holds_label(pairs, label) implies holds_label(
        others,
        label,
    ) by {
        let k = choose|k: int| 0 <= k < pairs.len() && pairs[k].label@ == label;
        lemma_pair_held(names, pairs, other_names, others, k);
    }
}

/// One pair, and its label, is held by any list of the pairs among the same
/// names.
proof fn lemma_pair_held(
    names: Seq<String>,
    pairs: Seq<NamedPair>,
    other_names: Seq<String>,
    others: Seq<NamedPair>,
    k: int,
)
    requires
        is_pair_list(names, pairs),
        is_pair_list(other_names, others),
        texts_of(names).to_multiset() == texts_of(other_names).to_multiset(),
        0 <= k < pairs.len(),
    ensures
        holds_pair(other_names, others, names, pairs[k]),
        holds_label(others, pairs[k].label@),
{
    let m = lemma_pair_in_other(names, pairs, other_names, others, k);
    assert(same_pair(names, pairs[k], other_names, others[m]));
    assert(others[m].label@ == pairs[k].label@);
}

/// Tells whether the name `a` is less than the name `b`.
fn comes_before(a: &Vec<char>, b: &Vec<char>) -> (before: bool)
    ensures
        before == name_before(a@, b@),
{
    let mut at: usize = 0;
    while at < a.len() && at < b.len() && a[at] == b[at]
        invariant
            at <= a.len(),
            at <= b.len(),
            differs_from(a@, b@, at as int) == differs_from(a@, b@, 0),
        decreases a.len() - at,
    {
        at += 1;
    }
    if at >= b.len() {
        false
    } else if at >= a.len() {
        true
    } else {
        a[at] < b[at]
    }
}

/// The characters of every name of a list.
fn characters_of(names: &Vec<String>) -> (all: Vec<Vec<char>>)
    ensures
        all.len() == names.len(),
        forall|i: int| 0 <= i < all.len() ==> (#[trigger] all[i])@ == names[i]@,
{
    let mut all: Vec<Vec<char>> = Vec::new();
    let mut i: usize = 0;
    while i < names.len()
        invariant
            i <= names.len(),
            all.len() == i,
            forall|k: int| 0 <= k < i ==> (#[trigger] all[k])@ == names[k]@,
        decreases names.len() - i,
    {
        let chars = chars_of(names[i].as_str());
        all.push(chars);
        i += 1;
    }
    all
}

/// Lists the pairs among the named variables, each with its label. A list
/// that holds a name twice has no pairs: the first two positions that hold
/// the same name are handed back instead.
pub fn variable_pairs(names: &Vec<String>) -> (result: Result<Vec<NamedPair>, DuplicateName>)
    ensures
        result is Ok <==> distinct_names(names@),
        result matches Ok(pairs) ==> is_pair_list(names@, pairs@),
        result matches Err(found) ==> is_first_duplicate(names@, found),
{
    let n = names.len();
    let characters = characters_of(names);
    let mut pairs: Vec<NamedPair> = Vec::new();
    let mut i: usize = 0;
    while i < n
        invariant
            n == names.len(),
            characters.len() == n,
            forall|k: int| 0 <= k < n ==> (#[trigger] characters[k])@ == names[k]@,
            i <= n,
            pairs.len() == pairs_before(n as int, i as int),
            forall|a: int, b: int|
                #![trigger names[a], names[b]]
                0 <= a < b < n && a < i ==> names[a]@ != names[b]@,
            forall|a: int, b: int|
                0 <= a < b < n && a < i ==> 0 <= #[trigger] pair_rank(n as int, a, b) < pairs.len()
                    && is_pair_of(names@, pairs[pair_rank(n as int, a, b)], a, b),
            forall|k: int|
                0 <= k < pairs.len() ==> {
                    let entry = #[trigger] pairs[k];
                    &&& 0 <= earlier(entry) < later(entry) < n
                    &&& pair_rank(n as int, earlier(entry), later(entry)) == k
                },
        decreases n - i,
    {
        let mut j: usize = i + 1;
        while j < n
            invariant
                n == names.len(),
                characters.len() == n,
                forall|k: int| 0 <= k < n ==> (#[trigger] characters[k])@ == names[k]@,
                i < n,
                i < j <= n,
                pairs.len() == pair_rank(n as int, i as int, j as int),
                forall|a: int, b: int|
                    #![trigger names[a], names[b]]
                    0 <= a < b < n && (a < i || (a == i && b < j)) ==> names[a]@ != names[b]@,
                forall|a: int, b: int|
                    0 <= a < b < n && (a < i || (a == i && b < j)) ==> 0 <= #[trigger] pair_rank(
                        n as int,
                        a,
                        b,
                    ) < pairs.len() && is_pair_of(names@, pairs[pair_rank(n as int, a, b)], a, b),
                forall|k: int|
                    0 <= k < pairs.len() ==> {
                        let entry = #[trigger] pairs[k];
                        &&& 0 <= earlier(entry) < later(entry) < n
                        &&& pair_rank(n as int, earlier(entry), later(entry)) == k
                    },
            decreases n - j,
        {
            if same_text(&characters[i], &characters[j]) {
                assert(names@[i as int]@ == names@[j as int]@);
                return Err(DuplicateName { first: i, second: j });
            }
            let swap = comes_before(&characters[j], &characters[i]);
            proof {
                lemma_name_order(names[i as int]@, names[j as int]@);
            }
            let first = if swap {
                j
            } else {
                i
            };
            let second = if swap {
                i
            } else {
                j
            };
            let mut label = names[first].clone();
            label.append("_");
            label.append(names[second].as_str());
            proof {
                reveal_strlit("_");
                assert("_"@ == seq!['_']);
            }
            let ghost before = pairs@;
            pairs.push(NamedPair { first, second, label });
            proof {
                assert(forall|k: int| 0 <= k < before.len() ==> pairs[k] == before[k]);
                assert(is_pair_of(names@, pairs[before.len() as int], i as int, j as int));
            }
            j += 1;
        }
        i += 1;
    }
    Ok(pairs)
}

} // verus!
