//! Rules that depend only on how long the samples are: whether a statistic
//! is defined at all, what it divides by, and which items a sliding window
//! covers.

use vstd::prelude::*;

verus! {

/// How many sliding windows of `window` items fit in a sample of `len` items:
/// none for an empty window or one longer than the sample.
pub open spec fn window_count_of(len: int, window: int) -> int {
    if window <= 0 || window > len {
        0
    } else {
        len - window + 1
    }
}

/// Counts the sliding windows of `window` items over a sample of `len` items.
pub fn window_count(len: usize, window: usize) -> (count: usize)
    ensures
        count == window_count_of(len as int, window as int),
{
    if window == 0 || window > len {
        0
    } else {
        len - window + 1
    }
}

/// A run of positions in a sample, from `start` up to but not including
/// `end`.
#[derive(Clone, Copy, Debug, PartialEq, Eq, Structural)]
pub struct Span {
    pub start: usize,
    pub end: usize,
}

/// The positions that the window with the given index covers; there is none
/// for an index at or beyond the number of windows. Window `index` starts at
/// position `index`, so the windows come in the order of the sample.
pub fn window_span(len: usize, window: usize, index: usize) -> (span: Option<Span>)
    ensures
        span is Some <==> index < window_count_of(len as int, window as int),
        span matches Some(s) ==> s.start == index && s.end == index + window && s.end <= len,
{
    if index < window_count(len, window) {
        Some(Span { start: index, end: index + window })
    } else {
        None
    }
}

/// With a window of at least one item, a sample of `len` items has
/// `len - window + 1` windows, or none where that is below zero. With a
/// window of one item there are as many windows as items, and each window
/// covers the one item at its own index.
pub proof fn lemma_window_count(len: int, window: int)
    requires
        0 <= len,
        1 <= window,
    ensures
        window_count_of(len, window) == if len - window + 1 > 0 {
            len - window + 1
        } else {
            0
        },
        window == 1 ==> window_count_of(len, window) == len,
{
}

/// What the sum of squared deviations of a sample of `len` items is divided
/// by to give its variance: one less than the number of items. There is no
/// divisor for fewer than two items, whose spread is taken to be zero.
pub fn spread_divisor(len: usize) -> (divisor: Option<usize>)
    ensures
        divisor is None <==> len < 2,
        divisor matches Some(d) ==> d == len - 1,
{
    if len < 2 {
        None
    } else {
        Some(len - 1)
    }
}

/// What a sum over `len` items is divided by to give their mean, and a count
/// among them to give a rate: the number of items. There is no divisor for
/// no items, whose mean and rate are taken to be zero, and for which a
/// report that needs at least one item is left empty.
pub fn mean_divisor(len: usize) -> (divisor: Option<usize>)
    ensures
        divisor is None <==> len == 0,
        divisor matches Some(d) ==> d == len,
{
    if len == 0 {
        None
    } else {
        Some(len)
    }
}

/// How the shares that records used of their time limits are averaged.
#[derive(Clone, Copy, Debug, PartialEq, Eq, Structural)]
pub struct UsagePlan {
    /// How many records have a limit to be held against: durations and
    /// limits pair up item by item as far as both reach.
    pub pairs: usize,
    /// What the sum of the shares is divided by: the number of durations.
    pub divisor: usize,
}

/// Plans the average share of their time limits that records used. There is
/// no plan without durations or without limits: the time efficiency is then
/// taken to be zero.
pub fn usage_plan(durations_len: usize, limits_len: usize) -> (plan: Option<UsagePlan>)
    ensures
        plan is None <==> durations_len == 0 || limits_len == 0,
        plan matches Some(p) ==> p.divisor == durations_len && p.pairs == if durations_len
            <= limits_len {
            durations_len
        } else {
            limits_len
        },
{
    if durations_len == 0 || limits_len == 0 {
        None
    } else if durations_len <= limits_len {
        Some(UsagePlan { pairs: durations_len, divisor: durations_len })
    } else {
        Some(UsagePlan { pairs: limits_len, divisor: durations_len })
    }
}

/// Two columns that were to pair up item by item, and differ in length.
#[derive(Clone, Copy, Debug, PartialEq, Eq, Structural)]
pub struct ArgumentMismatch {
    /// The length of the first column.
    pub left: usize,
    /// The length of the second column.
    pub right: usize,
}

/// The common length of two columns that are to pair up item by item, or the
/// mismatch where they differ. A call that is given such columns checks them
/// with this before it reads any item, so a mismatch leaves nothing half
/// done.
pub fn matched_len(left: usize, right: usize) -> (len: Result<usize, ArgumentMismatch>)
    ensures
        len is Ok <==> left == right,
        len matches Ok(n) ==> n == left,
        len matches Err(mismatch) ==> mismatch == (ArgumentMismatch { left, right }),
{
    if left == right {
        Ok(left)
    } else {
        Err(ArgumentMismatch { left, right })
    }
}

/// The number of pairs that two samples of the given lengths form, item by
/// item. Samples of different lengths, or of fewer than two items, form no
/// pairs to correlate or to fit a line to.
pub fn paired_len(x_len: usize, y_len: usize) -> (pairs: Option<usize>)
    ensures
        pairs is Some <==> x_len == y_len && x_len >= 2,
        pairs matches Some(n) ==> n == x_len,
{
    if x_len != y_len || x_len < 2 {
        None
    } else {
        Some(x_len)
    }
}

} // verus!
