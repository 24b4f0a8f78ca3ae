//! Texts as lists of characters: finding a mark in a text, and telling two
//! texts apart.

use vstd::prelude::*;

verus! {

broadcast use vstd::string::group_string_axioms;

/// The position of the first `mark` of `s` at or after `from`, or the length
/// of `s` where there is none.
pub open spec fn mark_from(s: Seq<char>, mark: char, from: int) -> int
    decreases s.len() - from,
{
    if from < 0 || from >= s.len() {
        s.len() as int
    } else if s[from] == mark {
        from
    } else {
        mark_from(s, mark, from + 1)
    }
}

/// Whether a text holds no `mark`.
pub open spec fn mark_free(s: Seq<char>, mark: char) -> bool {
    forall|i: int| 0 <= i < s.len() ==> #[trigger] s[i] != mark
}

/// The first `mark` at or after `from` is at `at` when that item is the
/// mark and none comes before it.
pub proof fn lemma_mark_found(s: Seq<char>, mark: char, from: int, at: int)
    requires
        0 <= from <= at <= s.len(),
        at < s.len() ==> s[at] == mark,
        forall|i: int| from <= i < at ==> #[trigger] s[i] != mark,
    ensures
        mark_from(s, mark, from) == at,
    decreases at - from,
{
    if from < at {
        lemma_mark_found(s, mark, from + 1, at);
    }
}

/// The first mark at or after a position lies between it and the end.
pub proof fn lemma_mark_bounds(s: Seq<char>, mark: char, from: int)
    requires
        0 <= from <= s.len(),
    ensures
        from <= mark_from(s, mark, from) <= s.len(),
    decreases s.len() - from,
{
    if from < s.len() && s[from] != mark {
        lemma_mark_bounds(s, mark, from + 1);
    }
}

/// The items of a text, one by one.
pub(crate) fn chars_of(text: &str) -> (chars: Vec<char>)
    ensures
        chars@ == text@,
{
    let mut chars: Vec<char> = Vec::new();
    for c in it: text.chars()
        invariant
            chars@ == it.seq().take(it.index() as int),
            it.seq() == text@,
    {
        chars.push(c);
    }
    chars
}

/// Finds the first `mark` at or after `from`.
pub(crate) fn find_mark(chars: &Vec<char>, mark: char, from: usize) -> (at: usize)
    requires
        from <= chars.len(),
    ensures
        at == mark_from(chars@, mark, from as int),
        from <= at <= chars.len(),
{
    let mut at: usize = from;
    while at < chars.len() && chars[at] != mark
        invariant
            from <= at <= chars.len(),
            mark_from(chars@, mark, at as int) == mark_from(chars@, mark, from as int),
        decreases chars.len() - at,
    {
        at += 1;
    }
    at
}

/// Whether two texts are the same.
pub(crate) fn same_text(a: &Vec<char>, b: &Vec<char>) -> (same: bool)
    ensures
        same == (a@ == b@),
{
    if a.len() != b.len() {
        return false;
    }
    let mut i: usize = 0;
    while i < a.len()
        invariant
            a.len() == b.len(),
            i <= a.len(),
            forall|k: int| 0 <= k < i ==> a[k] == b[k],
        decreases a.len() - i,
    {
        if a[i] != b[i] {
            return false;
        }
        i += 1;
    }
    assert(a@ =~= b@);
    true
}

} // verus!
