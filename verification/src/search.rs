//! Positions of elements in sequences, shared by the text and byte scans.
use vstd::prelude::*;

verus! {

/// The least index of `s` at or after `from` that holds `x`.
pub open spec fn next_index<T>(s: Seq<T>, x: T, from: int) -> Option<int>
    decreases s.len() - from,
{
    if from < 0 || from >= s.len() {
        None
    } else if s[from] == x {
        Some(from)
    } else {
        next_index(s, x, from + 1)
    }
}

/// The least index of `s` that holds `x`.
pub open spec fn first_index<T>(s: Seq<T>, x: T) -> Option<int> {
    next_index(s, x, 0)
}

/// The greatest index of `s` that holds `x`.
pub open spec fn last_index<T>(s: Seq<T>, x: T) -> Option<int>
    decreases s.len(),
{
    if s.len() == 0 {
        None
    } else if s.last() == x {
        Some(s.len() - 1)
    } else {
        last_index(s.drop_last(), x)
    }
}

/// `next_index` returns an index that holds `x` with no earlier one in range,
/// and nothing only when `x` does not occur in range.
pub proof fn lemma_next_index<T>(s: Seq<T>, x: T, from: int)
    requires
        0 <= from <= s.len(),
    ensures
        match next_index(s, x, from) {
            Some(i) => {
                &&& from <= i < s.len()
                &&& s[i] == x
                &&& forall|j: int| from <= j < i ==> s[j] != x
            },
            None => forall|j: int| from <= j < s.len() ==> s[j] != x,
        },
    decreases s.len() - from,
{
    if from < s.len() && s[from] != x {
        lemma_next_index(s, x, from + 1);
    }
}

/// An index that holds `x`, with no earlier one in range, is the one that
/// `next_index` returns.
pub proof fn lemma_next_index_is<T>(s: Seq<T>, x: T, from: int, i: int)
    requires
        0 <= from <= i < s.len(),
        s[i] == x,
        forall|j: int| from <= j < i ==> s[j] != x,
    ensures
        next_index(s, x, from) == Some(i),
{
    lemma_next_index(s, x, from);
}

/// Where `x` does not occur in range, `next_index` returns nothing.
pub proof fn lemma_next_index_none<T>(s: Seq<T>, x: T, from: int)
    requires
        0 <= from <= s.len(),
        forall|j: int| from <= j < s.len() ==> s[j] != x,
    ensures
        next_index(s, x, from) is None,
{
    lemma_next_index(s, x, from);
}

/// `last_index` returns an index that holds `x` with no later one, and nothing
/// only when `x` does not occur.
pub proof fn lemma_last_index<T>(s: Seq<T>, x: T)
    ensures
        match last_index(s, x) {
            Some(i) => {
                &&& 0 <= i < s.len()
                &&& s[i] == x
                &&& forall|j: int| i < j < s.len() ==> s[j] != x
            },
            None => forall|j: int| 0 <= j < s.len() ==> s[j] != x,
        },
    decreases s.len(),
{
    if s.len() > 0 && s.last() != x {
        lemma_last_index(s.drop_last(), x);
        assert(forall|j: int| 0 <= j < s.len() - 1 ==> s[j] == s.drop_last()[j]);
    }
}

} // verus!
