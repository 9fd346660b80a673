//! Searching, splitting and comparing byte strings.

use vstd::prelude::*;
use vstd::std_specs::cmp::PartialEqSpec;
use crate::ext_slice::{window_at, ExtSlice};

verus! {

/// `pattern` stands in `text` at offset `at`.
pub open spec fn occurs_at(text: Seq<u8>, pattern: Seq<u8>, at: int) -> bool {
    &&& 0 <= at
    &&& at + pattern.len() <= text.len()
    &&& text.subrange(at, at + pattern.len()) == pattern
}

/// `at` is the offset of the leftmost occurrence of `pattern` in `text`.
pub open spec fn first_at(text: Seq<u8>, pattern: Seq<u8>, at: int) -> bool {
    &&& occurs_at(text, pattern, at)
    &&& forall|k: int| 0 <= k < at ==> !occurs_at(text, pattern, k)
}

/// `pattern` occurs somewhere in `text`.
pub open spec fn contains(text: Seq<u8>, pattern: Seq<u8>) -> bool {
    exists|at: int| occurs_at(text, pattern, at)
}

/// Offset of the leftmost occurrence of `pattern` in `text`.
pub open spec fn find(text: Seq<u8>, pattern: Seq<u8>) -> Option<int> {
    if exists|at: int| first_at(text, pattern, at) {
        Some(choose|at: int| first_at(text, pattern, at))
    } else {
        None
    }
}

/// What stands before the leftmost occurrence of `pattern`, and what stands after it.
pub open spec fn split_once(text: Seq<u8>, pattern: Seq<u8>) -> Option<(Seq<u8>, Seq<u8>)> {
    match find(text, pattern) {
        Some(at) => Some(
            (text.subrange(0, at), text.subrange(at + pattern.len(), text.len() as int)),
        ),
        None => None,
    }
}

/// `text` begins with `prefix`.
pub open spec fn starts_with(text: Seq<u8>, prefix: Seq<u8>) -> bool {
    occurs_at(text, prefix, 0)
}

/// On bytes, an element-wise window match is an occurrence.
pub proof fn lemma_window_is_occurrence(text: Seq<u8>, pattern: Seq<u8>, at: int)
    ensures
        window_at(text, pattern, at) <==> occurs_at(text, pattern, at),
{
    if window_at(text, pattern, at) {
        assert forall|j: int| 0 <= j < pattern.len() implies text.subrange(
            at,
            at + pattern.len(),
        )[j] == pattern[j] by {
            assert(text[at + j].eq_spec(&pattern[j]));
        }
        assert(text.subrange(at, at + pattern.len()) =~= pattern);
    }
    if occurs_at(text, pattern, at) {
        assert forall|j: int| 0 <= j < pattern.len() implies (#[trigger] text[at + j]).eq_spec(
            &pattern[j],
        ) by {
            assert(text.subrange(at, at + pattern.len())[j] == pattern[j]);
        }
    }
}

/// The leftmost occurrence is the one that `find` names.
pub proof fn lemma_find_is_first(text: Seq<u8>, pattern: Seq<u8>, at: int)
    requires
        first_at(text, pattern, at),
    ensures
        find(text, pattern) == Some(at),
{
    let chosen = choose|k: int| first_at(text, pattern, k);
    assert(first_at(text, pattern, chosen));
    if chosen < at {
        assert(!occurs_at(text, pattern, chosen));
    }
    if at < chosen {
        assert(!occurs_at(text, pattern, at));
    }
}

/// Where a pattern occurs, it has a leftmost occurrence, at or before that place.
pub proof fn lemma_occurrence_has_first(text: Seq<u8>, pattern: Seq<u8>, at: int)
    requires
        occurs_at(text, pattern, at),
    ensures
        find(text, pattern) matches Some(first) && 0 <= first <= at && first_at(
            text,
            pattern,
            first,
        ),
    decreases at,
{
    if exists|k: int| 0 <= k < at && occurs_at(text, pattern, k) {
        let k = choose|k: int| 0 <= k < at && occurs_at(text, pattern, k);
        lemma_occurrence_has_first(text, pattern, k);
    } else {
        assert(first_at(text, pattern, at));
        lemma_find_is_first(text, pattern, at);
    }
}

/// `find` names an occurrence exactly where there is one.
pub proof fn lemma_find_sound(text: Seq<u8>, pattern: Seq<u8>)
    ensures
        find(text, pattern) is None <==> !contains(text, pattern),
        find(text, pattern) matches Some(at) ==> first_at(text, pattern, at),
{
    if contains(text, pattern) {
        let at = choose|at: int| occurs_at(text, pattern, at);
        lemma_occurrence_has_first(text, pattern, at);
    }
    if find(text, pattern) is Some {
        let at = choose|at: int| first_at(text, pattern, at);
        assert(occurs_at(text, pattern, at));
    }
}

/// Offset of the leftmost occurrence of a non-empty `pattern` in `text`.
pub fn find_bytes(text: &[u8], pattern: &[u8]) -> (found: Option<usize>)
    requires
        pattern@.len() > 0,
    ensures
        match found {
            Some(at) => find(text@, pattern@) == Some(at as int),
            None => find(text@, pattern@) is None,
        },
{
    let found = ExtSlice::find_window(text, pattern);
    proof {
        assert forall|k: int|
            window_at(text@, pattern@, k) <==> occurs_at(text@, pattern@, k) by {
            lemma_window_is_occurrence(text@, pattern@, k);
        }
        lemma_find_sound(text@, pattern@);
        match found {
            Some(at) => {
                lemma_find_is_first(text@, pattern@, at as int);
            },
            None => {
                assert forall|k: int| !occurs_at(text@, pattern@, k) by {
                    assert(!window_at(text@, pattern@, k));
                }
            },
        }
    }
    found
}

/// Splits `text` once at the leftmost occurrence of a non-empty `pattern`.
pub fn split_once_bytes<'a>(text: &'a [u8], pattern: &[u8]) -> (halves: Option<
    (&'a [u8], &'a [u8]),
>)
    requires
        pattern@.len() > 0,
    ensures
        match halves {
            Some((before, after)) => split_once(text@, pattern@) == Some((before@, after@)),
            None => split_once(text@, pattern@) is None,
        },
{
    let halves = ExtSlice::split_once(text, pattern);
    proof {
        assert forall|k: int|
            window_at(text@, pattern@, k) <==> occurs_at(text@, pattern@, k) by {
            lemma_window_is_occurrence(text@, pattern@, k);
        }
        lemma_find_sound(text@, pattern@);
        match halves {
            Some((before, after)) => {
                lemma_find_is_first(text@, pattern@, before@.len() as int);
            },
            None => {
                assert forall|k: int| !occurs_at(text@, pattern@, k) by {
                    assert(!window_at(text@, pattern@, k));
                }
            },
        }
    }
    halves
}

/// Whether two byte strings are equal.
pub fn same_bytes(a: &[u8], b: &[u8]) -> (same: bool)
    ensures
        same == (a@ == b@),
{
    if a.len() != b.len() {
        return false;
    }
    let mut i: usize = 0;
    while i < a.len()
        invariant
            a@.len() == b@.len(),
            i <= a@.len(),
            forall|j: int| 0 <= j < i ==> a@[j] == b@[j],
        decreases a@.len() - i,
    {
        if a[i] != b[i] {
            return false;
        }
        i += 1;
    }
    assert(a@ =~= b@);
    true
}

} // verus!
