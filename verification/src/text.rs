//! Character-level string predicates and their executable counterparts.
//!
//! Labels and patterns are compared character by character; the spec functions
//! here state containment and equality over `Seq<char>` views.

use vstd::prelude::*;

verus! {

/// `sub` occurs in `text` starting at character position `i`.
pub open spec fn contains_at(text: Seq<char>, sub: Seq<char>, i: int) -> bool {
    0 <= i && i + sub.len() <= text.len() && text.subrange(i, i + sub.len()) == sub
}

/// `sub` occurs somewhere in `text`.
pub open spec fn seq_contains(text: Seq<char>, sub: Seq<char>) -> bool {
    exists|i: int| contains_at(text, sub, i)
}

/// Character-for-character equality of two strings.
pub fn str_equal(a: &str, b: &str) -> (r: bool)
    ensures
        r == (a@ == b@),
{
    let n = a.unicode_len();
    let m = b.unicode_len();
    if n != m {
        return false;
    }
    let mut i: usize = 0;
    while i < n
        invariant
            i <= n,
            n == a@.len(),
            n == b@.len(),
            forall|k: int| 0 <= k < i ==> a@[k] == b@[k],
        decreases n - i,
    {
        if a.get_char(i) != b.get_char(i) {
            return false;
        }
        i += 1;
    }
    proof {
        assert(a@ =~= b@);
    }
    true
}

/// `sub` occurs in `text` at position `i`.
fn occurs_at(text: &str, sub: &str, i: usize) -> (r: bool)
    requires
        i + sub@.len() <= text@.len(),
        text@.len() <= usize::MAX,
    ensures
        r == contains_at(text@, sub@, i as int),
{
    let m = sub.unicode_len();
    let mut j: usize = 0;
    while j < m
        invariant
            j <= m,
            m == sub@.len(),
            i + m <= text@.len(),
            text@.len() <= usize::MAX,
            forall|k: int| 0 <= k < j ==> text@[i + k] == sub@[k],
        decreases m - j,
    {
        if text.get_char(i + j) != sub.get_char(j) {
            proof {
                assert(text@.subrange(i as int, i + m) != sub@) by {
                    assert(text@.subrange(i as int, i + m)[j as int] == text@[i + j]);
                }
            }
            return false;
        }
        j += 1;
    }
    proof {
        assert(text@.subrange(i as int, i + m) =~= sub@);
    }
    true
}

/// `sub` occurs somewhere in `text` (`str::contains` semantics).
pub fn str_contains(text: &str, sub: &str) -> (r: bool)
    ensures
        r == seq_contains(text@, sub@),
{
    let n = text.unicode_len();
    let m = sub.unicode_len();
    if m > n {
        proof {
            assert(forall|i: int| !contains_at(text@, sub@, i));
        }
        return false;
    }
    if m == 0 {
        proof {
            assert(text@.subrange(0, 0) =~= sub@);
            assert(contains_at(text@, sub@, 0));
        }
        return true;
    }
    let mut i: usize = 0;
    while i <= n - m
        invariant
            1 <= m <= n,
            i <= n - m + 1,
            n == text@.len(),
            m == sub@.len(),
            forall|k: int| 0 <= k < i ==> !contains_at(text@, sub@, k),
        decreases n - m + 1 - i,
    {
        if occurs_at(text, sub, i) {
            return true;
        }
        i += 1;
    }
    proof {
        assert(forall|k: int| contains_at(text@, sub@, k) ==> 0 <= k <= n - m);
    }
    false
}

} // verus!
