//! Literal, case-sensitive substring matching, used to decide which key names
//! are selected for download.

use vstd::prelude::*;

verus! {

/// `pat` occurs in `text` starting exactly at position `i`.
pub open spec fn matches_at(text: Seq<char>, pat: Seq<char>, i: int) -> bool {
    &&& 0 <= i
    &&& i + pat.len() <= text.len()
    &&& text.subrange(i, i + pat.len() as int) == pat
}

/// `pat` is a literal, case-sensitive substring of `text`.
pub open spec fn is_substring(pat: Seq<char>, text: Seq<char>) -> bool {
    exists|i: int| matches_at(text, pat, i)
}

/// The empty pattern is a substring of every text, so the empty filter
/// selects every key.
pub proof fn lemma_empty_pattern_matches(text: Seq<char>)
    ensures
        is_substring(Seq::<char>::empty(), text),
{
    assert(text.subrange(0, 0) =~= Seq::<char>::empty());
    assert(matches_at(text, Seq::<char>::empty(), 0));
}

/// `pat` occurs in `text` at position `i`; `n` and `m` are the two lengths,
/// already computed by the caller.
fn match_at(text: &str, pat: &str, i: usize, n: usize, m: usize) -> (r: bool)
    requires
        n == text@.len(),
        m == pat@.len(),
        i + m <= n,
    ensures
        r == matches_at(text@, pat@, i as int),
{
    let mut j: usize = 0;
    while j < m
        invariant
            n == text@.len(),
            m == pat@.len(),
            i + m <= n,
            0 <= j <= m,
            forall|k: int| 0 <= k < j ==> text@[i + k] == pat@[k],
        decreases m - j,
    {
        if text.get_char(i + j) != pat.get_char(j) {
            proof {
                if matches_at(text@, pat@, i as int) {
                    assert(text@.subrange(i as int, i + m)[j as int] == pat@[j as int]);
                }
            }
            return false;
        }
        j += 1;
    }
    proof {
        assert(text@.subrange(i as int, i + m) =~= pat@);
    }
    true
}

/// Whether `text` contains `pat` as a literal, case-sensitive substring.
pub fn contains_substring(text: &str, pat: &str) -> (r: bool)
    ensures
        r == is_substring(pat@, text@),
{
    let n = text.unicode_len();
    let m = pat.unicode_len();
    if m == 0 {
        proof {
            assert(pat@ =~= Seq::<char>::empty());
            lemma_empty_pattern_matches(text@);
        }
        return true;
    }
    if m > n {
        proof {
            assert(forall|i: int| !matches_at(text@, pat@, i));
        }
        return false;
    }
    let mut i: usize = 0;
    while i <= n - m
        invariant
            n == text@.len(),
            m == pat@.len(),
            0 < m <= n,
            0 <= i <= n - m + 1,
            forall|j: int| 0 <= j < i ==> !matches_at(text@, pat@, j),
        decreases n - m + 1 - i,
    {
        if match_at(text, pat, i, n, m) {
            return true;
        }
        i += 1;
    }
    proof {
        assert(forall|j: int| !matches_at(text@, pat@, j));
    }
    false
}

} // verus!
