use vstd::prelude::*;

verus! {

/// `needle` occurs in `s` as a contiguous run starting at position `i`.
pub open spec fn matches_at(s: Seq<char>, needle: Seq<char>, i: int) -> bool {
    &&& 0 <= i
    &&& i + needle.len() <= s.len()
    &&& s.subrange(i, i + needle.len()) == needle
}

/// `needle` occurs somewhere in `s` as a contiguous run.
pub open spec fn contains_seq(s: Seq<char>, needle: Seq<char>) -> bool {
    exists|i: int| matches_at(s, needle, i)
}

/// `needle` occurs in `s` starting exactly at position `i`.
fn match_at(s: &str, needle: &str, i: usize, n: usize, m: usize) -> (r: bool)
    requires
        n == s@.len(),
        m == needle@.len(),
        i + m <= n,
    ensures
        r == matches_at(s@, needle@, i as int),
{
    let mut j: usize = 0;
    while j < m
        invariant
            n == s@.len(),
            m == needle@.len(),
            i + m <= n,
            j <= m,
            forall|t: int| 0 <= t < j ==> s@[i + t] == needle@[t],
        decreases m - j,
    {
        if s.get_char(i + j) != needle.get_char(j) {
            proof {
                assert(s@.subrange(i as int, i + m)[j as int] == s@[i + j]);
            }
            return false;
        }
        j += 1;
    }
    proof {
        assert(s@.subrange(i as int, i + m) =~= needle@);
    }
    true
}

/// Substring test on character sequences: whether `needle` occurs in `s`.
pub fn str_contains(s: &str, needle: &str) -> (r: bool)
    ensures
        r == contains_seq(s@, needle@),
{
    let n = s.unicode_len();
    let m = needle.unicode_len();
    if m == 0 {
        proof {
            assert(s@.subrange(0, 0) =~= needle@);
            assert(matches_at(s@, needle@, 0));
        }
        return true;
    }
    if m > n {
        proof {
            assert(forall|i: int| !matches_at(s@, needle@, i));
        }
        return false;
    }
    let mut i: usize = 0;
    while i <= n - m
        invariant
            n == s@.len(),
            m == needle@.len(),
            1 <= m <= n,
            i <= n - m + 1,
            forall|k: int| 0 <= k < i ==> !matches_at(s@, needle@, k),
        decreases n - m + 1 - i,
    {
        if match_at(s, needle, i, n, m) {
            return true;
        }
        i += 1;
    }
    proof {
        assert(forall|k: int| matches_at(s@, needle@, k) ==> 0 <= k <= n - m);
    }
    false
}

} // verus!
