//! Decisions over diff output: tallying patch lines and testing whether a
//! changed path names one of a set of target files.

use vstd::prelude::*;

verus! {

/// How many times the character `c` occurs in `s`.
pub open spec fn count_char(s: Seq<char>, c: char) -> nat
    decreases s.len(),
{
    if s.len() == 0 {
        0
    } else {
        count_char(s.drop_last(), c) + if s.last() == c {
            1nat
        } else {
            0nat
        }
    }
}

/// Occurrences of a character never outnumber the characters.
proof fn lemma_count_char_le_len(s: Seq<char>, c: char)
    ensures
        count_char(s, c) <= s.len(),
    decreases s.len(),
{
    if s.len() > 0 {
        lemma_count_char_le_len(s.drop_last(), c);
    }
}

/// Counts the added and deleted lines of a patch from the origin marker of
/// each printed line: additions are the lines marked `+`, deletions the
/// lines marked `-`.
pub fn tally_patch_lines(origins: &Vec<char>) -> (r: (usize, usize))
    ensures
        r.0 == count_char(origins@, '+'),
        r.1 == count_char(origins@, '-'),
{
    let n = origins.len();
    let mut additions: usize = 0;
    let mut deletions: usize = 0;
    let mut i: usize = 0;
    proof {
        assert(origins@.take(0) =~= Seq::<char>::empty());
    }
    while i < n
        invariant
            0 <= i <= n,
            n == origins@.len(),
            additions == count_char(origins@.take(i as int), '+'),
            deletions == count_char(origins@.take(i as int), '-'),
        decreases n - i,
    {
        proof {
            lemma_count_char_le_len(origins@.take(i as int), '+');
            lemma_count_char_le_len(origins@.take(i as int), '-');
            assert(origins@.take(i + 1).drop_last() =~= origins@.take(i as int));
            assert(origins@.take(i + 1).last() == origins@[i as int]);
        }
        let c = origins[i];
        if c == '+' {
            additions = additions + 1;
        } else if c == '-' {
            deletions = deletions + 1;
        }
        i = i + 1;
    }
    proof {
        assert(origins@.take(n as int) =~= origins@);
    }
    (additions, deletions)
}

/// Whether `needle` occurs contiguously inside `hay`. The empty needle
/// occurs in every haystack.
pub open spec fn is_substring(needle: Seq<char>, hay: Seq<char>) -> bool {
    exists|k: int|
        0 <= k <= hay.len() - needle.len() && #[trigger] hay.subrange(k, k + needle.len())
            == needle
}

/// Whether `needle` occurs contiguously inside `hay`.
pub fn contains_substring(hay: &str, needle: &str) -> (r: bool)
    ensures
        r == is_substring(needle@, hay@),
{
    let n = hay.unicode_len();
    let m = needle.unicode_len();
    if m > n {
        return false;
    }
    if m == 0 {
        proof {
            assert(hay@.subrange(0, 0 + needle@.len() as int) =~= needle@);
        }
        return true;
    }
    let mut k: usize = 0;
    while k <= n - m
        invariant
            0 <= k <= n - m + 1,
            0 < m <= n,
            n == hay@.len(),
            m == needle@.len(),
            forall|q: int| 0 <= q < k ==> #[trigger] hay@.subrange(q, q + m) != needle@,
        decreases n - k,
    {
        let mut j: usize = 0;
        let mut mismatch = false;
        while j < m
            invariant
                0 <= j <= m,
                k + m <= n,
                n == hay@.len(),
                m == needle@.len(),
                !mismatch ==> forall|q: int| 0 <= q < j ==> hay@[k + q] == needle@[q],
                mismatch ==> hay@.subrange(k as int, k + m) != needle@,
            decreases m - j,
        {
            if hay.get_char(k + j) != needle.get_char(j) {
                proof {
                    assert(hay@.subrange(k as int, k + m)[j as int] == hay@[k + j]);
                }
                mismatch = true;
                j = m;
            } else {
                j = j + 1;
            }
        }
        if !mismatch {
            proof {
                assert(hay@.subrange(k as int, k + m) =~= needle@);
            }
            return true;
        }
        k = k + 1;
    }
    proof {
        assert forall|q: int|
            0 <= q <= hay@.len() - needle@.len() implies #[trigger] hay@.subrange(q, q + m)
            != needle@ by {}
    }
    false
}

/// Whether a changed file's path names any of the target files, by
/// containment of the target's text in the path.
pub fn path_matches_any(path: &str, targets: &Vec<String>) -> (r: bool)
    ensures
        r == exists|i: int|
            0 <= i < targets@.len() && is_substring(#[trigger] targets@[i]@, path@),
{
    let n = targets.len();
    let mut i: usize = 0;
    while i < n
        invariant
            0 <= i <= n,
            n == targets@.len(),
            forall|q: int| 0 <= q < i ==> !is_substring(#[trigger] targets@[q]@, path@),
        decreases n - i,
    {
        if contains_substring(path, targets[i].as_str()) {
            return true;
        }
        i = i + 1;
    }
    false
}

} // verus!
