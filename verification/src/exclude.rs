//! Exclusion matcher: a path is excluded when some pattern of the set
//! occurs inside it as a plain substring (not a glob, not anchored).

use vstd::prelude::*;

verus! {

/// `needle` occurs contiguously inside `hay`.
pub open spec fn is_substring_of(needle: Seq<char>, hay: Seq<char>) -> bool {
    exists|k: int|
        0 <= k && k + needle.len() <= hay.len() && #[trigger] hay.subrange(k, k + needle.len())
            == needle
}

/// Some pattern of `patterns` is a substring of `path`.
pub open spec fn spec_excluded(path: Seq<char>, patterns: Seq<Seq<char>>) -> bool {
    exists|i: int| 0 <= i < patterns.len() && #[trigger] is_substring_of(patterns[i], path)
}

/// `needle` matches `hay` exactly at offset `k`.
fn matches_at(hay: &str, k: usize, needle: &str) -> (r: bool)
    requires
        k + needle@.len() <= hay@.len(),
        hay@.len() <= usize::MAX,
    ensures
        r == (hay@.subrange(k as int, k + needle@.len()) == needle@),
{
    let n = needle.unicode_len();
    let mut j: usize = 0;
    while j < n
        invariant
            n == needle@.len(),
            k + n <= hay@.len(),
            hay@.len() <= usize::MAX,
            j <= n,
            forall|t: int| 0 <= t < j ==> hay@[k + t] == needle@[t],
        decreases n - j,
    {
        if hay.get_char(k + j) != needle.get_char(j) {
            proof {
                assert(hay@.subrange(k as int, k + needle@.len())[j as int] == hay@[k + j]);
            }
            return false;
        }
        j += 1;
    }
    proof {
        assert(hay@.subrange(k as int, k + needle@.len()) =~= needle@);
    }
    true
}

/// Substring search, the executable side of `is_substring_of`.
pub fn contains_substr(hay: &str, needle: &str) -> (r: bool)
    ensures
        r == is_substring_of(needle@, hay@),
{
    let hn = hay.unicode_len();
    let nn = needle.unicode_len();
    if nn > hn {
        return false;
    }
    let mut k: usize = 0;
    while k <= hn - nn
        invariant
            hn == hay@.len(),
            nn == needle@.len(),
            nn <= hn,
            k <= hn - nn + 1,
            forall|t: int|
                0 <= t < k ==> #[trigger] hay@.subrange(t, t + needle@.len()) != needle@,
        decreases hn - nn + 1 - k,
    {
        if matches_at(hay, k, needle) {
            proof {
                assert(0 <= k && k + needle@.len() <= hay@.len() && hay@.subrange(
                    k as int,
                    k + needle@.len(),
                ) == needle@);
            }
            return true;
        }
        if k == hn - nn {
            return false;
        }
        k += 1;
    }
    false
}

/// The exclusion predicate of the copy engine: `path` is excluded iff some
/// pattern in `patterns` is a substring of it. An empty pattern list never
/// excludes anything.
pub fn is_excluded(path: &str, patterns: &Vec<String>) -> (r: bool)
    ensures
        r == spec_excluded(path@, patterns.deep_view()),
{
    let mut i: usize = 0;
    while i < patterns.len()
        invariant
            i <= patterns.len(),
            patterns.deep_view().len() == patterns.len(),
            forall|t: int|
                0 <= t < i ==> !is_substring_of(patterns.deep_view()[t], path@),
        decreases patterns.len() - i,
    {
        assert(patterns.deep_view()[i as int] == patterns[i as int]@);
        if contains_substr(path, patterns[i].as_str()) {
            return true;
        }
        i += 1;
    }
    false
}

/// Exclusion is closed under path extension: when `parent` is a prefix of
/// `child` (as a directory path is of every path beneath it), any pattern
/// that excludes `parent` also excludes `child`, so a pruned directory's
/// descendants can never come back in.
pub proof fn lemma_excluded_descendants(
    parent: Seq<char>,
    child: Seq<char>,
    patterns: Seq<Seq<char>>,
)
    requires
        parent.len() <= child.len(),
        child.subrange(0, parent.len() as int) == parent,
    ensures
        spec_excluded(parent, patterns) ==> spec_excluded(child, patterns),
{
    if spec_excluded(parent, patterns) {
        let i = choose|i: int| 0 <= i < patterns.len() && is_substring_of(patterns[i], parent);
        let p = patterns[i];
        let k = choose|k: int|
            0 <= k && k + p.len() <= parent.len() && #[trigger] parent.subrange(k, k + p.len())
                == p;
        assert(child.subrange(k, k + p.len()) =~= p) by {
            assert(forall|t: int|
                0 <= t < parent.len() ==> child[t] == #[trigger] parent[t]) by {
                assert(forall|t: int|
                    0 <= t < parent.len() ==> #[trigger] parent[t] == child.subrange(
                        0,
                        parent.len() as int,
                    )[t]);
            }
            assert(forall|t: int|
                0 <= t < p.len() ==> #[trigger] child.subrange(k, k + p.len())[t] == child[k
                    + t]);
            assert(forall|t: int|
                0 <= t < p.len() ==> #[trigger] p[t] == parent.subrange(k, k + p.len())[t]);
        }
        assert(is_substring_of(p, child));
    }
}

/// The exclusion law in one place: a path is excluded iff some pattern of
/// the set is one of its substrings, and the empty pattern set excludes no
/// path at all.
pub proof fn lemma_excluded_iff(path: Seq<char>, patterns: Seq<Seq<char>>)
    ensures
        spec_excluded(path, patterns) <==> (exists|i: int|
            0 <= i < patterns.len() && is_substring_of(patterns[i], path)),
        !spec_excluded(path, Seq::<Seq<char>>::empty()),
{
}

} // verus!
