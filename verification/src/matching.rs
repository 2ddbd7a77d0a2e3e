//! Substring containment, exact and case-folded.

use vstd::prelude::*;

verus! {

/// `needle` occurs in `hay` starting at index `i`.
pub open spec fn contains_at(hay: Seq<char>, needle: Seq<char>, i: int) -> bool {
    0 <= i && i + needle.len() <= hay.len() && hay.subrange(i, i + needle.len()) == needle
}

/// `needle` occurs somewhere in `hay`. The empty needle occurs in every
/// haystack, at index 0.
pub open spec fn contains_seq(hay: Seq<char>, needle: Seq<char>) -> bool {
    exists|i: int| contains_at(hay, needle, i)
}

pub proof fn lemma_empty_needle_contained(hay: Seq<char>)
    ensures
        contains_seq(hay, Seq::<char>::empty()),
{
    assert(hay.subrange(0, 0) =~= Seq::<char>::empty());
    assert(contains_at(hay, Seq::<char>::empty(), 0));
}

/// Decides whether `needle` occurs in `hay`, code point for code point.
pub fn contains_substring(hay: &str, needle: &str) -> (r: bool)
    ensures
        r == contains_seq(hay@, needle@),
{
    let n = hay.unicode_len();
    let m = needle.unicode_len();
    if m > n {
        proof {
            assert forall|i: int| !contains_at(hay@, needle@, i) by {}
        }
        return false;
    }
    let mut i: usize = 0;
    while i <= n - m
        invariant
            m <= n,
            n == hay@.len(),
            m == needle@.len(),
            i <= n - m + 1,
            forall|t: int| 0 <= t < i ==> !contains_at(hay@, needle@, t),
        decreases n - m - i + 1,
    {
        let mut k: usize = 0;
        while k < m && hay.get_char(i + k) == needle.get_char(k)
            invariant
                m <= n,
                n == hay@.len(),
                m == needle@.len(),
                i + m <= n,
                k <= m,
                forall|t: int| 0 <= t < k ==> hay@[i + t] == needle@[t],
            decreases m - k,
        {
            k += 1;
        }
        if k == m {
            proof {
                assert(hay@.subrange(i as int, i + m) =~= needle@);
                assert(contains_at(hay@, needle@, i as int));
            }
            return true;
        }
        proof {
            assert(hay@[i + k] != needle@[k as int]);
            assert(!contains_at(hay@, needle@, i as int)) by {
                if hay@.subrange(i as int, i + m) == needle@ {
                    assert(hay@.subrange(i as int, i + m)[k as int] == needle@[k as int]);
                }
            }
        }
        i += 1;
    }
    proof {
        assert forall|t: int| !contains_at(hay@, needle@, t) by {
            if 0 <= t < i {
                assert(!contains_at(hay@, needle@, t));
            }
        }
    }
    false
}

/// The lowercase form of a character sequence, as Unicode lowercasing
/// defines it. Left uninterpreted: the full mapping is the business of
/// `str::to_lowercase`, not of this library.
pub uninterp spec fn lower_of(s: Seq<char>) -> Seq<char>;

/// Relies on str::to_lowercase: the result is determined by the input
/// characters alone, and lowercasing an empty string yields an empty
/// string.
#[verifier::external_body]
pub(crate) fn to_lowercase(s: &str) -> (r: String)
    ensures
        r@ == lower_of(s@),
        s@.len() == 0 ==> r@.len() == 0,
{
    s.to_lowercase()
}

} // verus!
