//! Small verified helpers on strings, shared by the classifier, the
//! scanner predicates and the report types.

use vstd::prelude::*;
use vstd::string::StrSliceExecFns;
use vstd::string::StringExecFns;

verus! {

/// Character-wise equality of two string slices.
pub fn str_eq(a: &str, b: &str) -> (r: bool)
    ensures
        r == (a@ == b@),
{
    let an = a.unicode_len();
    let bn = b.unicode_len();
    if an != bn {
        return false;
    }
    let mut i: usize = 0;
    while i < an
        invariant
            i <= an,
            an == a@.len(),
            an == b@.len(),
            forall|j: int| 0 <= j < i ==> a@[j] == b@[j],
        decreases an - i,
    {
        if a.get_char(i) != b.get_char(i) {
            return false;
        }
        i += 1;
    }
    proof {
        assert(a@ =~= b@);
    }
    true
}

/// Whether `needle` occurs in `hay` starting at position `at`.
pub open spec fn matches_at(hay: Seq<char>, needle: Seq<char>, at: int) -> bool {
    &&& 0 <= at
    &&& at + needle.len() <= hay.len()
    &&& hay.subrange(at, at + needle.len()) == needle
}

/// Whether `needle` occurs anywhere in `hay`.
pub open spec fn contains_seq(hay: Seq<char>, needle: Seq<char>) -> bool {
    exists|at: int| matches_at(hay, needle, at)
}

/// Substring search: whether `needle` occurs anywhere in `hay`.
pub fn str_contains(hay: &str, needle: &str) -> (r: bool)
    ensures
        r == contains_seq(hay@, needle@),
{
    let hn = hay.unicode_len();
    let nn = needle.unicode_len();
    if nn > hn {
        proof {
            assert(forall|at: int| !matches_at(hay@, needle@, at));
        }
        return false;
    }
    let mut at: usize = 0;
    while at <= hn - nn
        invariant
            nn <= hn,
            hn == hay@.len(),
            nn == needle@.len(),
            at <= hn - nn + 1,
            forall|k: int| 0 <= k < at ==> !matches_at(hay@, needle@, k),
        decreases hn + 1 - at,
    {
        let mut j: usize = 0;
        let mut all_eq = true;
        while j < nn
            invariant
                at + nn <= hn,
                hn == hay@.len(),
                nn == needle@.len(),
                j <= nn,
                all_eq == (forall|k: int| 0 <= k < j ==> hay@[at + k] == needle@[k]),
            decreases nn - j,
        {
            if hay.get_char(at + j) != needle.get_char(j) {
                all_eq = false;
                proof {
                    let w = j as int;
                    assert(hay@[at + w] != needle@[w]);
                }
                j = nn;
            } else {
                j += 1;
            }
        }
        if all_eq {
            proof {
                assert(hay@.subrange(at as int, at + needle@.len()) =~= needle@);
                assert(matches_at(hay@, needle@, at as int));
            }
            return true;
        }
        proof {
            if matches_at(hay@, needle@, at as int) {
                assert(forall|k: int| 0 <= k < nn
                    ==> hay@.subrange(at as int, at + nn as int)[k] == needle@[k]);
                assert(false);
            }
        }
        at += 1;
    }
    proof {
        assert(!contains_seq(hay@, needle@)) by {
            if contains_seq(hay@, needle@) {
                let k = choose|k: int| matches_at(hay@, needle@, k);
                assert(0 <= k < at);
            }
        }
    }
    false
}

/// Concatenation of three string slices into an owned string.
pub fn concat3(a: &str, b: &str, c: &str) -> (r: String)
    ensures
        r@ == a@ + b@ + c@,
{
    let mut s = String::from_str(a);
    s.append(b);
    s.append(c);
    s
}

} // verus!
