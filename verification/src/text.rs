//! Small verified string operations: equality, concatenation, suffix and
//! substring tests, stated over character sequences.

use vstd::prelude::*;
use vstd::string::*;

verus! {

/// Whether `suf` is the tail of `s`.
pub open spec fn spec_ends_with(s: Seq<char>, suf: Seq<char>) -> bool {
    s.len() >= suf.len() && s.subrange(s.len() - suf.len(), s.len() as int) == suf
}

/// Whether `needle` occurs anywhere in `s`.
pub open spec fn spec_contains_str(s: Seq<char>, needle: Seq<char>) -> bool {
    exists|i: int|
        0 <= i <= s.len() - needle.len() && #[trigger] s.subrange(i, i + needle.len())
            == needle
}

/// The two strings joined.
pub fn concat_str(a: &str, b: &str) -> (r: String)
    ensures
        r@ == a@ + b@,
{
    let mut s = String::from_str(a);
    s.append(b);
    s
}

/// Character-wise string equality.
pub fn str_eq(a: &str, b: &str) -> (r: bool)
    ensures
        r == (a@ == b@),
{
    let an = a.unicode_len();
    let bn = b.unicode_len();
    if an != bn {
        return false;
    }
    let mut i: usize = 0;
    while i < an
        invariant
            i <= an,
            an == a@.len(),
            an == b@.len(),
            forall|j: int| 0 <= j < i ==> a@[j] == b@[j],
        decreases an - i,
    {
        if a.get_char(i) != b.get_char(i) {
            return false;
        }
        i += 1;
    }
    proof {
        assert(a@ =~= b@);
    }
    true
}

/// Whether `s` ends with `suf`.
pub fn str_ends_with(s: &str, suf: &str) -> (r: bool)
    ensures
        r == spec_ends_with(s@, suf@),
{
    let sn = s.unicode_len();
    let fn_ = suf.unicode_len();
    if sn < fn_ {
        return false;
    }
    let off = sn - fn_;
    let mut i: usize = 0;
    while i < fn_
        invariant
            i <= fn_,
            off == sn - fn_,
            fn_ <= sn,
            sn == s@.len(),
            fn_ == suf@.len(),
            forall|j: int| 0 <= j < i ==> s@[off + j] == suf@[j],
        decreases fn_ - i,
    {
        if s.get_char(off + i) != suf.get_char(i) {
            proof {
                assert(s@.subrange(s@.len() - suf@.len(), s@.len() as int)[i as int] == s@[off
                    + i]);
            }
            return false;
        }
        i += 1;
    }
    proof {
        assert(s@.subrange(s@.len() - suf@.len(), s@.len() as int) =~= suf@);
    }
    true
}

/// Whether `needle` occurs anywhere in `s`.
pub fn str_contains(s: &str, needle: &str) -> (r: bool)
    ensures
        r == spec_contains_str(s@, needle@),
{
    let sn = s.unicode_len();
    let nn = needle.unicode_len();
    if nn > sn {
        return false;
    }
    if nn == 0 {
        proof {
            assert(s@.subrange(0, 0 + needle@.len() as int) =~= needle@);
        }
        return true;
    }
    let last = sn - nn;
    let mut i: usize = 0;
    while i <= last
        invariant
            i <= last + 1,
            last == sn - nn,
            nn <= sn,
            sn == s@.len(),
            nn == needle@.len(),
            nn >= 1,
            forall|k: int|
                0 <= k < i ==> #[trigger] s@.subrange(k, k + needle@.len()) != needle@,
        decreases last + 1 - i,
    {
        let mut j: usize = 0;
        let mut matched = true;
        while j < nn
            invariant
                j <= nn,
                i <= last,
                last == sn - nn,
                nn <= sn,
                sn == s@.len(),
                nn == needle@.len(),
                matched ==> forall|m: int| 0 <= m < j ==> s@[i + m] == needle@[m],
                !matched ==> s@.subrange(i as int, i + needle@.len()) != needle@,
            decreases nn - j,
        {
            if s.get_char(i + j) != needle.get_char(j) {
                matched = false;
                proof {
                    assert(s@.subrange(i as int, i + needle@.len())[j as int] == s@[i + j]);
                }
                j = nn;
            } else {
                j += 1;
            }
        }
        if matched {
            proof {
                assert(s@.subrange(i as int, i + needle@.len()) =~= needle@);
            }
            return true;
        }
        proof {
            assert(s@.subrange(i as int, i + needle@.len()) != needle@);
        }
        i += 1;
    }
    return false;
}

} // verus!
