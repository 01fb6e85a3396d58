//! Character-level string predicates: equality with a known literal, prefix
//! tests for content-type gating, and substring search for the index model.

use vstd::prelude::*;

verus! {

/// `p` is a prefix of `s`.
pub open spec fn spec_has_prefix(s: Seq<char>, p: Seq<char>) -> bool {
    p.len() <= s.len() && s.subrange(0, p.len() as int) == p
}

/// `needle` occurs contiguously somewhere in `hay`.
pub open spec fn spec_contains_sub(hay: Seq<char>, needle: Seq<char>) -> bool {
    exists|k: int|
        0 <= k && k + needle.len() <= hay.len() && #[trigger] hay.subrange(k, k + needle.len())
            == needle
}

/// Character-by-character string equality.
pub fn str_eq(a: &str, b: &str) -> (r: bool)
    ensures
        r == (a@ == b@),
{
    let an = a.unicode_len();
    let bn = b.unicode_len();
    if an != bn {
        return false;
    }
    let mut i: usize = 0;
    while i < an
        invariant
            an == a@.len(),
            bn == b@.len(),
            an == bn,
            i <= an,
            forall|j: int| 0 <= j < i ==> a@[j] == b@[j],
        decreases an - i,
    {
        if a.get_char(i) != b.get_char(i) {
            return false;
        }
        i = i + 1;
    }
    proof {
        assert(a@ =~= b@);
    }
    true
}

/// Does `s` begin with `p`?
pub fn str_has_prefix(s: &str, p: &str) -> (r: bool)
    ensures
        r == spec_has_prefix(s@, p@),
{
    let sn = s.unicode_len();
    let pn = p.unicode_len();
    if pn > sn {
        assert(!spec_has_prefix(s@, p@));
        return false;
    }
    let mut i: usize = 0;
    while i < pn
        invariant
            sn == s@.len(),
            pn == p@.len(),
            pn <= sn,
            i <= pn,
            forall|j: int| 0 <= j < i ==> s@[j] == p@[j],
        decreases pn - i,
    {
        if s.get_char(i) != p.get_char(i) {
            proof {
                let j = i as int;
                assert(s@.subrange(0, p@.len() as int)[j] == s@[j]);
            }
            return false;
        }
        i = i + 1;
    }
    proof {
        assert(s@.subrange(0, p@.len() as int) =~= p@);
    }
    true
}

/// Does `hay` contain `needle` as a contiguous substring?
pub fn str_contains_sub(hay: &str, needle: &str) -> (r: bool)
    ensures
        r == spec_contains_sub(hay@, needle@),
{
    let hn = hay.unicode_len();
    let nn = needle.unicode_len();
    if nn > hn {
        return false;
    }
    let mut k: usize = 0;
    while k <= hn - nn
        invariant
            hn == hay@.len(),
            nn == needle@.len(),
            nn <= hn,
            k <= hn - nn + 1,
            forall|k0: int|
                0 <= k0 < k ==> #[trigger] hay@.subrange(k0, k0 + needle@.len()) != needle@,
        decreases hn + 1 - nn - k,
    {
        let mut i: usize = 0;
        let mut matches = true;
        while i < nn
            invariant
                hn == hay@.len(),
                nn == needle@.len(),
                nn <= hn,
                k <= hn - nn,
                i <= nn,
                matches == (forall|j: int| 0 <= j < i ==> hay@[k + j] == needle@[j]),
            decreases nn - i,
        {
            if hay.get_char(k + i) != needle.get_char(i) {
                proof {
                    let j = i as int;
                    assert(!(hay@[k + j] == needle@[j]));
                }
                matches = false;
                i = nn;
            } else {
                i = i + 1;
            }
        }
        if matches {
            proof {
                assert(hay@.subrange(k as int, k + needle@.len()) =~= needle@);
            }
            return true;
        }
        proof {
            if hay@.subrange(k as int, k + needle@.len()) == needle@ {
                assert(forall|j: int|
                    0 <= j < nn ==> hay@[k + j] == #[trigger] hay@.subrange(
                        k as int,
                        k + needle@.len(),
                    )[j]);
                assert(false);
            }
        }
        k = k + 1;
    }
    proof {
        if spec_contains_sub(hay@, needle@) {
            let k0 = choose|k0: int|
                0 <= k0 && k0 + needle@.len() <= hay@.len() && #[trigger] hay@.subrange(
                    k0,
                    k0 + needle@.len(),
                ) == needle@;
            assert(k0 < k);
            assert(false);
        }
    }
    false
}

} // verus!
