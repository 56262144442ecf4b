//! Stripping NUL padding and surrounding whitespace from byte buffers.
//!
//! A raw read buffer is fixed-size and may carry trailing NUL padding beyond
//! the logical message; the logical content is what remains after the padding
//! and the surrounding whitespace are removed.

use vstd::prelude::*;

verus! {

use crate::is_nul;
use crate::is_space;

/// `s` without the longest suffix of bytes satisfying `p`.
pub open spec fn drop_last_while(s: Seq<u8>, p: spec_fn(u8) -> bool) -> Seq<u8>
    decreases s.len(),
{
    if s.len() > 0 && p(s.last()) {
        drop_last_while(s.drop_last(), p)
    } else {
        s
    }
}

/// `s` without the longest prefix of bytes satisfying `p`.
pub open spec fn drop_first_while(s: Seq<u8>, p: spec_fn(u8) -> bool) -> Seq<u8>
    decreases s.len(),
{
    if s.len() > 0 && p(s.first()) {
        drop_first_while(s.drop_first(), p)
    } else {
        s
    }
}

/// NUL bytes stripped from both ends of `s`.
pub open spec fn nul_trimmed(s: Seq<u8>) -> Seq<u8> {
    drop_first_while(drop_last_while(s, |b: u8| is_nul(b)), |b: u8| is_nul(b))
}

/// The logical content of a raw read buffer: NUL padding stripped from both
/// ends, then surrounding whitespace.
pub open spec fn frame_trimmed(s: Seq<u8>) -> Seq<u8> {
    drop_first_while(
        drop_last_while(nul_trimmed(s), |b: u8| is_space(b)),
        |b: u8| is_space(b),
    )
}

/// Dropping a suffix of bytes satisfying `p` from a sequence of nothing but
/// such bytes leaves nothing.
pub proof fn lemma_drop_last_while_all(s: Seq<u8>, p: spec_fn(u8) -> bool)
    requires
        forall|i: int| 0 <= i < s.len() ==> p(s[i]),
    ensures
        drop_last_while(s, p).len() == 0,
    decreases s.len(),
{
    if s.len() > 0 {
        assert(p(s.last()));
        let t = s.drop_last();
        assert forall|i: int| 0 <= i < t.len() implies p(t[i]) by {
            assert(t[i] == s[i]);
        }
        lemma_drop_last_while_all(t, p);
    }
}

/// A buffer of nothing but NUL padding trims to nothing.
pub proof fn lemma_frame_trimmed_all_nul(s: Seq<u8>)
    requires
        forall|i: int| 0 <= i < s.len() ==> s[i] == 0u8,
    ensures
        frame_trimmed(s).len() == 0,
{
    let pnul = |b: u8| is_nul(b);
    assert forall|i: int| 0 <= i < s.len() implies pnul(s[i]) by {
        assert(s[i] == 0u8);
    }
    lemma_drop_last_while_all(s, pnul);
    assert(nul_trimmed(s).len() == 0);
    assert(frame_trimmed(s).len() == 0);
}

/// Strip NUL bytes from both ends of `v`.
pub fn trim_nul_ends(v: &Vec<u8>) -> (r: Vec<u8>)
    ensures
        r@ == nul_trimmed(v@),
{
    let ghost pnul = |b: u8| is_nul(b);
    let mut hi: usize = v.len();
    proof {
        assert(v@.subrange(0, v@.len() as int) =~= v@);
    }
    while hi > 0 && v[hi - 1] == 0u8
        invariant
            pnul == (|b: u8| is_nul(b)),
            hi <= v@.len(),
            drop_last_while(v@, pnul) == drop_last_while(v@.subrange(0, hi as int), pnul),
        decreases hi,
    {
        proof {
            let sub = v@.subrange(0, hi as int);
            assert(sub.last() == v@[hi - 1]);
            assert(pnul(sub.last()));
            assert(sub.drop_last() =~= v@.subrange(0, hi as int - 1));
        }
        hi = hi - 1;
    }
    proof {
        assert(drop_last_while(v@, pnul) == v@.subrange(0, hi as int));
    }
    let mut lo: usize = 0;
    while lo < hi && v[lo] == 0u8
        invariant
            pnul == (|b: u8| is_nul(b)),
            lo <= hi <= v@.len(),
            drop_last_while(v@, pnul) == v@.subrange(0, hi as int),
            drop_first_while(v@.subrange(0, hi as int), pnul) == drop_first_while(
                v@.subrange(lo as int, hi as int),
                pnul,
            ),
        decreases hi - lo,
    {
        proof {
            let sub = v@.subrange(lo as int, hi as int);
            assert(sub.first() == v@[lo as int]);
            assert(pnul(sub.first()));
            assert(sub.drop_first() =~= v@.subrange(lo as int + 1, hi as int));
        }
        lo = lo + 1;
    }
    proof {
        assert(nul_trimmed(v@) == v@.subrange(lo as int, hi as int));
    }
    copy_range(v, lo, hi)
}

/// Strip NUL padding from both ends of `v`, then surrounding whitespace.
pub fn trim_frame(v: &Vec<u8>) -> (r: Vec<u8>)
    ensures
        r@ == frame_trimmed(v@),
{
    let ghost psp = |b: u8| is_space(b);
    let inner = trim_nul_ends(v);
    let mut hi: usize = inner.len();
    proof {
        assert(inner@.subrange(0, inner@.len() as int) =~= inner@);
    }
    while hi > 0 && is_space_byte(inner[hi - 1])
        invariant
            psp == (|b: u8| is_space(b)),
            hi <= inner@.len(),
            drop_last_while(inner@, psp) == drop_last_while(inner@.subrange(0, hi as int), psp),
        decreases hi,
    {
        proof {
            let sub = inner@.subrange(0, hi as int);
            assert(sub.last() == inner@[hi - 1]);
            assert(psp(sub.last()));
            assert(sub.drop_last() =~= inner@.subrange(0, hi as int - 1));
        }
        hi = hi - 1;
    }
    proof {
        assert(drop_last_while(inner@, psp) == inner@.subrange(0, hi as int));
    }
    let mut lo: usize = 0;
    while lo < hi && is_space_byte(inner[lo])
        invariant
            psp == (|b: u8| is_space(b)),
            lo <= hi <= inner@.len(),
            drop_last_while(inner@, psp) == inner@.subrange(0, hi as int),
            drop_first_while(inner@.subrange(0, hi as int), psp) == drop_first_while(
                inner@.subrange(lo as int, hi as int),
                psp,
            ),
        decreases hi - lo,
    {
        proof {
            let sub = inner@.subrange(lo as int, hi as int);
            assert(sub.first() == inner@[lo as int]);
            assert(psp(sub.first()));
            assert(sub.drop_first() =~= inner@.subrange(lo as int + 1, hi as int));
        }
        lo = lo + 1;
    }
    proof {
        assert(frame_trimmed(v@) == inner@.subrange(lo as int, hi as int));
    }
    copy_range(&inner, lo, hi)
}

/// Whether `b` counts as whitespace.
pub fn is_space_byte(b: u8) -> (r: bool)
    ensures
        r == is_space(b),
{
    b == 32u8 || b == 9u8 || b == 10u8 || b == 13u8 || b == 11u8 || b == 12u8
}

/// The bytes of `v` from `lo` (inclusive) to `hi` (exclusive), as a fresh vector.
pub fn copy_range(v: &Vec<u8>, lo: usize, hi: usize) -> (r: Vec<u8>)
    requires
        lo <= hi <= v@.len(),
    ensures
        r@ == v@.subrange(lo as int, hi as int),
{
    let mut out: Vec<u8> = Vec::new();
    let mut j: usize = lo;
    while j < hi
        invariant
            lo <= j <= hi <= v@.len(),
            out@ == v@.subrange(lo as int, j as int),
        decreases hi - j,
    {
        out.push(v[j]);
        proof {
            assert(v@.subrange(lo as int, j as int).push(v@[j as int]) =~= v@.subrange(
                lo as int,
                j as int + 1,
            ));
        }
        j = j + 1;
    }
    out
}

} // verus!
