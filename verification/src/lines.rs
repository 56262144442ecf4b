//! Splitting a byte buffer into `\r\n`-delimited lines.
//!
//! RESP is line oriented: the array header and every bulk-string header or
//! content chunk stands on its own line, and the decoder works line by line.

use vstd::prelude::*;

verus! {

use crate::trim::copy_range;

/// A CRLF pair starts at position `k` of `s`.
pub open spec fn crlf_at(s: Seq<u8>, k: int) -> bool {
    0 <= k && k + 1 < s.len() && s[k] == 13u8 && s[k + 1] == 10u8
}

/// `s` split on each CRLF pair, leftmost first; always at least one line.
pub open spec fn split_crlf(s: Seq<u8>) -> Seq<Seq<u8>>
    decreases s.len(),
{
    if s.len() >= 2 && s[0] == 13u8 && s[1] == 10u8 {
        seq![Seq::<u8>::empty()] + split_crlf(s.skip(2))
    } else if s.len() >= 1 {
        let rest = split_crlf(s.skip(1));
        seq![seq![s[0]] + rest[0]] + rest.skip(1)
    } else {
        seq![Seq::<u8>::empty()]
    }
}

/// The views of a vector of byte vectors.
pub open spec fn views_of(ls: Seq<Vec<u8>>) -> Seq<Seq<u8>> {
    ls.map_values(|l: Vec<u8>| l@)
}

/// A buffer without any CRLF pair is a single line.
pub proof fn lemma_split_crlf_no_sep(s: Seq<u8>)
    requires
        forall|k: int| !crlf_at(s, k),
    ensures
        split_crlf(s) == seq![s],
    decreases s.len(),
{
    if s.len() == 0 {
        assert(split_crlf(s) =~~= seq![s]);
    } else if s.len() >= 2 && s[0] == 13u8 && s[1] == 10u8 {
        assert(crlf_at(s, 0));
    } else {
        let t = s.skip(1);
        assert forall|k: int| !crlf_at(t, k) by {
            if 0 <= k && k + 1 < t.len() {
                assert(t[k] == s[k + 1]);
                assert(t[k + 1] == s[k + 2]);
                assert(!crlf_at(s, k + 1));
            }
        }
        lemma_split_crlf_no_sep(t);
        let rest = split_crlf(t);
        assert(rest[0] == t);
        assert(seq![s[0]] + t =~= s);
        assert(rest.skip(1) =~= Seq::<Seq<u8>>::empty());
        assert(split_crlf(s) =~~= seq![s]);
    }
}

/// Splitting `a ++ CRLF ++ b`, where `a` holds no CRLF pair, yields `a`
/// followed by the lines of `b`.
pub proof fn lemma_split_crlf_append(a: Seq<u8>, b: Seq<u8>)
    requires
        forall|k: int| !crlf_at(a, k),
    ensures
        split_crlf(a + seq![13u8, 10u8] + b) == seq![a] + split_crlf(b),
    decreases a.len(),
{
    let s = a + seq![13u8, 10u8] + b;
    if a.len() == 0 {
        assert(s[0] == 13u8);
        assert(s[1] == 10u8);
        assert(s.skip(2) =~= b);
        assert(split_crlf(s) =~~= seq![a] + split_crlf(b));
    } else {
        assert(s[0] == a[0]);
        if a.len() >= 2 {
            assert(s[1] == a[1]);
            assert(!crlf_at(a, 0));
            assert(!(s[0] == 13u8 && s[1] == 10u8));
        } else {
            assert(s[1] == 13u8);
        }
        let a1 = a.skip(1);
        assert forall|k: int| !crlf_at(a1, k) by {
            if 0 <= k && k + 1 < a1.len() {
                assert(a1[k] == a[k + 1]);
                assert(a1[k + 1] == a[k + 2]);
                assert(!crlf_at(a, k + 1));
            }
        }
        lemma_split_crlf_append(a1, b);
        assert(s.skip(1) =~= a1 + seq![13u8, 10u8] + b);
        let rest = split_crlf(s.skip(1));
        assert(rest == seq![a1] + split_crlf(b));
        assert(rest[0] == a1);
        assert(seq![s[0]] + rest[0] =~= a);
        assert(rest.skip(1) =~= split_crlf(b));
        assert(split_crlf(s) =~~= seq![a] + split_crlf(b));
    }
}

/// Split `v` into its CRLF-delimited lines.
pub fn split_lines(v: &Vec<u8>) -> (r: Vec<Vec<u8>>)
    ensures
        views_of(r@) == split_crlf(v@),
        r@.len() >= 1,
{
    let mut lines: Vec<Vec<u8>> = Vec::new();
    let mut start: usize = 0;
    let mut i: usize = 0;
    proof {
        assert(views_of(lines@) =~~= Seq::<Seq<u8>>::empty());
        assert(v@.skip(0) =~= v@);
    }
    while i < v.len()
        invariant
            start <= i <= v@.len(),
            split_crlf(v@) == views_of(lines@) + split_crlf(v@.skip(start as int)),
            forall|k: int| start <= k < i ==> !crlf_at(v@, k),
        decreases v@.len() - i,
    {
        if v[i] == 13u8 && i + 1 < v.len() && v[i + 1] == 10u8 {
            let piece = copy_range(v, start, i);
            proof {
                assert forall|k: int| !crlf_at(piece@, k) by {
                    if 0 <= k && k + 1 < piece@.len() {
                        assert(piece@[k] == v@[start + k]);
                        assert(piece@[k + 1] == v@[start + k + 1]);
                        assert(!crlf_at(v@, start + k));
                    }
                }
                lemma_split_crlf_append(piece@, v@.skip(i as int + 2));
                assert(v@.skip(start as int) =~= piece@ + seq![13u8, 10u8] + v@.skip(
                    i as int + 2,
                ));
                assert(views_of(lines@.push(piece)) =~~= views_of(lines@).push(piece@));
                assert(views_of(lines@).push(piece@) + split_crlf(v@.skip(i as int + 2))
                    =~~= views_of(lines@) + (seq![piece@] + split_crlf(v@.skip(i as int + 2))));
            }
            lines.push(piece);
            start = i + 2;
            i = i + 2;
        } else {
            proof {
                assert(!crlf_at(v@, i as int));
            }
            i = i + 1;
        }
    }
    let tail = copy_range(v, start, v.len());
    proof {
        assert forall|k: int| !crlf_at(tail@, k) by {
            if 0 <= k && k + 1 < tail@.len() {
                assert(tail@[k] == v@[start + k]);
                assert(tail@[k + 1] == v@[start + k + 1]);
                assert(!crlf_at(v@, start + k));
            }
        }
        assert(tail@ =~= v@.skip(start as int));
        lemma_split_crlf_no_sep(tail@);
        assert(views_of(lines@.push(tail)) =~~= views_of(lines@).push(tail@));
        assert(views_of(lines@).push(tail@) =~~= views_of(lines@) + seq![tail@]);
    }
    lines.push(tail);
    proof {
        assert(views_of(lines@) =~~= split_crlf(v@));
    }
    lines
}

} // verus!
