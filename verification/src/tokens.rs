//! Whitespace tokenizing and space-joining of byte strings.
//!
//! A command's content is tokenized on runs of whitespace; the tokens after
//! the verb are rejoined with single spaces to form the argument text.

use vstd::prelude::*;

verus! {

use crate::is_space;
use crate::lines::views_of;
use crate::trim::copy_range;
use crate::trim::is_space_byte;

/// The whitespace-separated tokens of `s`, in order, each nonempty.
pub open spec fn tokens(s: Seq<u8>) -> Seq<Seq<u8>>
    decreases s.len(),
{
    if s.len() == 0 {
        Seq::empty()
    } else if is_space(s[0]) {
        tokens(s.drop_first())
    } else if s.len() >= 2 && !is_space(s[1]) {
        let rest = tokens(s.drop_first());
        seq![seq![s[0]] + rest[0]] + rest.skip(1)
    } else {
        seq![seq![s[0]]] + tokens(s.drop_first())
    }
}

/// The tokens joined with single spaces.
pub open spec fn join_spaces(ts: Seq<Seq<u8>>) -> Seq<u8>
    decreases ts.len(),
{
    if ts.len() == 0 {
        Seq::empty()
    } else if ts.len() == 1 {
        ts[0]
    } else {
        ts[0] + seq![32u8] + join_spaces(ts.drop_first())
    }
}

/// Tokenizing `w ++ rest`, where `w` is a nonempty word without whitespace
/// and `rest` is empty or starts with whitespace, yields `w` followed by the
/// tokens of `rest`.
pub proof fn lemma_tokens_word(w: Seq<u8>, rest: Seq<u8>)
    requires
        w.len() > 0,
        forall|k: int| 0 <= k < w.len() ==> !is_space(w[k]),
        rest.len() == 0 || is_space(rest[0]),
    ensures
        tokens(w + rest) == seq![w] + tokens(rest),
    decreases w.len(),
{
    let s = w + rest;
    assert(s[0] == w[0]);
    assert(!is_space(s[0]));
    if w.len() == 1 {
        if rest.len() == 0 {
            assert(s.len() == 1);
            assert(s.drop_first() =~= rest);
            assert(seq![s[0]] =~= w);
            assert(tokens(s) =~~= seq![w] + tokens(rest));
        } else {
            assert(s[1] == rest[0]);
            assert(is_space(s[1]));
            assert(s.drop_first() =~= rest);
            assert(seq![s[0]] =~= w);
            assert(tokens(s) =~~= seq![w] + tokens(rest));
        }
    } else {
        assert(s[1] == w[1]);
        assert(!is_space(s[1]));
        let w1 = w.drop_first();
        assert forall|k: int| 0 <= k < w1.len() implies !is_space(w1[k]) by {
            assert(w1[k] == w[k + 1]);
        }
        lemma_tokens_word(w1, rest);
        assert(s.drop_first() =~= w1 + rest);
        let r = tokens(s.drop_first());
        assert(r == seq![w1] + tokens(rest));
        assert(r[0] == w1);
        assert(seq![s[0]] + r[0] =~= w);
        assert(r.skip(1) =~= tokens(rest));
        assert(tokens(s) =~~= seq![w] + tokens(rest));
    }
}

/// Joining after adding one more token appends a space and that token.
pub proof fn lemma_join_spaces_push(u: Seq<Seq<u8>>, w: Seq<u8>)
    ensures
        join_spaces(u.push(w)) == if u.len() == 0 {
            w
        } else {
            join_spaces(u) + seq![32u8] + w
        },
    decreases u.len(),
{
    let ts = u.push(w);
    if u.len() == 0 {
        assert(ts.len() == 1);
        assert(ts[0] == w);
    } else if u.len() == 1 {
        assert(ts.len() == 2);
        assert(ts[0] == u[0]);
        assert(ts.drop_first() =~= seq![w]);
        assert(join_spaces(ts.drop_first()) == w);
        assert(join_spaces(ts) =~= join_spaces(u) + seq![32u8] + w);
    } else {
        lemma_join_spaces_push(u.drop_first(), w);
        assert(ts.drop_first() =~= u.drop_first().push(w));
        assert(ts[0] == u[0]);
        assert(join_spaces(ts) == ts[0] + seq![32u8] + join_spaces(ts.drop_first()));
        assert(u[0] + seq![32u8] + (join_spaces(u.drop_first()) + seq![32u8] + w) =~= (u[0]
            + seq![32u8] + join_spaces(u.drop_first())) + seq![32u8] + w);
    }
}

/// Split `v` into its whitespace-separated tokens.
pub fn tokenize(v: &Vec<u8>) -> (r: Vec<Vec<u8>>)
    ensures
        views_of(r@) == tokens(v@),
{
    let mut toks: Vec<Vec<u8>> = Vec::new();
    let mut i: usize = 0;
    proof {
        assert(views_of(toks@) =~~= Seq::<Seq<u8>>::empty());
        assert(v@.skip(0) =~= v@);
    }
    while i < v.len()
        invariant
            i <= v@.len(),
            tokens(v@) == views_of(toks@) + tokens(v@.skip(i as int)),
        decreases v@.len() - i,
    {
        if is_space_byte(v[i]) {
            proof {
                let t = v@.skip(i as int);
                assert(t[0] == v@[i as int]);
                assert(t.drop_first() =~= v@.skip(i as int + 1));
            }
            i = i + 1;
        } else {
            let mut j: usize = i + 1;
            while j < v.len() && !is_space_byte(v[j])
                invariant
                    i < j <= v@.len(),
                    forall|k: int| i <= k < j ==> !is_space(v@[k]),
                    !is_space(v@[i as int]),
                decreases v@.len() - j,
            {
                j = j + 1;
            }
            let w = copy_range(v, i, j);
            proof {
                assert forall|k: int| 0 <= k < w@.len() implies !is_space(w@[k]) by {
                    assert(w@[k] == v@[i + k]);
                }
                let rest = v@.skip(j as int);
                if rest.len() > 0 {
                    assert(rest[0] == v@[j as int]);
                }
                lemma_tokens_word(w@, rest);
                assert(v@.skip(i as int) =~= w@ + rest);
                assert(views_of(toks@.push(w)) =~~= views_of(toks@).push(w@));
                assert(views_of(toks@).push(w@) + tokens(rest) =~~= views_of(toks@) + (seq![w@]
                    + tokens(rest)));
            }
            toks.push(w);
            i = j;
        }
    }
    proof {
        assert(v@.skip(i as int) =~= Seq::<u8>::empty());
        assert(views_of(toks@) =~~= views_of(toks@) + tokens(Seq::<u8>::empty()));
    }
    toks
}

/// Append the bytes of `v` to `out`.
pub fn push_all(out: &mut Vec<u8>, v: &Vec<u8>)
    ensures
        final(out)@ == old(out)@ + v@,
{
    let mut j: usize = 0;
    proof {
        assert(out@ =~= out@ + v@.subrange(0, 0));
    }
    while j < v.len()
        invariant
            j <= v@.len(),
            out@ == old(out)@ + v@.subrange(0, j as int),
        decreases v@.len() - j,
    {
        out.push(v[j]);
        proof {
            assert((old(out)@ + v@.subrange(0, j as int)).push(v@[j as int]) =~= old(out)@
                + v@.subrange(0, j as int + 1));
        }
        j = j + 1;
    }
    proof {
        assert(v@.subrange(0, j as int) =~= v@);
    }
}

/// Join the tokens of `ts` from position `from` on with single spaces.
pub fn join_from(ts: &Vec<Vec<u8>>, from: usize) -> (r: Vec<u8>)
    requires
        from <= ts@.len(),
    ensures
        r@ == join_spaces(views_of(ts@).skip(from as int)),
{
    let mut out: Vec<u8> = Vec::new();
    let mut k: usize = from;
    proof {
        assert(views_of(ts@).subrange(from as int, from as int) =~~= Seq::<Seq<u8>>::empty());
    }
    while k < ts.len()
        invariant
            from <= k <= ts@.len(),
            out@ == join_spaces(views_of(ts@).subrange(from as int, k as int)),
        decreases ts@.len() - k,
    {
        let ghost u = views_of(ts@).subrange(from as int, k as int);
        if k > from {
            out.push(32u8);
        }
        push_all(&mut out, &ts[k]);
        proof {
            lemma_join_spaces_push(u, ts@[k as int]@);
            assert(views_of(ts@).subrange(from as int, k as int + 1) =~~= u.push(ts@[k as int]@));
        }
        k = k + 1;
    }
    proof {
        assert(views_of(ts@).subrange(from as int, ts@.len() as int) =~~= views_of(ts@).skip(
            from as int,
        ));
    }
    out
}

} // verus!
