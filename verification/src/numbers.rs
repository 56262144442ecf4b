//! Parsing signed decimal integers from ASCII bytes.
//!
//! RESP headers carry counts and lengths as decimal text after a type marker
//! (`*3`, `$-1`). A header integer is an optional `+` or `-` sign followed by
//! at least one digit; anything else, or a value outside the `i32` range, is
//! malformed.

use vstd::prelude::*;

verus! {

/// `b` is an ASCII decimal digit.
pub open spec fn is_digit(b: u8) -> bool {
    48 <= b && b <= 57
}

/// Every byte of `s` is a decimal digit.
pub open spec fn all_digits(s: Seq<u8>) -> bool {
    forall|i: int| 0 <= i < s.len() ==> is_digit(s[i])
}

/// The value of a sequence of decimal digits, most significant first.
pub open spec fn digits_val(s: Seq<u8>) -> int
    decreases s.len(),
{
    if s.len() == 0 {
        0
    } else {
        digits_val(s.drop_last()) * 10 + (s.last() - 48)
    }
}

/// The digit part of an integer literal: everything after an optional sign.
pub open spec fn int_body(s: Seq<u8>) -> Seq<u8> {
    if s.len() > 0 && (s[0] == 43u8 || s[0] == 45u8) {
        s.drop_first()
    } else {
        s
    }
}

/// The sign of an integer literal.
pub open spec fn int_sign(s: Seq<u8>) -> int {
    if s.len() > 0 && s[0] == 45u8 {
        -1
    } else {
        1
    }
}

/// `s` is a well-formed decimal integer literal: an optional `+` or `-` sign
/// followed by one or more digits.
pub open spec fn is_int_literal(s: Seq<u8>) -> bool {
    int_body(s).len() > 0 && all_digits(int_body(s))
}

/// The mathematical value of an integer literal.
pub open spec fn int_literal_val(s: Seq<u8>) -> int {
    int_sign(s) * digits_val(int_body(s))
}

/// What parsing `s` as an `i32` yields: the value when `s` is a well-formed
/// literal whose value fits in `i32`, nothing otherwise.
pub open spec fn parse_i32_spec(s: Seq<u8>) -> Option<i32> {
    if is_int_literal(s) && -0x8000_0000 <= int_literal_val(s) && int_literal_val(s)
        <= 0x7fff_ffff {
        Some(int_literal_val(s) as i32)
    } else {
        None
    }
}

pub proof fn lemma_digits_val_nonneg(s: Seq<u8>)
    requires
        all_digits(s),
    ensures
        digits_val(s) >= 0,
    decreases s.len(),
{
    if s.len() > 0 {
        let t = s.drop_last();
        assert forall|i: int| 0 <= i < t.len() implies is_digit(t[i]) by {
            assert(t[i] == s[i]);
        }
        lemma_digits_val_nonneg(t);
        assert(digits_val(t) * 10 >= 0) by (nonlinear_arith)
            requires
                digits_val(t) >= 0,
        ;
        assert(is_digit(s.last()));
    }
}

/// The value of a digit sequence is at least the value of any of its prefixes.
pub proof fn lemma_digits_val_prefix(s: Seq<u8>, n: int)
    requires
        all_digits(s),
        0 <= n <= s.len(),
    ensures
        digits_val(s.take(n)) <= digits_val(s),
    decreases s.len() - n,
{
    if n == s.len() {
        assert(s.take(n) =~= s);
    } else {
        let t = s.drop_last();
        assert forall|i: int| 0 <= i < t.len() implies is_digit(t[i]) by {
            assert(t[i] == s[i]);
        }
        lemma_digits_val_nonneg(t);
        assert(digits_val(t) * 10 >= digits_val(t)) by (nonlinear_arith)
            requires
                digits_val(t) >= 0,
        ;
        assert(is_digit(s.last()));
        lemma_digits_val_prefix(t, n);
        assert(t.take(n) =~= s.take(n));
    }
}

/// Parse the bytes of `line` from position `start` on as a signed decimal
/// `i32`, the way a RESP header integer is read.
pub fn parse_i32_tail(line: &Vec<u8>, start: usize) -> (r: Option<i32>)
    requires
        start <= line@.len(),
    ensures
        r == parse_i32_spec(line@.skip(start as int)),
{
    let ghost s = line@.skip(start as int);
    let n = line.len();
    let mut neg: bool = false;
    let mut body: usize = start;
    if start < n && (line[start] == 43u8 || line[start] == 45u8) {
        neg = line[start] == 45u8;
        body = start + 1;
        proof {
            assert(s[0] == line@[start as int]);
            assert(s.drop_first() =~= line@.skip(body as int));
        }
    } else {
        proof {
            if s.len() > 0 {
                assert(s[0] == line@[start as int]);
            }
        }
    }
    let ghost bs = line@.skip(body as int);
    proof {
        assert(int_body(s) == bs);
        assert(int_sign(s) == (if neg {
            -1int
        } else {
            1int
        }));
    }
    if body == n {
        proof {
            assert(bs.len() == 0);
        }
        return None;
    }
    let mut acc: u64 = 0;
    let mut j: usize = body;
    proof {
        assert(bs.take(0) =~= Seq::<u8>::empty());
    }
    while j < n
        invariant
            body <= j <= n,
            body < n,
            n == line@.len(),
            s == line@.skip(start as int),
            bs == line@.skip(body as int),
            int_body(s) == bs,
            int_sign(s) == (if neg {
                -1int
            } else {
                1int
            }),
            all_digits(bs.take(j - body)),
            acc == digits_val(bs.take(j - body)),
            acc <= 0x8000_0000,
        decreases n - j,
    {
        let c = line[j];
        proof {
            assert(bs[j - body] == line@[j as int]);
        }
        if c < 48u8 || c > 57u8 {
            proof {
                assert(!is_digit(bs[j - body]));
                assert(!all_digits(bs));
            }
            return None;
        }
        proof {
            assert(bs.take(j - body + 1).drop_last() =~= bs.take(j - body));
            assert(bs.take(j - body + 1).last() == bs[j - body]);
            assert forall|i: int| 0 <= i < j - body + 1 implies is_digit(
                #[trigger] bs.take(j - body + 1)[i],
            ) by {
                if i < j - body {
                    assert(bs.take(j - body + 1)[i] == bs.take(j - body)[i]);
                }
            }
        }
        let next: u64 = acc * 10 + (c - 48) as u64;
        if next > 0x8000_0000u64 {
            proof {
                if is_int_literal(s) {
                    lemma_digits_val_prefix(bs, j - body + 1);
                    assert(digits_val(bs) >= next);
                    if int_sign(s) == 1 {
                        assert(int_literal_val(s) > 0x7fff_ffff);
                    } else {
                        assert(digits_val(bs) > 0x8000_0000);
                        assert(int_literal_val(s) == -1 * digits_val(bs));
                        assert(-1 * digits_val(bs) < -0x8000_0000) by (nonlinear_arith)
                            requires
                                digits_val(bs) > 0x8000_0000,
                        ;
                    }
                }
            }
            return None;
        }
        acc = next;
        j = j + 1;
    }
    proof {
        assert(bs.take(j - body) =~= bs);
        assert(is_int_literal(s));
        lemma_digits_val_nonneg(bs);
    }
    if neg {
        proof {
            assert(int_literal_val(s) == -1 * digits_val(bs));
            assert(-0x8000_0000 <= int_literal_val(s) <= 0);
        }
        if acc == 0x8000_0000u64 {
            Some(i32::MIN)
        } else {
            Some(-(acc as i32))
        }
    } else {
        proof {
            assert(int_literal_val(s) == digits_val(bs));
        }
        if acc > 0x7fff_ffffu64 {
            proof {
                assert(int_literal_val(s) > 0x7fff_ffff);
            }
            None
        } else {
            Some(acc as i32)
        }
    }
}

} // verus!
