//! The RESP frame decoder.
//!
//! A frame is an array header line `*<count>` followed by bulk strings, each
//! a header line `$<declared_length>` and, when the declared length is
//! positive, one content line. Decoding consumes the header line of every
//! element and the content line of a positive-length element; it stops early
//! when the buffer truncates, so the decoded elements may be fewer than the
//! declared count. A malformed header (missing type marker, or an integer
//! that does not parse as an `i32`) is a decode failure.

use vstd::prelude::*;

verus! {

use crate::lines::split_crlf;
use crate::lines::split_lines;
use crate::lines::views_of;
use crate::numbers::parse_i32_spec;
use crate::numbers::parse_i32_tail;
use crate::trim::copy_range;
use crate::trim::frame_trimmed;
use crate::trim::trim_frame;

/// The mathematical content of a decoded bulk-string element.
#[verifier::ext_equal]
pub struct BulkData {
    pub declared_length: int,
    pub content: Seq<u8>,
}

/// The mathematical content of a decoded array frame.
#[verifier::ext_equal]
pub struct FrameData {
    pub count: int,
    pub elements: Seq<BulkData>,
}

/// Why a buffer failed to decode.
#[derive(Clone, Copy, Debug, PartialEq, Eq, Structural)]
pub enum DecodeError {
    /// The first line is nonempty but is not `*` followed by an `i32`.
    BadArrayHeader,
    /// An element header line is not `$` followed by an `i32`.
    BadElementHeader,
}

/// One decoded bulk-string element: the declared length from its `$` header
/// (normalized to -1 when negative) and its content bytes.
#[derive(Debug, PartialEq, Eq)]
pub struct BulkElement {
    pub declared_length: i32,
    pub content: Vec<u8>,
}

/// One decoded array frame: the declared element count from its `*` header
/// and the elements actually decoded, which may be fewer when the buffer
/// truncates.
#[derive(Debug, PartialEq, Eq)]
pub struct ArrayFrame {
    pub count: i32,
    pub elements: Vec<BulkElement>,
}

/// The views of a sequence of bulk elements.
pub open spec fn elem_views(s: Seq<BulkElement>) -> Seq<BulkData> {
    s.map_values(|e: BulkElement| e@)
}

impl View for BulkElement {
    type V = BulkData;

    open spec fn view(&self) -> BulkData {
        BulkData { declared_length: self.declared_length as int, content: self.content@ }
    }
}

impl View for ArrayFrame {
    type V = FrameData;

    open spec fn view(&self) -> FrameData {
        FrameData { count: self.count as int, elements: elem_views(self.elements@) }
    }
}

/// What decoding one bulk string whose header stands at line `i` yields:
/// the element together with how many lines it consumed, or the error.
pub open spec fn bulk_at(lines: Seq<Seq<u8>>, i: int) -> Result<(BulkData, int), DecodeError> {
    let h = lines[i];
    if h.len() == 0 || h[0] != 36u8 {
        Err(DecodeError::BadElementHeader)
    } else {
        match parse_i32_spec(h.drop_first()) {
            Option::None => Err(DecodeError::BadElementHeader),
            Option::Some(len) => if len == 0 {
                Ok((BulkData { declared_length: 0, content: Seq::empty() }, 1))
            } else if len < 0 {
                Ok((BulkData { declared_length: -1, content: Seq::empty() }, 1))
            } else if i + 1 >= lines.len() {
                Ok((BulkData { declared_length: len as int, content: Seq::empty() }, 2))
            } else {
                let c = lines[i + 1];
                if c.len() >= len {
                    Ok((BulkData { declared_length: len as int, content: c.take(len as int) }, 2))
                } else {
                    Ok((BulkData { declared_length: len as int, content: Seq::empty() }, 2))
                }
            },
        }
    }
}

/// The elements decoded from line `i` on, for at most `remaining` more
/// elements; decoding stops when the lines run out.
pub open spec fn elements_from(lines: Seq<Seq<u8>>, i: int, remaining: int) -> Result<
    Seq<BulkData>,
    DecodeError,
>
    decreases remaining,
{
    if remaining <= 0 || i >= lines.len() {
        Ok(Seq::empty())
    } else {
        match bulk_at(lines, i) {
            Err(e) => Err(e),
            Ok(p) => {
                let next = if i + p.1 <= lines.len() {
                    i + p.1
                } else {
                    lines.len() as int
                };
                match elements_from(lines, next, remaining - 1) {
                    Err(e) => Err(e),
                    Ok(rest) => Ok(seq![p.0] + rest),
                }
            },
        }
    }
}

/// What decoding a sequence of lines yields. An empty first line means an
/// absent array header: count zero, no elements.
pub open spec fn decode_lines(lines: Seq<Seq<u8>>) -> Result<FrameData, DecodeError> {
    if lines.len() == 0 || lines[0].len() == 0 {
        Ok(FrameData { count: 0, elements: Seq::empty() })
    } else if lines[0][0] != 42u8 {
        Err(DecodeError::BadArrayHeader)
    } else {
        match parse_i32_spec(lines[0].drop_first()) {
            Option::None => Err(DecodeError::BadArrayHeader),
            Option::Some(n) => match elements_from(lines, 1, n as int) {
                Err(e) => Err(e),
                Ok(els) => Ok(FrameData { count: n as int, elements: els }),
            },
        }
    }
}

/// What decoding a raw buffer yields: its logical content, split into lines,
/// read as an array of bulk strings.
pub open spec fn decoded(buf: Seq<u8>) -> Result<FrameData, DecodeError> {
    decode_lines(split_crlf(frame_trimmed(buf)))
}

/// Decode the bulk string whose header stands at line `i`, returning the
/// element and the number of lines it consumed.
pub fn parse_resp_bulk_string(lines: &Vec<Vec<u8>>, i: usize) -> (r: Result<
    (BulkElement, usize),
    DecodeError,
>)
    requires
        i < lines@.len(),
    ensures
        (match r {
            Ok(p) => bulk_at(views_of(lines@), i as int) matches Ok(q) && q.0 == p.0@ && q.1
                == p.1 as int,
            Err(e) => bulk_at(views_of(lines@), i as int) matches Err(e2) && e2 == e,
        }),
{
    let ghost lv = views_of(lines@);
    proof {
        assert(lv[i as int] == lines@[i as int]@);
    }
    let h = &lines[i];
    if h.len() == 0 || h[0] != 36u8 {
        return Err(DecodeError::BadElementHeader);
    }
    proof {
        assert(h@.drop_first() =~= h@.skip(1));
    }
    match parse_i32_tail(h, 1) {
        Option::None => Err(DecodeError::BadElementHeader),
        Option::Some(len) => {
            if len == 0 {
                Ok((BulkElement { declared_length: 0, content: Vec::new() }, 1))
            } else if len < 0 {
                Ok((BulkElement { declared_length: -1, content: Vec::new() }, 1))
            } else if i >= lines.len() - 1 {
                Ok((BulkElement { declared_length: len, content: Vec::new() }, 2))
            } else {
                proof {
                    assert(lv[i as int + 1] == lines@[i as int + 1]@);
                }
                let c = &lines[i + 1];
                if c.len() >= len as usize {
                    let content = copy_range(c, 0, len as usize);
                    proof {
                        assert(content@ =~= c@.take(len as int));
                    }
                    Ok((BulkElement { declared_length: len, content }, 2))
                } else {
                    Ok((BulkElement { declared_length: len, content: Vec::new() }, 2))
                }
            }
        },
    }
}

/// Decode a raw buffer as a RESP array of bulk strings.
pub fn parse_resp_array(buf: &Vec<u8>) -> (r: Result<ArrayFrame, DecodeError>)
    ensures
        (match r {
            Ok(f) => decoded(buf@) matches Ok(d) && d == f@,
            Err(e) => decoded(buf@) matches Err(e2) && e2 == e,
        }),
{
    let trimmed = trim_frame(buf);
    let lines = split_lines(&trimmed);
    let ghost lv = views_of(lines@);
    proof {
        assert(lv == split_crlf(frame_trimmed(buf@)));
        assert(lv[0] == lines@[0]@);
    }
    if lines[0].len() == 0 {
        let f = ArrayFrame { count: 0, elements: Vec::new() };
        proof {
            assert(elem_views(Seq::<BulkElement>::empty()) =~~= Seq::<BulkData>::empty());
            assert(f@ =~~= (FrameData { count: 0, elements: Seq::empty() }));
        }
        return Ok(f);
    }
    if lines[0][0] != 42u8 {
        return Err(DecodeError::BadArrayHeader);
    }
    proof {
        assert(lines@[0]@.drop_first() =~= lines@[0]@.skip(1));
    }
    let count = match parse_i32_tail(&lines[0], 1) {
        Option::None => {
            return Err(DecodeError::BadArrayHeader);
        },
        Option::Some(n) => n,
    };
    let mut elements: Vec<BulkElement> = Vec::new();
    let mut i: usize = 1;
    let ghost mut gi: int = 1;
    let mut k: i32 = 0;
    proof {
        assert(elem_views(elements@) =~~= Seq::<BulkData>::empty());
        match elements_from(lv, 1, count as int) {
            Ok(rest) => {
                assert(elem_views(elements@) + rest =~~= rest);
            },
            Err(_) => {},
        }
    }
    while k < count && i < lines.len()
        invariant
            lv == views_of(lines@),
            lv == split_crlf(frame_trimmed(buf@)),
            lv.len() == lines@.len(),
            lv.len() >= 1,
            lv[0].len() > 0,
            lv[0][0] == 42u8,
            parse_i32_spec(lv[0].drop_first()) == Option::Some(count),
            0 <= k,
            k <= count || k == 0,
            1 <= i <= lines@.len(),
            1 <= gi,
            i as int == (if gi <= lines@.len() {
                gi
            } else {
                lines@.len() as int
            }),
            elements_from(lv, 1, count as int) == (match elements_from(
                lv,
                gi,
                count as int - k as int,
            ) {
                Ok(rest) => Ok::<Seq<BulkData>, DecodeError>(elem_views(elements@) + rest),
                Err(e) => Err::<Seq<BulkData>, DecodeError>(e),
            }),
        decreases count - k,
    {
        proof {
            assert(gi == i as int);
        }
        match parse_resp_bulk_string(&lines, i) {
            Err(e) => {
                proof {
                    assert(elements_from(lv, gi, count as int - k as int) == Err::<
                        Seq<BulkData>,
                        DecodeError,
                    >(e));
                }
                return Err(e);
            },
            Ok(p) => {
                let (el, consumed) = p;
                let ghost q = (el@, consumed as int);
                proof {
                    assert(bulk_at(lv, gi) == Ok::<(BulkData, int), DecodeError>(q));
                }
                let next: usize = if consumed > lines.len() - i {
                    lines.len()
                } else {
                    i + consumed
                };
                proof {
                    let ghost gnext = if gi + q.1 <= lv.len() {
                        gi + q.1
                    } else {
                        lv.len() as int
                    };
                    match elements_from(lv, gnext, count as int - k as int - 1) {
                        Ok(rest) => {
                            assert(elem_views(elements@.push(el)) =~~= elem_views(
                                elements@,
                            ).push(el@));
                            assert(elem_views(elements@) + (seq![el@] + rest) =~~= elem_views(
                                elements@,
                            ).push(el@) + rest);
                        },
                        Err(_) => {},
                    }
                    gi = gnext;
                }
                elements.push(el);
                i = next;
                k = k + 1;
            },
        }
    }
    proof {
        if k >= count {
            assert(elements_from(lv, gi, count as int - k as int) == Ok::<
                Seq<BulkData>,
                DecodeError,
            >(Seq::empty()));
        } else {
            assert(i as int == lines@.len() as int);
            assert(gi >= lv.len());
            assert(elements_from(lv, gi, count as int - k as int) == Ok::<
                Seq<BulkData>,
                DecodeError,
            >(Seq::empty()));
        }
        match elements_from(lv, 1, count as int) {
            Ok(els) => {
                assert(els =~~= elem_views(elements@) + Seq::<BulkData>::empty());
                assert(els =~~= elem_views(elements@));
            },
            Err(_) => {},
        }
    }
    let f = ArrayFrame { count, elements };
    proof {
        assert(f@ =~~= (FrameData {
            count: count as int,
            elements: elem_views(f.elements@),
        }));
    }
    Ok(f)
}

/// Decode a raw read buffer into an array frame.
pub fn parse_input(buf: &Vec<u8>) -> (r: Result<ArrayFrame, DecodeError>)
    ensures
        (match r {
            Ok(f) => decoded(buf@) matches Ok(d) && d == f@,
            Err(e) => decoded(buf@) matches Err(e2) && e2 == e,
        }),
{
    parse_resp_array(buf)
}

} // verus!
