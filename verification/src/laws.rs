//! Properties of the decoder and responder as a whole.

use vstd::prelude::*;

verus! {

use crate::frame::BulkData;
use crate::frame::DecodeError;
use crate::frame::FrameData;
use crate::frame::decoded;
use crate::respond::replies_of;
use crate::respond::reply_of;
use crate::respond::responses;
use crate::trim::frame_trimmed;
use crate::trim::lemma_frame_trimmed_all_nul;

/// An empty input buffer — one holding nothing but NUL padding, or nothing at
/// all — decodes to a count of zero with no elements and is owed no
/// responses.
pub proof fn lemma_padding_only_no_responses(b: Seq<u8>)
    requires
        forall|i: int| 0 <= i < b.len() ==> b[i] == 0u8,
    ensures
        decoded(b) == Ok::<FrameData, DecodeError>(
            FrameData { count: 0, elements: Seq::empty() },
        ),
        responses(b) == Ok::<Seq<Seq<u8>>, DecodeError>(Seq::empty()),
{
    lemma_frame_trimmed_all_nul(b);
    let t = frame_trimmed(b);
    assert(t =~= Seq::<u8>::empty());
    assert(replies_of(Seq::<BulkData>::empty()) =~~= Seq::<Seq<u8>>::empty());
}

/// Decoding is a pure function of the buffer's bytes: two decodes of one
/// buffer yield structurally identical frames.
pub proof fn lemma_decode_idempotent(buf: Seq<u8>, f1: FrameData, f2: FrameData)
    requires
        decoded(buf) == Ok::<FrameData, DecodeError>(f1),
        decoded(buf) == Ok::<FrameData, DecodeError>(f2),
    ensures
        f1 == f2,
{
}

/// One response per decoded element, in decoded order: a buffer that decodes
/// to N elements is owed exactly N responses, the i-th replying to the i-th
/// element; a buffer that fails to decode is owed that failure.
pub proof fn lemma_one_response_per_element(buf: Seq<u8>)
    ensures
        (match (decoded(buf), responses(buf)) {
            (Ok(f), Ok(rs)) => rs.len() == f.elements.len() && (forall|i: int|
                0 <= i < f.elements.len() ==> rs[i] == reply_of(f.elements[i])),
            (Err(e1), Err(e2)) => e1 == e2,
            _ => false,
        }),
{
}

} // verus!
