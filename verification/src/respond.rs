//! The response encoder and the per-buffer read cycle.
//!
//! Every reply is a RESP simple string: `+`, the reply text, CRLF. One read
//! cycle decodes the buffer, interprets each decoded element as a command,
//! and renders the replies in decoded order, one per element.

use vstd::prelude::*;

verus! {

use crate::command::Command;
use crate::command::CommandData;
use crate::command::interpret;
use crate::command::interpret_spec;
use crate::frame::BulkData;
use crate::frame::DecodeError;
use crate::frame::decoded;
use crate::frame::elem_views;
use crate::frame::parse_resp_array;
use crate::lines::views_of;
use crate::tokens::push_all;

/// The bytes of `INVALID COMMAND`.
pub open spec fn invalid_reply() -> Seq<u8> {
    seq![73u8, 78u8, 86u8, 65u8, 76u8, 73u8, 68u8, 32u8, 67u8, 79u8, 77u8, 77u8, 65u8, 78u8, 68u8]
}

/// The bytes of `PONG`.
pub open spec fn pong_reply() -> Seq<u8> {
    seq![80u8, 79u8, 78u8, 71u8]
}

/// The reply text a command produces: `PONG` for a bare ping, the argument
/// verbatim for a ping with one, `INVALID COMMAND` otherwise.
pub open spec fn render_spec(c: CommandData) -> Seq<u8> {
    match c {
        CommandData::Invalid => invalid_reply(),
        CommandData::Ping(Option::None) => pong_reply(),
        CommandData::Ping(Option::Some(a)) => a,
    }
}

/// `text` wrapped as a RESP simple string.
pub open spec fn simple_string(text: Seq<u8>) -> Seq<u8> {
    seq![43u8] + text + seq![13u8, 10u8]
}

/// The wire reply one decoded element is owed.
pub open spec fn reply_of(e: BulkData) -> Seq<u8> {
    simple_string(render_spec(interpret_spec(e.content)))
}

/// The wire replies a sequence of decoded elements is owed, in order.
pub open spec fn replies_of(els: Seq<BulkData>) -> Seq<Seq<u8>> {
    els.map_values(|e: BulkData| reply_of(e))
}

/// The responses owed to one raw read buffer: one simple string per decoded
/// element, in decoded order; or the decode error.
pub open spec fn responses(buf: Seq<u8>) -> Result<Seq<Seq<u8>>, DecodeError> {
    match decoded(buf) {
        Err(e) => Err(e),
        Ok(f) => Ok(replies_of(f.elements)),
    }
}

/// Render the reply text of a command.
pub fn render(command: &Command) -> (r: Vec<u8>)
    ensures
        r@ == render_spec(command@),
{
    match command {
        Command::Invalid => {
            let mut v: Vec<u8> = Vec::new();
            v.push(73u8);
            v.push(78u8);
            v.push(86u8);
            v.push(65u8);
            v.push(76u8);
            v.push(73u8);
            v.push(68u8);
            v.push(32u8);
            v.push(67u8);
            v.push(79u8);
            v.push(77u8);
            v.push(77u8);
            v.push(65u8);
            v.push(78u8);
            v.push(68u8);
            proof {
                assert(v@ =~= invalid_reply());
            }
            v
        },
        Command::Ping { argument: Option::None } => {
            let mut v: Vec<u8> = Vec::new();
            v.push(80u8);
            v.push(79u8);
            v.push(78u8);
            v.push(71u8);
            proof {
                assert(v@ =~= pong_reply());
            }
            v
        },
        Command::Ping { argument: Option::Some(a) } => {
            let mut v: Vec<u8> = Vec::new();
            push_all(&mut v, a);
            proof {
                assert(v@ =~= a@);
            }
            v
        },
    }
}

/// Wrap a reply as a RESP simple string: `+`, the reply, CRLF.
pub fn write_simple_string(response: &Vec<u8>) -> (r: Vec<u8>)
    ensures
        r@ == simple_string(response@),
{
    let mut out: Vec<u8> = Vec::new();
    out.push(43u8);
    push_all(&mut out, response);
    out.push(13u8);
    out.push(10u8);
    proof {
        assert(out@ =~= simple_string(response@));
    }
    out
}

/// One read cycle's computation: decode the buffer, interpret each decoded
/// element, and render the batch of wire replies in decoded order.
pub fn respond_to_buffer(buf: &Vec<u8>) -> (r: Result<Vec<Vec<u8>>, DecodeError>)
    ensures
        (match r {
            Ok(rs) => responses(buf@) matches Ok(ss) && views_of(rs@) == ss,
            Err(e) => responses(buf@) matches Err(e2) && e2 == e,
        }),
{
    let frame = match parse_resp_array(buf) {
        Err(e) => {
            return Err(e);
        },
        Ok(f) => f,
    };
    let ghost els = frame@.elements;
    let mut out: Vec<Vec<u8>> = Vec::new();
    let mut idx: usize = 0;
    proof {
        assert(els == elem_views(frame.elements@));
        assert(views_of(out@) =~~= replies_of(els.take(0)));
    }
    while idx < frame.elements.len()
        invariant
            idx <= frame.elements@.len(),
            els == elem_views(frame.elements@),
            els.len() == frame.elements@.len(),
            views_of(out@) == replies_of(els.take(idx as int)),
        decreases frame.elements@.len() - idx,
    {
        proof {
            assert(els[idx as int] == frame.elements@[idx as int]@);
        }
        let c = interpret(&frame.elements[idx]);
        let reply = render(&c);
        let wrapped = write_simple_string(&reply);
        proof {
            assert(wrapped@ == reply_of(els[idx as int]));
            assert(views_of(out@.push(wrapped)) =~~= views_of(out@).push(wrapped@));
            assert(els.take(idx as int + 1) =~~= els.take(idx as int).push(els[idx as int]));
            assert(replies_of(els.take(idx as int).push(els[idx as int])) =~~= replies_of(
                els.take(idx as int),
            ).push(reply_of(els[idx as int])));
        }
        out.push(wrapped);
        idx = idx + 1;
    }
    proof {
        assert(els.take(els.len() as int) =~~= els);
    }
    Ok(out)
}

} // verus!
