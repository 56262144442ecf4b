//! The command interpreter.
//!
//! Each decoded bulk string is read as one command: its content is tokenized
//! on whitespace, and a first token of exactly `PING` makes a ping whose
//! argument is the remaining tokens rejoined with single spaces (NUL padding
//! stripped from the ends). Any other content is invalid.

use vstd::prelude::*;

verus! {

use crate::frame::BulkElement;
use crate::lines::views_of;
use crate::tokens::join_from;
use crate::tokens::join_spaces;
use crate::tokens::tokenize;
use crate::tokens::tokens;
use crate::trim::nul_trimmed;
use crate::trim::trim_nul_ends;

/// The mathematical content of a command.
#[verifier::ext_equal]
pub enum CommandData {
    Invalid,
    Ping(Option<Seq<u8>>),
}

/// A recognized command: `PING` with an optional echo argument, or anything
/// else, which is invalid.
pub enum Command {
    Invalid,
    Ping { argument: Option<Vec<u8>> },
}

impl View for Command {
    type V = CommandData;

    open spec fn view(&self) -> CommandData {
        match self {
            Command::Invalid => CommandData::Invalid,
            Command::Ping { argument: Option::None } => CommandData::Ping(Option::None),
            Command::Ping { argument: Option::Some(a) } => CommandData::Ping(Option::Some(a@)),
        }
    }
}

/// The bytes of the verb `PING`.
pub open spec fn ping_verb() -> Seq<u8> {
    seq![80u8, 73u8, 78u8, 71u8]
}

/// The echo argument of a ping: the tokens after the verb rejoined with
/// single spaces, NUL padding stripped from both ends.
pub open spec fn ping_argument(content: Seq<u8>) -> Seq<u8> {
    nul_trimmed(join_spaces(tokens(content).drop_first()))
}

/// What interpreting a bulk string's content yields: a ping when the first
/// whitespace token is exactly `PING` (with the argument, when one is left),
/// invalid otherwise.
pub open spec fn interpret_spec(content: Seq<u8>) -> CommandData {
    let ts = tokens(content);
    if ts.len() >= 1 && ts[0] == ping_verb() {
        if ping_argument(content).len() == 0 {
            CommandData::Ping(Option::None)
        } else {
            CommandData::Ping(Option::Some(ping_argument(content)))
        }
    } else {
        CommandData::Invalid
    }
}

/// Whether `w` is exactly the verb `PING`.
fn is_ping(w: &Vec<u8>) -> (r: bool)
    ensures
        r == (w@ == ping_verb()),
{
    let r = w.len() == 4 && w[0] == 80u8 && w[1] == 73u8 && w[2] == 78u8 && w[3] == 71u8;
    proof {
        assert(ping_verb().len() == 4);
        assert(ping_verb()[0] == 80u8);
        assert(ping_verb()[1] == 73u8);
        assert(ping_verb()[2] == 78u8);
        assert(ping_verb()[3] == 71u8);
        if r {
            assert(w@ =~= ping_verb());
        }
    }
    r
}

/// Interpret one decoded bulk string as a command.
pub fn interpret(element: &BulkElement) -> (c: Command)
    ensures
        c@ == interpret_spec(element.content@),
{
    let ghost ts_spec = tokens(element.content@);
    let ts = tokenize(&element.content);
    proof {
        assert(views_of(ts@).len() == ts@.len());
    }
    if ts.len() == 0 {
        return Command::Invalid;
    }
    proof {
        assert(views_of(ts@)[0] == ts@[0]@);
    }
    if !is_ping(&ts[0]) {
        return Command::Invalid;
    }
    let joined = join_from(&ts, 1);
    let arg = trim_nul_ends(&joined);
    proof {
        assert(views_of(ts@).skip(1) =~~= ts_spec.drop_first());
        assert(arg@ == ping_argument(element.content@));
    }
    if arg.len() == 0 {
        Command::Ping { argument: Option::None }
    } else {
        Command::Ping { argument: Option::Some(arg) }
    }
}

} // verus!
