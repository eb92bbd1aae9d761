//! The result side of a parse: the values parsers produce and the four-way
//! outcome every attempt ends in.

use vstd::prelude::*;
use crate::error::Needed;
use crate::error::ParseError;

verus! {

/// The output a successful parser produces. Slices of the input are carried
/// as item offsets into the original buffer, so no storage is copied.
#[derive(Debug, PartialEq, Eq)]
pub enum Value {
    /// The output of a parser that produces nothing.
    Unit,
    /// The input items from `start` (inclusive) to `end` (exclusive), as
    /// absolute offsets into the original input.
    Span(usize, usize),
    /// A number decoded from tokens.
    Num(u32),
    /// The outputs of two sequenced parsers.
    Pair(Box<Value>, Box<Value>),
    /// An empty collection of repetition outputs.
    Nil,
    /// A collection of repetition outputs: the first, then the rest.
    Cons(Box<Value>, Box<Value>),
}

impl Value {
    /// How many outputs a repetition collected.
    pub open spec fn list_len(self) -> nat
        decreases self,
    {
        match self {
            Value::Cons(_, rest) => 1 + rest.list_len(),
            _ => 0,
        }
    }
}

/// Exactly one of these holds of every parse attempt. A recoverable failure
/// may be retried past by an alternation; a committed failure and a request
/// for more input may not.
#[derive(Debug, PartialEq, Eq)]
pub enum Outcome {
    /// The parser matched: its output, and the offset the cursor advanced to.
    Success(Value, usize),
    /// The parser did not match; a sibling alternative may be tried.
    Backtrack(ParseError),
    /// The parser committed and then failed; no sibling alternative may be
    /// tried.
    Cut(ParseError),
    /// The buffer is a truncated prefix and ran out before the parser could
    /// decide; retry with more input.
    Incomplete(Needed),
}

impl Outcome {
    /// A definite outcome settles the parse; only a request for more input
    /// does not.
    pub open spec fn is_definite(self) -> bool {
        !(self is Incomplete)
    }
}

} // verus!
