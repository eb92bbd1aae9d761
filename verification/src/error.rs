//! The failure side of a parse: how much more input would be needed, what
//! class of mismatch occurred, and where.

use vstd::prelude::*;

verus! {

/// How much more input a failed attempt requires before it could succeed.
#[derive(Clone, Copy, Debug, PartialEq, Eq)]
pub enum Needed {
    /// An unknown positive amount of further input.
    Unknown,
    /// Exactly this many further items; never zero.
    Size(usize),
}

impl Needed {
    /// A known shortfall is always at least one item.
    pub open spec fn wf(self) -> bool {
        match self {
            Needed::Unknown => true,
            Needed::Size(n) => n >= 1,
        }
    }
}

/// The classification tag of a failure.
#[derive(Clone, Copy, Debug, PartialEq, Eq)]
pub enum Kind {
    /// A literal (possibly case-insensitive) did not match.
    Literal,
    /// A slice request could not be met: too few items remained, or too few
    /// consecutive items satisfied the predicate, or a sub-sequence search
    /// found no occurrence.
    Slice,
    /// A numeric read found too few items or a token outside the byte range.
    Numeric,
    /// A repetition stopped before its lower bound was met.
    Repeat,
    /// An inner parser of a repetition succeeded without consuming anything,
    /// which would repeat forever; reported instead of looping.
    Stalled,
}

/// A failure payload: the offset into the input at which the failing parser
/// started, its classification, and optionally the nested failure it wraps.
///
/// The `cause` chain supports layered diagnostics: an outer combinator may
/// annotate an inner failure with its own position and kind without
/// discarding the inner one.
#[derive(Debug, PartialEq, Eq)]
pub struct ParseError {
    /// Offset into the original input, in items.
    pub offset: usize,
    /// The classification of this failure.
    pub kind: Kind,
    /// The wrapped inner failure, if this error annotates one.
    pub cause: Option<Box<ParseError>>,
}

impl ParseError {
    /// A fresh error at `offset` with classification `kind` and no cause.
    pub fn fresh(offset: usize, kind: Kind) -> (r: ParseError)
        ensures
            r == (ParseError { offset, kind, cause: None }),
    {
        ParseError { offset, kind, cause: None }
    }

    /// Attaches outer context to this error: the result carries the new
    /// position and kind and keeps `self` as its nested cause.
    pub fn append(self, offset: usize, kind: Kind) -> (r: ParseError)
        ensures
            r == (ParseError { offset, kind, cause: Some(Box::new(self)) }),
    {
        ParseError { offset, kind, cause: Some(Box::new(self)) }
    }

    /// The offset at which the failing parser started.
    pub fn position(&self) -> (r: usize)
        ensures
            r == self.offset,
    {
        self.offset
    }

    /// The classification of this failure.
    pub fn classification(&self) -> (r: Kind)
        ensures
            r == self.kind,
    {
        self.kind
    }

    /// The nested failure this error annotates, if any.
    pub fn nested(&self) -> (r: Option<&ParseError>)
        ensures
            match r {
                Some(e) => match self.cause {
                    Some(c) => *e == *c,
                    None => false,
                },
                None => self.cause is None,
            },
    {
        match &self.cause {
            Some(b) => Some(&**b),
            None => None,
        }
    }
}

} // verus!
