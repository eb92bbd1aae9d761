//! A position-tracking, non-owning view over token input, with cheap
//! checkpoints for backtracking. The cursor never outlives or copies the
//! buffer it borrows; restoring a checkpoint exactly undoes any advancement
//! made since it was taken.

use vstd::prelude::*;
use vstd::slice::slice_index_get;
use vstd::slice::slice_subrange;
use crate::error::Needed;
use crate::scan::first_occurrence;

verus! {

/// The token sequence of a byte buffer: each byte, widened to a token.
pub fn tokens_of_bytes(bytes: &[u8]) -> (r: Vec<u32>)
    ensures
        r@.len() == bytes@.len(),
        forall|i: int| 0 <= i < bytes@.len() ==> r@[i] == bytes@[i] as u32,
{
    let mut out: Vec<u32> = Vec::new();
    let mut i: usize = 0;
    while i < bytes.len()
        invariant
            i <= bytes@.len(),
            out@.len() == i,
            forall|j: int| 0 <= j < out@.len() ==> out@[j] == bytes@[j] as u32,
        decreases bytes@.len() - i,
    {
        let b = *slice_index_get(bytes, i);
        out.push(b as u32);
        i += 1;
    }
    out
}

/// The token sequence of a string slice: each character — not each storage
/// byte — is one token, so multi-byte characters count as single items.
pub fn tokens_of_str(s: &str) -> (r: Vec<u32>)
    ensures
        r@.len() == s@.len(),
        forall|i: int| 0 <= i < s@.len() ==> r@[i] == s@[i] as u32,
{
    let mut out: Vec<u32> = Vec::new();
    for c in it: s.chars()
        invariant
            it.seq() == s@,
            out@.len() == it.index(),
            forall|j: int| 0 <= j < out@.len() ==> out@[j] == it.seq()[j] as u32,
    {
        out.push(c as u32);
    }
    out
}

/// A cursor over a token buffer: the buffer, the current offset, and whether
/// the buffer is a possibly-truncated prefix of a stream (partial mode) or
/// the complete input.
pub struct Cursor<'a> {
    toks: &'a [u32],
    off: usize,
    partial: bool,
}

/// An immutable snapshot of a cursor's position, restored in constant time.
#[derive(Clone, Copy, Debug, PartialEq, Eq)]
pub struct Checkpoint {
    at: usize,
}

impl Checkpoint {
    /// The saved offset.
    pub closed spec fn pos(self) -> int {
        self.at as int
    }

    /// The saved offset, in items from the start of the input.
    pub fn position(&self) -> (r: usize)
        ensures
            r == self.pos(),
    {
        self.at
    }
}

impl<'a> Cursor<'a> {
    /// The whole underlying input.
    pub closed spec fn input(self) -> Seq<u32> {
        self.toks@
    }

    /// The current offset, in items from the start of the input.
    pub closed spec fn pos(self) -> int {
        self.off as int
    }

    /// Whether running out of buffered items is a request for more input
    /// (partial mode) rather than a hard mismatch.
    pub closed spec fn streaming(self) -> bool {
        self.partial
    }

    /// The offset never passes the end of the input, and the input is a real
    /// buffer, so its length fits the machine.
    pub open spec fn wf(self) -> bool {
        0 <= self.pos() <= self.input().len() && self.input().len() <= usize::MAX
    }

    /// A cursor over a complete buffer: no further input will ever arrive.
    pub fn new_complete(toks: &'a [u32]) -> (r: Cursor<'a>)
        ensures
            r.wf(),
            r.input() == toks@,
            r.pos() == 0,
            !r.streaming(),
    {
        let total = toks.len();
        Cursor { toks, off: 0, partial: false }
    }

    /// A cursor over a possibly-truncated prefix: running out of items is
    /// reported as a request for more input.
    pub fn new_partial(toks: &'a [u32]) -> (r: Cursor<'a>)
        ensures
            r.wf(),
            r.input() == toks@,
            r.pos() == 0,
            r.streaming(),
    {
        let total = toks.len();
        Cursor { toks, off: 0, partial: true }
    }

    /// Declares the buffer complete: exhausting it becomes a hard failure.
    pub fn into_complete(self) -> (r: Cursor<'a>)
        requires
            self.wf(),
        ensures
            r.wf(),
            r.input() == self.input(),
            r.pos() == self.pos(),
            !r.streaming(),
    {
        Cursor { toks: self.toks, off: self.off, partial: false }
    }

    /// The number of items not yet consumed.
    pub fn remaining(&self) -> (r: usize)
        requires
            self.wf(),
        ensures
            r == self.input().len() - self.pos(),
    {
        self.toks.len() - self.off
    }

    /// Whether every item has been consumed.
    pub fn is_empty(&self) -> (r: bool)
        requires
            self.wf(),
        ensures
            r == (self.pos() == self.input().len()),
    {
        self.off == self.toks.len()
    }

    /// The current offset, in items from the start of the input.
    pub fn position(&self) -> (r: usize)
        ensures
            r == self.pos(),
    {
        self.off
    }

    /// Whether the cursor is in partial mode.
    pub fn in_partial_mode(&self) -> (r: bool)
        ensures
            r == self.streaming(),
    {
        self.partial
    }

    /// The not-yet-consumed item `i` places past the current offset.
    pub fn token(&self, i: usize) -> (r: u32)
        requires
            self.wf(),
            self.pos() + i < self.input().len(),
        ensures
            r == self.input()[self.pos() + i],
    {
        let total = self.toks.len();
        *slice_index_get(self.toks, self.off + i)
    }

    /// A snapshot of the current position, for later rollback.
    pub fn checkpoint(&self) -> (r: Checkpoint)
        ensures
            r.pos() == self.pos(),
    {
        Checkpoint { at: self.off }
    }

    /// Restores a snapshot: the position becomes exactly the saved one, and
    /// nothing else about the cursor changes.
    pub fn reset(&mut self, to: Checkpoint)
        requires
            old(self).wf(),
            to.pos() <= old(self).input().len(),
        ensures
            final(self).wf(),
            final(self).input() == old(self).input(),
            final(self).streaming() == old(self).streaming(),
            final(self).pos() == to.pos(),
    {
        self.off = to.at;
    }

    /// Consumes the next `n` items, irreversibly except via `reset`.
    pub fn advance(&mut self, n: usize)
        requires
            old(self).wf(),
            old(self).pos() + n <= old(self).input().len(),
        ensures
            final(self).wf(),
            final(self).input() == old(self).input(),
            final(self).streaming() == old(self).streaming(),
            final(self).pos() == old(self).pos() + n,
    {
        let total = self.toks.len();
        self.off = self.off + n;
    }

    /// The next `n` items without consuming them, or the exact shortfall
    /// when fewer than `n` items remain.
    pub fn peek_slice(&self, n: usize) -> (r: Result<&'a [u32], Needed>)
        requires
            self.wf(),
        ensures
            match r {
                Ok(s) => {
                    &&& self.pos() + n <= self.input().len()
                    &&& s@ == self.input().subrange(self.pos(), self.pos() + n)
                },
                Err(needed) => {
                    &&& self.pos() + n > self.input().len()
                    &&& needed == Needed::Size((self.pos() + n - self.input().len()) as usize)
                },
            },
    {
        let rem = self.toks.len() - self.off;
        if n <= rem {
            Ok(slice_subrange(self.toks, self.off, self.off + n))
        } else {
            Err(Needed::Size(n - rem))
        }
    }

    /// The absolute position of the first occurrence of `needle` at or after
    /// the current offset, without consuming anything.
    pub fn find(&self, needle: &[u32]) -> (r: Option<usize>)
        requires
            self.wf(),
        ensures
            match r {
                Some(at) => first_occurrence(self.input(), self.pos(), needle@) == Some(at as int),
                None => first_occurrence(self.input(), self.pos(), needle@) is None,
            },
    {
        let n = needle.len();
        let total = self.toks.len();
        let mut at: usize = self.off;
        loop
            invariant
                self.wf(),
                n == needle@.len(),
                total == self.input().len(),
                self.pos() <= at,
                first_occurrence(self.input(), self.pos(), needle@)
                    == first_occurrence(self.input(), at as int, needle@),
            decreases total - at,
        {
            if at > total || n > total - at {
                return None;
            }
            let mut i: usize = 0;
            let mut hit = true;
            while i < n
                invariant
                    self.wf(),
                    n == needle@.len(),
                    at + n <= total,
                    total == self.input().len(),
                    i <= n,
                    hit == crate::scan::agree(self.input(), at as int, needle@, i as int),
                decreases n - i,
            {
                if *slice_index_get(self.toks, at + i) != *slice_index_get(needle, i) {
                    hit = false;
                }
                i += 1;
            }
            if hit {
                return Some(at);
            }
            at += 1;
        }
    }
}

} // verus!
