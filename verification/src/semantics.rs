//! The meaning of grammars. `spec_parse` maps a grammar, an input, an offset
//! and the input mode to the one outcome the engine must produce; every
//! contract of the executable engine is stated against it.

use vstd::prelude::*;
use vstd::math::min;
use crate::error::{Kind, Needed, ParseError};
use crate::grammar::{Grammar, Keep, Pred};
use crate::outcome::{Outcome, Value};
use crate::scan::{agree, agree_caseless, first_occurrence, scan_stop};
use crate::scan::{lemma_first_occurrence_range, lemma_scan_stop_range};

verus! {

/// A fresh failure at offset `at` with classification `kind`.
pub open spec fn fail_at(at: int, kind: Kind) -> ParseError {
    ParseError { offset: at as usize, kind, cause: None }
}

/// The failure `e` annotated with outer context, as `ParseError::append`
/// builds it.
pub open spec fn annotated(e: ParseError, at: int, kind: Kind) -> ParseError {
    ParseError { offset: at as usize, kind, cause: Some(Box::new(e)) }
}

/// How many items are left at offset `off`; zero once `off` lies past the
/// end. Only a termination measure: parses only ever stand at offsets inside
/// the input.
pub open spec fn left_over(toks: Seq<u32>, off: int) -> int {
    if off <= toks.len() {
        toks.len() - off
    } else {
        0
    }
}

/// Keeps a continuation offset inside `[off, len]`. The outcomes `spec_parse`
/// produces always lie there (`lemma_parse_in_range`), so this guard never
/// changes a result; it only makes the recursion's termination measure
/// evident.
pub open spec fn onward(mid: int, off: int, len: int) -> int {
    if off <= mid && mid <= len {
        mid
    } else {
        off
    }
}

/// The output a sequencing step keeps, given the outputs of its two sides.
pub open spec fn keep_sel(keep: Keep, va: Value, vb: Value) -> Value {
    match keep {
        Keep::Both => Value::Pair(Box::new(va), Box::new(vb)),
        Keep::Left => va,
        Keep::Right => vb,
    }
}

/// Whether a repetition that has matched `done` times has reached its upper
/// bound.
pub open spec fn reached_cap(done: int, mx: Option<usize>) -> bool {
    match mx {
        Some(m) => done >= m,
        None => false,
    }
}

/// The meaning of a literal match at `off`: compare as many items as both
/// the pattern and the buffer still have (case-folded when `ci`). A
/// disagreement there is a recoverable mismatch; agreement over the whole
/// pattern is a success that consumes it; agreement over a too-short buffer
/// asks for the exact shortfall in partial mode and is a recoverable
/// mismatch otherwise.
pub open spec fn spec_literal(toks: Seq<u32>, off: int, pat: Seq<u32>, partial: bool, ci: bool) -> Outcome {
    let have = toks.len() - off;
    let n = pat.len() as int;
    let avail = min(n, have);
    let same = if ci {
        agree_caseless(toks, off, pat, avail)
    } else {
        agree(toks, off, pat, avail)
    };
    if !same {
        Outcome::Backtrack(fail_at(off, Kind::Literal))
    } else if have >= n {
        Outcome::Success(Value::Span(off as usize, (off + n) as usize), (off + n) as usize)
    } else if partial {
        Outcome::Incomplete(Needed::Size((n - have) as usize))
    } else {
        Outcome::Backtrack(fail_at(off, Kind::Literal))
    }
}

/// The meaning of consuming exactly `n` items at `off`.
pub open spec fn spec_take(toks: Seq<u32>, off: int, n: int, partial: bool) -> Outcome {
    let have = toks.len() - off;
    if have >= n {
        Outcome::Success(Value::Span(off as usize, (off + n) as usize), (off + n) as usize)
    } else if partial {
        Outcome::Incomplete(Needed::Size((n - have) as usize))
    } else {
        Outcome::Backtrack(fail_at(off, Kind::Slice))
    }
}

/// The meaning of consuming a predicate-bounded run at `off`: scan up to the
/// upper bound (or the end of the buffer), stop at the first item the
/// predicate rejects. Running into the end of a partial buffer before the
/// upper bound is reached asks for more input, since further items could
/// extend the run; otherwise the run succeeds exactly when it is at least
/// `mn` long.
pub open spec fn spec_take_while(
    toks: Seq<u32>,
    off: int,
    partial: bool,
    mn: usize,
    mx: Option<usize>,
    p: Pred,
) -> Outcome {
    let len = toks.len() as int;
    let cap = match mx {
        Some(m) => min(off + m, len),
        None => len,
    };
    let stop = scan_stop(toks, off, cap, p);
    let got = stop - off;
    let capped = match mx {
        Some(m) => got >= m,
        None => false,
    };
    if stop == len && !capped && partial {
        Outcome::Incomplete(Needed::Size(1))
    } else if got >= mn {
        Outcome::Success(Value::Span(off as usize, stop as usize), stop as usize)
    } else {
        Outcome::Backtrack(fail_at(off, Kind::Slice))
    }
}

/// The meaning of consuming everything before the first occurrence of
/// `needle` at or after `off`, leaving `needle` itself unconsumed. With no
/// occurrence, a partial buffer asks for an unknown amount of further input
/// (more input could contain the needle); a complete one mismatches.
pub open spec fn spec_take_until(toks: Seq<u32>, off: int, needle: Seq<u32>, partial: bool) -> Outcome {
    match first_occurrence(toks, off, needle) {
        Some(at) => Outcome::Success(Value::Span(off as usize, at as usize), at as usize),
        None => if partial {
            Outcome::Incomplete(Needed::Unknown)
        } else {
            Outcome::Backtrack(fail_at(off, Kind::Slice))
        },
    }
}

/// The meaning of reading two byte-valued tokens as one big-endian number.
pub open spec fn spec_u16_be(toks: Seq<u32>, off: int, partial: bool) -> Outcome {
    let have = toks.len() - off;
    if have >= 2 {
        if toks[off] <= 255 && toks[off + 1] <= 255 {
            Outcome::Success(
                Value::Num((toks[off] * 256 + toks[off + 1]) as u32),
                (off + 2) as usize,
            )
        } else {
            Outcome::Backtrack(fail_at(off, Kind::Numeric))
        }
    } else if partial {
        Outcome::Incomplete(Needed::Size((2 - have) as usize))
    } else {
        Outcome::Backtrack(fail_at(off, Kind::Numeric))
    }
}

/// The one outcome of running grammar `g` over `toks` at offset `off`.
/// `partial` tells whether the buffer is a possibly-truncated prefix.
pub open spec fn spec_parse(g: Grammar, toks: Seq<u32>, off: int, partial: bool) -> Outcome
    decreases left_over(toks, off), g, 1int,
{
    match g {
        Grammar::Empty => Outcome::Success(Value::Unit, off as usize),
        Grammar::Literal(lit) => spec_literal(toks, off, lit@, partial, false),
        Grammar::Caseless(lit) => spec_literal(toks, off, lit@, partial, true),
        Grammar::Take(n) => spec_take(toks, off, n as int, partial),
        Grammar::TakeWhile(mn, mx, p) => spec_take_while(toks, off, partial, mn, mx, p),
        Grammar::TakeUntil(needle) => spec_take_until(toks, off, needle@, partial),
        Grammar::U16Be => spec_u16_be(toks, off, partial),
        Grammar::Then(a, b, keep) => match spec_parse(*a, toks, off, partial) {
            Outcome::Success(va, mid) => {
                let next = onward(mid as int, off, toks.len() as int);
                match spec_parse(*b, toks, next, partial) {
                    Outcome::Success(vb, end) => Outcome::Success(keep_sel(keep, va, vb), end),
                    other => other,
                }
            },
            other => other,
        },
        Grammar::Alt(a, b) => match spec_parse(*a, toks, off, partial) {
            Outcome::Backtrack(_) => spec_parse(*b, toks, off, partial),
            other => other,
        },
        Grammar::Repeat(mn, mx, inner) => spec_repeat(*inner, toks, off, partial, 0, mn, mx),
        Grammar::Commit(inner) => match spec_parse(*inner, toks, off, partial) {
            Outcome::Backtrack(e) => Outcome::Cut(e),
            other => other,
        },
        Grammar::Taken(inner) => match spec_parse(*inner, toks, off, partial) {
            Outcome::Success(_, end) => Outcome::Success(Value::Span(off as usize, end), end),
            other => other,
        },
    }
}

/// The meaning of the rest of a repetition that has already matched `done`
/// times and stands at `off`. Once the upper bound is reached the collected
/// rest is empty; otherwise one more inner match is attempted. An inner
/// recoverable failure stops the repetition: cleanly when the lower bound is
/// met, as a recoverable failure annotated with repetition context when not.
/// An inner success that consumed nothing would repeat forever and is
/// reported as a distinct recoverable failure instead. Committed failures
/// and requests for more input propagate unchanged.
pub open spec fn spec_repeat(
    inner: Grammar,
    toks: Seq<u32>,
    off: int,
    partial: bool,
    done: int,
    mn: usize,
    mx: Option<usize>,
) -> Outcome
    decreases left_over(toks, off), inner, 2int,
{
    if reached_cap(done, mx) {
        if done >= mn {
            Outcome::Success(Value::Nil, off as usize)
        } else {
            Outcome::Backtrack(fail_at(off, Kind::Repeat))
        }
    } else {
        match spec_parse(inner, toks, off, partial) {
            Outcome::Success(v, end) => {
                let next = onward(end as int, off, toks.len() as int);
                if next <= off {
                    Outcome::Backtrack(fail_at(off, Kind::Stalled))
                } else {
                    match spec_repeat(inner, toks, next, partial, done + 1, mn, mx) {
                        Outcome::Success(rest, fin) => Outcome::Success(
                            Value::Cons(Box::new(v), Box::new(rest)),
                            fin,
                        ),
                        other => other,
                    }
                }
            },
            Outcome::Backtrack(e) => {
                if done >= mn {
                    Outcome::Success(Value::Nil, off as usize)
                } else {
                    Outcome::Backtrack(annotated(e, off, Kind::Repeat))
                }
            },
            other => other,
        }
    }
}

/// Every outcome is hygienic: a success ends inside the input, between where
/// it started and the input's end; a failure reports a position inside the
/// input, at or past where the parse stood; and a request for more input
/// always names a positive amount.
pub proof fn lemma_parse_in_range(g: Grammar, toks: Seq<u32>, off: int, partial: bool)
    requires
        0 <= off <= toks.len(),
        toks.len() <= usize::MAX,
    ensures
        match spec_parse(g, toks, off, partial) {
            Outcome::Success(_, end) => off <= end <= toks.len(),
            Outcome::Incomplete(needed) => needed.wf(),
            Outcome::Backtrack(e) => off <= e.offset <= toks.len(),
            Outcome::Cut(e) => off <= e.offset <= toks.len(),
        },
    decreases left_over(toks, off), g, 1int,
{
    let len = toks.len() as int;
    match g {
        Grammar::Empty => {},
        Grammar::Literal(lit) => {
            assert(lit@.len() == lit.len());
        },
        Grammar::Caseless(lit) => {
            assert(lit@.len() == lit.len());
        },
        Grammar::Take(n) => {},
        Grammar::TakeWhile(mn, mx, p) => {
            let cap = match mx {
                Some(m) => min(off + m, len),
                None => len,
            };
            lemma_scan_stop_range(toks, off, cap, p);
        },
        Grammar::TakeUntil(needle) => {
            lemma_first_occurrence_range(toks, off, needle@);
        },
        Grammar::U16Be => {},
        Grammar::Then(a, b, keep) => {
            lemma_parse_in_range(*a, toks, off, partial);
            match spec_parse(*a, toks, off, partial) {
                Outcome::Success(va, mid) => {
                    lemma_parse_in_range(*b, toks, mid as int, partial);
                },
                _ => {},
            }
        },
        Grammar::Alt(a, b) => {
            lemma_parse_in_range(*a, toks, off, partial);
            lemma_parse_in_range(*b, toks, off, partial);
        },
        Grammar::Repeat(mn, mx, inner) => {
            lemma_repeat_in_range(*inner, toks, off, partial, 0, mn, mx);
        },
        Grammar::Commit(inner) => {
            lemma_parse_in_range(*inner, toks, off, partial);
        },
        Grammar::Taken(inner) => {
            lemma_parse_in_range(*inner, toks, off, partial);
        },
    }
}

/// As `lemma_parse_in_range`, for the rest of a repetition.
pub proof fn lemma_repeat_in_range(
    inner: Grammar,
    toks: Seq<u32>,
    off: int,
    partial: bool,
    done: int,
    mn: usize,
    mx: Option<usize>,
)
    requires
        0 <= off <= toks.len(),
        toks.len() <= usize::MAX,
    ensures
        match spec_repeat(inner, toks, off, partial, done, mn, mx) {
            Outcome::Success(_, end) => off <= end <= toks.len(),
            Outcome::Incomplete(needed) => needed.wf(),
            Outcome::Backtrack(e) => off <= e.offset <= toks.len(),
            Outcome::Cut(e) => off <= e.offset <= toks.len(),
        },
    decreases left_over(toks, off), inner, 2int,
{
    if reached_cap(done, mx) {
    } else {
        lemma_parse_in_range(inner, toks, off, partial);
        match spec_parse(inner, toks, off, partial) {
            Outcome::Success(v, end) => {
                let next = onward(end as int, off, toks.len() as int);
                if next > off {
                    lemma_repeat_in_range(inner, toks, next, partial, done + 1, mn, mx);
                }
            },
            _ => {},
        }
    }
}

} // verus!
