//! The executable interpreter. `parse` runs a grammar over a cursor and is
//! proved to return exactly the outcome `spec_parse` assigns, with the
//! backtracking discipline on the cursor: a success leaves the cursor at the
//! outcome's end offset, a recoverable failure or a request for more input
//! leaves it exactly where it started, and only a committed failure may leave
//! it mid-advance.

use vstd::prelude::*;
use crate::cursor::Cursor;
use crate::error::{Kind, Needed, ParseError};
use crate::grammar::{Grammar, Keep, Pred, pred_holds, pred_sat};
use crate::outcome::{Outcome, Value};
use crate::scan::{agree, agree_caseless, fold_token, scan_stop};
use crate::scan::{lemma_first_occurrence_range, lemma_scan_stop_value};
use crate::semantics::{keep_sel, left_over, onward, spec_literal, spec_parse, spec_repeat};
use crate::semantics::{spec_take, spec_take_until, spec_take_while, spec_u16_be};
use crate::semantics::{lemma_parse_in_range};

verus! {

/// ASCII case folding of one token, as `fold_token` describes it.
fn fold_ascii(t: u32) -> (r: u32)
    ensures
        r == fold_token(t),
{
    if 65 <= t && t <= 90 {
        t + 32
    } else {
        t
    }
}

/// How many items past the cursor's offset the next `limit` items satisfy
/// `p`, scanning left to right and stopping at the first rejection.
fn scan_ahead(c: &Cursor, limit: usize, p: &Pred) -> (i: usize)
    requires
        c.wf(),
        c.pos() + limit <= c.input().len(),
    ensures
        c.pos() + i == scan_stop(c.input(), c.pos(), c.pos() + limit, *p),
        i <= limit,
{
    let mut i: usize = 0;
    loop
        invariant
            c.wf(),
            i <= limit,
            c.pos() + limit <= c.input().len(),
            forall|k: int| c.pos() <= k < c.pos() + i ==> pred_sat(*p, c.input()[k]),
        decreases limit - i,
    {
        if i == limit {
            proof {
                lemma_scan_stop_value(c.input(), c.pos(), c.pos() + limit, *p, c.pos() + i);
            }
            return i;
        }
        if !pred_holds(p, c.token(i)) {
            proof {
                lemma_scan_stop_value(c.input(), c.pos(), c.pos() + limit, *p, c.pos() + i);
            }
            return i;
        }
        i += 1;
    }
}

/// Whether the next `avail` items agree with the first `avail` items of
/// `lit`, case-folded when `ci`.
fn matches_ahead(c: &Cursor, lit: &Vec<u32>, avail: usize, ci: bool) -> (same: bool)
    requires
        c.wf(),
        c.pos() + avail <= c.input().len(),
        avail <= lit@.len(),
    ensures
        same == if ci {
            agree_caseless(c.input(), c.pos(), lit@, avail as int)
        } else {
            agree(c.input(), c.pos(), lit@, avail as int)
        },
{
    let mut i: usize = 0;
    loop
        invariant
            c.wf(),
            i <= avail,
            c.pos() + avail <= c.input().len(),
            avail <= lit@.len(),
            ci ==> agree_caseless(c.input(), c.pos(), lit@, i as int),
            !ci ==> agree(c.input(), c.pos(), lit@, i as int),
        decreases avail - i,
    {
        if i == avail {
            return true;
        }
        let a = c.token(i);
        let b = lit[i];
        let hit = if ci {
            fold_ascii(a) == fold_ascii(b)
        } else {
            a == b
        };
        if !hit {
            proof {
                if ci {
                    assert(fold_token(c.input()[c.pos() + i]) != fold_token(lit@[i as int]));
                } else {
                    assert(c.input()[c.pos() + i] != lit@[i as int]);
                }
            }
            return false;
        }
        i += 1;
    }
}

/// Matches `lit` (case-folded when `ci`) at the cursor, per `spec_literal`.
fn run_literal(c: &mut Cursor, lit: &Vec<u32>, ci: bool) -> (r: Outcome)
    requires
        old(c).wf(),
    ensures
        final(c).wf(),
        final(c).input() == old(c).input(),
        final(c).streaming() == old(c).streaming(),
        r == spec_literal(old(c).input(), old(c).pos(), lit@, old(c).streaming(), ci),
        match r {
            Outcome::Success(_, end) => final(c).pos() == end,
            _ => final(c).pos() == old(c).pos(),
        },
{
    let n = lit.len();
    let rem = c.remaining();
    let avail = if n <= rem {
        n
    } else {
        rem
    };
    let same = matches_ahead(c, lit, avail, ci);
    if !same {
        Outcome::Backtrack(ParseError::fresh(c.position(), Kind::Literal))
    } else if n <= rem {
        let start = c.position();
        c.advance(n);
        Outcome::Success(Value::Span(start, start + n), start + n)
    } else if c.in_partial_mode() {
        Outcome::Incomplete(Needed::Size(n - rem))
    } else {
        Outcome::Backtrack(ParseError::fresh(c.position(), Kind::Literal))
    }
}

/// Consumes exactly `n` items, per `spec_take`.
fn run_take(c: &mut Cursor, n: usize) -> (r: Outcome)
    requires
        old(c).wf(),
    ensures
        final(c).wf(),
        final(c).input() == old(c).input(),
        final(c).streaming() == old(c).streaming(),
        r == spec_take(old(c).input(), old(c).pos(), n as int, old(c).streaming()),
        match r {
            Outcome::Success(_, end) => final(c).pos() == end,
            _ => final(c).pos() == old(c).pos(),
        },
{
    let rem = c.remaining();
    if n <= rem {
        let start = c.position();
        c.advance(n);
        Outcome::Success(Value::Span(start, start + n), start + n)
    } else if c.in_partial_mode() {
        Outcome::Incomplete(Needed::Size(n - rem))
    } else {
        Outcome::Backtrack(ParseError::fresh(c.position(), Kind::Slice))
    }
}

/// Consumes a predicate-bounded run, per `spec_take_while`.
fn run_take_while(c: &mut Cursor, mn: usize, mx: Option<usize>, p: &Pred) -> (r: Outcome)
    requires
        old(c).wf(),
    ensures
        final(c).wf(),
        final(c).input() == old(c).input(),
        final(c).streaming() == old(c).streaming(),
        r == spec_take_while(old(c).input(), old(c).pos(), old(c).streaming(), mn, mx, *p),
        match r {
            Outcome::Success(_, end) => final(c).pos() == end,
            _ => final(c).pos() == old(c).pos(),
        },
{
    let rem = c.remaining();
    let limit = match mx {
        Some(m) => if m <= rem {
            m
        } else {
            rem
        },
        None => rem,
    };
    let got = scan_ahead(c, limit, p);
    let ran_out = got == rem;
    let capped = match mx {
        Some(m) => got >= m,
        None => false,
    };
    if ran_out && !capped && c.in_partial_mode() {
        Outcome::Incomplete(Needed::Size(1))
    } else if got >= mn {
        let start = c.position();
        c.advance(got);
        Outcome::Success(Value::Span(start, start + got), start + got)
    } else {
        Outcome::Backtrack(ParseError::fresh(c.position(), Kind::Slice))
    }
}

/// Consumes everything before the first occurrence of `needle`, per
/// `spec_take_until`.
fn run_take_until(c: &mut Cursor, needle: &Vec<u32>) -> (r: Outcome)
    requires
        old(c).wf(),
    ensures
        final(c).wf(),
        final(c).input() == old(c).input(),
        final(c).streaming() == old(c).streaming(),
        r == spec_take_until(old(c).input(), old(c).pos(), needle@, old(c).streaming()),
        match r {
            Outcome::Success(_, end) => final(c).pos() == end,
            _ => final(c).pos() == old(c).pos(),
        },
{
    proof {
        lemma_first_occurrence_range(c.input(), c.pos(), needle@);
    }
    match c.find(needle.as_slice()) {
        Some(at) => {
            let start = c.position();
            c.advance(at - start);
            Outcome::Success(Value::Span(start, at), at)
        },
        None => {
            if c.in_partial_mode() {
                Outcome::Incomplete(Needed::Unknown)
            } else {
                Outcome::Backtrack(ParseError::fresh(c.position(), Kind::Slice))
            }
        },
    }
}

/// Reads two byte-valued tokens as one big-endian number, per `spec_u16_be`.
fn run_u16_be(c: &mut Cursor) -> (r: Outcome)
    requires
        old(c).wf(),
    ensures
        final(c).wf(),
        final(c).input() == old(c).input(),
        final(c).streaming() == old(c).streaming(),
        r == spec_u16_be(old(c).input(), old(c).pos(), old(c).streaming()),
        match r {
            Outcome::Success(_, end) => final(c).pos() == end,
            _ => final(c).pos() == old(c).pos(),
        },
{
    let rem = c.remaining();
    if rem >= 2 {
        let hi = c.token(0);
        let lo = c.token(1);
        if hi <= 255 && lo <= 255 {
            let start = c.position();
            c.advance(2);
            Outcome::Success(Value::Num(hi * 256 + lo), start + 2)
        } else {
            Outcome::Backtrack(ParseError::fresh(c.position(), Kind::Numeric))
        }
    } else if c.in_partial_mode() {
        Outcome::Incomplete(Needed::Size(2 - rem))
    } else {
        Outcome::Backtrack(ParseError::fresh(c.position(), Kind::Numeric))
    }
}

/// The output a sequencing step keeps, as `keep_sel` describes it.
fn keep_value(keep: Keep, va: Value, vb: Value) -> (r: Value)
    ensures
        r == keep_sel(keep, va, vb),
{
    match keep {
        Keep::Both => Value::Pair(Box::new(va), Box::new(vb)),
        Keep::Left => va,
        Keep::Right => vb,
    }
}

/// Runs grammar `g` at the cursor and returns exactly the outcome
/// `spec_parse` assigns to it. On success the cursor stands at the outcome's
/// end offset; on a recoverable failure or a request for more input it is
/// restored to where it stood before the call; after a committed failure it
/// may stand mid-advance, and no further alternative may be tried anyway.
pub fn parse(g: &Grammar, c: &mut Cursor) -> (r: Outcome)
    requires
        old(c).wf(),
    ensures
        final(c).wf(),
        final(c).input() == old(c).input(),
        final(c).streaming() == old(c).streaming(),
        r == spec_parse(*g, old(c).input(), old(c).pos(), old(c).streaming()),
        match r {
            Outcome::Success(_, end) => final(c).pos() == end,
            Outcome::Backtrack(_) => final(c).pos() == old(c).pos(),
            Outcome::Incomplete(_) => final(c).pos() == old(c).pos(),
            Outcome::Cut(_) => old(c).pos() <= final(c).pos(),
        },
    decreases left_over(c.input(), c.pos()), *g, 1int,
{
    let ghost c0 = *c;
    match g {
        Grammar::Empty => Outcome::Success(Value::Unit, c.position()),
        Grammar::Literal(lit) => run_literal(c, lit, false),
        Grammar::Caseless(lit) => run_literal(c, lit, true),
        Grammar::Take(n) => run_take(c, *n),
        Grammar::TakeWhile(mn, mx, p) => run_take_while(c, *mn, *mx, p),
        Grammar::TakeUntil(needle) => run_take_until(c, needle),
        Grammar::U16Be => run_u16_be(c),
        Grammar::Then(a, b, keep) => {
            let start = c.checkpoint();
            match parse(&**a, c) {
                Outcome::Success(va, mid) => {
                    proof {
                        lemma_parse_in_range(*(*a), c0.input(), c0.pos(), c0.streaming());
                        assert(onward(mid as int, c0.pos(), c0.input().len() as int) == mid as int);
                    }
                    match parse(&**b, c) {
                        Outcome::Success(vb, end) => Outcome::Success(keep_value(*keep, va, vb), end),
                        Outcome::Backtrack(e) => {
                            c.reset(start);
                            Outcome::Backtrack(e)
                        },
                        Outcome::Incomplete(needed) => {
                            c.reset(start);
                            Outcome::Incomplete(needed)
                        },
                        Outcome::Cut(e) => Outcome::Cut(e),
                    }
                },
                other => other,
            }
        },
        Grammar::Alt(a, b) => {
            let start = c.checkpoint();
            match parse(&**a, c) {
                Outcome::Backtrack(_) => {
                    c.reset(start);
                    parse(&**b, c)
                },
                other => other,
            }
        },
        Grammar::Repeat(mn, mx, inner) => parse_repeat(&**inner, c, 0, *mn, *mx),
        Grammar::Commit(inner) => match parse(&**inner, c) {
            Outcome::Backtrack(e) => Outcome::Cut(e),
            other => other,
        },
        Grammar::Taken(inner) => {
            let start = c.position();
            match parse(&**inner, c) {
                Outcome::Success(_, end) => Outcome::Success(Value::Span(start, end), end),
                other => other,
            }
        },
    }
}

/// Runs the rest of a repetition that has already matched `done` times, and
/// returns exactly the outcome `spec_repeat` assigns to it, with the same
/// cursor discipline as `parse`.
fn parse_repeat(inner: &Grammar, c: &mut Cursor, done: usize, mn: usize, mx: Option<usize>) -> (r: Outcome)
    requires
        old(c).wf(),
        done <= old(c).pos(),
    ensures
        final(c).wf(),
        final(c).input() == old(c).input(),
        final(c).streaming() == old(c).streaming(),
        r == spec_repeat(*inner, old(c).input(), old(c).pos(), old(c).streaming(), done as int, mn, mx),
        match r {
            Outcome::Success(_, end) => final(c).pos() == end,
            Outcome::Backtrack(_) => final(c).pos() == old(c).pos(),
            Outcome::Incomplete(_) => final(c).pos() == old(c).pos(),
            Outcome::Cut(_) => old(c).pos() <= final(c).pos(),
        },
    decreases left_over(c.input(), c.pos()), *inner, 2int,
{
    let ghost c0 = *c;
    match mx {
        Some(m) => {
            if done >= m {
                if done >= mn {
                    return Outcome::Success(Value::Nil, c.position());
                } else {
                    return Outcome::Backtrack(ParseError::fresh(c.position(), Kind::Repeat));
                }
            }
        },
        None => {},
    }
    let start = c.checkpoint();
    let start_pos = c.position();
    match parse(inner, c) {
        Outcome::Success(v, end) => {
            proof {
                lemma_parse_in_range(*inner, c0.input(), c0.pos(), c0.streaming());
                assert(onward(end as int, c0.pos(), c0.input().len() as int) == end as int);
            }
            if end <= start_pos {
                Outcome::Backtrack(ParseError::fresh(start_pos, Kind::Stalled))
            } else {
                match parse_repeat(inner, c, done + 1, mn, mx) {
                    Outcome::Success(rest, fin) => Outcome::Success(
                        Value::Cons(Box::new(v), Box::new(rest)),
                        fin,
                    ),
                    Outcome::Backtrack(e) => {
                        c.reset(start);
                        Outcome::Backtrack(e)
                    },
                    Outcome::Incomplete(needed) => {
                        c.reset(start);
                        Outcome::Incomplete(needed)
                    },
                    Outcome::Cut(e) => Outcome::Cut(e),
                }
            }
        },
        Outcome::Backtrack(e) => {
            if done >= mn {
                Outcome::Success(Value::Nil, c.position())
            } else {
                Outcome::Backtrack(e.append(c.position(), Kind::Repeat))
            }
        },
        other => other,
    }
}

/// Runs a grammar over a complete buffer, starting at its first item. The
/// outcome is always definite: complete input never yields a request for
/// more input.
pub fn run_complete(g: &Grammar, toks: &[u32]) -> (r: Outcome)
    ensures
        r == spec_parse(*g, toks@, 0, false),
        r.is_definite(),
{
    proof {
        crate::laws::lemma_complete_definite(*g, toks@, 0);
    }
    let mut c = Cursor::new_complete(toks);
    parse(g, &mut c)
}

/// Runs a grammar over a possibly-truncated prefix of a stream, starting at
/// its first item. The outcome may ask for more input; the caller then
/// appends items to the same logical buffer and re-runs the grammar on it
/// from the start.
pub fn run_partial(g: &Grammar, toks: &[u32]) -> (r: Outcome)
    ensures
        r == spec_parse(*g, toks@, 0, true),
{
    let mut c = Cursor::new_partial(toks);
    parse(g, &mut c)
}

} // verus!
