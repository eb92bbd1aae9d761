//! Grammars as data: a parser is a value of `Grammar`, built by the
//! constructor functions at the bottom of this file and interpreted by the
//! engine. Predicates over tokens are data too, so that every grammar has a
//! meaning as a specification.

use vstd::prelude::*;

verus! {

/// A predicate over tokens, represented as data so that its meaning,
/// `pred_sat`, is a specification function.
#[derive(Debug, PartialEq, Eq)]
pub enum Pred {
    /// Holds of exactly the tokens listed.
    OneOf(Vec<u32>),
    /// Holds of tokens between the two bounds, inclusive.
    Within(u32, u32),
    /// Holds where either side holds.
    Either(Box<Pred>, Box<Pred>),
    /// Holds where the inner predicate does not.
    Negate(Box<Pred>),
}

/// Whether predicate `p` holds of token `t`.
pub open spec fn pred_sat(p: Pred, t: u32) -> bool
    decreases p,
{
    match p {
        Pred::OneOf(list) => list@.contains(t),
        Pred::Within(lo, hi) => lo <= t <= hi,
        Pred::Either(a, b) => pred_sat(*a, t) || pred_sat(*b, t),
        Pred::Negate(a) => !pred_sat(*a, t),
    }
}

/// Decides `pred_sat` on a concrete token.
pub fn pred_holds(p: &Pred, t: u32) -> (r: bool)
    ensures
        r == pred_sat(*p, t),
    decreases *p,
{
    match p {
        Pred::OneOf(list) => {
            let mut i: usize = 0;
            let mut r = false;
            while i < list.len()
                invariant
                    i <= list@.len(),
                    r == (exists|j: int| 0 <= j < i && list@[j] == t),
                decreases list@.len() - i,
            {
                if list[i] == t {
                    r = true;
                }
                i += 1;
            }
            assert(r == list@.contains(t));
            r
        },
        Pred::Within(lo, hi) => *lo <= t && t <= *hi,
        Pred::Either(a, b) => pred_holds(a, t) || pred_holds(b, t),
        Pred::Negate(a) => !pred_holds(a, t),
    }
}

/// Selects which outputs a sequencing step keeps.
#[derive(Clone, Copy, Debug, PartialEq, Eq)]
pub enum Keep {
    /// Keep both outputs as a pair.
    Both,
    /// Keep only the first output.
    Left,
    /// Keep only the second output.
    Right,
}

/// A parser, as data. Leaves consume tokens directly; the other variants
/// compose parsers. `spec_parse` in the semantics module gives each grammar
/// its meaning, and the engine executes exactly that meaning.
#[derive(Debug, PartialEq, Eq)]
pub enum Grammar {
    /// Consumes nothing and always succeeds with a unit output.
    Empty,
    /// Matches the given tokens exactly and yields the consumed slice.
    Literal(Vec<u32>),
    /// Matches the given tokens up to ASCII case and yields the consumed
    /// slice in the case the input spelt it.
    Caseless(Vec<u32>),
    /// Consumes exactly the given number of items.
    Take(usize),
    /// Consumes the longest run of consecutive items satisfying the
    /// predicate, subject to an inclusive lower bound and an optional
    /// inclusive upper bound on the run's length.
    TakeWhile(usize, Option<usize>, Pred),
    /// Consumes every item before the first occurrence of the given
    /// sub-sequence, leaving the sub-sequence itself unconsumed.
    TakeUntil(Vec<u32>),
    /// Reads two byte-valued tokens as one big-endian number.
    U16Be,
    /// Runs two parsers left to right; `Keep` selects the output.
    Then(Box<Grammar>, Box<Grammar>, Keep),
    /// Tries the first parser; on a recoverable failure, rewinds and tries
    /// the second. Committed failures and requests for more input of the
    /// first parser propagate unchanged.
    Alt(Box<Grammar>, Box<Grammar>),
    /// Runs the inner parser repeatedly, collecting the outputs, with an
    /// inclusive lower bound and an optional inclusive upper bound on the
    /// number of matches.
    Repeat(usize, Option<usize>, Box<Grammar>),
    /// Marks a point of no return: converts a recoverable failure of the
    /// inner parser into a committed one that no alternation retries past.
    Commit(Box<Grammar>),
    /// Runs the inner parser and yields the consumed input slice in place of
    /// the inner output.
    Taken(Box<Grammar>),
}

/// A parser that consumes nothing and always succeeds.
pub fn empty() -> (g: Grammar)
    ensures
        g == Grammar::Empty,
{
    Grammar::Empty
}

/// A parser matching the given tokens exactly.
pub fn literal(tokens: Vec<u32>) -> (g: Grammar)
    ensures
        g == Grammar::Literal(tokens),
{
    Grammar::Literal(tokens)
}

/// A parser matching the given tokens up to ASCII case.
pub fn caseless(tokens: Vec<u32>) -> (g: Grammar)
    ensures
        g == Grammar::Caseless(tokens),
{
    Grammar::Caseless(tokens)
}

/// A parser consuming exactly `n` items.
pub fn take(n: usize) -> (g: Grammar)
    ensures
        g == Grammar::Take(n),
{
    Grammar::Take(n)
}

/// A parser consuming a run of items satisfying `p`, at least `mn` long and,
/// when `mx` is given, at most `mx` long.
pub fn take_while(mn: usize, mx: Option<usize>, p: Pred) -> (g: Grammar)
    ensures
        g == Grammar::TakeWhile(mn, mx, p),
{
    Grammar::TakeWhile(mn, mx, p)
}

/// A parser consuming a run of items *not* satisfying `p`, with the same
/// bounds as `take_while`.
pub fn take_till(mn: usize, mx: Option<usize>, p: Pred) -> (g: Grammar)
    ensures
        g == Grammar::TakeWhile(mn, mx, Pred::Negate(Box::new(p))),
{
    Grammar::TakeWhile(mn, mx, Pred::Negate(Box::new(p)))
}

/// A parser consuming everything before the first occurrence of `needle`,
/// leaving `needle` itself unconsumed.
pub fn take_until(needle: Vec<u32>) -> (g: Grammar)
    ensures
        g == Grammar::TakeUntil(needle),
{
    Grammar::TakeUntil(needle)
}

/// A parser reading two byte-valued tokens as one big-endian number.
pub fn be_u16() -> (g: Grammar)
    ensures
        g == Grammar::U16Be,
{
    Grammar::U16Be
}

/// Runs `a` then `b`; the output is the pair of both outputs.
pub fn pair(a: Grammar, b: Grammar) -> (g: Grammar)
    ensures
        g == Grammar::Then(Box::new(a), Box::new(b), Keep::Both),
{
    Grammar::Then(Box::new(a), Box::new(b), Keep::Both)
}

/// Runs `a` then `b`; the output is `b`'s output alone.
pub fn preceded(a: Grammar, b: Grammar) -> (g: Grammar)
    ensures
        g == Grammar::Then(Box::new(a), Box::new(b), Keep::Right),
{
    Grammar::Then(Box::new(a), Box::new(b), Keep::Right)
}

/// Runs `a` then `b`; the output is `a`'s output alone.
pub fn terminated(a: Grammar, b: Grammar) -> (g: Grammar)
    ensures
        g == Grammar::Then(Box::new(a), Box::new(b), Keep::Left),
{
    Grammar::Then(Box::new(a), Box::new(b), Keep::Left)
}

/// Runs `a`, a separator, then `b`; the output pairs `a`'s and `b`'s outputs
/// and drops the separator's.
pub fn separated_pair(a: Grammar, sep: Grammar, b: Grammar) -> (g: Grammar)
    ensures
        g == Grammar::Then(
            Box::new(a),
            Box::new(Grammar::Then(Box::new(sep), Box::new(b), Keep::Right)),
            Keep::Both,
        ),
{
    let second = Grammar::Then(Box::new(sep), Box::new(b), Keep::Right);
    Grammar::Then(Box::new(a), Box::new(second), Keep::Both)
}

/// Runs an opener, `body`, then a closer; the output is `body`'s alone.
pub fn delimited(open: Grammar, body: Grammar, close: Grammar) -> (g: Grammar)
    ensures
        g == Grammar::Then(
            Box::new(open),
            Box::new(Grammar::Then(Box::new(body), Box::new(close), Keep::Left)),
            Keep::Right,
        ),
{
    let second = Grammar::Then(Box::new(body), Box::new(close), Keep::Left);
    Grammar::Then(Box::new(open), Box::new(second), Keep::Right)
}

/// Tries `a`; on a recoverable failure, rewinds and tries `b`.
pub fn alt(a: Grammar, b: Grammar) -> (g: Grammar)
    ensures
        g == Grammar::Alt(Box::new(a), Box::new(b)),
{
    Grammar::Alt(Box::new(a), Box::new(b))
}

/// Repeats `inner`, collecting its outputs, at least `mn` times and, when
/// `mx` is given, at most `mx` times.
pub fn repeat(mn: usize, mx: Option<usize>, inner: Grammar) -> (g: Grammar)
    ensures
        g == Grammar::Repeat(mn, mx, Box::new(inner)),
{
    Grammar::Repeat(mn, mx, Box::new(inner))
}

/// Marks a point of no return: a recoverable failure of `inner` becomes a
/// committed one.
pub fn cut(inner: Grammar) -> (g: Grammar)
    ensures
        g == Grammar::Commit(Box::new(inner)),
{
    Grammar::Commit(Box::new(inner))
}

/// Runs `inner` and yields the consumed input slice in place of its output.
pub fn taken(inner: Grammar) -> (g: Grammar)
    ensures
        g == Grammar::Taken(Box::new(inner)),
{
    Grammar::Taken(Box::new(inner))
}

} // verus!
