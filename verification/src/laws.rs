//! The engine's general laws, each proved once and for all over the
//! specification interpreter — and therefore, through `parse`'s contract,
//! of everything the engine does.

use vstd::prelude::*;
use vstd::math::min;
use crate::grammar::Grammar;
use crate::outcome::Outcome;
use crate::scan::{agree, agree_caseless, occurs_at, scan_stop};
use crate::scan::{lemma_agree_extend, lemma_first_occurrence_range, lemma_first_occurrence_value};
use crate::scan::{lemma_scan_stop_range, lemma_scan_stop_value};
use crate::semantics::{left_over, onward, reached_cap, spec_parse, spec_repeat};
use crate::semantics::lemma_parse_in_range;

verus! {

/// A complete-mode parse never asks for more input, whatever the grammar and
/// wherever it starts.
pub proof fn lemma_complete_definite(g: Grammar, toks: Seq<u32>, off: int)
    ensures
        spec_parse(g, toks, off, false).is_definite(),
    decreases left_over(toks, off), g, 1int,
{
    match g {
        Grammar::Empty => {},
        Grammar::Literal(lit) => {},
        Grammar::Caseless(lit) => {},
        Grammar::Take(n) => {},
        Grammar::TakeWhile(mn, mx, p) => {},
        Grammar::TakeUntil(needle) => {},
        Grammar::U16Be => {},
        Grammar::Then(a, b, keep) => {
            lemma_complete_definite(*a, toks, off);
            match spec_parse(*a, toks, off, false) {
                Outcome::Success(va, mid) => {
                    lemma_complete_definite(*b, toks, onward(mid as int, off, toks.len() as int));
                },
                _ => {},
            }
        },
        Grammar::Alt(a, b) => {
            lemma_complete_definite(*a, toks, off);
            lemma_complete_definite(*b, toks, off);
        },
        Grammar::Repeat(mn, mx, inner) => {
            lemma_repeat_complete_definite(*inner, toks, off, 0, mn, mx);
        },
        Grammar::Commit(inner) => {
            lemma_complete_definite(*inner, toks, off);
        },
        Grammar::Taken(inner) => {
            lemma_complete_definite(*inner, toks, off);
        },
    }
}

/// As `lemma_complete_definite`, for the rest of a repetition.
proof fn lemma_repeat_complete_definite(
    inner: Grammar,
    toks: Seq<u32>,
    off: int,
    done: int,
    mn: usize,
    mx: Option<usize>,
)
    ensures
        spec_repeat(inner, toks, off, false, done, mn, mx).is_definite(),
    decreases left_over(toks, off), inner, 2int,
{
    if !reached_cap(done, mx) {
        lemma_complete_definite(inner, toks, off);
        match spec_parse(inner, toks, off, false) {
            Outcome::Success(v, end) => {
                let next = onward(end as int, off, toks.len() as int);
                if next > off {
                    lemma_repeat_complete_definite(inner, toks, next, done + 1, mn, mx);
                }
            },
            _ => {},
        }
    }
}

/// A partial-mode parse that settles — it does not ask for more input —
/// settles on exactly what a complete-mode parse of the same buffer returns:
/// the two modes differ only in how running out of buffered input is
/// reported.
pub proof fn lemma_partial_agrees_complete(g: Grammar, toks: Seq<u32>, off: int)
    requires
        spec_parse(g, toks, off, true).is_definite(),
    ensures
        spec_parse(g, toks, off, false) == spec_parse(g, toks, off, true),
    decreases left_over(toks, off), g, 1int,
{
    match g {
        Grammar::Empty => {},
        Grammar::Literal(lit) => {},
        Grammar::Caseless(lit) => {},
        Grammar::Take(n) => {},
        Grammar::TakeWhile(mn, mx, p) => {},
        Grammar::TakeUntil(needle) => {},
        Grammar::U16Be => {},
        Grammar::Then(a, b, keep) => {
            lemma_partial_agrees_complete(*a, toks, off);
            match spec_parse(*a, toks, off, true) {
                Outcome::Success(va, mid) => {
                    lemma_partial_agrees_complete(*b, toks, onward(mid as int, off, toks.len() as int));
                },
                _ => {},
            }
        },
        Grammar::Alt(a, b) => {
            lemma_partial_agrees_complete(*a, toks, off);
            if spec_parse(*a, toks, off, true) is Backtrack {
                lemma_partial_agrees_complete(*b, toks, off);
            }
        },
        Grammar::Repeat(mn, mx, inner) => {
            lemma_repeat_partial_agrees_complete(*inner, toks, off, 0, mn, mx);
        },
        Grammar::Commit(inner) => {
            lemma_partial_agrees_complete(*inner, toks, off);
        },
        Grammar::Taken(inner) => {
            lemma_partial_agrees_complete(*inner, toks, off);
        },
    }
}

/// As `lemma_partial_agrees_complete`, for the rest of a repetition.
proof fn lemma_repeat_partial_agrees_complete(
    inner: Grammar,
    toks: Seq<u32>,
    off: int,
    done: int,
    mn: usize,
    mx: Option<usize>,
)
    requires
        spec_repeat(inner, toks, off, true, done, mn, mx).is_definite(),
    ensures
        spec_repeat(inner, toks, off, false, done, mn, mx)
            == spec_repeat(inner, toks, off, true, done, mn, mx),
    decreases left_over(toks, off), inner, 2int,
{
    if !reached_cap(done, mx) {
        lemma_partial_agrees_complete(inner, toks, off);
        match spec_parse(inner, toks, off, true) {
            Outcome::Success(v, end) => {
                let next = onward(end as int, off, toks.len() as int);
                if next > off {
                    lemma_repeat_partial_agrees_complete(inner, toks, next, done + 1, mn, mx);
                }
            },
            _ => {},
        }
    }
}

/// A partial-mode parse that settles has settled for good: appending further
/// input to the buffer never changes a definite partial-mode outcome. Only a
/// request for more input can be revised by more input.
pub proof fn lemma_extension_stable(g: Grammar, toks: Seq<u32>, more: Seq<u32>, off: int)
    requires
        0 <= off <= toks.len(),
        toks.len() <= usize::MAX,
        spec_parse(g, toks, off, true).is_definite(),
    ensures
        spec_parse(g, toks + more, off, true) == spec_parse(g, toks, off, true),
    decreases left_over(toks, off), g, 1int,
{
    let t = toks + more;
    let len1 = toks.len() as int;
    let len2 = t.len() as int;
    assert forall|i: int| 0 <= i < len1 implies #[trigger] t[i] == toks[i] by {}
    match g {
        Grammar::Empty => {},
        Grammar::Literal(lit) => {
            let n = lit@.len() as int;
            let avail1 = min(n, len1 - off);
            let avail2 = min(n, len2 - off);
            lemma_agree_extend(toks, more, off, lit@, avail1);
            if agree(toks, off, lit@, avail1) {
                if len1 - off >= n {
                    assert(avail2 == n && avail1 == n);
                } else {
                    // partial mode would ask for more input here: excluded
                    assert(false);
                }
            } else {
                assert(!agree(t, off, lit@, avail2)) by {
                    if agree(t, off, lit@, avail2) {
                        assert forall|i: int| 0 <= i < avail1 implies #[trigger] t[off + i] == lit@[i] by {}
                        assert(agree(t, off, lit@, avail1));
                    }
                }
            }
        },
        Grammar::Caseless(lit) => {
            let n = lit@.len() as int;
            let avail1 = min(n, len1 - off);
            let avail2 = min(n, len2 - off);
            lemma_agree_extend(toks, more, off, lit@, avail1);
            if agree_caseless(toks, off, lit@, avail1) {
                if len1 - off >= n {
                    assert(avail2 == n && avail1 == n);
                } else {
                    assert(false);
                }
            } else {
                assert(!agree_caseless(t, off, lit@, avail2)) by {
                    if agree_caseless(t, off, lit@, avail2) {
                        assert forall|i: int| 0 <= i < avail1 implies #[trigger] crate::scan::fold_token(
                            t[off + i],
                        ) == crate::scan::fold_token(lit@[i]) by {}
                        assert(agree_caseless(t, off, lit@, avail1));
                    }
                }
            }
        },
        Grammar::Take(n) => {},
        Grammar::TakeWhile(mn, mx, p) => {
            let cap1 = match mx {
                Some(m) => min(off + m, len1),
                None => len1,
            };
            let cap2 = match mx {
                Some(m) => min(off + m, len2),
                None => len2,
            };
            let stop1 = scan_stop(toks, off, cap1, p);
            lemma_scan_stop_range(toks, off, cap1, p);
            assert forall|k: int| off <= k < stop1 implies #[trigger] crate::grammar::pred_sat(p, t[k]) by {}
            let capped1 = match mx {
                Some(m) => stop1 - off >= m,
                None => false,
            };
            if capped1 {
                lemma_scan_stop_value(t, off, cap2, p, stop1);
            } else {
                // the scan stopped at a rejecting item strictly inside the
                // original buffer, or the outcome would have been a request
                // for more input
                assert(stop1 < len1);
                assert(stop1 < cap1);
                lemma_scan_stop_value(t, off, cap2, p, stop1);
            }
        },
        Grammar::TakeUntil(needle) => {
            lemma_first_occurrence_range(toks, off, needle@);
            match crate::scan::first_occurrence(toks, off, needle@) {
                Some(at) => {
                    let n = needle@.len() as int;
                    lemma_agree_extend(toks, more, at, needle@, n);
                    assert(occurs_at(t, at, needle@));
                    assert forall|i: int| off <= i < at implies !#[trigger] occurs_at(t, i, needle@) by {
                        if occurs_at(t, i, needle@) {
                            lemma_agree_extend(toks, more, i, needle@, n);
                            assert(occurs_at(toks, i, needle@));
                        }
                    }
                    lemma_first_occurrence_value(t, off, needle@, at);
                },
                None => {},
            }
        },
        Grammar::U16Be => {},
        Grammar::Then(a, b, keep) => {
            lemma_extension_stable(*a, toks, more, off);
            match spec_parse(*a, toks, off, true) {
                Outcome::Success(va, mid) => {
                    lemma_parse_in_range(*a, toks, off, true);
                    assert(onward(mid as int, off, len1) == mid as int);
                    assert(onward(mid as int, off, len2) == mid as int);
                    lemma_extension_stable(*b, toks, more, mid as int);
                },
                _ => {},
            }
        },
        Grammar::Alt(a, b) => {
            lemma_extension_stable(*a, toks, more, off);
            if spec_parse(*a, toks, off, true) is Backtrack {
                lemma_extension_stable(*b, toks, more, off);
            }
        },
        Grammar::Repeat(mn, mx, inner) => {
            lemma_repeat_extension_stable(*inner, toks, more, off, 0, mn, mx);
        },
        Grammar::Commit(inner) => {
            lemma_extension_stable(*inner, toks, more, off);
        },
        Grammar::Taken(inner) => {
            lemma_extension_stable(*inner, toks, more, off);
        },
    }
}

/// As `lemma_extension_stable`, for the rest of a repetition.
proof fn lemma_repeat_extension_stable(
    inner: Grammar,
    toks: Seq<u32>,
    more: Seq<u32>,
    off: int,
    done: int,
    mn: usize,
    mx: Option<usize>,
)
    requires
        0 <= off <= toks.len(),
        toks.len() <= usize::MAX,
        spec_repeat(inner, toks, off, true, done, mn, mx).is_definite(),
    ensures
        spec_repeat(inner, toks + more, off, true, done, mn, mx)
            == spec_repeat(inner, toks, off, true, done, mn, mx),
    decreases left_over(toks, off), inner, 2int,
{
    let len1 = toks.len() as int;
    let len2 = (toks + more).len() as int;
    if !reached_cap(done, mx) {
        lemma_extension_stable(inner, toks, more, off);
        match spec_parse(inner, toks, off, true) {
            Outcome::Success(v, end) => {
                lemma_parse_in_range(inner, toks, off, true);
                assert(onward(end as int, off, len1) == end as int);
                assert(onward(end as int, off, len2) == end as int);
                if end as int > off {
                    lemma_repeat_extension_stable(inner, toks, more, end as int, done + 1, mn, mx);
                }
            },
            _ => {},
        }
    }
}

/// Re-parse consistency. A partial-mode parse of a prefix either asks for
/// more input, or its outcome is final: parsing any extension of that prefix
/// in complete mode — or in partial mode, by `lemma_extension_stable` —
/// returns the very same outcome. A caller may therefore re-run a grammar
/// from the start of the buffer whenever input arrives and trust every
/// definite answer along the way.
pub proof fn lemma_reparse_consistent(g: Grammar, toks: Seq<u32>, more: Seq<u32>)
    requires
        toks.len() <= usize::MAX,
        spec_parse(g, toks, 0, true).is_definite(),
    ensures
        spec_parse(g, toks + more, 0, false) == spec_parse(g, toks, 0, true),
{
    lemma_extension_stable(g, toks, more, 0);
    lemma_partial_agrees_complete(g, toks + more, 0);
}

/// Alternation tries its branches in declaration order: whenever the first
/// branch settles — it succeeds, commits, or asks for more input — the
/// alternation is exactly the first branch, whatever the second would have
/// produced.
pub proof fn lemma_alt_first_decides(a: Grammar, b: Grammar, toks: Seq<u32>, off: int, partial: bool)
    requires
        !(spec_parse(a, toks, off, partial) is Backtrack),
    ensures
        spec_parse(Grammar::Alt(Box::new(a), Box::new(b)), toks, off, partial)
            == spec_parse(a, toks, off, partial),
{
}

/// A committed failure in the first branch of an alternation stops the whole
/// alternation: no later branch is attempted, even one that would match.
pub proof fn lemma_alt_cut_stops(a: Grammar, b: Grammar, toks: Seq<u32>, off: int, partial: bool)
    requires
        spec_parse(a, toks, off, partial) is Cut,
    ensures
        spec_parse(Grammar::Alt(Box::new(a), Box::new(b)), toks, off, partial)
            == spec_parse(a, toks, off, partial),
{
}

/// Only a recoverable failure of the first branch lets an alternation try
/// the second, and then the alternation is exactly the second branch run
/// from the same spot.
pub proof fn lemma_alt_next_on_backtrack(a: Grammar, b: Grammar, toks: Seq<u32>, off: int, partial: bool)
    requires
        spec_parse(a, toks, off, partial) is Backtrack,
    ensures
        spec_parse(Grammar::Alt(Box::new(a), Box::new(b)), toks, off, partial)
            == spec_parse(b, toks, off, partial),
{
}

/// A repetition bounded by `mn` and `mx` succeeds only with a number of
/// matches between the bounds, inclusive; in particular, fewer than `mn`
/// matches is never a success.
pub proof fn lemma_repeat_bounds(
    mn: usize,
    mx: Option<usize>,
    inner: Grammar,
    toks: Seq<u32>,
    off: int,
    partial: bool,
)
    ensures
        match spec_parse(Grammar::Repeat(mn, mx, Box::new(inner)), toks, off, partial) {
            Outcome::Success(v, _) => {
                &&& mn <= v.list_len()
                &&& match mx {
                    Some(m) => v.list_len() <= m,
                    None => true,
                }
            },
            _ => true,
        },
{
    lemma_repeat_bounds_rest(inner, toks, off, partial, 0, mn, mx);
}

/// As `lemma_repeat_bounds`, for the rest of a repetition that has already
/// matched `done` times.
proof fn lemma_repeat_bounds_rest(
    inner: Grammar,
    toks: Seq<u32>,
    off: int,
    partial: bool,
    done: int,
    mn: usize,
    mx: Option<usize>,
)
    requires
        0 <= done,
        match mx {
            Some(m) => done <= m,
            None => true,
        },
    ensures
        match spec_repeat(inner, toks, off, partial, done, mn, mx) {
            Outcome::Success(l, _) => {
                &&& mn <= done + l.list_len()
                &&& match mx {
                    Some(m) => done + l.list_len() <= m,
                    None => true,
                }
            },
            _ => true,
        },
    decreases left_over(toks, off), inner, 2int,
{
    if !reached_cap(done, mx) {
        match spec_parse(inner, toks, off, partial) {
            Outcome::Success(v, end) => {
                let next = onward(end as int, off, toks.len() as int);
                if next > off {
                    lemma_repeat_bounds_rest(inner, toks, next, partial, done + 1, mn, mx);
                }
            },
            _ => {},
        }
    }
}

} // verus!
