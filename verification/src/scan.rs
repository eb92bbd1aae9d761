//! Specification helpers over token sequences: prefix agreement, ASCII case
//! folding, predicate runs, and first occurrence of a sub-sequence. The
//! semantics of the token-consuming leaves are stated with these.

use vstd::prelude::*;
use crate::grammar::Pred;
use crate::grammar::pred_sat;

verus! {

/// ASCII case folding of one token: upper-case letters map to lower case,
/// every other token is unchanged.
pub open spec fn fold_token(t: u32) -> u32 {
    if 65 <= t <= 90 {
        (t + 32) as u32
    } else {
        t
    }
}

/// The first `k` items of `pat` agree with `hay` starting at `at`.
pub open spec fn agree(hay: Seq<u32>, at: int, pat: Seq<u32>, k: int) -> bool {
    forall|i: int| 0 <= i < k ==> hay[at + i] == pat[i]
}

/// The first `k` items of `pat` agree with `hay` starting at `at`, up to
/// ASCII case.
pub open spec fn agree_caseless(hay: Seq<u32>, at: int, pat: Seq<u32>, k: int) -> bool {
    forall|i: int| 0 <= i < k ==> fold_token(hay[at + i]) == fold_token(pat[i])
}

/// The position in `[from, end)` of the first item of `hay` that does not
/// satisfy `p`; `end` when every item in that range satisfies it.
pub open spec fn scan_stop(hay: Seq<u32>, from: int, end: int, p: Pred) -> int
    decreases end - from,
{
    if from >= end {
        end
    } else if !pred_sat(p, hay[from]) {
        from
    } else {
        scan_stop(hay, from + 1, end, p)
    }
}

/// `pat` occurs in `hay` at position `at`.
pub open spec fn occurs_at(hay: Seq<u32>, at: int, pat: Seq<u32>) -> bool {
    &&& 0 <= at
    &&& at + pat.len() <= hay.len()
    &&& agree(hay, at, pat, pat.len() as int)
}

/// The first position at or after `from` where `needle` occurs in `hay`,
/// if there is one.
pub open spec fn first_occurrence(hay: Seq<u32>, from: int, needle: Seq<u32>) -> Option<int>
    decreases hay.len() - from,
{
    if from + needle.len() > hay.len() {
        None
    } else if occurs_at(hay, from, needle) {
        Some(from)
    } else {
        first_occurrence(hay, from + 1, needle)
    }
}

/// Basic shape of `scan_stop`: the stop lies in `[from, end]` (when the range
/// is ordered), everything before it satisfies the predicate, and the stop is
/// either `end` or the first non-satisfying position.
pub proof fn lemma_scan_stop_range(hay: Seq<u32>, from: int, end: int, p: Pred)
    requires
        from <= end,
    ensures
        from <= scan_stop(hay, from, end, p) <= end,
        forall|i: int| from <= i < scan_stop(hay, from, end, p) ==> pred_sat(p, hay[i]),
        scan_stop(hay, from, end, p) < end ==> !pred_sat(p, hay[scan_stop(hay, from, end, p)]),
    decreases end - from,
{
    if from >= end {
    } else if !pred_sat(p, hay[from]) {
    } else {
        lemma_scan_stop_range(hay, from + 1, end, p);
    }
}

/// Appending input does not change what the first `k` items of a pattern
/// agree with, as long as the compared region lies inside the original input.
pub proof fn lemma_agree_extend(hay: Seq<u32>, more: Seq<u32>, at: int, pat: Seq<u32>, k: int)
    requires
        0 <= at,
        at + k <= hay.len(),
    ensures
        agree(hay + more, at, pat, k) == agree(hay, at, pat, k),
        agree_caseless(hay + more, at, pat, k) == agree_caseless(hay, at, pat, k),
{
    assert forall|i: int| 0 <= i < k implies #[trigger] (hay + more)[at + i] == hay[at + i] by {}
}

/// Pins `first_occurrence` down from search evidence: an occurrence at `at`
/// with none earlier (at or after `from`) is the first.
pub proof fn lemma_first_occurrence_value(hay: Seq<u32>, from: int, needle: Seq<u32>, at: int)
    requires
        from <= at,
        occurs_at(hay, at, needle),
        forall|i: int| from <= i < at ==> !occurs_at(hay, i, needle),
    ensures
        first_occurrence(hay, from, needle) == Some(at),
    decreases at - from,
{
    if from < at {
        lemma_first_occurrence_value(hay, from + 1, needle, at);
    }
}

/// Pins `scan_stop` down from scan evidence: if everything in `[from, stop)`
/// satisfies `p`, and `stop` is `end` or a non-satisfying position, then
/// `stop` is where the scan stops.
pub proof fn lemma_scan_stop_value(hay: Seq<u32>, from: int, end: int, p: Pred, stop: int)
    requires
        from <= stop <= end,
        forall|i: int| from <= i < stop ==> pred_sat(p, hay[i]),
        stop < end ==> !pred_sat(p, hay[stop]),
    ensures
        scan_stop(hay, from, end, p) == stop,
    decreases stop - from,
{
    if from < stop {
        lemma_scan_stop_value(hay, from + 1, end, p, stop);
    }
}

/// Basic shape of `first_occurrence`: a hit is a real occurrence and the
/// first one at or after `from`; a miss means there is no occurrence at or
/// after `from`.
pub proof fn lemma_first_occurrence_range(hay: Seq<u32>, from: int, needle: Seq<u32>)
    ensures
        match first_occurrence(hay, from, needle) {
            Some(at) => {
                &&& from <= at
                &&& occurs_at(hay, at, needle)
                &&& forall|i: int| from <= i < at ==> !occurs_at(hay, i, needle)
            },
            None => forall|i: int| from <= i ==> !occurs_at(hay, i, needle),
        },
    decreases hay.len() - from,
{
    if from + needle.len() > hay.len() {
        assert forall|i: int| from <= i implies !occurs_at(hay, i, needle) by {
            if occurs_at(hay, i, needle) {
                assert(i + needle.len() <= hay.len());
            }
        }
    } else if occurs_at(hay, from, needle) {
    } else {
        lemma_first_occurrence_range(hay, from + 1, needle);
    }
}

} // verus!
