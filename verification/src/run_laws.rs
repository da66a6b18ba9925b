//! Laws on the runs that a text with highlights is shaped in, whatever the highlights.
use crate::inline::{plain_run, runs_of, runs_up_to, styled_up_to};
use std::ops::Range;
use vstd::prelude::*;

verus! {

/// Where the highlight before the `k`-th one ends, or the start of the text.
pub open spec fn end_before<H>(highlights: Seq<(Range<usize>, H)>, k: int) -> int {
    if k <= 0 {
        0
    } else {
        highlights[k - 1].0.end as int
    }
}

/// Whether there is text between the end of the highlight before the `k`-th one and the
/// start of that one.
pub open spec fn has_gap<H>(highlights: Seq<(Range<usize>, H)>, k: int) -> bool {
    end_before(highlights, k) < highlights[k].0.start
}

/// How many of the first `n` highlights follow a gap.
pub open spec fn gaps<H>(highlights: Seq<(Range<usize>, H)>, n: int) -> int
    decreases n,
{
    if n <= 0 {
        0
    } else {
        gaps(highlights, n - 1) + if has_gap(highlights, n - 1) {
            1int
        } else {
            0
        }
    }
}

proof fn lemma_run_at<H>(highlights: Seq<(Range<usize>, H)>, n: int, k: int)
    requires
        0 <= n <= highlights.len() <= usize::MAX,
    ensures
        gaps(highlights, n) >= 0,
        runs_up_to(highlights, n).len() == n + gaps(highlights, n),
        0 <= k < n ==> ({
            let at = k + gaps(highlights, k + 1);
            let run = runs_up_to(highlights, n)[at];
            let range = highlights[k].0;
            &&& 0 <= at < runs_up_to(highlights, n).len()
            &&& run.highlight == Some(k as usize)
            &&& range.start < range.end ==> run.len == range.end - range.start
            &&& range.end <= range.start ==> run.len == 0
            &&& has_gap(highlights, k) ==> {
                let gap = runs_up_to(highlights, n)[at - 1];
                at > 0 && gap.highlight is None && gap.len == range.start - end_before(
                    highlights,
                    k,
                )
            }
        }),
    decreases n,
{
    if n > 0 {
        lemma_run_at(highlights, n - 1, k);
        let before = runs_up_to(highlights, n - 1);
        let range = highlights[n - 1].0;
        let gap = plain_run(styled_up_to(highlights, n - 1), range.start as int);
        assert(runs_up_to(highlights, n).len() == before.len() + gap.len() + 1);
        if 0 <= k < n - 1 {
            let at = k + gaps(highlights, k + 1);
            assert(runs_up_to(highlights, n)[at] == before[at]);
            if has_gap(highlights, k) {
                assert(runs_up_to(highlights, n)[at - 1] == before[at - 1]);
            }
        }
    }
}

/// Every highlight gets one run of its own, in the order of the highlights, with the
/// number of bytes that it covers. A gap before it gets a run without highlight that fills
/// it, and so does what is left of the text after the last highlight. There are no other
/// runs.
pub proof fn law_run_for_each_highlight<H>(highlights: Seq<(Range<usize>, H)>, len: int, k: int)
    requires
        0 <= k < highlights.len() <= usize::MAX,
        0 <= len <= usize::MAX,
    ensures
        ({
            let runs = runs_of(highlights, len);
            let at = k + gaps(highlights, k + 1);
            let range = highlights[k].0;
            let n = highlights.len() as int;
            let end = end_before(highlights, n);
            &&& 0 <= at < runs.len()
            &&& runs[at].highlight == Some(k as usize)
            &&& range.start < range.end ==> runs[at].len == range.end - range.start
            &&& range.end <= range.start ==> runs[at].len == 0
            &&& has_gap(highlights, k) ==> at > 0 && runs[at - 1].highlight is None && runs[at
                - 1].len == range.start - end_before(highlights, k)
            &&& end < len ==> runs.len() == n + gaps(highlights, n) + 1
                && runs.last().highlight is None && runs.last().len == len - end
            &&& len <= end ==> runs.len() == n + gaps(highlights, n)
        }),
{
    let n = highlights.len() as int;
    lemma_run_at(highlights, n, k);
    let at = k + gaps(highlights, k + 1);
    let runs = runs_of(highlights, len);
    assert(runs[at] == runs_up_to(highlights, n)[at]);
    if has_gap(highlights, k) {
        assert(runs[at - 1] == runs_up_to(highlights, n)[at - 1]);
    }
}

/// A text without highlights is one run, or none if it is empty.
pub proof fn law_runs_without_highlights<H>(len: int)
    requires
        0 <= len <= usize::MAX,
    ensures
        ({
            let runs = runs_of(Seq::<(Range<usize>, H)>::empty(), len);
            &&& len == 0 ==> runs.len() == 0
            &&& len > 0 ==> runs.len() == 1 && runs[0].highlight is None && runs[0].len == len
        }),
{
}

} // verus!
