//! The merge pass: segments are sorted by their start and those that touch
//! or overlap are joined.

use vstd::prelude::*;
use crate::speech_segment::{Span, SpeechSegment, spans_of, separated, bounded};
use crate::vad::hysteresis::VadParams;

verus! {

/// Starts never decrease along the sequence.
pub open spec fn starts_ascend(spans: Seq<Span>) -> bool {
    forall|i: int, j: int|
        0 <= i < j < spans.len() ==> (#[trigger] spans[i]).start <= (#[trigger] spans[j]).start
}

/// Where a stretch that starts at `start` goes into `spans`: behind the last
/// stretch that starts no later.
pub open spec fn insert_position(spans: Seq<Span>, start: int) -> int
    decreases spans.len(),
{
    if spans.len() == 0 {
        0
    } else if spans.last().start <= start {
        spans.len() as int
    } else {
        insert_position(spans.drop_last(), start)
    }
}

/// The stretches sorted by their start; stretches with the same start keep
/// their order.
pub open spec fn sorted_by_start(spans: Seq<Span>) -> Seq<Span>
    decreases spans.len(),
{
    if spans.len() == 0 {
        spans
    } else {
        let rest = sorted_by_start(spans.drop_last());
        rest.insert(insert_position(rest, spans.last().start), spans.last())
    }
}

/// One sweep from left to right: a stretch that starts behind the end of the
/// stretch joined so far opens a new one, any other extends it.
pub open spec fn swept(spans: Seq<Span>) -> Seq<Span>
    decreases spans.len(),
{
    if spans.len() <= 1 {
        spans
    } else {
        let done = swept(spans.drop_last());
        let current = done.last();
        let next = spans.last();
        if next.start > current.end {
            done.push(next)
        } else {
            done.drop_last().push(
                Span {
                    start: current.start,
                    end: if next.end > current.end {
                        next.end
                    } else {
                        current.end
                    },
                },
            )
        }
    }
}

/// The merge pass: sort by start, then sweep.
pub open spec fn merged(spans: Seq<Span>) -> Seq<Span> {
    swept(sorted_by_start(spans))
}

/// A stretch goes in somewhere between the front and the back.
pub proof fn lemma_insert_position_in_range(spans: Seq<Span>, start: int)
    ensures
        0 <= insert_position(spans, start) <= spans.len(),
    decreases spans.len(),
{
    if spans.len() > 0 && spans.last().start > start {
        lemma_insert_position_in_range(spans.drop_last(), start);
    }
}

/// A sweep leaves at least one stretch of a sequence that has one.
pub proof fn lemma_swept_nonempty(spans: Seq<Span>)
    ensures
        spans.len() > 0 ==> 0 < swept(spans).len() <= spans.len(),
        spans.len() == 0 ==> swept(spans).len() == 0,
    decreases spans.len(),
{
    if spans.len() > 1 {
        lemma_swept_nonempty(spans.drop_last());
    }
}

/// Every stretch in front of the insert position starts no later than
/// `start`, every stretch from it on starts later.
pub proof fn lemma_insert_position_splits(spans: Seq<Span>, start: int)
    requires
        starts_ascend(spans),
    ensures
        0 <= insert_position(spans, start) <= spans.len(),
        forall|i: int|
            0 <= i < insert_position(spans, start) ==> (#[trigger] spans[i]).start <= start,
        forall|i: int|
            insert_position(spans, start) <= i < spans.len() ==> (#[trigger] spans[i]).start
                > start,
    decreases spans.len(),
{
    if spans.len() > 0 {
        let last = spans.len() - 1;
        if spans.last().start <= start {
            assert forall|i: int| 0 <= i < spans.len() implies (#[trigger] spans[i]).start
                <= start by {
                if i < last {
                    assert(spans[i].start <= spans[last].start);
                }
            }
        } else {
            let front = spans.drop_last();
            assert forall|i: int, j: int| 0 <= i < j < front.len() implies (#[trigger] front[i]).start
                <= (#[trigger] front[j]).start by {
                assert(spans[i].start <= spans[j].start);
            }
            lemma_insert_position_splits(front, start);
            let p = insert_position(front, start);
            assert forall|i: int| 0 <= i < p implies (#[trigger] spans[i]).start <= start by {
                assert(spans[i] == front[i]);
            }
            assert forall|i: int| p <= i < spans.len() implies (#[trigger] spans[i]).start
                > start by {
                if i < last {
                    assert(spans[i] == front[i]);
                }
            }
        }
    }
}

/// The sorted stretches ascend by their start.
pub proof fn lemma_sorted_ascends(spans: Seq<Span>)
    ensures
        starts_ascend(sorted_by_start(spans)),
        sorted_by_start(spans).len() == spans.len(),
    decreases spans.len(),
{
    if spans.len() > 0 {
        let rest = sorted_by_start(spans.drop_last());
        let item = spans.last();
        lemma_sorted_ascends(spans.drop_last());
        lemma_insert_position_splits(rest, item.start);
        let p = insert_position(rest, item.start);
        let all = rest.insert(p, item);
        assert forall|i: int, j: int| 0 <= i < j < all.len() implies (#[trigger] all[i]).start <= (
        #[trigger] all[j]).start by {
            if j < p {
                assert(all[i] == rest[i] && all[j] == rest[j]);
            } else if j == p {
                assert(all[i] == rest[i]);
            } else if i < p {
                assert(all[i] == rest[i] && all[j] == rest[j - 1]);
            } else if i == p {
                assert(all[j] == rest[j - 1]);
            } else {
                assert(all[i] == rest[i - 1] && all[j] == rest[j - 1]);
            }
        }
    }
}

/// Sorting moves no stretch out of `[0, limit]`.
pub proof fn lemma_sorted_bounded(spans: Seq<Span>, limit: int)
    requires
        bounded(spans, limit),
    ensures
        bounded(sorted_by_start(spans), limit),
    decreases spans.len(),
{
    if spans.len() > 0 {
        let front = spans.drop_last();
        assert forall|k: int| 0 <= k < front.len() implies 0 <= (#[trigger] front[k]).start
            <= front[k].end <= limit by {
            assert(front[k] == spans[k]);
        }
        lemma_sorted_bounded(front, limit);
        let rest = sorted_by_start(front);
        let item = spans.last();
        assert(item == spans[spans.len() - 1]);
        lemma_insert_position_in_range(rest, item.start);
        let p = insert_position(rest, item.start);
        let all = rest.insert(p, item);
        assert forall|k: int| 0 <= k < all.len() implies 0 <= (#[trigger] all[k]).start
            <= all[k].end <= limit by {
            if k < p {
                assert(all[k] == rest[k]);
            } else if k > p {
                assert(all[k] == rest[k - 1]);
            }
        }
    }
}

/// Stretches that ascend by their start are sorted already.
pub proof fn lemma_sorted_fixes_ascending(spans: Seq<Span>)
    requires
        starts_ascend(spans),
    ensures
        sorted_by_start(spans) == spans,
    decreases spans.len(),
{
    if spans.len() > 0 {
        let front = spans.drop_last();
        assert forall|i: int, j: int| 0 <= i < j < front.len() implies (#[trigger] front[i]).start
            <= (#[trigger] front[j]).start by {
            assert(spans[i].start <= spans[j].start);
        }
        lemma_sorted_fixes_ascending(front);
        if front.len() > 0 {
            assert(front.last() == spans[spans.len() - 2]);
            assert(spans[spans.len() - 2].start <= spans[spans.len() - 1].start);
        }
        assert(front.insert(front.len() as int, spans.last()) =~= spans);
    }
}

/// A sweep over stretches that ascend by their start leaves stretches that
/// ascend by their start and lie strictly apart, the last of which starts no
/// later than the last that was swept.
pub proof fn lemma_swept_separated(spans: Seq<Span>)
    requires
        starts_ascend(spans),
    ensures
        starts_ascend(swept(spans)),
        separated(swept(spans)),
        spans.len() > 0 ==> swept(spans).len() > 0 && swept(spans).last().start
            <= spans.last().start,
    decreases spans.len(),
{
    if spans.len() > 1 {
        let front = spans.drop_last();
        assert forall|i: int, j: int| 0 <= i < j < front.len() implies (#[trigger] front[i]).start
            <= (#[trigger] front[j]).start by {
            assert(spans[i].start <= spans[j].start);
        }
        lemma_swept_separated(front);
        let done = swept(front);
        let current = done.last();
        let next = spans.last();
        let last = done.len() - 1;
        assert(front.last() == spans[spans.len() - 2]);
        assert(spans[spans.len() - 2].start <= spans[spans.len() - 1].start);
        let all = swept(spans);
        if next.start > current.end {
            assert forall|i: int, j: int| 0 <= i < j < all.len() implies (#[trigger] all[i]).end < (
            #[trigger] all[j]).start && all[i].start <= all[j].start by {
                if j < done.len() {
                    assert(all[i] == done[i] && all[j] == done[j]);
                } else {
                    assert(all[i] == done[i]);
                    if i < last {
                        assert(done[i].end < done[last].start);
                        assert(done[i].start <= done[last].start);
                    }
                }
            }
        } else {
            assert forall|i: int, j: int| 0 <= i < j < all.len() implies (#[trigger] all[i]).end < (
            #[trigger] all[j]).start && all[i].start <= all[j].start by {
                assert(all[i] == done[i]);
                if j < last {
                    assert(all[j] == done[j]);
                } else {
                    assert(done[i].end < done[last].start);
                    assert(done[i].start <= done[last].start);
                }
            }
        }
    }
}

/// A sweep moves no stretch out of `[0, limit]`.
pub proof fn lemma_swept_bounded(spans: Seq<Span>, limit: int)
    requires
        bounded(spans, limit),
    ensures
        bounded(swept(spans), limit),
    decreases spans.len(),
{
    if spans.len() > 1 {
        let front = spans.drop_last();
        assert forall|k: int| 0 <= k < front.len() implies 0 <= (#[trigger] front[k]).start
            <= front[k].end <= limit by {
            assert(front[k] == spans[k]);
        }
        lemma_swept_bounded(front, limit);
        lemma_swept_nonempty(front);
        let done = swept(front);
        let all = swept(spans);
        assert(spans.last() == spans[spans.len() - 1]);
        assert(done.last() == done[done.len() - 1]);
        assert forall|k: int| 0 <= k < all.len() implies 0 <= (#[trigger] all[k]).start
            <= all[k].end <= limit by {
            if k < done.len() - 1 {
                assert(all[k] == done[k]);
            }
        }
    }
}

/// A sweep changes nothing where the stretches lie strictly apart.
pub proof fn lemma_swept_fixes_separated(spans: Seq<Span>)
    requires
        separated(spans),
    ensures
        swept(spans) == spans,
    decreases spans.len(),
{
    if spans.len() > 1 {
        let front = spans.drop_last();
        assert forall|i: int, j: int| 0 <= i < j < front.len() implies (#[trigger] front[i]).end < (
        #[trigger] front[j]).start by {
            assert(spans[i].end < spans[j].start);
        }
        lemma_swept_fixes_separated(front);
        assert(front.last() == spans[spans.len() - 2]);
        assert(spans[spans.len() - 2].end < spans[spans.len() - 1].start);
        assert(front.push(spans.last()) =~= spans);
    }
}

/// Every stretch is more than `bound` samples long.
pub open spec fn each_longer_than(spans: Seq<Span>, bound: int) -> bool {
    forall|k: int| 0 <= k < spans.len() ==> (#[trigger] spans[k]).end - spans[k].start > bound
}

/// Sorting shortens no stretch.
pub proof fn lemma_sorted_longer(spans: Seq<Span>, bound: int)
    requires
        each_longer_than(spans, bound),
    ensures
        each_longer_than(sorted_by_start(spans), bound),
    decreases spans.len(),
{
    if spans.len() > 0 {
        let front = spans.drop_last();
        assert forall|k: int| 0 <= k < front.len() implies (#[trigger] front[k]).end
            - front[k].start > bound by {
            assert(front[k] == spans[k]);
        }
        lemma_sorted_longer(front, bound);
        let rest = sorted_by_start(front);
        let item = spans.last();
        assert(item == spans[spans.len() - 1]);
        lemma_insert_position_in_range(rest, item.start);
        let p = insert_position(rest, item.start);
        let all = rest.insert(p, item);
        assert forall|k: int| 0 <= k < all.len() implies (#[trigger] all[k]).end - all[k].start
            > bound by {
            if k < p {
                assert(all[k] == rest[k]);
            } else if k > p {
                assert(all[k] == rest[k - 1]);
            }
        }
    }
}

/// A sweep shortens no stretch: what it joins is at least as long as the
/// first of the stretches joined.
pub proof fn lemma_swept_longer(spans: Seq<Span>, bound: int)
    requires
        each_longer_than(spans, bound),
    ensures
        each_longer_than(swept(spans), bound),
    decreases spans.len(),
{
    if spans.len() > 1 {
        let front = spans.drop_last();
        assert forall|k: int| 0 <= k < front.len() implies (#[trigger] front[k]).end
            - front[k].start > bound by {
            assert(front[k] == spans[k]);
        }
        lemma_swept_longer(front, bound);
        lemma_swept_nonempty(front);
        let done = swept(front);
        let all = swept(spans);
        assert(spans.last() == spans[spans.len() - 1]);
        assert(done.last() == done[done.len() - 1]);
        assert forall|k: int| 0 <= k < all.len() implies (#[trigger] all[k]).end - all[k].start
            > bound by {
            if k < done.len() - 1 {
                assert(all[k] == done[k]);
            }
        }
    }
}

/// Orders the segments by their start; segments with the same start keep
/// their order.
pub fn sort_by_start(segments: &Vec<SpeechSegment>) -> (sorted: Vec<SpeechSegment>)
    ensures
        spans_of(sorted@) == sorted_by_start(spans_of(segments@)),
        sorted.len() == segments.len(),
{
    let count = segments.len();
    let ghost spans = spans_of(segments@);
    let mut sorted: Vec<SpeechSegment> = Vec::new();
    let mut j: usize = 0;
    assert(spans.take(0) =~= Seq::<Span>::empty());
    while j < count
        invariant
            j <= count,
            count == segments.len(),
            spans == spans_of(segments@),
            sorted.len() == j,
            spans_of(sorted@) =~= sorted_by_start(spans.take(j as int)),
        decreases count - j,
    {
        let item = segments[j];
        let ghost placed = spans_of(sorted@);
        let ghost key = item.start_offset as int;
        let mut p: usize = sorted.len();
        assert(placed.take(p as int) =~= placed);
        while p > 0 && sorted[p - 1].start_offset > item.start_offset
            invariant
                p <= sorted.len(),
                placed == spans_of(sorted@),
                key == item.start_offset as int,
                insert_position(placed, key) == insert_position(placed.take(p as int), key),
            decreases p,
        {
            assert(placed.take(p as int).last() == sorted@[p - 1].span());
            assert(placed.take(p as int).drop_last() =~= placed.take(p - 1));
            p -= 1;
        }
        proof {
            if p > 0 {
                assert(placed.take(p as int).last() == sorted@[p - 1].span());
            }
            assert(insert_position(placed, key) == p);
            assert(spans.take(j + 1).drop_last() =~= spans.take(j as int));
            assert(spans.take(j + 1).last() == item.span());
        }
        sorted.insert(p, item);
        assert(spans_of(sorted@) =~= placed.insert(p as int, item.span()));
        j += 1;
    }
    assert(spans.take(count as int) =~= spans);
    sorted
}

impl VadParams {
    /// Merges segments that touch or overlap. A list of fewer than two
    /// segments comes back as it is; the segments of a longer list are timed
    /// anew.
    pub fn merge_segments(&self, segments: Vec<SpeechSegment>) -> (result: Vec<SpeechSegment>)
        requires
            self.wf(),
        ensures
            spans_of(result@) == merged(spans_of(segments@)),
            segments.len() <= 1 ==> result@ == segments@,
            segments.len() >= 2 ==> forall|k: int|
                0 <= k < result.len() ==> (#[trigger] result[k]).timed_at(self.sampling_rate as int),
    {
        if segments.len() <= 1 {
            proof {
                let spans = spans_of(segments@);
                if spans.len() == 1 {
                    assert(sorted_by_start(spans.drop_last()) =~= Seq::<Span>::empty());
                    assert(sorted_by_start(spans) =~= spans);
                }
                assert(merged(spans) =~= spans);
            }
            return segments;
        }
        let sorted = sort_by_start(&segments);
        let ghost spans = spans_of(sorted@);
        let mut result: Vec<SpeechSegment> = Vec::new();
        let mut left = sorted[0].start_offset;
        let mut right = sorted[0].end_offset;
        let mut k: usize = 1;
        assert(spans.take(1) =~= seq![sorted@[0].span()]);
        while k < sorted.len()
            invariant
                1 <= k <= sorted.len(),
                self.wf(),
                spans == spans_of(sorted@),
                spans_of(result@).push(Span { start: left as int, end: right as int }) =~= swept(
                    spans.take(k as int),
                ),
                forall|m: int|
                    0 <= m < result.len() ==> (#[trigger] result[m]).timed_at(
                        self.sampling_rate as int,
                    ),
            decreases sorted.len() - k,
        {
            let segment = sorted[k];
            proof {
                assert(spans.take(k + 1).drop_last() =~= spans.take(k as int));
                assert(spans.take(k + 1).last() == segment.span());
                let done = swept(spans.take(k as int));
                assert(done.last() == (Span { start: left as int, end: right as int }));
                assert(done.drop_last() =~= spans_of(result@));
            }
            if segment.start_offset > right {
                result.push(self.segment(left, right));
                left = segment.start_offset;
                right = segment.end_offset;
            } else if segment.end_offset > right {
                right = segment.end_offset;
            }
            k += 1;
        }
        assert(spans.take(sorted.len() as int) =~= spans);
        result.push(self.segment(left, right));
        assert(spans_of(result@) =~= swept(spans));
        result
    }
}

} // verus!
