//! Speech regions of an audio buffer, as sample offsets with their times.

use vstd::prelude::*;

verus! {

/// A half-open stretch of samples `[start, end)`, as mathematical integers.
pub struct Span {
    pub start: int,
    pub end: int,
}

/// One detected speech region.
///
/// The offsets count samples from the start of the buffer that was segmented.
/// The times are whole milliseconds, rounded down: a region that starts at
/// `start_millis == 1250` starts 1.250 seconds into the buffer.
#[derive(Clone, Copy, Debug, PartialEq, Eq, Structural)]
pub struct SpeechSegment {
    pub start_offset: usize,
    pub end_offset: usize,
    pub start_millis: u64,
    pub end_millis: u64,
}

/// The stretches that a list of segments covers, in the same order.
pub open spec fn spans_of(segments: Seq<SpeechSegment>) -> Seq<Span> {
    segments.map_values(|segment: SpeechSegment| segment.span())
}

/// Every stretch lies within `[0, limit]` and does not end before it starts.
pub open spec fn bounded(spans: Seq<Span>, limit: int) -> bool {
    forall|k: int| 0 <= k < spans.len() ==> 0 <= (#[trigger] spans[k]).start <= spans[k].end <= limit
}

/// Each stretch ends no later than every stretch behind it starts.
pub open spec fn ordered(spans: Seq<Span>) -> bool {
    forall|i: int, j: int|
        0 <= i < j < spans.len() ==> (#[trigger] spans[i]).end <= (#[trigger] spans[j]).start
}

/// Each stretch ends strictly before every stretch behind it starts.
pub open spec fn separated(spans: Seq<Span>) -> bool {
    forall|i: int, j: int|
        0 <= i < j < spans.len() ==> (#[trigger] spans[i]).end < (#[trigger] spans[j]).start
}

/// The time of a sample offset in whole milliseconds, rounded down.
pub open spec fn millis_at(offset: int, sampling_rate: int) -> int {
    offset * 1000 / sampling_rate
}

impl SpeechSegment {
    /// The stretch of samples that this segment covers.
    pub open spec fn span(self) -> Span {
        Span { start: self.start_offset as int, end: self.end_offset as int }
    }

    /// Both times are the ones that the offsets have at `sampling_rate`.
    pub open spec fn timed_at(self, sampling_rate: int) -> bool {
        &&& self.start_millis == millis_at(self.start_offset as int, sampling_rate)
        &&& self.end_millis == millis_at(self.end_offset as int, sampling_rate)
    }

    pub fn new(start_offset: usize, end_offset: usize, start_millis: u64, end_millis: u64) -> (segment: Self)
        ensures
            segment == (SpeechSegment { start_offset, end_offset, start_millis, end_millis }),
    {
        SpeechSegment { start_offset, end_offset, start_millis, end_millis }
    }

    /// Builds a segment from its offsets and computes both times from them.
    pub fn from_offsets(start_offset: usize, end_offset: usize, sampling_rate: i32) -> (segment: Self)
        requires
            sampling_rate > 0,
            millis_at(start_offset as int, sampling_rate as int) <= u64::MAX,
            millis_at(end_offset as int, sampling_rate as int) <= u64::MAX,
        ensures
            segment.start_offset == start_offset,
            segment.end_offset == end_offset,
            segment.timed_at(sampling_rate as int),
    {
        let start_millis = calculate_millis_by_offset(start_offset, sampling_rate);
        let end_millis = calculate_millis_by_offset(end_offset, sampling_rate);
        SpeechSegment::new(start_offset, end_offset, start_millis, end_millis)
    }
}

/// The time of `offset` at `sampling_rate`, in whole milliseconds.
pub fn calculate_millis_by_offset(offset: usize, sampling_rate: i32) -> (millis: u64)
    requires
        sampling_rate > 0,
        millis_at(offset as int, sampling_rate as int) <= u64::MAX,
    ensures
        millis == millis_at(offset as int, sampling_rate as int),
{
    let scaled: u128 = (offset as u128) * 1000;
    (scaled / (sampling_rate as u128)) as u64
}

/// At a rate of a thousand samples a second or more no time exceeds its offset,
/// so every offset has a time that fits.
pub proof fn lemma_millis_bounded(offset: int, sampling_rate: int)
    requires
        0 <= offset,
        1000 <= sampling_rate,
    ensures
        0 <= millis_at(offset, sampling_rate) <= offset,
{
    assert(0 <= offset * 1000 / sampling_rate <= offset) by (nonlinear_arith)
        requires
            0 <= offset,
            1000 <= sampling_rate,
    ;
}

} // verus!
