//! Padding: each speech stretch is widened into the silence around it.

use vstd::prelude::*;
use crate::speech_segment::{Span, SpeechSegment, spans_of, bounded, ordered};
use crate::vad::hysteresis::VadParams;

verus! {

/// The silence between stretch `i` and the stretch before it, in samples.
pub open spec fn gap_before(spans: Seq<Span>, i: int) -> int
    recommends
        0 < i < spans.len(),
{
    spans[i].start - spans[i - 1].end
}

impl VadParams {
    /// How far a start moves back where the silence before it leaves room:
    /// the padding, or nothing if the padding is negative.
    pub open spec fn start_pad(self) -> int {
        if self.speech_pad_samples > 0 {
            self.speech_pad_samples as int
        } else {
            0
        }
    }

    /// The start of stretch `i` after padding.
    ///
    /// The first start moves back by the padding. A later one shares the gap
    /// to the stretch before it equally where the gap is narrower than two
    /// paddings, and moves back by the padding otherwise. No start moves
    /// below zero.
    pub open spec fn padded_start(self, spans: Seq<Span>, i: int) -> int {
        let reach = if i > 0 && gap_before(spans, i) < 2 * self.speech_pad_samples {
            gap_before(spans, i) / 2
        } else {
            self.start_pad()
        };
        if reach > spans[i].start {
            0
        } else {
            spans[i].start - reach
        }
    }

    /// The end of stretch `i` after padding.
    ///
    /// An end shares the gap to the stretch behind it equally where the gap
    /// is narrower than two paddings. Otherwise, and for the last stretch, it
    /// moves on by the padding but not beyond the audio, nor below zero.
    pub open spec fn padded_end(self, spans: Seq<Span>, i: int, audio_length: int) -> int {
        let moved = spans[i].end + self.speech_pad_samples;
        if i + 1 < spans.len() && gap_before(spans, i + 1) < 2 * self.speech_pad_samples {
            spans[i].end + gap_before(spans, i + 1) / 2
        } else if moved > audio_length {
            audio_length
        } else if moved < 0 {
            0
        } else {
            moved
        }
    }

    /// The stretches after padding.
    pub open spec fn padded(self, spans: Seq<Span>, audio_length: int) -> Seq<Span> {
        Seq::new(
            spans.len(),
            |i: int|
                Span {
                    start: self.padded_start(spans, i),
                    end: self.padded_end(spans, i, audio_length),
                },
        )
    }

    /// With a padding that is not negative, padding keeps stretches that are
    /// in order and within the audio in order and within the audio, and
    /// shortens none.
    pub proof fn lemma_padded_ordered(self, spans: Seq<Span>, audio_length: int)
        requires
            self.speech_pad_samples >= 0,
            ordered(spans),
            bounded(spans, audio_length),
        ensures
            ordered(self.padded(spans, audio_length)),
            bounded(self.padded(spans, audio_length), audio_length),
            forall|k: int|
                0 <= k < spans.len() ==> (#[trigger] self.padded(spans, audio_length)[k]).start
                    <= spans[k].start && spans[k].end <= self.padded(spans, audio_length)[k].end,
    {
        let padded = self.padded(spans, audio_length);
        assert forall|k: int| 0 <= k < padded.len() implies 0 <= (#[trigger] padded[k]).start
            <= spans[k].start && spans[k].end <= padded[k].end <= audio_length && (k + 1
            < padded.len() ==> padded[k].end <= padded[k + 1].start) by {
            assert(0 <= spans[k].start <= spans[k].end <= audio_length);
            if k > 0 {
                assert(spans[k - 1].end <= spans[k].start);
            }
            if k + 1 < spans.len() {
                assert(spans[k].end <= spans[k + 1].start);
                assert(0 <= spans[k + 1].start <= spans[k + 1].end <= audio_length);
            }
        }
        assert forall|i: int, j: int| 0 <= i < j < padded.len() implies (#[trigger] padded[i]).end <= (
        #[trigger] padded[j]).start by {
            assert(padded[i].end <= padded[i + 1].start);
            if i + 1 < j {
                assert(spans[i + 1].end <= spans[j].start);
                assert(padded[i + 1].start <= spans[i + 1].start);
                assert(spans[i + 1].start <= spans[i + 1].end);
                assert(spans[j - 1].end <= spans[j].start);
                assert(padded[j - 1].end <= padded[j].start);
                assert(spans[i + 1].end <= spans[j - 1].end) by {
                    if i + 1 < j - 1 {
                        assert(spans[i + 1].end <= spans[j - 1].start);
                        assert(spans[j - 1].start <= spans[j - 1].end);
                    }
                }
                assert(spans[j - 1].end <= padded[j - 1].end);
            }
        }
    }

    /// Pads the segments of a buffer of `audio_length` samples and times the
    /// padded segments anew.
    pub fn pad_segments(&self, segments: &Vec<SpeechSegment>, audio_length: usize) -> (padded: Vec<
        SpeechSegment,
    >)
        requires
            self.wf(),
            ordered(spans_of(segments@)),
            bounded(spans_of(segments@), audio_length as int),
        ensures
            spans_of(padded@) == self.padded(spans_of(segments@), audio_length as int),
            forall|k: int|
                0 <= k < padded.len() ==> (#[trigger] padded[k]).timed_at(self.sampling_rate as int),
    {
        let pad = self.speech_pad_samples;
        let count = segments.len();
        let ghost spans = spans_of(segments@);
        let mut result: Vec<SpeechSegment> = Vec::new();
        let mut i: usize = 0;
        while i < count
            invariant
                i <= count,
                count == segments.len(),
                self.wf(),
                pad == self.speech_pad_samples,
                spans == spans_of(segments@),
                ordered(spans),
                bounded(spans, audio_length as int),
                result.len() == i,
                forall|k: int|
                    0 <= k < i ==> (#[trigger] result[k]).span() == self.padded(
                        spans,
                        audio_length as int,
                    )[k],
                forall|k: int|
                    0 <= k < result.len() ==> (#[trigger] result[k]).timed_at(
                        self.sampling_rate as int,
                    ),
            decreases count - i,
        {
            let start = segments[i].start_offset;
            let end = segments[i].end_offset;
            proof {
                assert(spans[i as int] == segments@[i as int].span());
                assert(0 <= spans[i as int].start <= spans[i as int].end <= audio_length);
                if i > 0 {
                    assert(spans[i - 1] == segments@[i - 1].span());
                    assert(spans[i - 1].end <= spans[i as int].start);
                }
                if i + 1 < count {
                    assert(spans[i + 1] == segments@[i + 1].span());
                    assert(spans[i as int].end <= spans[i + 1].start);
                }
            }
            let mut shared: Option<usize> = None;
            if i > 0 {
                let gap = start - segments[i - 1].end_offset;
                if (gap as i128) < 2 * (pad as i128) {
                    shared = Some(gap / 2);
                }
            }
            let new_start = match shared {
                Some(half) => start - half,
                None => if pad <= 0 {
                    start
                } else if pad as u64 >= start as u64 {
                    0
                } else {
                    start - (pad as usize)
                },
            };
            let mut shared_end: Option<usize> = None;
            if i + 1 < count {
                let gap = segments[i + 1].start_offset - end;
                if (gap as i128) < 2 * (pad as i128) {
                    shared_end = Some(end + gap / 2);
                }
            }
            let new_end = match shared_end {
                Some(moved) => moved,
                None => {
                    let moved: i128 = end as i128 + pad as i128;
                    if moved > audio_length as i128 {
                        audio_length
                    } else if moved < 0 {
                        0
                    } else {
                        moved as usize
                    }
                },
            };
            result.push(self.segment(new_start, new_end));
            i += 1;
        }
        assert(spans_of(result@) =~= self.padded(spans, audio_length as int));
        result
    }
}

} // verus!
