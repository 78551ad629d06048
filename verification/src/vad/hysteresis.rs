//! The hysteresis automaton that turns per-window activity into raw speech
//! stretches.

use vstd::prelude::*;
use crate::speech_segment::{Span, SpeechSegment, spans_of, bounded, ordered, lemma_millis_bounded};

verus! {

/// What the detector concluded about one analysis window.
///
/// `Speech` is a speech probability at or above the threshold, `Silence` one
/// below the lower threshold of the hysteresis band, `Undecided` one inside
/// the band.
#[derive(Clone, Copy, Debug, PartialEq, Eq, Structural)]
pub enum Activity {
    Speech,
    Undecided,
    Silence,
}

/// The sample counts that govern segmentation, derived from the durations
/// that a detector is configured with.
#[derive(Clone, Copy, Debug)]
pub struct VadParams {
    pub sampling_rate: i32,
    pub window_size_sample: usize,
    pub min_speech_samples: i64,
    pub speech_pad_samples: i64,
    /// `None` when speech may go on without limit.
    pub max_speech_samples: Option<i64>,
    pub min_silence_samples: i64,
    pub min_silence_samples_at_max_speech: i64,
}

/// The variables of the automaton, all in sample offsets; `0` stands for
/// "not set" in `temp_end`, `prev_end` and `next_start`.
pub struct Hysteresis {
    pub triggered: bool,
    pub is_detecting: bool,
    pub segment_start: int,
    /// Tentative onset of silence.
    pub temp_end: int,
    /// Onset of an earlier silence that lasted long enough to cut at.
    pub prev_end: int,
    /// Where speech resumed after the tentative silence.
    pub next_start: int,
}

/// The number of samples in one analysis window at a supported rate.
pub open spec fn window_size_at(sampling_rate: int) -> int {
    if sampling_rate == 16000 {
        512
    } else {
        256
    }
}

/// Each of the first `count` windows starts inside an audio buffer of
/// `audio_length` samples.
pub open spec fn windows_within(count: int, window: int, audio_length: int) -> bool {
    count == 0 || (count - 1) * window < audio_length
}

impl Hysteresis {
    pub open spec fn idle() -> Hysteresis {
        Hysteresis {
            triggered: false,
            is_detecting: false,
            segment_start: 0,
            temp_end: 0,
            prev_end: 0,
            next_start: 0,
        }
    }

    /// This state with the segment closed and the silence marks cleared.
    pub open spec fn closed(self) -> Hysteresis {
        Hysteresis {
            triggered: false,
            is_detecting: false,
            temp_end: 0,
            prev_end: 0,
            next_start: 0,
            ..self
        }
    }

    /// The offset that no stretch emitted so far ends behind.
    pub open spec fn frontier(self, t: int) -> int {
        if self.triggered {
            self.segment_start
        } else {
            t
        }
    }

    /// What holds of the automaton after the window at offset `t`, with
    /// `out` emitted so far.
    pub open spec fn consistent(self, out: Seq<Span>, t: int) -> bool {
        &&& 0 <= t
        &&& self.is_detecting == self.triggered
        &&& self.triggered ==> 0 <= self.segment_start <= t
        &&& 0 <= self.temp_end <= t
        &&& 0 <= self.prev_end <= t
        &&& 0 <= self.next_start <= t
        &&& self.temp_end != 0 ==> self.triggered && self.segment_start <= self.temp_end
        &&& self.prev_end != 0 ==> self.triggered && self.segment_start <= self.prev_end
        &&& ordered(out)
        &&& bounded(out, self.frontier(t))
    }
}

impl VadParams {
    /// The rate is a supported one and the window and the silence needed at
    /// a forced cut are the ones that belong to it.
    pub open spec fn wf(self) -> bool {
        &&& (self.sampling_rate == 8000 || self.sampling_rate == 16000)
        &&& self.window_size_sample == window_size_at(self.sampling_rate as int)
        &&& self.min_silence_samples_at_max_speech == self.sampling_rate * 98 / 1000
    }

    /// A segment of `length` samples is longer than speech may last.
    pub open spec fn exceeds_max(self, length: int) -> bool {
        match self.max_speech_samples {
            Some(limit) => length > limit,
            None => false,
        }
    }

    /// What a silent window at offset `t` does to an open segment.
    ///
    /// The first silent window marks the tentative end of the segment. Once
    /// the silence has lasted longer than a forced cut needs, its onset is
    /// kept as a place to cut at. While the silence is shorter than the
    /// shortest silence, the segment stays open. Otherwise it is closed, and
    /// it is emitted, from its start to the onset of the silence, if the
    /// window lies more than the shortest speech behind its start.
    pub open spec fn on_silence(self, st: Hysteresis, activity: Activity, t: int) -> (
        Hysteresis,
        Seq<Span>,
    ) {
        if activity == Activity::Silence && st.triggered {
            let temp_end = if st.temp_end == 0 {
                t
            } else {
                st.temp_end
            };
            let prev_end = if t - temp_end > self.min_silence_samples_at_max_speech {
                temp_end
            } else {
                st.prev_end
            };
            if t - temp_end < self.min_silence_samples {
                (Hysteresis { temp_end, prev_end, ..st }, Seq::empty())
            } else if t - st.segment_start > self.min_speech_samples {
                (st.closed(), seq![Span { start: st.segment_start, end: temp_end }])
            } else {
                (st.closed(), Seq::empty())
            }
        } else {
            (st, Seq::empty())
        }
    }

    /// One transition: the state after the window at offset `t` and the
    /// stretches that the window closes.
    ///
    /// A window of speech first clears a tentative silence, and notes where
    /// speech resumed if that is not yet known. Then one of three things
    /// happens. Speech outside a segment opens one at `t`. A segment that
    /// has grown longer than speech may last is cut: at the onset of the
    /// last long silence if there was one, the segment then going on from
    /// where speech resumed, or else at `t`, which closes it. In every
    /// other case, and after a cut at a silence, the window is looked at
    /// for silence.
    pub open spec fn step(self, st: Hysteresis, activity: Activity, t: int) -> (
        Hysteresis,
        Seq<Span>,
    ) {
        let st = if activity == Activity::Speech && st.temp_end != 0 {
            Hysteresis {
                temp_end: 0,
                next_start: if st.next_start < st.prev_end {
                    t
                } else {
                    st.next_start
                },
                ..st
            }
        } else {
            st
        };
        if activity == Activity::Speech && !st.triggered {
            (Hysteresis { triggered: true, is_detecting: true, segment_start: t, ..st }, Seq::empty())
        } else if st.triggered && self.exceeds_max(t - st.segment_start) {
            if st.prev_end != 0 {
                let cut = Span { start: st.segment_start, end: st.prev_end };
                let resumed = if st.next_start < st.prev_end {
                    st.closed()
                } else {
                    Hysteresis {
                        segment_start: st.next_start,
                        is_detecting: true,
                        temp_end: 0,
                        prev_end: 0,
                        next_start: 0,
                        ..st
                    }
                };
                let (after, more) = self.on_silence(resumed, activity, t);
                (after, seq![cut] + more)
            } else {
                (st.closed(), seq![Span { start: st.segment_start, end: t }])
            }
        } else {
            self.on_silence(st, activity, t)
        }
    }

    /// The automaton run over all of `activity`, window `i` at offset
    /// `i * window_size_sample`: the final state and the stretches emitted.
    pub open spec fn run(self, activity: Seq<Activity>) -> (Hysteresis, Seq<Span>)
        decreases activity.len(),
    {
        if activity.len() == 0 {
            (Hysteresis::idle(), Seq::empty())
        } else {
            let (st, out) = self.run(activity.drop_last());
            let (next, emitted) = self.step(
                st,
                activity.last(),
                (activity.len() - 1) * self.window_size_sample,
            );
            (next, out + emitted)
        }
    }

    /// The speech stretches of a buffer of `audio_length` samples before
    /// padding: what the run emits, and the tail that is still open at the
    /// end if it is long enough.
    pub open spec fn raw_spans(self, activity: Seq<Activity>, audio_length: int) -> Seq<Span> {
        let (st, out) = self.run(activity);
        if st.is_detecting && audio_length - st.segment_start > self.min_speech_samples {
            out.push(Span { start: st.segment_start, end: audio_length })
        } else {
            out
        }
    }

    /// A transition keeps the automaton consistent.
    pub proof fn lemma_step_consistent(
        self,
        st: Hysteresis,
        out: Seq<Span>,
        activity: Activity,
        before: int,
        t: int,
    )
        requires
            st.consistent(out, before),
            before <= t,
        ensures
            self.step(st, activity, t).0.consistent(out + self.step(st, activity, t).1, t),
    {
        let (next, emitted) = self.step(st, activity, t);
        let all = out + emitted;
        assert forall|k: int| 0 <= k < all.len() implies 0 <= (#[trigger] all[k]).start <= all[k].end
            <= next.frontier(t) by {
            if k < out.len() {
                assert(all[k] == out[k]);
            } else {
                assert(all[k] == emitted[k - out.len()]);
            }
        }
        assert forall|i: int, j: int| 0 <= i < j < all.len() implies (#[trigger] all[i]).end <= (
        #[trigger] all[j]).start by {
            if j < out.len() {
                assert(all[i] == out[i] && all[j] == out[j]);
            } else if i < out.len() {
                assert(all[i] == out[i]);
                assert(all[j] == emitted[j - out.len()]);
            } else {
                assert(all[i] == emitted[i - out.len()]);
                assert(all[j] == emitted[j - out.len()]);
            }
        }
    }

    /// After its last window the run is consistent.
    pub proof fn lemma_run_consistent(self, activity: Seq<Activity>)
        requires
            self.window_size_sample > 0,
        ensures
            self.run(activity).0.consistent(
                self.run(activity).1,
                if activity.len() == 0 {
                    0
                } else {
                    (activity.len() - 1) * self.window_size_sample
                },
            ),
        decreases activity.len(),
    {
        if activity.len() > 0 {
            let rest = activity.drop_last();
            self.lemma_run_consistent(rest);
            let (st, out) = self.run(rest);
            let before = if rest.len() == 0 {
                0
            } else {
                (rest.len() - 1) * self.window_size_sample
            };
            let t = (activity.len() - 1) * self.window_size_sample;
            assert(before <= t) by (nonlinear_arith)
                requires
                    self.window_size_sample > 0,
                    rest.len() == activity.len() - 1,
                    activity.len() > 0,
                    before == if rest.len() == 0 {
                        0
                    } else {
                        (rest.len() - 1) * self.window_size_sample
                    },
                    t == (activity.len() - 1) * self.window_size_sample,
            ;
            self.lemma_step_consistent(st, out, activity.last(), before, t);
        }
    }

    /// The raw stretches are in order, and each lies within the buffer.
    pub proof fn lemma_raw_spans_ordered(self, activity: Seq<Activity>, audio_length: int)
        requires
            self.window_size_sample > 0,
            0 <= audio_length,
            windows_within(activity.len() as int, self.window_size_sample as int, audio_length),
        ensures
            ordered(self.raw_spans(activity, audio_length)),
            bounded(self.raw_spans(activity, audio_length), audio_length),
    {
        self.lemma_run_consistent(activity);
    }
}

/// Whether `length` is greater than `limit`.
pub fn longer_than(length: usize, limit: i64) -> (longer: bool)
    ensures
        longer == (length as int > limit as int),
{
    limit < 0 || length as u64 > limit as u64
}

/// Whether `length` is less than `limit`.
pub fn shorter_than(length: usize, limit: i64) -> (shorter: bool)
    ensures
        shorter == ((length as int) < limit as int),
{
    limit > 0 && (length as u64) < limit as u64
}

impl VadParams {
    /// Whether a segment of `length` samples is longer than speech may last.
    pub fn over_max(&self, length: usize) -> (over: bool)
        ensures
            over == self.exceeds_max(length as int),
    {
        match self.max_speech_samples {
            Some(limit) => longer_than(length, limit),
            None => false,
        }
    }

    /// The segment from `start` to `end`, timed at this rate.
    pub fn segment(&self, start: usize, end: usize) -> (segment: SpeechSegment)
        requires
            self.wf(),
        ensures
            segment.span() == (Span { start: start as int, end: end as int }),
            segment.timed_at(self.sampling_rate as int),
    {
        proof {
            lemma_millis_bounded(start as int, self.sampling_rate as int);
            lemma_millis_bounded(end as int, self.sampling_rate as int);
        }
        SpeechSegment::from_offsets(start, end, self.sampling_rate)
    }

    /// Runs the automaton over the activity of the windows of a buffer of
    /// `audio_length` samples and returns the speech stretches before padding.
    pub fn detect(&self, activity: &[Activity], audio_length: usize) -> (segments: Vec<SpeechSegment>)
        requires
            self.wf(),
            windows_within(
                activity@.len() as int,
                self.window_size_sample as int,
                audio_length as int,
            ),
        ensures
            spans_of(segments@) == self.raw_spans(activity@, audio_length as int),
            forall|k: int|
                0 <= k < segments.len() ==> (#[trigger] segments[k]).timed_at(
                    self.sampling_rate as int,
                ),
    {
        let window = self.window_size_sample;
        let count = activity.len();
        let mut result: Vec<SpeechSegment> = Vec::new();
        let mut triggered = false;
        let mut is_detecting = false;
        let mut segment_start: usize = 0;
        let mut temp_end: usize = 0;
        let mut prev_end: usize = 0;
        let mut next_start: usize = 0;
        let mut i: usize = 0;
        assert(activity@.take(0) =~= Seq::<Activity>::empty());
        while i < count
            invariant
                i <= count,
                count == activity@.len(),
                self.wf(),
                window == self.window_size_sample,
                windows_within(count as int, window as int, audio_length as int),
                self.run(activity@.take(i as int)).0 == (Hysteresis {
                    triggered,
                    is_detecting,
                    segment_start: segment_start as int,
                    temp_end: temp_end as int,
                    prev_end: prev_end as int,
                    next_start: next_start as int,
                }),
                spans_of(result@) =~= self.run(activity@.take(i as int)).1,
                forall|k: int|
                    0 <= k < result.len() ==> (#[trigger] result[k]).timed_at(
                        self.sampling_rate as int,
                    ),
            decreases count - i,
        {
            let ghost seen = activity@.take(i as int);
            let ghost before: int = if i == 0 {
                0
            } else {
                (i - 1) * window
            };
            proof {
                self.lemma_run_consistent(seen);
                assert(before <= i * window <= (count - 1) * window) by (nonlinear_arith)
                    requires
                        0 <= i < count,
                        window > 0,
                        before == if i == 0 {
                            0
                        } else {
                            (i - 1) * window
                        },
                ;
                assert(activity@.take(i + 1).drop_last() =~= seen);
            }
            let t: usize = window * i;
            let (speech, silence) = match activity[i] {
                Activity::Speech => (true, false),
                Activity::Undecided => (false, false),
                Activity::Silence => (false, true),
            };
            let ghost old_spans = spans_of(result@);
            if speech && temp_end != 0 {
                temp_end = 0;
                if next_start < prev_end {
                    next_start = t;
                }
            }
            if speech && !triggered {
                triggered = true;
                is_detecting = true;
                segment_start = t;
            } else {
                if triggered && self.over_max(t - segment_start) {
                    if prev_end != 0 {
                        result.push(self.segment(segment_start, prev_end));
                        if next_start < prev_end {
                            triggered = false;
                            is_detecting = false;
                        } else {
                            segment_start = next_start;
                            is_detecting = true;
                        }
                    } else {
                        result.push(self.segment(segment_start, t));
                        triggered = false;
                        is_detecting = false;
                    }
                    prev_end = 0;
                    next_start = 0;
                    temp_end = 0;
                }
                if silence && triggered {
                    if temp_end == 0 {
                        temp_end = t;
                    }
                    if longer_than(t - temp_end, self.min_silence_samples_at_max_speech) {
                        prev_end = temp_end;
                    }
                    if !shorter_than(t - temp_end, self.min_silence_samples) {
                        if longer_than(t - segment_start, self.min_speech_samples) {
                            result.push(self.segment(segment_start, temp_end));
                        }
                        prev_end = 0;
                        next_start = 0;
                        temp_end = 0;
                        triggered = false;
                        is_detecting = false;
                    }
                }
            }
            i += 1;
            proof {
                let now = activity@.take(i as int);
                assert(now.last() == activity@[i - 1]);
                assert(spans_of(result@) =~= self.run(now).1);
            }
        }
        assert(activity@.take(count as int) =~= activity@);
        proof {
            self.lemma_run_consistent(activity@);
        }
        if is_detecting && longer_than(audio_length - segment_start, self.min_speech_samples) {
            result.push(self.segment(segment_start, audio_length));
        }
        assert(spans_of(result@) =~= self.raw_spans(activity@, audio_length as int));
        result
    }
}

} // verus!
