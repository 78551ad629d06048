//! The detector: its configuration, the windows it cuts a buffer into, and
//! the segmentation of a buffer whose windows have been classified.

use vstd::prelude::*;
use vstd::string::StringExecFns;
use crate::speech_segment::{Span, SpeechSegment, spans_of, bounded, separated};
use crate::vad::hysteresis::{Activity, VadParams, window_size_at, windows_within};
use crate::vad::laws::{
    lemma_merged_separated,
    lemma_no_speech_no_segments,
    lemma_segmentation_sorted_disjoint,
};
use crate::vad::merge::{merged, starts_ascend};

verus! {

pub const SAMPLING_RATE_8K: i32 = 8000;

pub const SAMPLING_RATE_16K: i32 = 16000;

/// Words in the recurrent state of the model: a tensor of shape (2, 1, 128).
pub const STATE_WORDS: usize = 256;

/// Why the detector could not go on.
#[derive(Clone, Copy, Debug, PartialEq, Eq, Structural)]
pub enum VadError {
    UnsupportedSampleRate,
    InputTooShort,
    ModelInvocationFailed,
    TensorShapeMismatch,
}

impl VadError {
    /// What the error says, in words.
    pub open spec fn text(self) -> Seq<char> {
        match self {
            VadError::UnsupportedSampleRate => "Only supports sample rates 8000 or 16000 (or multiples of 16000)"@,
            VadError::InputTooShort => "Input audio is too short"@,
            VadError::ModelInvocationFailed => "Model invocation failed"@,
            VadError::TensorShapeMismatch => "Tensor shape mismatch"@,
        }
    }

    /// What the error says, in words.
    pub fn message(&self) -> (message: String)
        ensures
            message@ == self.text(),
    {
        match self {
            VadError::UnsupportedSampleRate => String::from_str(
                "Only supports sample rates 8000 or 16000 (or multiples of 16000)",
            ),
            VadError::InputTooShort => String::from_str("Input audio is too short"),
            VadError::ModelInvocationFailed => String::from_str("Model invocation failed"),
            VadError::TensorShapeMismatch => String::from_str("Tensor shape mismatch"),
        }
    }
}

/// A stateful voice-activity detector for one audio stream.
///
/// Samples are kept as the 32-bit words that encode them; the all-zero word
/// encodes a sample of zero.
pub struct SileroVadDetector {
    pub params: VadParams,
    pub audio_length_samples: usize,
    /// The recurrent state of the model.
    pub state: Vec<u32>,
    /// The last samples of each row of the previous model input.
    pub context: Vec<Vec<u32>>,
    pub last_sr: i32,
    pub last_batch_size: usize,
}

/// The number of samples that `millis` milliseconds last at `sampling_rate`.
pub open spec fn samples_in(sampling_rate: int, millis: int) -> int {
    sampling_rate * millis / 1000
}

/// The rate is one that the detector works at.
pub open spec fn supported_rate(sampling_rate: int) -> bool {
    sampling_rate == 8000 || sampling_rate == 16000
}

/// The number of windows that a buffer of `audio_length` samples is cut
/// into, the last one filled up with zeros.
pub open spec fn window_count(audio_length: int, window: int) -> int {
    (audio_length + window - 1) / window
}

/// Window `index` of `input`: `window` samples from offset `index * window`
/// on, and zeros where the input has ended.
pub open spec fn window_of(input: Seq<u32>, index: int, window: int) -> Seq<u32> {
    Seq::new(
        window as nat,
        |j: int|
            if index * window + j < input.len() {
                input[index * window + j]
            } else {
                0u32
            },
    )
}

/// `count` words of zero.
pub open spec fn zeros(count: int) -> Seq<u32> {
    Seq::new(count as nat, |j: int| 0u32)
}

impl VadParams {
    /// These are the sample counts that follow from the given rate and
    /// durations: a duration in milliseconds lasts `rate * millis / 1000`
    /// samples, and speech may last the maximal duration less one window and
    /// two paddings.
    pub open spec fn derived_from(
        self,
        sampling_rate: i32,
        min_speech_duration_ms: i32,
        max_speech_duration_ms: Option<i32>,
        min_silence_duration_ms: i32,
        speech_pad_ms: i32,
    ) -> bool {
        &&& self.sampling_rate == sampling_rate
        &&& self.window_size_sample == window_size_at(sampling_rate as int)
        &&& self.min_speech_samples == samples_in(
            sampling_rate as int,
            min_speech_duration_ms as int,
        )
        &&& self.speech_pad_samples == samples_in(sampling_rate as int, speech_pad_ms as int)
        &&& self.min_silence_samples == samples_in(
            sampling_rate as int,
            min_silence_duration_ms as int,
        )
        &&& self.min_silence_samples_at_max_speech == samples_in(sampling_rate as int, 98)
        &&& match max_speech_duration_ms {
            Some(millis) => self.max_speech_samples == Some(
                (samples_in(sampling_rate as int, millis as int) - window_size_at(
                    sampling_rate as int,
                ) - 2 * samples_in(sampling_rate as int, speech_pad_ms as int)) as i64,
            ),
            None => self.max_speech_samples.is_none(),
        }
    }

    /// The speech stretches of a buffer: detected, padded, merged.
    pub open spec fn segmentation(self, activity: Seq<Activity>, audio_length: int) -> Seq<Span> {
        merged(self.padded(self.raw_spans(activity, audio_length), audio_length))
    }

    /// The segmentation of a buffer of `audio_length` samples from the
    /// activity of its windows.
    pub fn calculate_prob(&self, activity: &[Activity], audio_length: usize) -> (segments: Vec<
        SpeechSegment,
    >)
        requires
            self.wf(),
            windows_within(
                activity@.len() as int,
                self.window_size_sample as int,
                audio_length as int,
            ),
        ensures
            spans_of(segments@) == self.segmentation(activity@, audio_length as int),
            forall|k: int|
                0 <= k < segments.len() ==> (#[trigger] segments[k]).timed_at(
                    self.sampling_rate as int,
                ),
            separated(spans_of(segments@)),
            starts_ascend(spans_of(segments@)),
            self.speech_pad_samples >= 0 ==> bounded(spans_of(segments@), audio_length as int),
            (forall|i: int| 0 <= i < activity@.len() ==> activity@[i] != Activity::Speech)
                ==> segments@.len() == 0,
    {
        let raw = self.detect(activity, audio_length);
        proof {
            self.lemma_raw_spans_ordered(activity@, audio_length as int);
            lemma_merged_separated(
                self.padded(self.raw_spans(activity@, audio_length as int), audio_length as int),
            );
            if self.speech_pad_samples >= 0 {
                lemma_segmentation_sorted_disjoint(*self, activity@, audio_length as int);
            }
            if forall|i: int| 0 <= i < activity@.len() ==> activity@[i] != Activity::Speech {
                lemma_no_speech_no_segments(*self, activity@, audio_length as int);
            }
        }
        let padded = self.pad_segments(&raw, audio_length);
        self.merge_segments(padded)
    }

    /// The number of windows that a buffer of `audio_length` samples is cut
    /// into.
    pub fn count_windows(&self, audio_length: usize) -> (count: usize)
        requires
            self.wf(),
        ensures
            count == window_count(audio_length as int, self.window_size_sample as int),
            windows_within(count as int, self.window_size_sample as int, audio_length as int),
    {
        let whole = audio_length / self.window_size_sample;
        if audio_length % self.window_size_sample != 0 {
            whole + 1
        } else {
            whole
        }
    }
}

impl SileroVadDetector {
    /// The state is the one that a reset leaves.
    pub open spec fn is_reset(self) -> bool {
        &&& self.state@ == zeros(STATE_WORDS as int)
        &&& self.context@.len() == 0
        &&& self.last_sr == 0
        &&& self.last_batch_size == 0
    }

    /// The configuration is well formed, and a context that is kept from a
    /// call has one row for each row of that call.
    pub open spec fn wf(self) -> bool {
        &&& self.params.wf()
        &&& (self.context@.len() == 0 || self.context@[0]@.len() == 0 || self.last_batch_size == 0
            || self.context@.len() == self.last_batch_size)
    }

    /// A detector for audio at `sampling_rate`, which must be 8000 or 16000.
    /// `max_speech_duration_ms` is `None` where speech may go on without
    /// limit.
    pub fn new(
        sampling_rate: i32,
        min_speech_duration_ms: i32,
        max_speech_duration_ms: Option<i32>,
        min_silence_duration_ms: i32,
        speech_pad_ms: i32,
    ) -> (made: Result<Self, VadError>)
        ensures
            supported_rate(sampling_rate as int) <==> made.is_ok(),
            made.is_err() ==> made == Err::<Self, VadError>(VadError::UnsupportedSampleRate),
            made.is_ok() ==> {
                let detector = made.unwrap();
                &&& detector.wf()
                &&& detector.params.derived_from(
                    sampling_rate,
                    min_speech_duration_ms,
                    max_speech_duration_ms,
                    min_silence_duration_ms,
                    speech_pad_ms,
                )
                &&& detector.audio_length_samples == 0
                &&& detector.is_reset()
            },
    {
        if sampling_rate != SAMPLING_RATE_8K && sampling_rate != SAMPLING_RATE_16K {
            return Err(VadError::UnsupportedSampleRate);
        }
        let per_milli: i64 = (sampling_rate / 1000) as i64;
        let window_size_sample: usize = if sampling_rate == SAMPLING_RATE_16K {
            512
        } else {
            256
        };
        let min_speech_samples = per_milli * (min_speech_duration_ms as i64);
        let speech_pad_samples = per_milli * (speech_pad_ms as i64);
        let max_speech_samples = match max_speech_duration_ms {
            Some(millis) => Some(
                per_milli * (millis as i64) - (window_size_sample as i64) - 2 * speech_pad_samples,
            ),
            None => None,
        };
        let min_silence_samples = per_milli * (min_silence_duration_ms as i64);
        let min_silence_samples_at_max_speech = per_milli * 98;
        let mut detector = SileroVadDetector {
            params: VadParams {
                sampling_rate,
                window_size_sample,
                min_speech_samples,
                speech_pad_samples,
                max_speech_samples,
                min_silence_samples,
                min_silence_samples_at_max_speech,
            },
            audio_length_samples: 0,
            state: Vec::new(),
            context: Vec::new(),
            last_sr: 0,
            last_batch_size: 0,
        };
        detector.reset_states();
        Ok(detector)
    }

    /// Forgets what earlier model calls left: the recurrent state is zero
    /// again and there is no context.
    pub fn reset_states(&mut self)
        ensures
            final(self).is_reset(),
            final(self).params == old(self).params,
            final(self).audio_length_samples == old(self).audio_length_samples,
            old(self).params.wf() ==> final(self).wf(),
    {
        self.state = zero_words(STATE_WORDS);
        self.context = Vec::new();
        self.last_sr = 0;
        self.last_batch_size = 0;
    }

    /// Segments `input`, whose windows the model has classified as
    /// `activity`, one entry for each window.
    ///
    /// The result depends on nothing that earlier calls left behind, and the
    /// detector is reset when the call returns. Where `activity` has not one
    /// entry for each window, the call fails with `TensorShapeMismatch`.
    /// The segments lie strictly apart in the order of their starts. With a
    /// padding that is not negative each lies within the input and starts
    /// no later than it ends. Where no window is speech there is none.
    pub fn get_speech_segments(&mut self, input: &[u32], activity: &[Activity]) -> (found: Result<
        Vec<SpeechSegment>,
        VadError,
    >)
        requires
            old(self).wf(),
        ensures
            final(self).wf(),
            final(self).params == old(self).params,
            final(self).is_reset(),
            final(self).audio_length_samples == input@.len(),
            found.is_ok() <==> activity@.len() == window_count(
                input@.len() as int,
                old(self).params.window_size_sample as int,
            ),
            found.is_err() ==> found == Err::<Vec<SpeechSegment>, VadError>(
                VadError::TensorShapeMismatch,
            ),
            found.is_ok() ==> {
                let segments = found.unwrap();
                &&& spans_of(segments@) == old(self).params.segmentation(
                    activity@,
                    input@.len() as int,
                )
                &&& forall|k: int|
                    0 <= k < segments.len() ==> (#[trigger] segments[k]).timed_at(
                        old(self).params.sampling_rate as int,
                    )
                &&& separated(spans_of(segments@))
                &&& starts_ascend(spans_of(segments@))
                &&& old(self).params.speech_pad_samples >= 0 ==> bounded(
                    spans_of(segments@),
                    input@.len() as int,
                )
                &&& (forall|i: int| 0 <= i < activity@.len() ==> activity@[i] != Activity::Speech)
                    ==> segments@.len() == 0
            },
    {
        self.reset_states();
        self.audio_length_samples = input.len();
        if activity.len() != self.params.count_windows(input.len()) {
            return Err(VadError::TensorShapeMismatch);
        }
        Ok(self.params.calculate_prob(activity, self.audio_length_samples))
    }

    /// Window `index` of `input`, filled up with zeros where the input ends
    /// inside it.
    pub fn window_at(&self, input: &[u32], index: usize) -> (window: Vec<u32>)
        requires
            self.wf(),
            index < window_count(input@.len() as int, self.params.window_size_sample as int),
        ensures
            window@ == window_of(input@, index as int, self.params.window_size_sample as int),
    {
        let size = self.params.window_size_sample;
        let length = input.len();
        assert(index * size < length) by (nonlinear_arith)
            requires
                0 <= index < (length + size - 1) / (size as int),
                size > 0,
        ;
        let start: usize = index * size;
        let mut buffer: Vec<u32> = Vec::new();
        let mut j: usize = 0;
        while j < size
            invariant
                j <= size,
                start == index * size,
                start < length,
                length == input@.len(),
                buffer.len() == j,
                forall|m: int|
                    0 <= m < j ==> buffer@[m] == window_of(input@, index as int, size as int)[m],
            decreases size - j,
        {
            let word = if j < length - start {
                input[start + j]
            } else {
                0u32
            };
            buffer.push(word);
            j += 1;
        }
        assert(buffer@ =~= window_of(input@, index as int, size as int));
        buffer
    }
}

/// A buffer of `count` zero words.
pub fn zero_words(count: usize) -> (words: Vec<u32>)
    ensures
        words@ == zeros(count as int),
{
    let mut words: Vec<u32> = Vec::new();
    let mut j: usize = 0;
    while j < count
        invariant
            j <= count,
            words.len() == j,
            forall|m: int| 0 <= m < j ==> words@[m] == 0u32,
        decreases count - j,
    {
        words.push(0u32);
        j += 1;
    }
    assert(words@ =~= zeros(count as int));
    words
}

} // verus!
