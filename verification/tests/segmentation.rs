use speech_pipeline::speech_segment::SpeechSegment;
use speech_pipeline::vad::hysteresis::Activity;
use speech_pipeline::vad::silero_vad::{SileroVadDetector, VadError};

const SPEECH: Activity = Activity::Speech;
const QUIET: Activity = Activity::Silence;
const UNSURE: Activity = Activity::Undecided;

fn detector(max_ms: Option<i32>) -> SileroVadDetector {
    SileroVadDetector::new(16000, 250, max_ms, 100, 30).unwrap()
}

fn words(count: usize) -> Vec<u32> {
    vec![0u32; count]
}

fn runs(parts: &[(Activity, usize)]) -> Vec<Activity> {
    let mut all = Vec::new();
    for (activity, count) in parts {
        for _ in 0..*count {
            all.push(*activity);
        }
    }
    all
}

fn assert_sorted_disjoint_within(segments: &[SpeechSegment], length: usize) {
    for segment in segments {
        assert!(segment.start_offset <= segment.end_offset);
        assert!(segment.end_offset <= length);
    }
    for pair in segments.windows(2) {
        assert!(pair[0].end_offset < pair[1].start_offset);
    }
}

#[test]
fn offsets_are_timed_in_whole_milliseconds() {
    let segment = SpeechSegment::from_offsets(16000, 24008, 16000);
    assert_eq!(segment.start_offset, 16000);
    assert_eq!(segment.end_offset, 24008);
    assert_eq!(segment.start_millis, 1000);
    assert_eq!(segment.end_millis, 1500);
    let odd = SpeechSegment::from_offsets(1, 15, 16000);
    assert_eq!(odd.start_millis, 0);
    assert_eq!(odd.end_millis, 0);
    let at_8k = SpeechSegment::from_offsets(4001, 8000, 8000);
    assert_eq!(at_8k.start_millis, 500);
    assert_eq!(at_8k.end_millis, 1000);
}

#[test]
fn new_keeps_what_it_is_given() {
    let segment = SpeechSegment::new(3, 9, 1, 2);
    assert_eq!(segment.start_offset, 3);
    assert_eq!(segment.end_offset, 9);
    assert_eq!(segment.start_millis, 1);
    assert_eq!(segment.end_millis, 2);
}

#[test]
fn unsupported_rate_is_rejected() {
    assert!(matches!(
        SileroVadDetector::new(44100, 250, None, 100, 30),
        Err(VadError::UnsupportedSampleRate)
    ));
    assert!(matches!(
        SileroVadDetector::new(0, 250, None, 100, 30),
        Err(VadError::UnsupportedSampleRate)
    ));
    assert!(SileroVadDetector::new(8000, 250, None, 100, 30).is_ok());
    assert!(SileroVadDetector::new(16000, 250, None, 100, 30).is_ok());
}

#[test]
fn sample_counts_follow_from_the_durations() {
    let at_16k = SileroVadDetector::new(16000, 250, Some(20000), 100, 30).unwrap();
    assert_eq!(at_16k.params.window_size_sample, 512);
    assert_eq!(at_16k.params.min_speech_samples, 4000);
    assert_eq!(at_16k.params.speech_pad_samples, 480);
    assert_eq!(at_16k.params.min_silence_samples, 1600);
    assert_eq!(at_16k.params.min_silence_samples_at_max_speech, 1568);
    assert_eq!(at_16k.params.max_speech_samples, Some(320000 - 512 - 960));
    let at_8k = SileroVadDetector::new(8000, 250, None, 100, 30).unwrap();
    assert_eq!(at_8k.params.window_size_sample, 256);
    assert_eq!(at_8k.params.min_speech_samples, 2000);
    assert_eq!(at_8k.params.speech_pad_samples, 240);
    assert_eq!(at_8k.params.min_silence_samples, 800);
    assert_eq!(at_8k.params.min_silence_samples_at_max_speech, 784);
    assert_eq!(at_8k.params.max_speech_samples, None);
    assert_eq!(at_8k.state, vec![0u32; 256]);
    assert!(at_8k.context.is_empty());
}

#[test]
fn all_speech_is_one_segment_over_the_whole_buffer() {
    let mut vad = detector(None);
    let input = words(16000);
    let activity = vec![SPEECH; 32];
    let segments = vad.get_speech_segments(&input, &activity).unwrap();
    assert_eq!(segments, vec![SpeechSegment::new(0, 16000, 0, 1000)]);
}

#[test]
fn a_burst_of_speech_is_padded_on_both_sides() {
    let mut vad = detector(None);
    let activity = runs(&[(QUIET, 10), (SPEECH, 20), (QUIET, 33)]);
    let segments = vad.get_speech_segments(&words(32000), &activity).unwrap();
    assert_eq!(segments, vec![SpeechSegment::new(4640, 15840, 290, 990)]);
    assert_sorted_disjoint_within(&segments, 32000);
}

#[test]
fn segments_far_apart_each_get_the_full_padding() {
    let mut vad = detector(None);
    let activity = runs(&[(SPEECH, 10), (QUIET, 20), (SPEECH, 20), (QUIET, 13)]);
    let segments = vad.get_speech_segments(&words(32000), &activity).unwrap();
    assert_eq!(
        segments,
        vec![SpeechSegment::new(0, 5600, 0, 350), SpeechSegment::new(14880, 26080, 930, 1630)]
    );
    assert_sorted_disjoint_within(&segments, 32000);
}

#[test]
fn segments_close_together_share_the_gap_and_merge() {
    let mut vad = SileroVadDetector::new(16000, 10, None, 0, 30).unwrap();
    let activity = runs(&[(SPEECH, 4), (QUIET, 1), (SPEECH, 4), (QUIET, 1), (UNSURE, 2)]);
    let raw = vad.params.detect(&activity, 6000);
    assert_eq!(
        raw,
        vec![SpeechSegment::new(0, 2048, 0, 128), SpeechSegment::new(2560, 4608, 160, 288)]
    );
    let padded = vad.params.pad_segments(&raw, 6000);
    assert_eq!(
        padded,
        vec![SpeechSegment::new(0, 2304, 0, 144), SpeechSegment::new(2304, 5088, 144, 318)]
    );
    let segments = vad.get_speech_segments(&words(6000), &activity).unwrap();
    assert_eq!(segments, vec![SpeechSegment::new(0, 5088, 0, 318)]);
}

#[test]
fn a_segment_closes_when_the_window_that_closes_it_is_late_enough() {
    let mut vad = detector(None);
    let activity = runs(&[(SPEECH, 7), (QUIET, 13)]);
    let raw = vad.params.detect(&activity, 10000);
    assert_eq!(raw, vec![SpeechSegment::new(0, 3584, 0, 224)]);
    let segments = vad.get_speech_segments(&words(10000), &activity).unwrap();
    assert_eq!(segments, vec![SpeechSegment::new(0, 4064, 0, 254)]);
}

#[test]
fn a_short_burst_is_dropped() {
    let mut vad = detector(None);
    let activity = runs(&[(SPEECH, 2), (QUIET, 18)]);
    let segments = vad.get_speech_segments(&words(10000), &activity).unwrap();
    assert!(segments.is_empty());
}

#[test]
fn undecided_windows_neither_open_nor_close_a_segment() {
    let mut vad = detector(None);
    let activity = runs(&[(UNSURE, 5), (SPEECH, 5), (UNSURE, 22)]);
    let segments = vad.get_speech_segments(&words(16000), &activity).unwrap();
    assert_eq!(segments, vec![SpeechSegment::new(2080, 16000, 130, 1000)]);
}

#[test]
fn long_speech_is_cut_at_the_longest_duration() {
    let vad = detector(Some(1000));
    assert_eq!(vad.params.max_speech_samples, Some(14528));
    let activity = vec![SPEECH; 94];
    let raw = vad.params.detect(&activity, 48000);
    assert_eq!(
        raw,
        vec![
            SpeechSegment::new(0, 14848, 0, 928),
            SpeechSegment::new(15360, 30208, 960, 1888),
            SpeechSegment::new(30720, 45568, 1920, 2848),
        ]
    );
    assert_eq!(raw.len(), 48000 / 14528);
}

#[test]
fn cuts_one_window_apart_are_padded_together_again() {
    let mut vad = detector(Some(1000));
    let activity = vec![SPEECH; 94];
    let segments = vad.get_speech_segments(&words(48000), &activity).unwrap();
    assert_eq!(segments, vec![SpeechSegment::new(0, 46048, 0, 2878)]);
}

#[test]
fn a_forced_cut_falls_back_to_the_last_long_silence() {
    let mut vad = SileroVadDetector::new(16000, 250, Some(1000), 500, 30).unwrap();
    let activity = runs(&[(SPEECH, 10), (QUIET, 5), (SPEECH, 32)]);
    let raw = vad.params.detect(&activity, 24000);
    assert_eq!(
        raw,
        vec![SpeechSegment::new(0, 5120, 0, 320), SpeechSegment::new(7680, 22528, 480, 1408)]
    );
    let segments = vad.get_speech_segments(&words(24000), &activity).unwrap();
    assert_eq!(
        segments,
        vec![SpeechSegment::new(0, 5600, 0, 350), SpeechSegment::new(7200, 23008, 450, 1438)]
    );
    assert_sorted_disjoint_within(&segments, 24000);
}

#[test]
fn empty_input_has_no_segments() {
    let mut vad = detector(None);
    let segments = vad.get_speech_segments(&[], &[]).unwrap();
    assert!(segments.is_empty());
    assert_eq!(vad.audio_length_samples, 0);
}

#[test]
fn input_shorter_than_a_window_has_no_segments() {
    let mut vad = detector(None);
    assert!(vad.get_speech_segments(&words(300), &[SPEECH]).unwrap().is_empty());
    assert!(vad.get_speech_segments(&words(300), &[QUIET]).unwrap().is_empty());
    assert!(vad.get_speech_segments(&words(511), &[SPEECH]).unwrap().is_empty());
}

#[test]
fn short_speech_counts_where_the_shortest_speech_is_shorter() {
    let mut vad = SileroVadDetector::new(16000, 10, None, 100, 30).unwrap();
    let segments = vad.get_speech_segments(&words(300), &[SPEECH]).unwrap();
    assert_eq!(segments, vec![SpeechSegment::new(0, 300, 0, 18)]);
}

#[test]
fn silence_throughout_has_no_segments() {
    let mut vad = detector(None);
    let activity = vec![QUIET; 63];
    assert!(vad.get_speech_segments(&words(32000), &activity).unwrap().is_empty());
    let unsure = vec![UNSURE; 63];
    assert!(vad.get_speech_segments(&words(32000), &unsure).unwrap().is_empty());
}

#[test]
fn segmenting_twice_gives_the_same_segments() {
    let mut vad = detector(None);
    let activity = runs(&[(SPEECH, 10), (QUIET, 20), (SPEECH, 20), (QUIET, 13)]);
    let first = vad.get_speech_segments(&words(32000), &activity).unwrap();
    let other = runs(&[(QUIET, 3), (SPEECH, 29)]);
    vad.get_speech_segments(&words(16000), &other).unwrap();
    let second = vad.get_speech_segments(&words(32000), &activity).unwrap();
    assert_eq!(first, second);
    assert_eq!(vad.audio_length_samples, 32000);
    assert_eq!(vad.state, vec![0u32; 256]);
    assert_eq!(vad.last_batch_size, 0);
}

#[test]
fn activity_must_have_one_entry_for_each_window() {
    let mut vad = detector(None);
    let short = vec![SPEECH; 31];
    assert!(matches!(
        vad.get_speech_segments(&words(16000), &short),
        Err(VadError::TensorShapeMismatch)
    ));
    let long = vec![SPEECH; 33];
    assert!(matches!(
        vad.get_speech_segments(&words(16000), &long),
        Err(VadError::TensorShapeMismatch)
    ));
}

#[test]
fn merging_joins_what_touches_or_overlaps() {
    let vad = detector(None);
    let segments = vec![
        SpeechSegment::new(10, 20, 7, 7),
        SpeechSegment::new(5, 12, 7, 7),
        SpeechSegment::new(30, 40, 7, 7),
        SpeechSegment::new(18, 25, 7, 7),
        SpeechSegment::new(40, 41, 7, 7),
    ];
    let merged = vad.params.merge_segments(segments);
    assert_eq!(merged, vec![SpeechSegment::new(5, 25, 0, 1), SpeechSegment::new(30, 41, 1, 2)]);
}

#[test]
fn merging_what_was_merged_changes_nothing() {
    let vad = detector(None);
    let segments = vec![
        SpeechSegment::new(100, 900, 0, 0),
        SpeechSegment::new(50, 120, 0, 0),
        SpeechSegment::new(2000, 3000, 0, 0),
        SpeechSegment::new(901, 950, 0, 0),
    ];
    let once = vad.params.merge_segments(segments);
    assert_eq!(
        once,
        vec![
            SpeechSegment::new(50, 900, 3, 56),
            SpeechSegment::new(901, 950, 56, 59),
            SpeechSegment::new(2000, 3000, 125, 187),
        ]
    );
    let twice = vad.params.merge_segments(once.clone());
    assert_eq!(once, twice);
    let single = vec![SpeechSegment::new(9, 3, 7, 7)];
    assert_eq!(vad.params.merge_segments(single.clone()), single);
}

#[test]
fn errors_say_what_went_wrong() {
    assert_eq!(
        VadError::UnsupportedSampleRate.message(),
        "Only supports sample rates 8000 or 16000 (or multiples of 16000)"
    );
    assert_eq!(VadError::InputTooShort.message(), "Input audio is too short");
    assert_eq!(VadError::ModelInvocationFailed.message(), "Model invocation failed");
    assert_eq!(VadError::TensorShapeMismatch.message(), "Tensor shape mismatch");
}
