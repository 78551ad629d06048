//! What holds of every segmentation.

use vstd::prelude::*;
use crate::speech_segment::{Span, bounded, separated};
use crate::vad::hysteresis::{Activity, Hysteresis, VadParams, windows_within};
use crate::vad::merge::{
    each_longer_than,
    lemma_sorted_longer,
    lemma_swept_longer,
    merged,
    sorted_by_start,
    starts_ascend,
    swept,
    lemma_sorted_ascends,
    lemma_sorted_bounded,
    lemma_sorted_fixes_ascending,
    lemma_swept_bounded,
    lemma_swept_fixes_separated,
    lemma_swept_separated,
};
use crate::vad::silero_vad::{SileroVadDetector, window_count};

verus! {

/// Merged stretches ascend by their start and lie strictly apart, whatever
/// was merged.
pub proof fn lemma_merged_separated(spans: Seq<Span>)
    ensures
        starts_ascend(merged(spans)),
        separated(merged(spans)),
{
    lemma_sorted_ascends(spans);
    lemma_swept_separated(sorted_by_start(spans));
}

/// Merging what was merged changes nothing.
pub proof fn lemma_merge_idempotent(spans: Seq<Span>)
    ensures
        merged(merged(spans)) == merged(spans),
{
    lemma_merged_separated(spans);
    lemma_sorted_fixes_ascending(merged(spans));
    lemma_swept_fixes_separated(merged(spans));
}

/// The segments of a buffer lie strictly apart in the order of their
/// starts, whatever the configuration and the activity.
pub proof fn lemma_segmentation_separated(
    params: VadParams,
    activity: Seq<Activity>,
    audio_length: int,
)
    ensures
        starts_ascend(params.segmentation(activity, audio_length)),
        separated(params.segmentation(activity, audio_length)),
{
    lemma_merged_separated(params.padded(params.raw_spans(activity, audio_length), audio_length));
}

/// Each stretch starts before every stretch behind it starts.
pub open spec fn starts_strictly_ascend(spans: Seq<Span>) -> bool {
    forall|i: int, j: int|
        0 <= i < j < spans.len() ==> (#[trigger] spans[i]).start < (#[trigger] spans[j]).start
}

/// With a padding that is not negative, the segments of a buffer are sorted
/// by their start, no two of them start at the same sample, they lie
/// strictly apart, and each starts no later than it ends and ends within
/// the buffer.
pub proof fn lemma_segmentation_sorted_disjoint(
    params: VadParams,
    activity: Seq<Activity>,
    audio_length: int,
)
    requires
        params.wf(),
        params.speech_pad_samples >= 0,
        0 <= audio_length,
        windows_within(activity.len() as int, params.window_size_sample as int, audio_length),
    ensures
        starts_ascend(params.segmentation(activity, audio_length)),
        starts_strictly_ascend(params.segmentation(activity, audio_length)),
        separated(params.segmentation(activity, audio_length)),
        bounded(params.segmentation(activity, audio_length), audio_length),
{
    let raw = params.raw_spans(activity, audio_length);
    params.lemma_raw_spans_ordered(activity, audio_length);
    params.lemma_padded_ordered(raw, audio_length);
    let padded = params.padded(raw, audio_length);
    lemma_merged_separated(padded);
    lemma_sorted_bounded(padded, audio_length);
    lemma_swept_bounded(sorted_by_start(padded), audio_length);
    let segments = params.segmentation(activity, audio_length);
    assert forall|i: int, j: int| 0 <= i < j < segments.len() implies (#[trigger] segments[i]).start
        < (#[trigger] segments[j]).start by {
        assert(segments[i].end < segments[j].start);
        assert(segments[i].start <= segments[i].end);
    }
}

/// The segments of a buffer depend on the configuration, the length of the
/// buffer and the activity of its windows, and on nothing that a detector
/// has seen before.
pub proof fn lemma_segmentation_repeatable(
    first: SileroVadDetector,
    second: SileroVadDetector,
    activity: Seq<Activity>,
    audio_length: int,
)
    requires
        first.params == second.params,
    ensures
        first.params.segmentation(activity, audio_length) == second.params.segmentation(
            activity,
            audio_length,
        ),
{
}

/// Without a window of speech the automaton stays idle and emits nothing.
pub proof fn lemma_run_without_speech(params: VadParams, activity: Seq<Activity>)
    requires
        forall|i: int| 0 <= i < activity.len() ==> activity[i] != Activity::Speech,
    ensures
        params.run(activity).0 == Hysteresis::idle(),
        params.run(activity).1 == Seq::<Span>::empty(),
    decreases activity.len(),
{
    if activity.len() > 0 {
        let front = activity.drop_last();
        assert forall|i: int| 0 <= i < front.len() implies front[i] != Activity::Speech by {
            assert(front[i] == activity[i]);
        }
        lemma_run_without_speech(params, front);
        assert(activity.last() == activity[activity.len() - 1]);
        assert(params.run(activity).1 =~= Seq::<Span>::empty());
    }
}

/// A buffer none of whose windows is speech has no segments; so a buffer
/// that is silent throughout has none.
pub proof fn lemma_no_speech_no_segments(
    params: VadParams,
    activity: Seq<Activity>,
    audio_length: int,
)
    requires
        forall|i: int| 0 <= i < activity.len() ==> activity[i] != Activity::Speech,
    ensures
        params.segmentation(activity, audio_length) == Seq::<Span>::empty(),
{
    lemma_run_without_speech(params, activity);
    let raw = params.raw_spans(activity, audio_length);
    assert(raw =~= Seq::<Span>::empty());
    assert(params.padded(raw, audio_length) =~= Seq::<Span>::empty());
    assert(sorted_by_start(Seq::<Span>::empty()) =~= Seq::<Span>::empty());
    assert(params.segmentation(activity, audio_length) =~= Seq::<Span>::empty());
}

/// An empty buffer has no segments. Nor has a buffer shorter than one
/// window, unless its one window is speech and the buffer is longer than the
/// shortest speech.
pub proof fn lemma_short_input_no_segments(
    params: VadParams,
    activity: Seq<Activity>,
    audio_length: int,
)
    requires
        params.wf(),
        0 <= audio_length < params.window_size_sample,
        activity.len() == window_count(audio_length, params.window_size_sample as int),
        activity.len() > 0 && activity[0] == Activity::Speech ==> audio_length
            <= params.min_speech_samples,
    ensures
        params.segmentation(activity, audio_length) == Seq::<Span>::empty(),
{
    if params.window_size_sample == 256 {
        assert((audio_length + 255) / 256 <= 1);
    } else {
        assert((audio_length + 511) / 512 <= 1);
    }
    if activity.len() == 1 {
        assert(activity.drop_last() =~= Seq::<Activity>::empty());
        assert(params.run(activity.drop_last()).0 == Hysteresis::idle());
        assert(activity.last() == activity[0]);
        assert(params.run(activity).1 =~= Seq::<Span>::empty());
    }
    let raw = params.raw_spans(activity, audio_length);
    assert(raw =~= Seq::<Span>::empty());
    assert(params.padded(raw, audio_length) =~= Seq::<Span>::empty());
    assert(sorted_by_start(Seq::<Span>::empty()) =~= Seq::<Span>::empty());
    assert(params.segmentation(activity, audio_length) =~= Seq::<Span>::empty());
}

/// The state of the automaton while speech that began in the first window
/// goes on.
pub open spec fn speaking_from_start() -> Hysteresis {
    Hysteresis {
        triggered: true,
        is_detecting: true,
        segment_start: 0,
        temp_end: 0,
        prev_end: 0,
        next_start: 0,
    }
}

/// Over windows that are all speech, none of them late enough for a forced
/// cut, the automaton emits nothing and keeps the segment open that began in
/// the first window.
pub proof fn lemma_run_all_speech(params: VadParams, activity: Seq<Activity>)
    requires
        params.window_size_sample > 0,
        activity.len() > 0,
        forall|i: int| 0 <= i < activity.len() ==> activity[i] == Activity::Speech,
        !params.exceeds_max((activity.len() - 1) * params.window_size_sample),
    ensures
        params.run(activity).0 == speaking_from_start(),
        params.run(activity).1 == Seq::<Span>::empty(),
    decreases activity.len(),
{
    let front = activity.drop_last();
    assert(activity.last() == activity[activity.len() - 1]);
    if front.len() == 0 {
        assert(params.run(front).0 == Hysteresis::idle());
        assert((activity.len() - 1) * params.window_size_sample == 0) by (nonlinear_arith)
            requires
                activity.len() == 1,
        ;
        assert(params.run(activity).1 =~= Seq::<Span>::empty());
    } else {
        assert forall|i: int| 0 <= i < front.len() implies front[i] == Activity::Speech by {
            assert(front[i] == activity[i]);
        }
        assert((front.len() - 1) * params.window_size_sample <= (activity.len() - 1)
            * params.window_size_sample) by (nonlinear_arith)
            requires
                front.len() == activity.len() - 1,
                params.window_size_sample > 0,
        ;
        lemma_run_all_speech(params, front);
        assert(params.run(activity).1 =~= Seq::<Span>::empty());
    }
}

/// A buffer that is speech throughout, longer than the shortest speech and
/// with no window late enough for a forced cut, has exactly one segment,
/// which covers it from its first sample to its last.
pub proof fn lemma_all_speech_one_segment(
    params: VadParams,
    activity: Seq<Activity>,
    audio_length: int,
)
    requires
        params.wf(),
        params.speech_pad_samples >= 0,
        activity.len() > 0,
        forall|i: int| 0 <= i < activity.len() ==> activity[i] == Activity::Speech,
        !params.exceeds_max((activity.len() - 1) * params.window_size_sample),
        audio_length > params.min_speech_samples,
        audio_length >= 0,
    ensures
        params.segmentation(activity, audio_length) == seq![Span { start: 0, end: audio_length }],
{
    lemma_run_all_speech(params, activity);
    let whole = Span { start: 0, end: audio_length };
    let raw = params.raw_spans(activity, audio_length);
    assert(raw =~= seq![whole]);
    let padded = params.padded(raw, audio_length);
    assert(padded =~= seq![whole]);
    assert(padded.drop_last() =~= Seq::<Span>::empty());
    assert(sorted_by_start(padded.drop_last()) =~= Seq::<Span>::empty());
    assert(sorted_by_start(padded) =~= seq![whole]);
    assert(params.segmentation(activity, audio_length) =~= seq![whole]);
}

/// Where a segment closes at its first silent window and a forced cut comes
/// no earlier than the shortest speech ends, the automaton keeps no silence
/// mark from one window to the next and emits no stretch shorter than the
/// shortest speech.
pub proof fn lemma_run_long_enough(params: VadParams, activity: Seq<Activity>)
    requires
        params.window_size_sample > 0,
        params.min_silence_samples <= 0,
        params.min_silence_samples_at_max_speech >= 0,
        match params.max_speech_samples {
            Some(limit) => limit + 1 >= params.min_speech_samples,
            None => true,
        },
    ensures
        params.run(activity).0.temp_end == 0,
        params.run(activity).0.prev_end == 0,
        each_longer_than(params.run(activity).1, params.min_speech_samples - 1),
    decreases activity.len(),
{
    if activity.len() > 0 {
        let front = activity.drop_last();
        lemma_run_long_enough(params, front);
        params.lemma_run_consistent(front);
        let (st, out) = params.run(front);
        let t = (activity.len() - 1) * params.window_size_sample;
        let before = if front.len() == 0 {
            0
        } else {
            (front.len() - 1) * params.window_size_sample
        };
        assert(before <= t) by (nonlinear_arith)
            requires
                params.window_size_sample > 0,
                front.len() == activity.len() - 1,
                activity.len() > 0,
                t == (activity.len() - 1) * params.window_size_sample,
                before == if front.len() == 0 {
                    0
                } else {
                    (front.len() - 1) * params.window_size_sample
                },
        ;
        let (next, emitted) = params.step(st, activity.last(), t);
        let all = out + emitted;
        assert forall|k: int| 0 <= k < all.len() implies (#[trigger] all[k]).end - all[k].start
            > params.min_speech_samples - 1 by {
            if k < out.len() {
                assert(all[k] == out[k]);
            } else {
                assert(all[k] == emitted[k - out.len()]);
            }
        }
    }
}

/// Before padding, no segment is shorter than the shortest speech, where a
/// segment closes at its first silent window and a forced cut comes no
/// earlier than the shortest speech ends.
pub proof fn lemma_raw_spans_long_enough(
    params: VadParams,
    activity: Seq<Activity>,
    audio_length: int,
)
    requires
        params.wf(),
        params.min_silence_samples <= 0,
        match params.max_speech_samples {
            Some(limit) => limit + 1 >= params.min_speech_samples,
            None => true,
        },
    ensures
        each_longer_than(
            params.raw_spans(activity, audio_length),
            params.min_speech_samples - 1,
        ),
{
    lemma_run_long_enough(params, activity);
}

/// By how much a segment that silence closes may fall short of the shortest
/// speech: the silence had lasted less than the shortest silence one window
/// before it closed the segment.
pub open spec fn close_slack(params: VadParams) -> int {
    if params.min_silence_samples > 0 {
        params.min_silence_samples + params.window_size_sample
    } else {
        0
    }
}

/// Without a longest speech and without undecided windows, a tentative
/// silence that is still open has lasted less than the shortest silence,
/// and every stretch emitted falls short of the shortest speech by less
/// than `close_slack`.
pub proof fn lemma_run_within_slack(params: VadParams, activity: Seq<Activity>)
    requires
        params.window_size_sample > 0,
        params.max_speech_samples is None,
        forall|i: int| 0 <= i < activity.len() ==> activity[i] != Activity::Undecided,
    ensures
        params.run(activity).0.temp_end != 0 ==> (activity.len() - 1)
            * params.window_size_sample - params.run(activity).0.temp_end
            < params.min_silence_samples,
        each_longer_than(
            params.run(activity).1,
            params.min_speech_samples - close_slack(params),
        ),
    decreases activity.len(),
{
    if activity.len() > 0 {
        let front = activity.drop_last();
        assert forall|i: int| 0 <= i < front.len() implies front[i] != Activity::Undecided by {
            assert(front[i] == activity[i]);
        }
        assert(activity.last() == activity[activity.len() - 1]);
        lemma_run_within_slack(params, front);
        params.lemma_run_consistent(front);
        let (st, out) = params.run(front);
        let w = params.window_size_sample as int;
        let t = (activity.len() - 1) * w;
        let before = if front.len() == 0 {
            0
        } else {
            (front.len() - 1) * w
        };
        assert(front.len() > 0 ==> t == before + w) by (nonlinear_arith)
            requires
                front.len() == activity.len() - 1,
                t == (activity.len() - 1) * w,
                before == if front.len() == 0 {
                    0
                } else {
                    (front.len() - 1) * w
                },
        ;
        if front.len() == 0 {
            assert(st == Hysteresis::idle());
        }
        let (next, emitted) = params.step(st, activity.last(), t);
        let all = out + emitted;
        assert forall|k: int| 0 <= k < all.len() implies (#[trigger] all[k]).end - all[k].start
            > params.min_speech_samples - close_slack(params) by {
            if k < out.len() {
                assert(all[k] == out[k]);
            } else {
                assert(all[k] == emitted[k - out.len()]);
            }
        }
    }
}

/// Before padding, with no longest speech and no undecided window, a
/// segment falls short of the shortest speech by less than `close_slack`:
/// it is longer than the shortest speech less the shortest silence and one
/// window, whatever the configuration.
pub proof fn lemma_raw_spans_within_slack(
    params: VadParams,
    activity: Seq<Activity>,
    audio_length: int,
)
    requires
        params.wf(),
        params.max_speech_samples is None,
        forall|i: int| 0 <= i < activity.len() ==> activity[i] != Activity::Undecided,
    ensures
        each_longer_than(
            params.raw_spans(activity, audio_length),
            params.min_speech_samples - close_slack(params),
        ),
{
    lemma_run_within_slack(params, activity);
}

/// With a padding that is not negative, padding and merging shorten
/// nothing: the segments of a buffer are longer than any bound that the
/// stretches before padding are longer than.
pub proof fn lemma_segmentation_keeps_length(
    params: VadParams,
    activity: Seq<Activity>,
    audio_length: int,
    bound: int,
)
    requires
        params.wf(),
        params.speech_pad_samples >= 0,
        0 <= audio_length,
        windows_within(activity.len() as int, params.window_size_sample as int, audio_length),
        each_longer_than(params.raw_spans(activity, audio_length), bound),
    ensures
        each_longer_than(params.segmentation(activity, audio_length), bound),
{
    let raw = params.raw_spans(activity, audio_length);
    params.lemma_raw_spans_ordered(activity, audio_length);
    params.lemma_padded_ordered(raw, audio_length);
    let padded = params.padded(raw, audio_length);
    assert forall|k: int| 0 <= k < padded.len() implies (#[trigger] padded[k]).end
        - padded[k].start > bound by {
        assert(raw[k].end - raw[k].start > bound);
    }
    lemma_sorted_longer(padded, bound);
    lemma_swept_longer(sorted_by_start(padded), bound);
}

/// With no longest speech, no undecided window and a padding that is not
/// negative, every segment of a buffer is longer than the shortest speech
/// less `close_slack`.
pub proof fn lemma_segments_within_slack(
    params: VadParams,
    activity: Seq<Activity>,
    audio_length: int,
)
    requires
        params.wf(),
        params.speech_pad_samples >= 0,
        params.max_speech_samples is None,
        0 <= audio_length,
        windows_within(activity.len() as int, params.window_size_sample as int, audio_length),
        forall|i: int| 0 <= i < activity.len() ==> activity[i] != Activity::Undecided,
    ensures
        each_longer_than(
            params.segmentation(activity, audio_length),
            params.min_speech_samples - close_slack(params),
        ),
{
    lemma_raw_spans_within_slack(params, activity, audio_length);
    lemma_segmentation_keeps_length(
        params,
        activity,
        audio_length,
        params.min_speech_samples - close_slack(params),
    );
}

/// Every stretch is at most `bound` samples long.
pub open spec fn each_at_most(spans: Seq<Span>, bound: int) -> bool {
    forall|k: int| 0 <= k < spans.len() ==> (#[trigger] spans[k]).end - spans[k].start <= bound
}

/// Over windows that are all speech, with a longest speech that is not
/// negative, the automaton keeps no silence mark, an open segment began no
/// more than the longest speech before the last window, and every stretch
/// emitted is a forced cut: longer than the longest speech by one window at
/// most.
pub proof fn lemma_run_all_speech_cuts(params: VadParams, activity: Seq<Activity>, limit: i64)
    requires
        params.window_size_sample > 0,
        params.max_speech_samples == Some(limit),
        0 <= limit,
        forall|i: int| 0 <= i < activity.len() ==> activity[i] == Activity::Speech,
    ensures
        params.run(activity).0.temp_end == 0,
        params.run(activity).0.prev_end == 0,
        params.run(activity).0.triggered ==> 0 <= (activity.len() - 1)
            * params.window_size_sample - params.run(activity).0.segment_start <= limit,
        each_longer_than(params.run(activity).1, limit as int),
        each_at_most(params.run(activity).1, limit + params.window_size_sample),
        separated(params.run(activity).1),
        params.run(activity).0.triggered ==> forall|k: int|
            0 <= k < params.run(activity).1.len() ==> (#[trigger] params.run(activity).1[k]).end
                < params.run(activity).0.segment_start,
    decreases activity.len(),
{
    params.lemma_run_consistent(activity);
    if activity.len() > 0 {
        let front = activity.drop_last();
        assert forall|i: int| 0 <= i < front.len() implies front[i] == Activity::Speech by {
            assert(front[i] == activity[i]);
        }
        assert(activity.last() == activity[activity.len() - 1]);
        lemma_run_all_speech_cuts(params, front, limit);
        params.lemma_run_consistent(front);
        let (st, out) = params.run(front);
        let w = params.window_size_sample as int;
        let t = (activity.len() - 1) * w;
        let before = (front.len() - 1) * w;
        assert(t == before + w) by (nonlinear_arith)
            requires
                front.len() == activity.len() - 1,
                t == (activity.len() - 1) * w,
                before == (front.len() - 1) * w,
        ;
        if front.len() == 0 {
            assert(st == Hysteresis::idle());
        }
        let (next, emitted) = params.step(st, activity.last(), t);
        let all = out + emitted;
        assert forall|k: int| 0 <= k < all.len() implies limit < (#[trigger] all[k]).end
            - all[k].start <= limit + w by {
            if k < out.len() {
                assert(all[k] == out[k]);
            } else {
                assert(all[k] == emitted[k - out.len()]);
            }
        }
        assert forall|k: int| 0 <= k < out.len() implies (#[trigger] out[k]).end <= before by {
            assert(0 <= out[k].start <= out[k].end <= st.frontier(before));
        }
        assert forall|i: int, j: int| 0 <= i < j < all.len() implies (#[trigger] all[i]).end < (
        #[trigger] all[j]).start by {
            if j < out.len() {
                assert(all[i] == out[i] && all[j] == out[j]);
            } else {
                assert(all[i] == out[i]);
                assert(all[j] == emitted[j - out.len()]);
            }
        }
        assert forall|k: int| 0 <= k < all.len() && next.triggered implies (#[trigger] all[k]).end
            < next.segment_start by {
            if k < out.len() {
                assert(all[k] == out[k]);
            }
        }
    }
}

/// Forced cuts: in a buffer that is speech throughout, with a longest
/// speech that is not negative, no stretch before padding is longer than
/// the longest speech and one window, and each but a tail that is still
/// open at the end is longer than the longest speech.
pub proof fn lemma_all_speech_cut_lengths(
    params: VadParams,
    activity: Seq<Activity>,
    audio_length: int,
    limit: i64,
)
    requires
        params.wf(),
        params.max_speech_samples == Some(limit),
        0 <= limit,
        0 <= audio_length,
        activity.len() == window_count(audio_length, params.window_size_sample as int),
        forall|i: int| 0 <= i < activity.len() ==> activity[i] == Activity::Speech,
    ensures
        each_at_most(
            params.raw_spans(activity, audio_length),
            limit + params.window_size_sample,
        ),
        each_longer_than(params.run(activity).1, limit as int),
        params.raw_spans(activity, audio_length).len() <= params.run(activity).1.len() + 1,
        separated(params.raw_spans(activity, audio_length)),
{
    lemma_run_all_speech_cuts(params, activity, limit);
    let w = params.window_size_sample as int;
    if w == 256 {
        assert(audio_length <= ((audio_length + 255) / 256) * 256);
    } else {
        assert(audio_length <= ((audio_length + 511) / 512) * 512);
    }
    assert(audio_length <= activity.len() * w);
    assert(activity.len() * w == (activity.len() - 1) * w + w) by (nonlinear_arith);
    let (st, out) = params.run(activity);
    let raw = params.raw_spans(activity, audio_length);
    assert forall|k: int| 0 <= k < raw.len() implies (#[trigger] raw[k]).end - raw[k].start
        <= limit + w by {
        if k < out.len() {
            assert(raw[k] == out[k]);
        }
    }
    assert forall|i: int, j: int| 0 <= i < j < raw.len() implies (#[trigger] raw[i]).end < (
    #[trigger] raw[j]).start by {
        assert(raw[i] == out[i]);
        if j < out.len() {
            assert(raw[j] == out[j]);
        }
    }
}

/// Without padding, forced cuts stay apart: in a buffer that is speech
/// throughout, no segment is longer than the longest speech and one window.
pub proof fn lemma_all_speech_unpadded_segments(
    params: VadParams,
    activity: Seq<Activity>,
    audio_length: int,
    limit: i64,
)
    requires
        params.wf(),
        params.speech_pad_samples == 0,
        params.max_speech_samples == Some(limit),
        0 <= limit,
        0 <= audio_length,
        activity.len() == window_count(audio_length, params.window_size_sample as int),
        forall|i: int| 0 <= i < activity.len() ==> activity[i] == Activity::Speech,
    ensures
        each_at_most(
            params.segmentation(activity, audio_length),
            limit + params.window_size_sample,
        ),
{
    lemma_all_speech_cut_lengths(params, activity, audio_length, limit);
    let w = params.window_size_sample as int;
    if w == 256 {
        assert((((audio_length + 255) / 256) - 1) * 256 < audio_length || audio_length == 0);
    } else {
        assert((((audio_length + 511) / 512) - 1) * 512 < audio_length || audio_length == 0);
    }
    params.lemma_raw_spans_ordered(activity, audio_length);
    let raw = params.raw_spans(activity, audio_length);
    let padded = params.padded(raw, audio_length);
    assert forall|k: int| 0 <= k < raw.len() implies (#[trigger] padded[k]) == raw[k] by {
        assert(0 <= raw[k].start <= raw[k].end <= audio_length);
        if k + 1 < raw.len() {
            assert(raw[k].end <= raw[k + 1].start);
        }
        if k > 0 {
            assert(raw[k - 1].end <= raw[k].start);
        }
    }
    assert(padded =~= raw);
    lemma_spans_at_most_merged(raw, limit + w);
}

/// Merging joins nothing where the stretches lie strictly apart, so it
/// makes none longer.
pub proof fn lemma_spans_at_most_merged(spans: Seq<Span>, bound: int)
    requires
        separated(spans),
        each_at_most(spans, bound),
        forall|k: int| 0 <= k < spans.len() ==> (#[trigger] spans[k]).start <= spans[k].end,
    ensures
        each_at_most(merged(spans), bound),
{
    assert forall|i: int, j: int| 0 <= i < j < spans.len() implies (#[trigger] spans[i]).start <= (
    #[trigger] spans[j]).start by {
        assert(spans[i].end < spans[j].start);
        assert(spans[i].start <= spans[i].end);
    }
    lemma_sorted_fixes_ascending(spans);
    lemma_swept_fixes_separated(spans);
}

} // verus!
