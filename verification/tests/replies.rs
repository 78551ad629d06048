use speech_pipeline::reply::{
    duration_hundredths, error_reply, escape, no_speech_reply, push_fixed2, transcript_reply,
    transcription_reply,
};
use speech_pipeline::transcript::{
    assemble, is_ng_word, transcribe, EngineSegment, SubSegment, Transcript,
};

fn fixed2(hundredths: i128) -> String {
    let mut out = String::new();
    push_fixed2(&mut out, hundredths);
    out
}

fn piece(text: &str, start: i64, end: i64) -> EngineSegment {
    EngineSegment { text: text.to_string(), start, end }
}

fn words(list: &[&str]) -> Vec<String> {
    list.iter().map(|word| word.to_string()).collect()
}

#[test]
fn quotes_and_line_feeds_are_escaped() {
    assert_eq!(escape("plain"), "plain");
    assert_eq!(escape("say \"hi\"\nnow"), "say \\\"hi\\\"\\nnow");
    assert_eq!(escape(""), "");
    assert_eq!(escape("tab\tand \\ stay"), "tab\tand \\ stay");
    assert_eq!(escape("こんにちは\n"), "こんにちは\\n");
}

#[test]
fn hundredths_are_written_with_two_decimals() {
    assert_eq!(fixed2(0), "0.00");
    assert_eq!(fixed2(5), "0.05");
    assert_eq!(fixed2(70), "0.70");
    assert_eq!(fixed2(1234), "12.34");
    assert_eq!(fixed2(100), "1.00");
    assert_eq!(fixed2(-5), "-0.05");
    assert_eq!(fixed2(-12345), "-123.45");
    assert_eq!(fixed2(i64::MAX as i128), "92233720368547758.07");
    assert_eq!(fixed2(i128::MIN), "-1701411834604692317316873037158841057.28");
}

#[test]
fn durations_are_rounded_to_the_nearest_hundredth() {
    assert_eq!(duration_hundredths(11200, 16000), 70);
    assert_eq!(duration_hundredths(16000, 16000), 100);
    assert_eq!(duration_hundredths(0, 16000), 0);
    assert_eq!(duration_hundredths(79, 16000), 0);
    assert_eq!(duration_hundredths(80, 16000), 1);
    assert_eq!(duration_hundredths(480000, 16000), 3000);
    assert_eq!(duration_hundredths(8000, 8000), 100);
}

#[test]
fn an_error_reply_holds_the_escaped_message() {
    assert_eq!(error_reply("boom"), "{\"error\": \"boom\"}");
    assert_eq!(
        error_reply("Failed to create state: \"x\"\n"),
        "{\"error\": \"Failed to create state: \\\"x\\\"\\n\"}"
    );
}

#[test]
fn no_speech_is_reported_with_the_duration() {
    assert_eq!(
        no_speech_reply(70),
        "{\"transcription\": \"\", \"message\": \"No speech detected\", \"duration\": 0.70}"
    );
}

#[test]
fn a_transcription_is_reported_with_its_pieces() {
    let segments = vec![
        SubSegment { start: 0, end: 150, text: "hello".to_string() },
        SubSegment { start: 150, end: 305, text: "\"world\"".to_string() },
    ];
    assert_eq!(
        transcription_reply("hello \"world\"", &segments, 320),
        "{\"transcription\": \"hello \\\"world\\\"\", \"segments\": [{\"start\": 0.00, \"end\": 1.50, \"text\": \"hello\"},{\"start\": 1.50, \"end\": 3.05, \"text\": \"\\\"world\\\"\"}], \"duration\": 3.20}"
    );
    assert_eq!(
        transcription_reply("x", &Vec::new(), 1),
        "{\"transcription\": \"x\", \"segments\": [], \"duration\": 0.01}"
    );
}

#[test]
fn an_empty_transcription_is_reported_as_no_speech() {
    let silent = Transcript { text: String::new(), segments: Vec::new(), duration: 250 };
    assert_eq!(transcript_reply(&silent), no_speech_reply(250));
    let spoken = Transcript {
        text: "hi".to_string(),
        segments: vec![SubSegment { start: 10, end: 20, text: "hi".to_string() }],
        duration: 70,
    };
    assert_eq!(
        transcript_reply(&spoken),
        "{\"transcription\": \"hi\", \"segments\": [{\"start\": 0.10, \"end\": 0.20, \"text\": \"hi\"}], \"duration\": 0.70}"
    );
}

#[test]
fn words_to_leave_out_are_matched_letter_for_letter() {
    let ng = words(&["um", "あ"]);
    assert!(is_ng_word(&"um".to_string(), &ng));
    assert!(is_ng_word(&"あ".to_string(), &ng));
    assert!(!is_ng_word(&"Um".to_string(), &ng));
    assert!(!is_ng_word(&"umm".to_string(), &ng));
    assert!(!is_ng_word(&"um".to_string(), &Vec::new()));
}

#[test]
fn pieces_are_joined_with_a_space_behind_each() {
    let pieces = vec![piece("hello", 0, 50), piece("um", 50, 60), piece("world", 60, 120)];
    let (text, segments) = assemble(&pieces, &words(&["um"]));
    assert_eq!(text, "hello world ");
    assert_eq!(segments.len(), 2);
    assert_eq!((segments[0].start, segments[0].end, segments[0].text.as_str()), (0, 50, "hello"));
    assert_eq!((segments[1].start, segments[1].end, segments[1].text.as_str()), (60, 120, "world"));
}

#[test]
fn filtered_words_leave_the_transcription() {
    let engine = vec![piece("hello", 0, 50), piece("um", 50, 60), piece("world", 60, 120)];
    let transcript = transcribe(&engine, &words(&["um"]), 19200, 16000);
    assert_eq!(transcript.text, "hello world");
    assert_eq!(transcript.segments.len(), 2);
    assert_eq!(transcript.duration, 120);
}

#[test]
fn texts_are_trimmed_before_they_are_compared_and_joined() {
    let engine = vec![piece("  hello ", 0, 50), piece(" um\n", 50, 60), piece("\tworld", 60, 120)];
    let transcript = transcribe(&engine, &words(&["um"]), 11200, 16000);
    assert_eq!(transcript.text, "hello world");
    assert_eq!(transcript.segments[0].text, "hello");
    assert_eq!(transcript.segments[1].text, "world");
    assert_eq!(transcript.segments[1].start, 60);
    assert_eq!(transcript.duration, 70);
    let kept = transcribe(&engine, &words(&[" um\n"]), 11200, 16000);
    assert_eq!(kept.text, "hello um world");
}

#[test]
fn nothing_recognised_gives_an_empty_transcription() {
    let transcript = transcribe(&vec![piece(" um ", 0, 10)], &words(&["um"]), 8000, 16000);
    assert_eq!(transcript.text, "");
    assert!(transcript.segments.is_empty());
    assert_eq!(
        transcript_reply(&transcript),
        "{\"transcription\": \"\", \"message\": \"No speech detected\", \"duration\": 0.50}"
    );
    let empty = transcribe(&Vec::new(), &Vec::new(), 0, 16000);
    assert_eq!(empty.text, "");
    assert_eq!(empty.duration, 0);
}
