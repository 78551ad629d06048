use speech_pipeline::config::{drop_empty, parse_ng_words, trim_each};
use speech_pipeline::transcript::{trim_text, white_space};

fn words(list: &[&str]) -> Vec<String> {
    list.iter().map(|word| word.to_string()).collect()
}

#[test]
fn white_space_is_what_the_standard_library_calls_white_space() {
    let mut count = 0;
    for code in 0..=0x10ffffu32 {
        if let Some(ch) = char::from_u32(code) {
            assert_eq!(white_space(ch), ch.is_whitespace(), "U+{:04X}", code);
            if white_space(ch) {
                count += 1;
            }
        }
    }
    assert_eq!(count, 25);
}

#[test]
fn trimming_agrees_with_the_standard_library() {
    let samples = [
        "",
        " ",
        "a",
        "  hello ",
        " um\n",
        "\tworld",
        "a b",
        " a  b \r\n",
        "\u{3000}こんにちは\u{2003}",
        "\u{85}x\u{a0}",
        "\u{200b}zero width is kept\u{200b}",
        "   ",
        "\n\n",
        "x\u{1680}",
    ];
    for sample in samples {
        assert_eq!(trim_text(sample), sample.trim(), "{:?}", sample);
    }
    for code in 0..=0x10ffffu32 {
        if let Some(ch) = char::from_u32(code) {
            let text = format!("{}a {}b{}", ch, ch, ch);
            assert_eq!(trim_text(&text), text.trim());
        }
    }
}

#[test]
fn trimmed_texts_are_what_is_left_between_the_white_space() {
    assert_eq!(trim_text("  hello "), "hello");
    assert_eq!(trim_text(" um\n"), "um");
    assert_eq!(trim_text("a  b"), "a  b");
    assert_eq!(trim_text(" \t "), "");
}

#[test]
fn each_field_is_trimmed_and_empty_words_are_dropped() {
    assert_eq!(trim_each(&words(&[" um", " ", "uh ", "", ""])), words(&["um", "", "uh", "", ""]));
    assert_eq!(drop_empty(words(&["um", "", "uh", "", ""])), words(&["um", "uh"]));
    assert_eq!(drop_empty(words(&[" "])), words(&[" "]));
    assert!(drop_empty(Vec::new()).is_empty());
    assert_eq!(parse_ng_words(" um, ,uh ,,"), words(&["um", "uh"]));
}
