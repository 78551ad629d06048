use speech_pipeline::config::{lookup, parse_ng_words, split_commas, Config};

fn env(pairs: &[(&str, &str)]) -> Vec<(String, String)> {
    pairs.iter().map(|(key, value)| (key.to_string(), value.to_string())).collect()
}

#[test]
fn unset_variables_give_the_defaults() {
    let config = Config::from_vars(&Vec::new(), 6).unwrap();
    assert_eq!(config.host, "127.0.0.1");
    assert_eq!(config.port, 9000);
    assert_eq!(config.whisper_model_path, "./models/ggml-base.bin");
    assert_eq!(config.whisper_language, "ja");
    assert_eq!(config.whisper_threads, 6);
    assert_eq!(config.whisper_block_seconds, 30);
    assert_eq!(config.vad_model_path, "./models/silero_vad.onnx");
    assert_eq!(config.vad_threshold, "0.5");
    assert_eq!(config.vad_min_speech_duration_ms, 250);
    assert_eq!(config.vad_max_speech_duration_seconds, "inf");
    assert_eq!(config.vad_min_silence_duration_ms, 100);
    assert_eq!(config.vad_speech_pad_ms, 30);
    assert_eq!(config.sample_rate, 16000);
    assert_eq!(config.min_speech_samples, 8000);
    assert_eq!(config.max_silence_samples, 16000);
    assert_eq!(config.max_speech_samples, 48000);
    assert_eq!(config.ng_words, vec!["あ", "ん", "ご視聴ありがとうございました"]);
}

#[test]
fn set_variables_are_read() {
    let config = Config::from_vars(
        &env(&[
            ("HOST", "0.0.0.0"),
            ("PORT", "8080"),
            ("WHISPER_MODEL_PATH", "/m/w.bin"),
            ("WHISPER_LANGUAGE", "en"),
            ("WHISPER_THREADS", "3"),
            ("WHISPER_BLOCK_SECONDS", "10"),
            ("VAD_MODEL_PATH", "/m/v.onnx"),
            ("VAD_THRESHOLD", "0.35"),
            ("VAD_MIN_SPEECH_DURATION_MS", "+300"),
            ("VAD_MAX_SPEECH_DURATION_SECONDS", "20"),
            ("VAD_MIN_SILENCE_DURATION_MS", "200"),
            ("VAD_SPEECH_PAD_MS", "-5"),
            ("SAMPLE_RATE", "8000"),
            ("MIN_SPEECH_SAMPLES", "4000"),
            ("MAX_SILENCE_SAMPLES", "007"),
            ("MAX_SPEECH_SAMPLES", "99"),
            ("NG_WORDS", "um, uh ,,er"),
        ]),
        6,
    )
    .unwrap();
    assert_eq!(config.host, "0.0.0.0");
    assert_eq!(config.port, 8080);
    assert_eq!(config.whisper_model_path, "/m/w.bin");
    assert_eq!(config.whisper_language, "en");
    assert_eq!(config.whisper_threads, 3);
    assert_eq!(config.whisper_block_seconds, 10);
    assert_eq!(config.vad_model_path, "/m/v.onnx");
    assert_eq!(config.vad_threshold, "0.35");
    assert_eq!(config.vad_min_speech_duration_ms, 300);
    assert_eq!(config.vad_max_speech_duration_seconds, "20");
    assert_eq!(config.vad_min_silence_duration_ms, 200);
    assert_eq!(config.vad_speech_pad_ms, -5);
    assert_eq!(config.sample_rate, 8000);
    assert_eq!(config.min_speech_samples, 4000);
    assert_eq!(config.max_silence_samples, 7);
    assert_eq!(config.max_speech_samples, 99);
    assert_eq!(config.ng_words, vec!["um", "uh", "er"]);
}

fn bad_variable(pairs: &[(&str, &str)]) -> String {
    Config::from_vars(&env(pairs), 2).unwrap_err().variable
}

#[test]
fn a_number_that_does_not_parse_is_fatal() {
    assert_eq!(bad_variable(&[("PORT", "abc")]), "PORT");
    assert_eq!(bad_variable(&[("PORT", "65536")]), "PORT");
    assert_eq!(bad_variable(&[("WHISPER_THREADS", "many")]), "WHISPER_THREADS");
    assert_eq!(bad_variable(&[("WHISPER_BLOCK_SECONDS", "-1")]), "WHISPER_BLOCK_SECONDS");
    assert_eq!(
        bad_variable(&[("VAD_MIN_SPEECH_DURATION_MS", " 250")]),
        "VAD_MIN_SPEECH_DURATION_MS"
    );
    assert_eq!(
        bad_variable(&[("VAD_MIN_SILENCE_DURATION_MS", "2147483648")]),
        "VAD_MIN_SILENCE_DURATION_MS"
    );
    assert_eq!(bad_variable(&[("VAD_SPEECH_PAD_MS", "3.5")]), "VAD_SPEECH_PAD_MS");
    assert_eq!(bad_variable(&[("SAMPLE_RATE", "16k")]), "SAMPLE_RATE");
    assert_eq!(bad_variable(&[("SAMPLE_RATE", "")]), "SAMPLE_RATE");
    assert_eq!(bad_variable(&[("MIN_SPEECH_SAMPLES", "+")]), "MIN_SPEECH_SAMPLES");
    assert_eq!(bad_variable(&[("MAX_SILENCE_SAMPLES", "1_000")]), "MAX_SILENCE_SAMPLES");
    assert_eq!(bad_variable(&[("MAX_SPEECH_SAMPLES", "0x10")]), "MAX_SPEECH_SAMPLES");
    assert!(Config::from_env(&env(&[("PORT", "abc")])).is_err());
}

#[test]
fn the_first_bad_variable_in_the_order_of_the_settings_is_named() {
    assert_eq!(bad_variable(&[("SAMPLE_RATE", "x"), ("PORT", "y")]), "PORT");
    assert_eq!(
        bad_variable(&[("MAX_SPEECH_SAMPLES", "x"), ("HOST", "h"), ("VAD_SPEECH_PAD_MS", "y")]),
        "VAD_SPEECH_PAD_MS"
    );
    let error = Config::from_vars(&env(&[("PORT", "abc")]), 2).unwrap_err();
    assert_eq!(error.message(), "Not a number that the setting can take: PORT");
}

#[test]
fn texts_are_taken_as_they_are() {
    let config =
        Config::from_vars(&env(&[("VAD_THRESHOLD", "high"), ("HOST", ""), ("NG_WORDS", "")]), 2)
            .unwrap();
    assert_eq!(config.vad_threshold, "high");
    assert_eq!(config.host, "");
    assert!(config.ng_words.is_empty());
    assert_eq!(config.port, 9000);
}

#[test]
fn numbers_at_the_limits_are_read() {
    let config = Config::from_vars(
        &env(&[
            ("PORT", "65535"),
            ("VAD_MIN_SPEECH_DURATION_MS", "-2147483648"),
            ("VAD_MIN_SILENCE_DURATION_MS", "2147483647"),
            ("VAD_SPEECH_PAD_MS", "-0"),
            ("MIN_SPEECH_SAMPLES", "0"),
        ]),
        1,
    )
    .unwrap();
    assert_eq!(config.port, 65535);
    assert_eq!(config.vad_min_speech_duration_ms, i32::MIN);
    assert_eq!(config.vad_min_silence_duration_ms, i32::MAX);
    assert_eq!(config.vad_speech_pad_ms, 0);
    assert_eq!(config.min_speech_samples, 0);
}

#[test]
fn the_thread_count_comes_from_the_machine_where_it_is_not_set() {
    let set = Config::from_env(&env(&[("WHISPER_THREADS", "5"), ("PORT", "1234")])).unwrap();
    assert_eq!(set.whisper_threads, 5);
    assert_eq!(set.port, 1234);
    let unset = Config::from_env(&Vec::new()).unwrap();
    assert_eq!(unset.port, 9000);
    assert_eq!(unset.host, "127.0.0.1");
}

#[test]
fn the_first_variable_of_a_name_counts() {
    let vars = env(&[("A", "1"), ("B", "2"), ("A", "3")]);
    assert_eq!(lookup(&vars, "A").as_deref(), Some("1"));
    assert_eq!(lookup(&vars, "B").as_deref(), Some("2"));
    assert_eq!(lookup(&vars, "C"), None);
    assert_eq!(lookup(&vars, "a"), None);
}

#[test]
fn a_text_has_one_field_more_than_commas() {
    assert_eq!(split_commas("a,b"), vec!["a", "b"]);
    assert_eq!(split_commas(""), vec![""]);
    assert_eq!(split_commas(","), vec!["", ""]);
    assert_eq!(split_commas(" a ,,b,"), vec![" a ", "", "b", ""]);
}

#[test]
fn words_to_leave_out_are_trimmed_and_empty_ones_dropped() {
    assert_eq!(parse_ng_words(" a , ,b,,"), vec!["a", "b"]);
    assert!(parse_ng_words("").is_empty());
    assert!(parse_ng_words(" , ,").is_empty());
    assert_eq!(parse_ng_words("あ,ん"), vec!["あ", "ん"]);
}
