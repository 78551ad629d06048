//! The settings of the server and how they are read from the variables of
//! the environment.

use vstd::prelude::*;
use vstd::string::StringExecFns;
use crate::transcript::{trimmed, trim_text, words_of};

verus! {

/// The settings of the server.
///
/// The detection threshold and the longest speech are kept as the texts
/// that were configured: they are fractional numbers, which are read where
/// the model is run.
#[derive(Debug)]
pub struct Config {
    pub host: String,
    pub port: u16,
    pub whisper_model_path: String,
    pub whisper_language: String,
    pub whisper_threads: usize,
    pub whisper_block_seconds: usize,
    pub vad_model_path: String,
    pub vad_threshold: String,
    pub vad_min_speech_duration_ms: i32,
    pub vad_max_speech_duration_seconds: String,
    pub vad_min_silence_duration_ms: i32,
    pub vad_speech_pad_ms: i32,
    pub sample_rate: i32,
    pub min_speech_samples: usize,
    pub max_silence_samples: usize,
    pub max_speech_samples: usize,
    /// Texts that are left out of a transcription.
    pub ng_words: Vec<String>,
}

/// The variables of an environment as pairs of texts.
pub open spec fn pairs_of(env: Seq<(String, String)>) -> Seq<(Seq<char>, Seq<char>)> {
    env.map_values(|pair: (String, String)| (pair.0@, pair.1@))
}

/// The value of the first variable named `key`, if there is one.
pub open spec fn value_of(env: Seq<(Seq<char>, Seq<char>)>, key: Seq<char>) -> Option<Seq<char>>
    decreases env.len(),
{
    if env.len() == 0 {
        None
    } else if env[0].0 == key {
        Some(env[0].1)
    } else {
        value_of(env.drop_first(), key)
    }
}

/// The value of a decimal digit, if the character is one.
pub open spec fn digit_value(ch: char) -> Option<int> {
    if ch == '0' {
        Some(0)
    } else if ch == '1' {
        Some(1)
    } else if ch == '2' {
        Some(2)
    } else if ch == '3' {
        Some(3)
    } else if ch == '4' {
        Some(4)
    } else if ch == '5' {
        Some(5)
    } else if ch == '6' {
        Some(6)
    } else if ch == '7' {
        Some(7)
    } else if ch == '8' {
        Some(8)
    } else if ch == '9' {
        Some(9)
    } else {
        None
    }
}

/// The number that a text of decimal digits stands for; `None` for the
/// empty text and for a text that holds anything but digits.
pub open spec fn digits_value(text: Seq<char>) -> Option<nat>
    decreases text.len(),
{
    if text.len() == 0 {
        None
    } else if digit_value(text.last()) is None {
        None
    } else if text.len() == 1 {
        Some(digit_value(text.last()).unwrap() as nat)
    } else {
        match digits_value(text.drop_last()) {
            Some(front) => Some((front * 10 + digit_value(text.last()).unwrap()) as nat),
            None => None,
        }
    }
}

/// The number that a text stands for: digits, with a plus sign before them
/// or none, or a minus sign where `signed`; `None` for any other text.
pub open spec fn number_of(text: Seq<char>, signed: bool) -> Option<int> {
    if text.len() > 0 && text[0] == '+' {
        match digits_value(text.skip(1)) {
            Some(value) => Some(value as int),
            None => None,
        }
    } else if signed && text.len() > 0 && text[0] == '-' {
        match digits_value(text.skip(1)) {
            Some(value) => Some(-(value as int)),
            None => None,
        }
    } else {
        match digits_value(text) {
            Some(value) => Some(value as int),
            None => None,
        }
    }
}

/// The number that a text stands for if it lies between `low` and `high`.
pub open spec fn number_within(text: Seq<char>, low: int, high: int) -> Option<int> {
    match number_of(text, low < 0) {
        Some(value) => if low <= value <= high {
            Some(value)
        } else {
            None
        },
        None => None,
    }
}

/// The value of a decimal digit, if the character is one.
pub fn digit_of(ch: char) -> (value: Option<u8>)
    ensures
        match value {
            Some(digit) => digit_value(ch) == Some(digit as int),
            None => digit_value(ch) is None,
        },
{
    match ch {
        '0' => Some(0),
        '1' => Some(1),
        '2' => Some(2),
        '3' => Some(3),
        '4' => Some(4),
        '5' => Some(5),
        '6' => Some(6),
        '7' => Some(7),
        '8' => Some(8),
        '9' => Some(9),
        _ => None,
    }
}

/// A text that holds anything but digits stands for no number.
pub proof fn lemma_digits_only(text: Seq<char>, at: int)
    requires
        0 <= at < text.len(),
        digit_value(text[at]) is None,
    ensures
        digits_value(text) is None,
    decreases text.len(),
{
    if at < text.len() - 1 {
        assert(text.drop_last()[at] == text[at]);
        lemma_digits_only(text.drop_last(), at);
    }
}

/// Reads a number between `low` and `high` from a text of decimal digits,
/// which may have a plus sign before them, or a minus sign where `low` is
/// negative. White space, an empty text and anything else is no number.
pub fn parse_within(text: &str, low: i128, high: i128) -> (parsed: Option<i128>)
    requires
        -0x1_0000_0000_0000_0000 <= low <= 0 <= high <= 0x1_0000_0000_0000_0000,
    ensures
        match parsed {
            Some(value) => number_within(text@, low as int, high as int) == Some(value as int),
            None => number_within(text@, low as int, high as int) is None,
        },
{
    let cap: u128 = if high >= -low {
        high as u128
    } else {
        (-low) as u128
    };
    let mut first = true;
    let mut negative = false;
    let mut any = false;
    let mut big = false;
    let mut value: u128 = 0;
    let ghost mut skipped: int = 0;
    for ch in iter: text.chars()
        invariant
            iter.seq() == text@,
            -0x1_0000_0000_0000_0000 <= low <= 0 <= high <= 0x1_0000_0000_0000_0000,
            cap == if high >= -low {
                high as int
            } else {
                -low as int
            },
            first == (iter.index() == 0),
            0 <= skipped <= 1,
            skipped <= iter.index(),
            skipped == 1 ==> (text@[0] == '+' && !negative) || (text@[0] == '-' && negative && low
                < 0),
            skipped == 0 ==> !negative,
            skipped == 0 && iter.index() > 0 ==> text@[0] != '+' && !(text@[0] == '-' && low < 0),
            any == (iter.index() > skipped),
            !any ==> value == 0 && !big,
            any ==> digits_value(text@.subrange(skipped, iter.index() as int)) is Some,
            any && !big ==> digits_value(text@.subrange(skipped, iter.index() as int)) == Some(
                value as nat,
            ) && value <= cap,
            any && big ==> digits_value(text@.subrange(skipped, iter.index() as int)).unwrap()
                > cap,
    {
        let ghost index = iter.index() as int;
        if first && ch == '+' {
            proof {
                skipped = 1;
            }
        } else if first && ch == '-' && low < 0 {
            negative = true;
            proof {
                skipped = 1;
            }
        } else {
            let ghost seen = text@.subrange(skipped, index);
            let ghost now = text@.subrange(skipped, index + 1);
            proof {
                assert(now.drop_last() =~= seen);
                assert(now.last() == ch);
            }
            match digit_of(ch) {
                None => {
                    proof {
                        let body = text@.skip(skipped);
                        assert(body[index - skipped] == ch);
                        lemma_digits_only(body, index - skipped);
                        if skipped == 0 {
                            assert(body =~= text@);
                        }
                    }
                    return None;
                },
                Some(digit) => {
                    if !big {
                        let next = value * 10 + digit as u128;
                        if next > cap {
                            big = true;
                        } else {
                            value = next;
                        }
                    }
                    any = true;
                },
            }
        }
        first = false;
    }
    proof {
        let body = text@.skip(skipped);
        assert(text@.subrange(skipped, text@.len() as int) =~= body);
        if skipped == 0 {
            assert(body =~= text@);
        }
    }
    if !any || big {
        None
    } else if negative {
        let signed = -(value as i128);
        if signed >= low {
            Some(signed)
        } else {
            None
        }
    } else if value <= high as u128 {
        Some(value as i128)
    } else {
        None
    }
}

/// Calls `num_cpus::get`, the number of logical processors that this
/// process may use. The number depends on the machine, so nothing is
/// claimed of it.
#[verifier::external_body]
fn available_cpus() -> (cpus: usize) {
    num_cpus::get()
}

/// The value of the first variable named `key`.
pub fn lookup(env: &Vec<(String, String)>, key: &str) -> (found: Option<String>)
    ensures
        match found {
            Some(value) => value_of(pairs_of(env@), key@) == Some(value@),
            None => value_of(pairs_of(env@), key@) is None,
        },
{
    let name = String::from_str(key);
    let ghost all = pairs_of(env@);
    let mut i: usize = 0;
    assert(all.skip(0) =~= all);
    while i < env.len()
        invariant
            i <= env.len(),
            name@ == key@,
            all == pairs_of(env@),
            value_of(all, key@) == value_of(all.skip(i as int), key@),
        decreases env.len() - i,
    {
        proof {
            assert(all.skip(i as int)[0] == all[i as int]);
            assert(all.skip(i as int).drop_first() =~= all.skip(i + 1));
        }
        if env[i].0 == name {
            return Some(env[i].1.clone());
        }
        i += 1;
    }
    None
}

/// The fields of a text that commas separate: one more than it has commas.
pub open spec fn comma_fields(text: Seq<char>) -> Seq<Seq<char>>
    decreases text.len(),
{
    if text.len() == 0 {
        seq![Seq::<char>::empty()]
    } else {
        let front = comma_fields(text.drop_last());
        if text.last() == ',' {
            front.push(Seq::<char>::empty())
        } else {
            front.drop_last().push(front.last().push(text.last()))
        }
    }
}

/// The words that are not empty, in order.
pub open spec fn nonempty_words(words: Seq<Seq<char>>) -> Seq<Seq<char>>
    decreases words.len(),
{
    if words.len() == 0 {
        Seq::empty()
    } else if words.last().len() == 0 {
        nonempty_words(words.drop_last())
    } else {
        nonempty_words(words.drop_last()).push(words.last())
    }
}

/// Each field trimmed, and those left out that are empty then.
pub open spec fn trimmed_fields(fields: Seq<Seq<char>>) -> Seq<Seq<char>> {
    nonempty_words(fields.map_values(|field: Seq<char>| trimmed(field)))
}

/// Splits a text at its commas.
pub fn split_commas(text: &str) -> (fields: Vec<String>)
    ensures
        words_of(fields@) == comma_fields(text@),
{
    let mut fields: Vec<String> = Vec::new();
    let mut current = String::new();
    assert(text@.take(0) =~= Seq::<char>::empty());
    assert(words_of(fields@).push(current@) =~= comma_fields(text@.take(0)));
    for ch in iter: text.chars()
        invariant
            iter.seq() == text@,
            words_of(fields@).push(current@) == comma_fields(text@.take(iter.index() as int)),
    {
        let ghost done = words_of(fields@);
        proof {
            let seen = text@.take(iter.index() + 1);
            assert(seen.drop_last() =~= text@.take(iter.index() as int));
            assert(seen.last() == ch);
            assert(done.push(current@).drop_last() =~= done);
        }
        if ch == ',' {
            let mut closed = String::new();
            std::mem::swap(&mut closed, &mut current);
            fields.push(closed);
            assert(words_of(fields@) =~= done.push(closed@));
        } else {
            current.push(ch);
        }
        assert(words_of(fields@).push(current@) =~= comma_fields(text@.take(iter.index() + 1)));
    }
    assert(text@.take(text@.len() as int) =~= text@);
    let ghost done = words_of(fields@);
    fields.push(current);
    assert(words_of(fields@) =~= done.push(current@));
    fields
}

/// Each of the texts trimmed.
pub fn trim_each(fields: &Vec<String>) -> (words: Vec<String>)
    ensures
        words_of(words@) == words_of(fields@).map_values(|field: Seq<char>| trimmed(field)),
{
    let mut words: Vec<String> = Vec::new();
    let mut i: usize = 0;
    while i < fields.len()
        invariant
            i <= fields.len(),
            words.len() == i,
            forall|k: int| 0 <= k < i ==> (#[trigger] words@[k])@ == trimmed(fields@[k]@),
        decreases fields.len() - i,
    {
        words.push(trim_text(fields[i].as_str()));
        i += 1;
    }
    assert(words_of(words@) =~= words_of(fields@).map_values(|field: Seq<char>| trimmed(field)));
    words
}

/// The words that are not empty, in order.
pub fn drop_empty(words: Vec<String>) -> (kept: Vec<String>)
    ensures
        words_of(kept@) == nonempty_words(words_of(words@)),
{
    let ghost all = words_of(words@);
    let mut kept: Vec<String> = Vec::new();
    let mut i: usize = 0;
    assert(all.take(0) =~= Seq::<Seq<char>>::empty());
    while i < words.len()
        invariant
            i <= words.len(),
            all == words_of(words@),
            words_of(kept@) =~= nonempty_words(all.take(i as int)),
        decreases words.len() - i,
    {
        proof {
            assert(all.take(i + 1).drop_last() =~= all.take(i as int));
            assert(all.take(i + 1).last() == words@[i as int]@);
        }
        if !words[i].as_str().is_empty() {
            let ghost before = words_of(kept@);
            let word = words[i].clone();
            kept.push(word);
            assert(words_of(kept@) =~= before.push(word@));
        }
        i += 1;
    }
    assert(all.take(words.len() as int) =~= all);
    kept
}

/// The words to leave out of a transcription, from the text that lists
/// them with commas between them: each word trimmed, empty ones dropped.
pub fn parse_ng_words(text: &str) -> (words: Vec<String>)
    ensures
        words_of(words@) == trimmed_fields(comma_fields(text@)),
{
    drop_empty(trim_each(&split_commas(text)))
}

/// The value of the variable `key`, or `default` where it is not set.
pub open spec fn text_setting(
    env: Seq<(Seq<char>, Seq<char>)>,
    key: Seq<char>,
    default: Seq<char>,
) -> Seq<char> {
    match value_of(env, key) {
        Some(value) => value,
        None => default,
    }
}

/// A variable that is set but holds no number that its setting can take.
/// It is fatal: no settings are made from such an environment.
#[derive(Debug)]
pub struct ConfigError {
    /// The name of the variable.
    pub variable: String,
}

/// The variable `key` is set and holds no number between `low` and `high`.
pub open spec fn bad_number(
    env: Seq<(Seq<char>, Seq<char>)>,
    key: Seq<char>,
    low: int,
    high: int,
) -> bool {
    match value_of(env, key) {
        Some(value) => number_within(value, low, high) is None,
        None => false,
    }
}

/// The number that the variable `key` holds, or `default` where it is not
/// set. A variable that is set has no default.
pub open spec fn number_setting(
    env: Seq<(Seq<char>, Seq<char>)>,
    key: Seq<char>,
    low: int,
    high: int,
    default: int,
) -> Option<int> {
    match value_of(env, key) {
        Some(value) => number_within(value, low, high),
        None => Some(default),
    }
}

/// The first of the numeric variables, in the order of the settings, that
/// is set and holds no number that its setting can take.
pub open spec fn first_bad_variable(env: Seq<(Seq<char>, Seq<char>)>) -> Option<Seq<char>> {
    if bad_number(env, "PORT"@, 0, u16::MAX as int) {
        Some("PORT"@)
    } else if bad_number(env, "WHISPER_THREADS"@, 0, usize::MAX as int) {
        Some("WHISPER_THREADS"@)
    } else if bad_number(env, "WHISPER_BLOCK_SECONDS"@, 0, usize::MAX as int) {
        Some("WHISPER_BLOCK_SECONDS"@)
    } else if bad_number(env, "VAD_MIN_SPEECH_DURATION_MS"@, i32::MIN as int, i32::MAX as int) {
        Some("VAD_MIN_SPEECH_DURATION_MS"@)
    } else if bad_number(env, "VAD_MIN_SILENCE_DURATION_MS"@, i32::MIN as int, i32::MAX as int) {
        Some("VAD_MIN_SILENCE_DURATION_MS"@)
    } else if bad_number(env, "VAD_SPEECH_PAD_MS"@, i32::MIN as int, i32::MAX as int) {
        Some("VAD_SPEECH_PAD_MS"@)
    } else if bad_number(env, "SAMPLE_RATE"@, i32::MIN as int, i32::MAX as int) {
        Some("SAMPLE_RATE"@)
    } else if bad_number(env, "MIN_SPEECH_SAMPLES"@, 0, usize::MAX as int) {
        Some("MIN_SPEECH_SAMPLES"@)
    } else if bad_number(env, "MAX_SILENCE_SAMPLES"@, 0, usize::MAX as int) {
        Some("MAX_SILENCE_SAMPLES"@)
    } else if bad_number(env, "MAX_SPEECH_SAMPLES"@, 0, usize::MAX as int) {
        Some("MAX_SPEECH_SAMPLES"@)
    } else {
        None
    }
}

/// The words that are left out of a transcription where none are
/// configured.
pub open spec fn default_ng_words() -> Seq<char> {
    "あ,ん,ご視聴ありがとうございました"@
}

/// The value of the variable `key`, or `default` where it is not set.
pub fn text_or(env: &Vec<(String, String)>, key: &str, default: &str) -> (value: String)
    ensures
        value@ == text_setting(pairs_of(env@), key@, default@),
{
    match lookup(env, key) {
        Some(value) => value,
        None => String::from_str(default),
    }
}

/// The number between `low` and `high` in the variable `key`, or `default`
/// where the variable is not set. A variable that is set and holds no such
/// number is an error.
pub fn number_or(env: &Vec<(String, String)>, key: &str, low: i128, high: i128, default: i128) -> (value:
    Result<i128, ConfigError>)
    requires
        -0x1_0000_0000_0000_0000 <= low <= 0 <= high <= 0x1_0000_0000_0000_0000,
        low <= default <= high,
    ensures
        match value {
            Ok(number) => low <= number <= high && number_setting(
                pairs_of(env@),
                key@,
                low as int,
                high as int,
                default as int,
            ) == Some(number as int),
            Err(error) => bad_number(pairs_of(env@), key@, low as int, high as int)
                && error.variable@ == key@,
        },
{
    match lookup(env, key) {
        Some(text) => match parse_within(text.as_str(), low, high) {
            Some(number) => Ok(number),
            None => Err(ConfigError { variable: String::from_str(key) }),
        },
        None => Ok(default),
    }
}

/// The number in the variable `key`, or `default` where it is not set.
pub fn u16_or(env: &Vec<(String, String)>, key: &str, default: u16) -> (value: Result<
    u16,
    ConfigError,
>)
    ensures
        match value {
            Ok(number) => number_setting(
                pairs_of(env@),
                key@,
                0,
                u16::MAX as int,
                default as int,
            ) == Some(number as int),
            Err(error) => bad_number(pairs_of(env@), key@, 0, u16::MAX as int) && error.variable@
                == key@,
        },
{
    match number_or(env, key, 0, u16::MAX as i128, default as i128) {
        Ok(number) => Ok(number as u16),
        Err(error) => Err(error),
    }
}

/// The number in the variable `key`, or `default` where it is not set.
pub fn usize_or(env: &Vec<(String, String)>, key: &str, default: usize) -> (value: Result<
    usize,
    ConfigError,
>)
    ensures
        match value {
            Ok(number) => number_setting(
                pairs_of(env@),
                key@,
                0,
                usize::MAX as int,
                default as int,
            ) == Some(number as int),
            Err(error) => bad_number(pairs_of(env@), key@, 0, usize::MAX as int)
                && error.variable@ == key@,
        },
{
    match number_or(env, key, 0, usize::MAX as i128, default as i128) {
        Ok(number) => Ok(number as usize),
        Err(error) => Err(error),
    }
}

/// The number in the variable `key`, or `default` where it is not set.
pub fn i32_or(env: &Vec<(String, String)>, key: &str, default: i32) -> (value: Result<
    i32,
    ConfigError,
>)
    ensures
        match value {
            Ok(number) => number_setting(
                pairs_of(env@),
                key@,
                i32::MIN as int,
                i32::MAX as int,
                default as int,
            ) == Some(number as int),
            Err(error) => bad_number(pairs_of(env@), key@, i32::MIN as int, i32::MAX as int)
                && error.variable@ == key@,
        },
{
    match number_or(env, key, i32::MIN as i128, i32::MAX as i128, default as i128) {
        Ok(number) => Ok(number as i32),
        Err(error) => Err(error),
    }
}

impl ConfigError {
    /// What the error says, in words.
    pub open spec fn text(self) -> Seq<char> {
        "Not a number that the setting can take: "@ + self.variable@
    }

    /// What the error says, in words.
    pub fn message(&self) -> (message: String)
        ensures
            message@ == self.text(),
    {
        let mut message = String::from_str("Not a number that the setting can take: ");
        message.append(self.variable.as_str());
        message
    }
}

impl Config {
    /// These are the settings that the variables `env` give on a machine
    /// with `cpus` processors: each setting is the value of its variable,
    /// or its default where the variable is not set.
    pub open spec fn read_from(self, env: Seq<(Seq<char>, Seq<char>)>, cpus: int) -> bool {
        &&& self.host@ == text_setting(env, "HOST"@, "127.0.0.1"@)
        &&& number_setting(env, "PORT"@, 0, u16::MAX as int, 9000) == Some(self.port as int)
        &&& self.whisper_model_path@ == text_setting(
            env,
            "WHISPER_MODEL_PATH"@,
            "./models/ggml-base.bin"@,
        )
        &&& self.whisper_language@ == text_setting(env, "WHISPER_LANGUAGE"@, "ja"@)
        &&& number_setting(env, "WHISPER_THREADS"@, 0, usize::MAX as int, cpus) == Some(
            self.whisper_threads as int,
        )
        &&& number_setting(env, "WHISPER_BLOCK_SECONDS"@, 0, usize::MAX as int, 30) == Some(
            self.whisper_block_seconds as int,
        )
        &&& self.vad_model_path@ == text_setting(
            env,
            "VAD_MODEL_PATH"@,
            "./models/silero_vad.onnx"@,
        )
        &&& self.vad_threshold@ == text_setting(env, "VAD_THRESHOLD"@, "0.5"@)
        &&& number_setting(
            env,
            "VAD_MIN_SPEECH_DURATION_MS"@,
            i32::MIN as int,
            i32::MAX as int,
            250,
        ) == Some(self.vad_min_speech_duration_ms as int)
        &&& self.vad_max_speech_duration_seconds@ == text_setting(
            env,
            "VAD_MAX_SPEECH_DURATION_SECONDS"@,
            "inf"@,
        )
        &&& number_setting(
            env,
            "VAD_MIN_SILENCE_DURATION_MS"@,
            i32::MIN as int,
            i32::MAX as int,
            100,
        ) == Some(self.vad_min_silence_duration_ms as int)
        &&& number_setting(env, "VAD_SPEECH_PAD_MS"@, i32::MIN as int, i32::MAX as int, 30)
            == Some(self.vad_speech_pad_ms as int)
        &&& number_setting(env, "SAMPLE_RATE"@, i32::MIN as int, i32::MAX as int, 16000) == Some(
            self.sample_rate as int,
        )
        &&& number_setting(env, "MIN_SPEECH_SAMPLES"@, 0, usize::MAX as int, 8000) == Some(
            self.min_speech_samples as int,
        )
        &&& number_setting(env, "MAX_SILENCE_SAMPLES"@, 0, usize::MAX as int, 16000) == Some(
            self.max_silence_samples as int,
        )
        &&& number_setting(env, "MAX_SPEECH_SAMPLES"@, 0, usize::MAX as int, 48000) == Some(
            self.max_speech_samples as int,
        )
        &&& words_of(self.ng_words@) == trimmed_fields(
            comma_fields(text_setting(env, "NG_WORDS"@, default_ng_words())),
        )
    }

    /// The settings that the variables `env` give on a machine with `cpus`
    /// processors. A numeric variable that is set and holds no number that
    /// its setting can take is an error; the first such variable, in the
    /// order of the settings, is named.
    pub fn from_vars(env: &Vec<(String, String)>, cpus: usize) -> (made: Result<Self, ConfigError>)
        ensures
            match made {
                Ok(config) => first_bad_variable(pairs_of(env@)) is None && config.read_from(
                    pairs_of(env@),
                    cpus as int,
                ),
                Err(error) => first_bad_variable(pairs_of(env@)) == Some(error.variable@),
            },
    {
        let port = u16_or(env, "PORT", 9000)?;
        let whisper_threads = usize_or(env, "WHISPER_THREADS", cpus)?;
        let whisper_block_seconds = usize_or(env, "WHISPER_BLOCK_SECONDS", 30)?;
        let vad_min_speech_duration_ms = i32_or(env, "VAD_MIN_SPEECH_DURATION_MS", 250)?;
        let vad_min_silence_duration_ms = i32_or(env, "VAD_MIN_SILENCE_DURATION_MS", 100)?;
        let vad_speech_pad_ms = i32_or(env, "VAD_SPEECH_PAD_MS", 30)?;
        let sample_rate = i32_or(env, "SAMPLE_RATE", 16000)?;
        let min_speech_samples = usize_or(env, "MIN_SPEECH_SAMPLES", 8000)?;
        let max_silence_samples = usize_or(env, "MAX_SILENCE_SAMPLES", 16000)?;
        let max_speech_samples = usize_or(env, "MAX_SPEECH_SAMPLES", 48000)?;
        let ng_words_text = text_or(env, "NG_WORDS", "あ,ん,ご視聴ありがとうございました");
        Ok(
            Config {
                host: text_or(env, "HOST", "127.0.0.1"),
                port,
                whisper_model_path: text_or(env, "WHISPER_MODEL_PATH", "./models/ggml-base.bin"),
                whisper_language: text_or(env, "WHISPER_LANGUAGE", "ja"),
                whisper_threads,
                whisper_block_seconds,
                vad_model_path: text_or(env, "VAD_MODEL_PATH", "./models/silero_vad.onnx"),
                vad_threshold: text_or(env, "VAD_THRESHOLD", "0.5"),
                vad_min_speech_duration_ms,
                vad_max_speech_duration_seconds: text_or(
                    env,
                    "VAD_MAX_SPEECH_DURATION_SECONDS",
                    "inf",
                ),
                vad_min_silence_duration_ms,
                vad_speech_pad_ms,
                sample_rate,
                min_speech_samples,
                max_silence_samples,
                max_speech_samples,
                ng_words: parse_ng_words(ng_words_text.as_str()),
            },
        )
    }

    /// The settings that the variables `env` give on this machine: the
    /// recogniser gets as many threads as the machine has processors where
    /// their number is not configured. A numeric variable that is set and
    /// holds no number that its setting can take is an error.
    pub fn from_env(env: &Vec<(String, String)>) -> (made: Result<Self, ConfigError>)
        ensures
            match made {
                Ok(config) => first_bad_variable(pairs_of(env@)) is None && exists|cpus: int|
                    0 <= cpus <= usize::MAX && config.read_from(pairs_of(env@), cpus),
                Err(error) => first_bad_variable(pairs_of(env@)) == Some(error.variable@),
            },
    {
        let cpus = available_cpus();
        match Config::from_vars(env, cpus) {
            Ok(config) => {
                assert(config.read_from(pairs_of(env@), cpus as int));
                Ok(config)
            },
            Err(error) => Err(error),
        }
    }
}

} // verus!
