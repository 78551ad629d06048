//! From what the recognition engine returns for one job to the text and the
//! timed pieces that are reported.

use vstd::prelude::*;
use vstd::string::StringExecFns;
use crate::reply::{duration_hundredths, hundredths_of};

verus! {

/// The character is white space: one of the twenty-five characters that
/// Unicode gives the property White_Space.
pub open spec fn is_white_space(ch: char) -> bool {
    let code = ch as u32;
    ||| 0x09 <= code <= 0x0d
    ||| code == 0x20
    ||| code == 0x85
    ||| code == 0xa0
    ||| code == 0x1680
    ||| 0x2000 <= code <= 0x200a
    ||| code == 0x2028
    ||| code == 0x2029
    ||| code == 0x202f
    ||| code == 0x205f
    ||| code == 0x3000
}

/// The text without the white space at its start.
pub open spec fn trimmed_start(text: Seq<char>) -> Seq<char>
    decreases text.len(),
{
    if text.len() > 0 && is_white_space(text[0]) {
        trimmed_start(text.drop_first())
    } else {
        text
    }
}

/// The text without the white space at its end.
pub open spec fn trimmed_end(text: Seq<char>) -> Seq<char>
    decreases text.len(),
{
    if text.len() > 0 && is_white_space(text.last()) {
        trimmed_end(text.drop_last())
    } else {
        text
    }
}

/// The text without the white space at its start and at its end.
pub open spec fn trimmed(text: Seq<char>) -> Seq<char> {
    trimmed_end(trimmed_start(text))
}

/// Whether the character is white space.
pub fn white_space(ch: char) -> (white: bool)
    ensures
        white == is_white_space(ch),
{
    let code = ch as u32;
    (0x09 <= code && code <= 0x0d) || code == 0x20 || code == 0x85 || code == 0xa0 || code
        == 0x1680 || (0x2000 <= code && code <= 0x200a) || code == 0x2028 || code == 0x2029
        || code == 0x202f || code == 0x205f || code == 0x3000
}

/// The text without the white space at its start and at its end.
pub fn trim_text(text: &str) -> (out: String)
    ensures
        out@ == trimmed(text@),
{
    let mut all: Vec<char> = Vec::new();
    for ch in iter: text.chars()
        invariant
            iter.seq() == text@,
            all@ == text@.take(iter.index() as int),
    {
        all.push(ch);
        assert(text@.take(iter.index() + 1) =~= text@.take(iter.index() as int).push(ch));
    }
    assert(text@.take(text@.len() as int) =~= text@);
    let mut start: usize = 0;
    assert(all@.skip(0) =~= all@);
    while start < all.len() && white_space(all[start])
        invariant
            start <= all.len(),
            trimmed_start(all@) == trimmed_start(all@.skip(start as int)),
        decreases all.len() - start,
    {
        assert(all@.skip(start as int)[0] == all@[start as int]);
        assert(all@.skip(start as int).drop_first() =~= all@.skip(start + 1));
        start += 1;
    }
    proof {
        if start < all.len() {
            assert(all@.skip(start as int)[0] == all@[start as int]);
        }
        assert(trimmed_start(all@) == all@.skip(start as int));
    }
    let mut end: usize = all.len();
    assert(all@.subrange(start as int, end as int) =~= all@.skip(start as int));
    while end > start && white_space(all[end - 1])
        invariant
            start <= end <= all.len(),
            trimmed(all@) == trimmed_end(all@.subrange(start as int, end as int)),
        decreases end,
    {
        assert(all@.subrange(start as int, end as int).last() == all@[end - 1]);
        assert(all@.subrange(start as int, end as int).drop_last() =~= all@.subrange(
            start as int,
            end - 1,
        ));
        end -= 1;
    }
    proof {
        if end > start {
            assert(all@.subrange(start as int, end as int).last() == all@[end - 1]);
        }
        assert(trimmed(all@) == all@.subrange(start as int, end as int));
    }
    let mut out = String::new();
    let mut at: usize = start;
    while at < end
        invariant
            start <= at <= end <= all.len(),
            out@ == all@.subrange(start as int, at as int),
        decreases end - at,
    {
        out.push(all[at]);
        assert(all@.subrange(start as int, at + 1) =~= all@.subrange(start as int, at as int).push(
            all@[at as int],
        ));
        at += 1;
    }
    out
}

/// One piece of recognised text with its times in hundredths of a second
/// from the start of the audio.
pub struct Piece {
    pub text: Seq<char>,
    pub start: int,
    pub end: int,
}

/// A piece as the engine returns it; the times are in hundredths of a
/// second.
pub struct EngineSegment {
    pub text: String,
    pub start: i64,
    pub end: i64,
}

/// A piece as it is reported; the times are in hundredths of a second.
pub struct SubSegment {
    pub start: i64,
    pub end: i64,
    pub text: String,
}

/// The result of one job.
pub struct Transcript {
    pub text: String,
    pub segments: Vec<SubSegment>,
    /// The length of the audio in hundredths of a second.
    pub duration: i128,
}

impl View for EngineSegment {
    type V = Piece;

    open spec fn view(&self) -> Piece {
        Piece { text: self.text@, start: self.start as int, end: self.end as int }
    }
}

impl View for SubSegment {
    type V = Piece;

    open spec fn view(&self) -> Piece {
        Piece { text: self.text@, start: self.start as int, end: self.end as int }
    }
}

/// The texts of a list of words.
pub open spec fn words_of(words: Seq<String>) -> Seq<Seq<char>> {
    words.map_values(|word: String| word@)
}

/// The pieces of a list of engine segments.
pub open spec fn engine_pieces(segments: Seq<EngineSegment>) -> Seq<Piece> {
    segments.map_values(|segment: EngineSegment| segment@)
}

/// The pieces of a list of reported segments.
pub open spec fn reported_pieces(segments: Seq<SubSegment>) -> Seq<Piece> {
    segments.map_values(|segment: SubSegment| segment@)
}

/// The pieces with each text trimmed.
pub open spec fn trimmed_pieces(pieces: Seq<Piece>) -> Seq<Piece> {
    pieces.map_values(|piece: Piece| Piece { text: trimmed(piece.text), ..piece })
}

/// The pieces whose text is none of the words to leave out, in order.
pub open spec fn kept_pieces(pieces: Seq<Piece>, ng_words: Seq<Seq<char>>) -> Seq<Piece>
    decreases pieces.len(),
{
    if pieces.len() == 0 {
        Seq::empty()
    } else if ng_words.contains(pieces.last().text) {
        kept_pieces(pieces.drop_last(), ng_words)
    } else {
        kept_pieces(pieces.drop_last(), ng_words).push(pieces.last())
    }
}

/// The texts of the pieces, each followed by a space.
pub open spec fn joined_text(pieces: Seq<Piece>) -> Seq<char>
    decreases pieces.len(),
{
    if pieces.len() == 0 {
        Seq::empty()
    } else {
        joined_text(pieces.drop_last()) + pieces.last().text + seq![' ']
    }
}

/// Whether `word` is one of `ng_words`, letter for letter.
pub fn is_ng_word(word: &String, ng_words: &Vec<String>) -> (found: bool)
    ensures
        found == words_of(ng_words@).contains(word@),
{
    let mut i: usize = 0;
    while i < ng_words.len()
        invariant
            i <= ng_words.len(),
            forall|k: int| 0 <= k < i ==> words_of(ng_words@)[k] != word@,
        decreases ng_words.len() - i,
    {
        if ng_words[i] == *word {
            assert(words_of(ng_words@)[i as int] == word@);
            return true;
        }
        i += 1;
    }
    false
}

/// Leaves out the pieces whose text is one of `ng_words` and joins the
/// texts of the others, each followed by a space.
pub fn assemble(pieces: &Vec<EngineSegment>, ng_words: &Vec<String>) -> (result: (
    String,
    Vec<SubSegment>,
))
    ensures
        reported_pieces(result.1@) == kept_pieces(engine_pieces(pieces@), words_of(ng_words@)),
        result.0@ == joined_text(kept_pieces(engine_pieces(pieces@), words_of(ng_words@))),
{
    let mut text = String::new();
    let mut segments: Vec<SubSegment> = Vec::new();
    let mut i: usize = 0;
    let ghost all = engine_pieces(pieces@);
    let ghost ng = words_of(ng_words@);
    assert(all.take(0) =~= Seq::<Piece>::empty());
    while i < pieces.len()
        invariant
            i <= pieces.len(),
            all == engine_pieces(pieces@),
            ng == words_of(ng_words@),
            reported_pieces(segments@) =~= kept_pieces(all.take(i as int), ng),
            text@ == joined_text(kept_pieces(all.take(i as int), ng)),
        decreases pieces.len() - i,
    {
        let piece = &pieces[i];
        proof {
            assert(all.take(i + 1).drop_last() =~= all.take(i as int));
            assert(all.take(i + 1).last() == piece@);
        }
        if !is_ng_word(&piece.text, ng_words) {
            text.append(piece.text.as_str());
            text.push(' ');
            let ghost before = reported_pieces(segments@);
            segments.push(SubSegment { start: piece.start, end: piece.end, text: piece.text.clone() });
            proof {
                let kept = kept_pieces(all.take(i + 1), ng);
                assert(reported_pieces(segments@) =~= before.push(piece@));
                assert(kept.drop_last() =~= before);
                assert(text@ =~= joined_text(kept));
            }
        }
        i += 1;
    }
    assert(all.take(pieces.len() as int) =~= all);
    (text, segments)
}

/// The text and the timed pieces of one job from the segments that the
/// engine returned for `samples` samples of audio at `rate`.
///
/// Each text is trimmed. A piece whose trimmed text is one of `ng_words` is
/// left out. The whole text is the trimmed texts that are left, with a
/// space between them.
pub fn transcribe(
    engine: &Vec<EngineSegment>,
    ng_words: &Vec<String>,
    samples: usize,
    rate: i32,
) -> (transcript: Transcript)
    requires
        rate > 0,
    ensures
        reported_pieces(transcript.segments@) == kept_pieces(
            trimmed_pieces(engine_pieces(engine@)),
            words_of(ng_words@),
        ),
        transcript.text@ == trimmed(
            joined_text(
                kept_pieces(trimmed_pieces(engine_pieces(engine@)), words_of(ng_words@)),
            ),
        ),
        transcript.duration == hundredths_of(samples as int, rate as int),
{
    let mut pieces: Vec<EngineSegment> = Vec::new();
    let mut i: usize = 0;
    while i < engine.len()
        invariant
            i <= engine.len(),
            pieces.len() == i,
            forall|k: int|
                0 <= k < i ==> (#[trigger] pieces@[k])@ == trimmed_pieces(engine_pieces(engine@))[k],
        decreases engine.len() - i,
    {
        let segment = &engine[i];
        pieces.push(
            EngineSegment {
                text: trim_text(segment.text.as_str()),
                start: segment.start,
                end: segment.end,
            },
        );
        i += 1;
    }
    assert(engine_pieces(pieces@) =~= trimmed_pieces(engine_pieces(engine@)));
    let (joined, segments) = assemble(&pieces, ng_words);
    let text = trim_text(joined.as_str());
    Transcript { text, segments, duration: duration_hundredths(samples, rate) }
}

} // verus!
