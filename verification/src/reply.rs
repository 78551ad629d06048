//! The replies that go back to a client, as text.

use vstd::prelude::*;
use vstd::string::StringExecFns;
use crate::transcript::{Piece, SubSegment, Transcript, reported_pieces};

verus! {

/// `String::push` of the standard library, which appends the given
/// character to the end of the text. Taken on trust: the text afterwards is
/// the text before with the character behind it.
pub assume_specification[ String::push ](text: &mut String, ch: char)
    ensures
        final(text)@ == old(text)@.push(ch),
;

/// `text` with each quotation mark written as a backslash and a quotation
/// mark, and each line feed as a backslash and the letter `n`.
pub open spec fn escaped(text: Seq<char>) -> Seq<char>
    decreases text.len(),
{
    if text.len() == 0 {
        Seq::empty()
    } else if text.last() == '"' {
        escaped(text.drop_last()).push('\\').push('"')
    } else if text.last() == '\n' {
        escaped(text.drop_last()).push('\\').push('n')
    } else {
        escaped(text.drop_last()).push(text.last())
    }
}

/// Escapes `text` for a string field of a reply.
pub fn escape(text: &str) -> (out: String)
    ensures
        out@ == escaped(text@),
{
    let mut out = String::new();
    for ch in iter: text.chars()
        invariant
            iter.seq() == text@,
            out@ == escaped(text@.take(iter.index() as int)),
    {
        proof {
            let seen = text@.take(iter.index() + 1);
            assert(seen.drop_last() =~= text@.take(iter.index() as int));
            assert(seen.last() == ch);
        }
        if ch == '"' {
            out.push('\\');
            out.push('"');
        } else if ch == '\n' {
            out.push('\\');
            out.push('n');
        } else {
            out.push(ch);
        }
    }
    assert(text@.take(text@.len() as int) =~= text@);
    out
}

/// The character of a decimal digit.
pub open spec fn digit(value: int) -> char {
    if value == 0 {
        '0'
    } else if value == 1 {
        '1'
    } else if value == 2 {
        '2'
    } else if value == 3 {
        '3'
    } else if value == 4 {
        '4'
    } else if value == 5 {
        '5'
    } else if value == 6 {
        '6'
    } else if value == 7 {
        '7'
    } else if value == 8 {
        '8'
    } else {
        '9'
    }
}

/// A natural number in decimal digits, without leading zeros.
pub open spec fn decimal(value: nat) -> Seq<char>
    decreases value,
{
    if value < 10 {
        seq![digit(value as int)]
    } else {
        decimal(value / 10).push(digit((value % 10) as int))
    }
}

/// A number of hundredths as a number with two decimals: `-5` is `-0.05`,
/// `1234` is `12.34`.
pub open spec fn fixed2(hundredths: int) -> Seq<char> {
    let size = if hundredths < 0 {
        -hundredths
    } else {
        hundredths
    };
    let sign = if hundredths < 0 {
        seq!['-']
    } else {
        Seq::<char>::empty()
    };
    sign + decimal((size / 100) as nat).push('.').push(digit(size / 10 % 10)).push(
        digit(size % 10),
    )
}

/// The length of `samples` samples at `rate` in hundredths of a second, to
/// the nearest hundredth, a half rounded up.
pub open spec fn hundredths_of(samples: int, rate: int) -> int {
    (samples * 100 + rate / 2) / rate
}

/// The character of the digit `value`.
pub fn digit_char(value: u8) -> (ch: char)
    requires
        value < 10,
    ensures
        ch == digit(value as int),
{
    match value {
        0 => '0',
        1 => '1',
        2 => '2',
        3 => '3',
        4 => '4',
        5 => '5',
        6 => '6',
        7 => '7',
        8 => '8',
        _ => '9',
    }
}

/// Writes `value` in decimal digits behind `out`.
pub fn push_decimal(out: &mut String, value: u128)
    ensures
        final(out)@ == old(out)@ + decimal(value as nat),
    decreases value,
{
    if value >= 10 {
        push_decimal(out, value / 10);
    }
    out.push(digit_char((value % 10) as u8));
    assert(final(out)@ =~= old(out)@ + decimal(value as nat));
}

/// Writes a number of hundredths with two decimals behind `out`.
pub fn push_fixed2(out: &mut String, hundredths: i128)
    ensures
        final(out)@ == old(out)@ + fixed2(hundredths as int),
{
    let size: u128 = if hundredths < 0 {
        out.push('-');
        if hundredths == i128::MIN {
            (i128::MAX as u128) + 1
        } else {
            (-hundredths) as u128
        }
    } else {
        hundredths as u128
    };
    push_decimal(out, size / 100);
    out.push('.');
    out.push(digit_char((size / 10 % 10) as u8));
    out.push(digit_char((size % 10) as u8));
    assert(final(out)@ =~= old(out)@ + fixed2(hundredths as int));
}

/// The length of `samples` samples at `rate` in hundredths of a second.
pub fn duration_hundredths(samples: usize, rate: i32) -> (hundredths: i128)
    requires
        rate > 0,
    ensures
        hundredths == hundredths_of(samples as int, rate as int),
{
    let scaled: u128 = (samples as u128) * 100 + (rate as u128) / 2;
    let hundredths = scaled / (rate as u128);
    assert(hundredths <= scaled);
    hundredths as i128
}

/// The reply that reports an error.
pub open spec fn error_text(message: Seq<char>) -> Seq<char> {
    "{\"error\": \""@ + escaped(message) + "\"}"@
}

/// The reply to audio in which no speech was recognised.
pub open spec fn no_speech_text(duration: int) -> Seq<char> {
    "{\"transcription\": \"\", \"message\": \"No speech detected\", \"duration\": "@ + fixed2(
        duration,
    ) + "}"@
}

/// One timed piece of a reply.
pub open spec fn piece_text(piece: Piece) -> Seq<char> {
    "{\"start\": "@ + fixed2(piece.start) + ", \"end\": "@ + fixed2(piece.end)
        + ", \"text\": \""@ + escaped(piece.text) + "\"}"@
}

/// The timed pieces of a reply, with a comma between them.
pub open spec fn pieces_text(pieces: Seq<Piece>) -> Seq<char>
    decreases pieces.len(),
{
    if pieces.len() == 0 {
        Seq::empty()
    } else if pieces.len() == 1 {
        piece_text(pieces[0])
    } else {
        pieces_text(pieces.drop_last()) + ","@ + piece_text(pieces.last())
    }
}

/// The reply that reports recognised text.
pub open spec fn transcription_text(text: Seq<char>, pieces: Seq<Piece>, duration: int) -> Seq<
    char,
> {
    "{\"transcription\": \""@ + escaped(text) + "\", \"segments\": ["@ + pieces_text(pieces)
        + "], \"duration\": "@ + fixed2(duration) + "}"@
}

/// The reply for the result of a job: the recognised text with its pieces,
/// or that there was no speech where the text is empty.
pub open spec fn reply_text(text: Seq<char>, pieces: Seq<Piece>, duration: int) -> Seq<char> {
    if text.len() == 0 {
        no_speech_text(duration)
    } else {
        transcription_text(text, pieces, duration)
    }
}

/// The reply that reports the error `message`.
pub fn error_reply(message: &str) -> (reply: String)
    ensures
        reply@ == error_text(message@),
{
    let mut reply = String::from_str("{\"error\": \"");
    let body = escape(message);
    reply.append(body.as_str());
    reply.append("\"}");
    reply
}

/// The reply to audio of `duration` hundredths of a second in which no
/// speech was recognised.
pub fn no_speech_reply(duration: i128) -> (reply: String)
    ensures
        reply@ == no_speech_text(duration as int),
{
    let mut reply = String::from_str(
        "{\"transcription\": \"\", \"message\": \"No speech detected\", \"duration\": ",
    );
    push_fixed2(&mut reply, duration);
    reply.append("}");
    reply
}

/// Writes one timed piece behind `out`.
pub fn push_piece(out: &mut String, segment: &SubSegment)
    ensures
        final(out)@ == old(out)@ + piece_text(segment@),
{
    out.append("{\"start\": ");
    push_fixed2(out, segment.start as i128);
    out.append(", \"end\": ");
    push_fixed2(out, segment.end as i128);
    out.append(", \"text\": \"");
    let body = escape(segment.text.as_str());
    out.append(body.as_str());
    out.append("\"}");
    assert(final(out)@ =~= old(out)@ + piece_text(segment@));
}

/// The reply that reports the recognised `text` with its timed pieces.
pub fn transcription_reply(text: &str, segments: &Vec<SubSegment>, duration: i128) -> (reply: String)
    ensures
        reply@ == transcription_text(text@, reported_pieces(segments@), duration as int),
{
    let ghost pieces = reported_pieces(segments@);
    let mut reply = String::from_str("{\"transcription\": \"");
    let body = escape(text);
    reply.append(body.as_str());
    reply.append("\", \"segments\": [");
    let ghost head = reply@;
    let mut i: usize = 0;
    assert(pieces.take(0) =~= Seq::<Piece>::empty());
    while i < segments.len()
        invariant
            i <= segments.len(),
            pieces == reported_pieces(segments@),
            head == "{\"transcription\": \""@ + escaped(text@) + "\", \"segments\": ["@,
            reply@ == head + pieces_text(pieces.take(i as int)),
        decreases segments.len() - i,
    {
        proof {
            assert(pieces.take(i + 1).drop_last() =~= pieces.take(i as int));
            assert(pieces.take(i + 1).last() == segments@[i as int]@);
            assert(pieces.take(i + 1)[0] == pieces[0]);
        }
        if i > 0 {
            reply.append(",");
        }
        push_piece(&mut reply, &segments[i]);
        assert(reply@ =~= head + pieces_text(pieces.take(i + 1)));
        i += 1;
    }
    assert(pieces.take(segments.len() as int) =~= pieces);
    reply.append("], \"duration\": ");
    push_fixed2(&mut reply, duration);
    reply.append("}");
    assert(reply@ =~= transcription_text(text@, pieces, duration as int));
    reply
}

/// The reply for the result of a job.
pub fn transcript_reply(transcript: &Transcript) -> (reply: String)
    ensures
        reply@ == reply_text(
            transcript.text@,
            reported_pieces(transcript.segments@),
            transcript.duration as int,
        ),
{
    if transcript.text.as_str().is_empty() {
        no_speech_reply(transcript.duration)
    } else {
        transcription_reply(transcript.text.as_str(), &transcript.segments, transcript.duration)
    }
}

} // verus!
