//! What one connection does with the frames it reads: audio is gathered and
//! cut into blocks, blocks are segmented, and each segment that is long
//! enough becomes a transcription job.

use vstd::prelude::*;
use vstd::string::StringExecFns;
use crate::speech_segment::{SpeechSegment, spans_of, bounded};

verus! {

/// The sample encoded by the four bytes of `data` from `at` on, least
/// significant byte first.
pub open spec fn le_word(data: Seq<u8>, at: int) -> int {
    data[at] + 256 * data[at + 1] + 65536 * data[at + 2] + 16777216 * data[at + 3]
}

/// The samples of a binary frame: one for each four bytes; up to three
/// bytes at the end that do not make up a sample are left out.
pub open spec fn decoded(data: Seq<u8>) -> Seq<u32> {
    Seq::new((data.len() / 4) as nat, |i: int| le_word(data, 4 * i) as u32)
}

/// The whole blocks of `block` samples at the front of `all`, in order.
pub open spec fn chunks(all: Seq<u32>, block: int) -> Seq<Seq<u32>> {
    Seq::new((all.len() as int / block) as nat, |k: int| all.subrange(k * block, (k + 1) * block))
}

/// What is left of `all` behind its whole blocks.
pub open spec fn remainder(all: Seq<u32>, block: int) -> Seq<u32> {
    all.skip(all.len() as int / block * block)
}

/// The audio of each segment that is at least `min_speech_samples` long, in
/// the order of the segments.
pub open spec fn jobs_of(block: Seq<u32>, segments: Seq<SpeechSegment>, min_speech_samples: int) -> Seq<
    Seq<u32>,
>
    decreases segments.len(),
{
    if segments.len() == 0 {
        Seq::empty()
    } else {
        let earlier = jobs_of(block, segments.drop_last(), min_speech_samples);
        let segment = segments.last();
        if segment.end_offset - segment.start_offset >= min_speech_samples {
            earlier.push(block.subrange(segment.start_offset as int, segment.end_offset as int))
        } else {
            earlier
        }
    }
}

/// Jobs keep the order of their segments: the jobs of segments that come
/// later in the list all come behind the jobs of those before them.
pub proof fn lemma_jobs_keep_order(
    block: Seq<u32>,
    earlier: Seq<SpeechSegment>,
    later: Seq<SpeechSegment>,
    min_speech_samples: int,
)
    ensures
        jobs_of(block, earlier + later, min_speech_samples) == jobs_of(
            block,
            earlier,
            min_speech_samples,
        ) + jobs_of(block, later, min_speech_samples),
    decreases later.len(),
{
    if later.len() == 0 {
        assert(earlier + later =~= earlier);
        assert(jobs_of(block, earlier, min_speech_samples) + Seq::<Seq<u32>>::empty() =~= jobs_of(
            block,
            earlier,
            min_speech_samples,
        ));
    } else {
        let all = earlier + later;
        lemma_jobs_keep_order(block, earlier, later.drop_last(), min_speech_samples);
        assert(all.drop_last() =~= earlier + later.drop_last());
        assert(all.last() == later.last());
        let front = jobs_of(block, earlier, min_speech_samples);
        let rest = jobs_of(block, later.drop_last(), min_speech_samples);
        let segment = later.last();
        let audio = block.subrange(segment.start_offset as int, segment.end_offset as int);
        assert((front + rest).push(audio) =~= front + rest.push(audio));
    }
}

/// The text of the one command that a client can send.
pub open spec fn flush_command() -> Seq<char> {
    "flush"@
}

/// The reply to a text frame that is no command.
pub open spec fn unknown_command_reply() -> Seq<char> {
    "{\"error\": \"Send binary audio data (f32 PCM) or 'flush' command\"}"@
}

/// Decodes the samples of a binary frame.
pub fn decode_samples(data: &[u8]) -> (samples: Vec<u32>)
    ensures
        samples@ == decoded(data@),
{
    let length = data.len();
    let count = length / 4;
    let mut samples: Vec<u32> = Vec::new();
    let mut i: usize = 0;
    while i < count
        invariant
            i <= count,
            length == data@.len(),
            count == length / 4,
            samples.len() == i,
            forall|m: int| 0 <= m < i ==> samples@[m] == le_word(data@, 4 * m) as u32,
        decreases count - i,
    {
        assert(4 * i + 3 < length);
        let at = 4 * i;
        let word: u32 = (data[at] as u32) + 256 * (data[at + 1] as u32) + 65536 * (data[at
            + 2] as u32) + 16777216 * (data[at + 3] as u32);
        samples.push(word);
        i += 1;
    }
    assert(samples@ =~= decoded(data@));
    samples
}

/// The samples that a connection has received and not yet segmented.
pub struct Accumulator {
    pub samples: Vec<u32>,
}

impl View for Accumulator {
    type V = Seq<u32>;

    open spec fn view(&self) -> Seq<u32> {
        self.samples@
    }
}

impl Accumulator {
    pub fn new() -> (made: Self)
        ensures
            made@ == Seq::<u32>::empty(),
    {
        Accumulator { samples: Vec::new() }
    }

    pub fn len(&self) -> (length: usize)
        ensures
            length == self@.len(),
    {
        self.samples.len()
    }

    /// Puts `chunk` behind what is held.
    pub fn extend(&mut self, chunk: &Vec<u32>)
        ensures
            final(self)@ == old(self)@ + chunk@,
    {
        let mut j: usize = 0;
        while j < chunk.len()
            invariant
                j <= chunk.len(),
                self@ == old(self)@ + chunk@.take(j as int),
            decreases chunk.len() - j,
        {
            self.samples.push(chunk[j]);
            assert(chunk@.take(j + 1) =~= chunk@.take(j as int).push(chunk@[j as int]));
            j += 1;
        }
        assert(chunk@.take(chunk.len() as int) =~= chunk@);
    }

    /// Takes everything that is held.
    pub fn take_all(&mut self) -> (all: Vec<u32>)
        ensures
            all@ == old(self)@,
            final(self)@ == Seq::<u32>::empty(),
    {
        let mut all: Vec<u32> = Vec::new();
        std::mem::swap(&mut all, &mut self.samples);
        all
    }

    /// Takes the whole blocks of `block` samples from the front, in order,
    /// and leaves what does not fill a block.
    pub fn drain_blocks(&mut self, block: usize) -> (blocks: Vec<Vec<u32>>)
        requires
            block > 0,
        ensures
            blocks@.map_values(|b: Vec<u32>| b@) == chunks(old(self)@, block as int),
            final(self)@ == remainder(old(self)@, block as int),
            final(self)@.len() < block,
    {
        let ghost all = self@;
        let mut blocks: Vec<Vec<u32>> = Vec::new();
        let ghost mut taken: int = 0;
        assert(0 == blocks.len() * block) by (nonlinear_arith)
            requires
                blocks.len() == 0,
        ;
        while self.samples.len() >= block
            invariant
                block > 0,
                all == old(self)@,
                taken == blocks.len() * block,
                0 <= taken <= all.len(),
                self@ == all.skip(taken),
                forall|k: int|
                    0 <= k < blocks.len() ==> (#[trigger] blocks@[k])@ == all.subrange(
                        k * block,
                        (k + 1) * block,
                    ),
            decreases self.samples.len(),
        {
            let mut head = self.samples.split_off(block);
            std::mem::swap(&mut head, &mut self.samples);
            proof {
                assert((blocks.len() + 1) * block == taken + block) by (nonlinear_arith)
                    requires
                        taken == blocks.len() * block,
                ;
                assert(head@ =~= all.subrange(taken, taken + block));
                assert(self@ =~= all.skip(taken + block));
                taken = taken + block;
            }
            blocks.push(head);
        }
        proof {
            let count = blocks.len() as int;
            assert(count == all.len() as int / (block as int)) by (nonlinear_arith)
                requires
                    taken == count * block,
                    0 <= taken <= all.len(),
                    all.len() - taken < block,
                    block > 0,
            ;
            assert(blocks@.map_values(|b: Vec<u32>| b@) =~= chunks(all, block as int));
        }
        blocks
    }
}

/// Whether each segment lies within a buffer of `length` samples and does
/// not end before it starts.
pub fn segments_within(segments: &Vec<SpeechSegment>, length: usize) -> (within: bool)
    ensures
        within == bounded(spans_of(segments@), length as int),
{
    let mut i: usize = 0;
    while i < segments.len()
        invariant
            i <= segments.len(),
            forall|k: int|
                0 <= k < i ==> 0 <= (#[trigger] spans_of(segments@)[k]).start <= spans_of(
                    segments@,
                )[k].end <= length,
        decreases segments.len() - i,
    {
        let segment = segments[i];
        assert(spans_of(segments@)[i as int] == segment.span());
        if segment.start_offset > segment.end_offset || segment.end_offset > length {
            return false;
        }
        i += 1;
    }
    true
}

/// The audio of `segment` in `block`.
pub fn speech_audio(block: &Vec<u32>, segment: &SpeechSegment) -> (audio: Vec<u32>)
    requires
        segment.start_offset <= segment.end_offset <= block@.len(),
    ensures
        audio@ == block@.subrange(segment.start_offset as int, segment.end_offset as int),
{
    let mut audio: Vec<u32> = Vec::new();
    let mut j: usize = segment.start_offset;
    while j < segment.end_offset
        invariant
            segment.start_offset <= j <= segment.end_offset <= block@.len(),
            audio@ == block@.subrange(segment.start_offset as int, j as int),
        decreases segment.end_offset - j,
    {
        audio.push(block[j]);
        assert(block@.subrange(segment.start_offset as int, j + 1) =~= block@.subrange(
            segment.start_offset as int,
            j as int,
        ).push(block@[j as int]));
        j += 1;
    }
    audio
}

/// The transcription jobs of a block that was segmented: the audio of each
/// segment that is at least `min_speech_samples` long. The jobs come in the
/// order of the segments, which is the order in which their replies are due.
pub fn select_jobs(block: &Vec<u32>, segments: &Vec<SpeechSegment>, min_speech_samples: usize) -> (jobs:
    Vec<Vec<u32>>)
    requires
        bounded(spans_of(segments@), block@.len() as int),
    ensures
        jobs@.map_values(|job: Vec<u32>| job@) == jobs_of(
            block@,
            segments@,
            min_speech_samples as int,
        ),
{
    let mut jobs: Vec<Vec<u32>> = Vec::new();
    let mut i: usize = 0;
    assert(segments@.take(0) =~= Seq::<SpeechSegment>::empty());
    while i < segments.len()
        invariant
            i <= segments.len(),
            bounded(spans_of(segments@), block@.len() as int),
            jobs@.map_values(|job: Vec<u32>| job@) =~= jobs_of(
                block@,
                segments@.take(i as int),
                min_speech_samples as int,
            ),
        decreases segments.len() - i,
    {
        let segment = segments[i];
        proof {
            assert(spans_of(segments@)[i as int] == segment.span());
            assert(segments@.take(i + 1).drop_last() =~= segments@.take(i as int));
            assert(segments@.take(i + 1).last() == segment);
        }
        if segment.end_offset - segment.start_offset >= min_speech_samples {
            jobs.push(speech_audio(block, &segment));
        }
        i += 1;
    }
    assert(segments@.take(segments.len() as int) =~= segments@);
    jobs
}

/// A frame that a client sent.
pub enum Frame {
    Binary(Vec<u8>),
    Text(String),
    Close,
    /// Any other frame; it is ignored.
    Other,
}

/// What the reader does after a frame: the blocks to segment, in order, the
/// reply to send at once, if any, and whether to stop reading.
pub struct ReaderStep {
    pub blocks: Vec<Vec<u32>>,
    pub reply: Option<String>,
    pub stop: bool,
}

/// The state of the reader of one connection.
pub struct ConnectionPipeline {
    pub accumulator: Accumulator,
    /// The number of samples in a block.
    pub block_size: usize,
    /// The fewest samples worth segmenting or transcribing.
    pub min_speech_samples: usize,
}

/// The number of samples in a block of `block_seconds` seconds at
/// `sample_rate`, where that is a positive number that fits.
pub fn block_size(sample_rate: i32, block_seconds: usize) -> (size: Option<usize>)
    ensures
        size.is_some() <==> 0 < sample_rate * block_seconds <= usize::MAX,
        size.is_some() ==> size.unwrap() == sample_rate * block_seconds,
{
    if sample_rate <= 0 || block_seconds == 0 {
        assert(sample_rate * block_seconds <= 0) by (nonlinear_arith)
            requires
                sample_rate <= 0 || block_seconds == 0,
                block_seconds >= 0,
        ;
        return None;
    }
    assert(sample_rate * block_seconds > 0) by (nonlinear_arith)
        requires
            sample_rate > 0,
            block_seconds > 0,
    ;
    (sample_rate as usize).checked_mul(block_seconds)
}

impl ConnectionPipeline {
    pub open spec fn wf(self) -> bool {
        self.block_size > 0
    }

    pub fn new(block_size: usize, min_speech_samples: usize) -> (made: Self)
        requires
            block_size > 0,
        ensures
            made.wf(),
            made.accumulator@ == Seq::<u32>::empty(),
            made.block_size == block_size,
            made.min_speech_samples == min_speech_samples,
    {
        ConnectionPipeline { accumulator: Accumulator::new(), block_size, min_speech_samples }
    }

    /// Takes what is held if it is worth segmenting, and nothing otherwise.
    pub fn flush(&mut self) -> (taken: Option<Vec<u32>>)
        ensures
            final(self).block_size == old(self).block_size,
            final(self).min_speech_samples == old(self).min_speech_samples,
            old(self).accumulator@.len() >= old(self).min_speech_samples ==> taken.is_some()
                && taken.unwrap()@ == old(self).accumulator@ && final(self).accumulator@
                == Seq::<u32>::empty(),
            old(self).accumulator@.len() < old(self).min_speech_samples ==> taken.is_none()
                && final(self).accumulator@ == old(self).accumulator@,
    {
        if self.accumulator.len() >= self.min_speech_samples {
            Some(self.accumulator.take_all())
        } else {
            None
        }
    }

    /// What the reader does with `frame`.
    ///
    /// A binary frame is decoded and gathered, and every whole block is
    /// handed out. The text `flush` hands out all that is held as one block
    /// if it is worth segmenting. Any other text is answered with an error.
    /// A close frame stops the reader. Other frames do nothing.
    pub fn on_frame(&mut self, frame: &Frame) -> (step: ReaderStep)
        requires
            old(self).wf(),
        ensures
            final(self).wf(),
            final(self).block_size == old(self).block_size,
            final(self).min_speech_samples == old(self).min_speech_samples,
            step.stop == (*frame is Close),
            match *frame {
                Frame::Binary(data) => {
                    let all = old(self).accumulator@ + decoded(data@);
                    &&& step.blocks@.map_values(|b: Vec<u32>| b@) == chunks(
                        all,
                        old(self).block_size as int,
                    )
                    &&& final(self).accumulator@ == remainder(all, old(self).block_size as int)
                    &&& step.reply.is_none()
                },
                Frame::Text(text) => {
                    if text@ == flush_command() {
                        &&& step.reply.is_none()
                        &&& if old(self).accumulator@.len() >= old(self).min_speech_samples {
                            &&& step.blocks@.len() == 1
                            &&& step.blocks@[0]@ == old(self).accumulator@
                            &&& final(self).accumulator@ == Seq::<u32>::empty()
                        } else {
                            &&& step.blocks@.len() == 0
                            &&& final(self).accumulator@ == old(self).accumulator@
                        }
                    } else {
                        &&& step.blocks@.len() == 0
                        &&& step.reply.is_some()
                        &&& step.reply.unwrap()@ == unknown_command_reply()
                        &&& final(self).accumulator@ == old(self).accumulator@
                    }
                },
                _ => {
                    &&& step.blocks@.len() == 0
                    &&& step.reply.is_none()
                    &&& final(self).accumulator@ == old(self).accumulator@
                },
            },
    {
        match frame {
            Frame::Binary(data) => {
                let samples = decode_samples(data.as_slice());
                self.accumulator.extend(&samples);
                let blocks = self.accumulator.drain_blocks(self.block_size);
                ReaderStep { blocks, reply: None, stop: false }
            },
            Frame::Text(text) => {
                let flush = String::from_str("flush");
                if *text == flush {
                    let mut blocks: Vec<Vec<u32>> = Vec::new();
                    match self.flush() {
                        Some(all) => {
                            blocks.push(all);
                        },
                        None => {},
                    }
                    ReaderStep { blocks, reply: None, stop: false }
                } else {
                    let reply = String::from_str(
                        "{\"error\": \"Send binary audio data (f32 PCM) or 'flush' command\"}",
                    );
                    ReaderStep { blocks: Vec::new(), reply: Some(reply), stop: false }
                }
            },
            Frame::Close => ReaderStep { blocks: Vec::new(), reply: None, stop: true },
            Frame::Other => ReaderStep { blocks: Vec::new(), reply: None, stop: false },
        }
    }

    /// What is left to segment when the reader has ended.
    pub fn on_disconnect(&mut self) -> (taken: Option<Vec<u32>>)
        ensures
            final(self).block_size == old(self).block_size,
            final(self).min_speech_samples == old(self).min_speech_samples,
            old(self).accumulator@.len() >= old(self).min_speech_samples ==> taken.is_some()
                && taken.unwrap()@ == old(self).accumulator@ && final(self).accumulator@
                == Seq::<u32>::empty(),
            old(self).accumulator@.len() < old(self).min_speech_samples ==> taken.is_none()
                && final(self).accumulator@ == old(self).accumulator@,
    {
        self.flush()
    }
}

} // verus!
