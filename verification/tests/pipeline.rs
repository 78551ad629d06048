use speech_pipeline::pipeline::{
    block_size, decode_samples, segments_within, select_jobs, speech_audio, Accumulator,
    ConnectionPipeline, Frame,
};
use speech_pipeline::speech_segment::SpeechSegment;

fn frame_of(samples: &[f32]) -> Vec<u8> {
    let mut bytes = Vec::new();
    for sample in samples {
        bytes.extend_from_slice(&sample.to_le_bytes());
    }
    bytes
}

#[test]
fn samples_are_decoded_least_significant_byte_first() {
    assert_eq!(decode_samples(&[0x01, 0x02, 0x03, 0x04]), vec![0x04030201]);
    assert_eq!(decode_samples(&[0, 0, 0x80, 0x3f]), vec![1.0f32.to_bits()]);
    assert_eq!(decode_samples(&[0xff, 0xff, 0xff, 0xff, 0, 0, 0, 0]), vec![u32::MAX, 0]);
    let samples = [0.25f32, -1.0, 0.0, 0.999];
    let decoded = decode_samples(&frame_of(&samples));
    let back: Vec<f32> = decoded.iter().map(|word| f32::from_bits(*word)).collect();
    assert_eq!(back, samples);
}

#[test]
fn bytes_that_make_up_no_sample_are_left_out() {
    let bytes: Vec<u8> = (1..=13u8).collect();
    let samples = decode_samples(&bytes);
    assert_eq!(samples, vec![0x04030201, 0x08070605, 0x0c0b0a09]);
    assert!(decode_samples(&[1, 2, 3]).is_empty());
    assert!(decode_samples(&[]).is_empty());
}

#[test]
fn block_size_is_rate_times_seconds() {
    assert_eq!(block_size(16000, 30), Some(480000));
    assert_eq!(block_size(8000, 1), Some(8000));
    assert_eq!(block_size(16000, 0), None);
    assert_eq!(block_size(0, 30), None);
    assert_eq!(block_size(-16000, 30), None);
    assert_eq!(block_size(16000, usize::MAX), None);
}

#[test]
fn whole_blocks_are_drained_in_order() {
    let mut accumulator = Accumulator::new();
    accumulator.extend(&(1..=10u32).collect());
    assert_eq!(accumulator.len(), 10);
    let blocks = accumulator.drain_blocks(4);
    assert_eq!(blocks, vec![vec![1, 2, 3, 4], vec![5, 6, 7, 8]]);
    assert_eq!(accumulator.samples, vec![9, 10]);
    assert!(accumulator.drain_blocks(4).is_empty());
    accumulator.extend(&vec![11, 12]);
    assert_eq!(accumulator.drain_blocks(4), vec![vec![9, 10, 11, 12]]);
    assert_eq!(accumulator.len(), 0);
    assert!(accumulator.take_all().is_empty());
}

#[test]
fn binary_frames_are_gathered_into_blocks() {
    let mut pipeline = ConnectionPipeline::new(4, 2);
    let step = pipeline.on_frame(&Frame::Binary(frame_of(&[1.0, 2.0, 3.0])));
    assert!(step.blocks.is_empty());
    assert!(step.reply.is_none());
    assert!(!step.stop);
    let step = pipeline.on_frame(&Frame::Binary(frame_of(&[4.0, 5.0, 6.0, 7.0, 8.0, 9.0])));
    let expected: Vec<Vec<u32>> = vec![
        [1.0f32, 2.0, 3.0, 4.0].iter().map(|s| s.to_bits()).collect(),
        [5.0f32, 6.0, 7.0, 8.0].iter().map(|s| s.to_bits()).collect(),
    ];
    assert_eq!(step.blocks, expected);
    assert_eq!(pipeline.accumulator.samples, vec![9.0f32.to_bits()]);
}

#[test]
fn flush_hands_out_what_is_worth_segmenting() {
    let mut pipeline = ConnectionPipeline::new(100, 3);
    pipeline.on_frame(&Frame::Binary(frame_of(&[1.0, 2.0])));
    let step = pipeline.on_frame(&Frame::Text("flush".to_string()));
    assert!(step.blocks.is_empty());
    assert!(step.reply.is_none());
    assert!(!step.stop);
    assert_eq!(pipeline.accumulator.len(), 2);
    pipeline.on_frame(&Frame::Binary(frame_of(&[3.0])));
    let step = pipeline.on_frame(&Frame::Text("flush".to_string()));
    let all: Vec<u32> = [1.0f32, 2.0, 3.0].iter().map(|s| s.to_bits()).collect();
    assert_eq!(step.blocks, vec![all]);
    assert_eq!(pipeline.accumulator.len(), 0);
}

#[test]
fn a_short_silent_frame_and_a_flush_give_no_block() {
    let mut pipeline = ConnectionPipeline::new(480000, 8000);
    let step = pipeline.on_frame(&Frame::Binary(frame_of(&vec![0.0f32; 4800])));
    assert!(step.blocks.is_empty() && step.reply.is_none());
    let step = pipeline.on_frame(&Frame::Text("flush".to_string()));
    assert!(step.blocks.is_empty() && step.reply.is_none() && !step.stop);
    assert!(pipeline.on_disconnect().is_none());
}

#[test]
fn any_other_text_is_answered_with_an_error() {
    let mut pipeline = ConnectionPipeline::new(100, 3);
    pipeline.on_frame(&Frame::Binary(frame_of(&[1.0, 2.0, 3.0, 4.0])));
    for text in ["hello", "Flush", "flush ", ""] {
        let step = pipeline.on_frame(&Frame::Text(text.to_string()));
        assert_eq!(
            step.reply.as_deref(),
            Some("{\"error\": \"Send binary audio data (f32 PCM) or 'flush' command\"}")
        );
        assert!(step.blocks.is_empty());
        assert!(!step.stop);
    }
    assert_eq!(pipeline.accumulator.len(), 4);
}

#[test]
fn a_close_frame_stops_the_reader_and_the_rest_is_flushed() {
    let mut pipeline = ConnectionPipeline::new(100, 3);
    pipeline.on_frame(&Frame::Binary(frame_of(&[1.0, 2.0, 3.0])));
    let step = pipeline.on_frame(&Frame::Other);
    assert!(step.blocks.is_empty() && step.reply.is_none() && !step.stop);
    let step = pipeline.on_frame(&Frame::Close);
    assert!(step.stop);
    assert!(step.blocks.is_empty() && step.reply.is_none());
    let rest = pipeline.on_disconnect().unwrap();
    assert_eq!(rest.len(), 3);
    assert!(pipeline.on_disconnect().is_none());
}

#[test]
fn jobs_come_in_the_order_of_their_segments() {
    let block: Vec<u32> = (0..100u32).collect();
    let segments = vec![
        SpeechSegment::new(0, 10, 0, 0),
        SpeechSegment::new(20, 24, 0, 0),
        SpeechSegment::new(30, 35, 0, 0),
        SpeechSegment::new(90, 100, 0, 0),
    ];
    assert!(segments_within(&segments, 100));
    let jobs = select_jobs(&block, &segments, 5);
    assert_eq!(
        jobs,
        vec![
            (0..10u32).collect::<Vec<u32>>(),
            (30..35u32).collect::<Vec<u32>>(),
            (90..100u32).collect::<Vec<u32>>(),
        ]
    );
    assert!(select_jobs(&block, &segments, 11).is_empty());
    assert_eq!(speech_audio(&block, &segments[1]), vec![20, 21, 22, 23]);
}

#[test]
fn segments_outside_the_block_are_told_apart() {
    assert!(segments_within(&[SpeechSegment::new(0, 100, 0, 0)].to_vec(), 100));
    assert!(!segments_within(&[SpeechSegment::new(0, 101, 0, 0)].to_vec(), 100));
    assert!(!segments_within(&[SpeechSegment::new(9, 3, 0, 0)].to_vec(), 100));
    assert!(segments_within(&Vec::new(), 0));
}
