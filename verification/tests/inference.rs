use speech_pipeline::vad::inference::{
    concatenate, decimate, flatten, get_last_columns, validate_input,
};
use speech_pipeline::vad::silero_vad::{SileroVadDetector, VadError};

fn counting(count: usize) -> Vec<u32> {
    (0..count as u32).collect()
}

#[test]
fn windows_are_filled_up_with_zeros() {
    let vad = SileroVadDetector::new(16000, 250, None, 100, 30).unwrap();
    let input: Vec<u32> = (1..=1000u32).collect();
    assert_eq!(vad.params.count_windows(1000), 2);
    assert_eq!(vad.params.count_windows(1024), 2);
    assert_eq!(vad.params.count_windows(1025), 3);
    assert_eq!(vad.params.count_windows(0), 0);
    let first = vad.window_at(&input, 0);
    assert_eq!(first, (1..=512u32).collect::<Vec<u32>>());
    let second = vad.window_at(&input, 1);
    assert_eq!(second.len(), 512);
    assert_eq!(&second[..488], &input[512..]);
    assert!(second[488..].iter().all(|word| *word == 0));
}

#[test]
fn a_multiple_of_the_base_rate_is_thinned_out() {
    let (rows, rate) = validate_input(&[counting(1024)], 32000).unwrap();
    assert_eq!(rate, 16000);
    assert_eq!(rows, vec![(0..512u32).map(|i| 2 * i).collect::<Vec<u32>>()]);
    let (rows, rate) = validate_input(&[counting(1536), counting(7)], 48000).unwrap();
    assert_eq!(rate, 16000);
    assert_eq!(rows[0], (0..512u32).map(|i| 3 * i).collect::<Vec<u32>>());
    assert_eq!(rows[1], vec![0, 3, 6]);
    assert_eq!(decimate(&counting(10), 4), vec![0, 4, 8]);
    assert_eq!(decimate(&counting(8), 4), vec![0, 4]);
    assert_eq!(decimate(&counting(3), 1), vec![0, 1, 2]);
}

#[test]
fn supported_rates_pass_unchanged() {
    let (rows, rate) = validate_input(&[counting(512)], 16000).unwrap();
    assert_eq!(rate, 16000);
    assert_eq!(rows, vec![counting(512)]);
    let (rows, rate) = validate_input(&[counting(256)], 8000).unwrap();
    assert_eq!(rate, 8000);
    assert_eq!(rows, vec![counting(256)]);
    let (rows, rate) = validate_input(&[], 8000).unwrap();
    assert_eq!(rate, 8000);
    assert!(rows.is_empty());
}

#[test]
fn other_rates_are_refused() {
    for rate in [44100, 0, -16000, 24000, 1] {
        assert!(matches!(
            validate_input(&[counting(512)], rate),
            Err(VadError::UnsupportedSampleRate)
        ));
    }
}

#[test]
fn a_row_too_short_for_the_rate_is_refused() {
    assert!(matches!(validate_input(&[counting(511)], 16000), Err(VadError::InputTooShort)));
    assert!(validate_input(&[counting(512)], 16000).is_ok());
    assert!(matches!(validate_input(&[counting(255)], 8000), Err(VadError::InputTooShort)));
    assert!(validate_input(&[counting(256)], 8000).is_ok());
    assert!(matches!(validate_input(&[Vec::new()], 8000), Err(VadError::InputTooShort)));
    assert!(matches!(validate_input(&[counting(1022)], 32000), Err(VadError::InputTooShort)));
}

#[test]
fn rows_are_joined_to_their_context() {
    let context = vec![vec![1, 2], vec![3, 4]];
    let batch = vec![vec![5, 6, 7], vec![8]];
    assert_eq!(concatenate(&context, &batch), vec![vec![1, 2, 5, 6, 7], vec![3, 4, 8]]);
    assert_eq!(concatenate(&Vec::new(), &batch), batch);
    assert_eq!(concatenate(&vec![Vec::new(), Vec::new()], &batch), batch);
    assert_eq!(concatenate(&context, &vec![vec![9]]), vec![vec![1, 2, 9], vec![3, 4]]);
    assert_eq!(flatten(&vec![vec![1, 2], vec![], vec![3]]), vec![1, 2, 3]);
}

#[test]
fn the_last_columns_are_kept() {
    let rows = vec![vec![1, 2, 3, 4, 5], vec![6, 7], vec![8, 9, 10]];
    assert_eq!(get_last_columns(&rows, 3), vec![vec![3, 4, 5], vec![0, 0, 0], vec![8, 9, 10]]);
    assert_eq!(get_last_columns(&rows, 0), vec![Vec::<u32>::new(), Vec::new(), Vec::new()]);
}

#[test]
fn the_first_call_starts_from_a_context_of_zeros() {
    let mut vad = SileroVadDetector::new(16000, 250, None, 100, 30).unwrap();
    let window: Vec<u32> = (1..=512u32).collect();
    let input = vad.prepare_call(&[window.clone()], 16000).unwrap();
    assert_eq!(input.batch, 1);
    assert_eq!(input.width, 576);
    assert_eq!(input.rate, 16000);
    assert_eq!(input.rows.len(), 1);
    assert_eq!(&input.rows[0][..64], &[0u32; 64][..]);
    assert_eq!(&input.rows[0][64..], &window[..]);
    assert_eq!(input.data, input.rows[0]);
    assert_eq!(vad.context, vec![vec![0u32; 64]]);
}

#[test]
fn a_call_leaves_its_state_and_context_to_the_next() {
    let mut vad = SileroVadDetector::new(16000, 250, None, 100, 30).unwrap();
    let window: Vec<u32> = (1..=512u32).collect();
    let input = vad.prepare_call(&[window], 16000).unwrap();
    let state: Vec<u32> = (1000..1256u32).collect();
    vad.complete_call(&input, state.clone()).unwrap();
    assert_eq!(vad.state, state);
    assert_eq!(vad.context, vec![(449..=512u32).collect::<Vec<u32>>()]);
    assert_eq!(vad.last_sr, 16000);
    assert_eq!(vad.last_batch_size, 1);
    let next: Vec<u32> = (2001..=2512u32).collect();
    let second = vad.prepare_call(&[next.clone()], 16000).unwrap();
    assert_eq!(&second.rows[0][..64], &(449..=512u32).collect::<Vec<u32>>()[..]);
    assert_eq!(&second.rows[0][64..], &next[..]);
    assert_eq!(vad.state, state);
}

#[test]
fn another_rate_or_batch_starts_afresh() {
    let mut vad = SileroVadDetector::new(16000, 250, None, 100, 30).unwrap();
    let window: Vec<u32> = (1..=512u32).collect();
    let input = vad.prepare_call(&[window.clone()], 16000).unwrap();
    vad.complete_call(&input, vec![7u32; 256]).unwrap();
    let at_8k = vad.prepare_call(&[window[..256].to_vec()], 8000).unwrap();
    assert_eq!(at_8k.width, 288);
    assert_eq!(&at_8k.rows[0][..32], &[0u32; 32][..]);
    assert_eq!(vad.state, vec![0u32; 256]);
    assert_eq!(vad.last_sr, 0);
    vad.complete_call(&at_8k, vec![9u32; 256]).unwrap();
    let two = vad.prepare_call(&[window[..256].to_vec(), window[256..].to_vec()], 8000).unwrap();
    assert_eq!(two.batch, 2);
    assert_eq!(two.width, 288);
    assert_eq!(two.data.len(), 576);
    assert_eq!(&two.rows[1][..32], &[0u32; 32][..]);
    assert_eq!(vad.state, vec![0u32; 256]);
}

#[test]
fn a_batch_that_is_no_tensor_is_refused() {
    let mut vad = SileroVadDetector::new(16000, 250, None, 100, 30).unwrap();
    let window: Vec<u32> = (1..=512u32).collect();
    assert!(matches!(
        vad.prepare_call(&[counting(600)], 16000),
        Err(VadError::TensorShapeMismatch)
    ));
    assert!(matches!(
        vad.prepare_call(&[window.clone(), counting(600)], 16000),
        Err(VadError::TensorShapeMismatch)
    ));
    assert!(matches!(vad.prepare_call(&[window.clone()], 44100), Err(VadError::UnsupportedSampleRate)));
    assert!(matches!(vad.prepare_call(&[counting(100)], 16000), Err(VadError::InputTooShort)));
    let input = vad.prepare_call(&[window], 16000).unwrap();
    assert!(matches!(
        vad.complete_call(&input, vec![0u32; 255]),
        Err(VadError::TensorShapeMismatch)
    ));
    assert_eq!(vad.last_batch_size, 0);
}
