use crossbeam_channel::{bounded, unbounded};
use weresocool_visualizer::audio::{
    deinterleave, play, playback, silent_block, write_frames, Playback, SampleSource,
};

fn feed(source: &mut SampleSource<f32>, samples: &[f32]) -> Vec<Vec<f32>> {
    let mut blocks = Vec::new();
    for &sample in samples {
        if let Some(block) = source.push(sample) {
            blocks.push(block);
        }
    }
    blocks
}

fn ramp(n: usize) -> Vec<f32> {
    (0..n).map(|i| i as f32).collect()
}

#[test]
fn source_emits_one_block_per_full_stretch() {
    let mut source = SampleSource::new(2);
    assert_eq!(source.block_len(), 4);
    let blocks = feed(&mut source, &ramp(10));
    assert_eq!(blocks, vec![vec![0.0, 1.0, 2.0, 3.0], vec![4.0, 5.0, 6.0, 7.0]]);
}

#[test]
fn source_emits_floor_of_length_over_block_length() {
    for block_size in 1..6usize {
        for n in 0..40usize {
            let mut source = SampleSource::new(block_size);
            let blocks = feed(&mut source, &ramp(n));
            assert_eq!(blocks.len(), n / (2 * block_size));
            for (k, block) in blocks.iter().enumerate() {
                assert_eq!(block.len(), 2 * block_size);
                assert_eq!(block[..], ramp(n)[k * 2 * block_size..(k + 1) * 2 * block_size]);
            }
        }
    }
}

#[test]
fn source_keeps_an_unfinished_block_back() {
    let mut source = SampleSource::new(2);
    assert!(feed(&mut source, &[1.0, 2.0, 3.0]).is_empty());
    assert_eq!(source.push(4.0), Some(vec![1.0, 2.0, 3.0, 4.0]));
    assert_eq!(source.push(5.0), None);
}

#[test]
fn source_emits_block_exactly_at_the_boundary() {
    let mut source = SampleSource::new(1);
    assert_eq!(source.push(7u8), None);
    assert_eq!(source.push(8u8), Some(vec![7, 8]));
    assert_eq!(source.push(9u8), None);
    assert_eq!(source.push(10u8), Some(vec![9, 10]));
}

#[test]
fn deinterleave_splits_even_and_odd() {
    let (left, right) = deinterleave(&[1.0f32, 2.0, 3.0, 4.0]);
    assert_eq!(left, vec![1.0, 3.0]);
    assert_eq!(right, vec![2.0, 4.0]);
}

#[test]
fn deinterleave_recovers_what_was_interleaved() {
    let left: Vec<i32> = (0..50).collect();
    let right: Vec<i32> = (100..150).collect();
    let mut block = Vec::new();
    for i in 0..50 {
        block.push(left[i]);
        block.push(right[i]);
    }
    assert_eq!(deinterleave(&block), (left, right));
}

#[test]
fn deinterleave_gives_a_trailing_sample_to_the_left() {
    let (left, right) = deinterleave(&[1, 2, 3]);
    assert_eq!(left, vec![1, 3]);
    assert_eq!(right, vec![2]);
}

#[test]
fn deinterleave_of_nothing_is_nothing() {
    let (left, right) = deinterleave::<f32>(&[]);
    assert!(left.is_empty());
    assert!(right.is_empty());
}

#[test]
fn silent_block_is_stereo_zero_fill() {
    assert_eq!(silent_block(4, 0.0f32), vec![0.0; 8]);
    assert_eq!(silent_block(0, 0.0f32), Vec::<f32>::new());
    assert_eq!(silent_block(2, 5u8), vec![5, 5, 5, 5]);
}

#[test]
fn write_frames_pads_a_short_block_with_silence() {
    let mut out = [9.0f32; 8];
    write_frames(&[1.0, 2.0, 3.0, 4.0], &mut out, 0.0);
    assert_eq!(out, [1.0, 2.0, 3.0, 4.0, 0.0, 0.0, 0.0, 0.0]);
}

#[test]
fn write_frames_leaves_out_half_a_frame() {
    let mut out = [9.0f32; 4];
    write_frames(&[1.0, 2.0, 3.0], &mut out, 0.0);
    assert_eq!(out, [1.0, 2.0, 0.0, 0.0]);
}

#[test]
fn play_substitutes_silence_on_underrun() {
    let mut out = [9.0f32; 8];
    let turn = play(None, 4, 0.0, &mut out);
    assert_eq!(turn.playback, Playback::Underrun);
    assert_eq!(out, [0.0; 8]);
    assert_eq!(turn.left, vec![0.0; 4]);
    assert_eq!(turn.right, vec![0.0; 4]);
}

#[test]
fn play_writes_the_block_at_matching_indices() {
    let mut out = [9.0f32; 4];
    let turn = play(Some(vec![1.0, 2.0, 3.0, 4.0]), 2, 0.0, &mut out);
    assert_eq!(turn.playback, Playback::Block);
    assert_eq!(out, [1.0, 2.0, 3.0, 4.0]);
    assert_eq!(turn.left, vec![1.0, 3.0]);
    assert_eq!(turn.right, vec![2.0, 4.0]);
}

#[test]
fn play_leaves_silence_after_a_short_block() {
    let mut out = [9.0f32; 6];
    let turn = play(Some(vec![1.0, 2.0]), 3, 0.0, &mut out);
    assert_eq!(turn.playback, Playback::Block);
    assert_eq!(out, [1.0, 2.0, 0.0, 0.0, 0.0, 0.0]);
}

#[test]
fn play_turns_an_overlong_block_away() {
    let mut out = [9.0f32; 4];
    let turn = play(Some(vec![1.0, 2.0, 3.0, 4.0, 5.0, 6.0]), 2, 0.0, &mut out);
    assert_eq!(turn.playback, Playback::Overlong);
    assert_eq!(out, [9.0; 4]);
    assert_eq!(turn.left, vec![1.0, 3.0, 5.0]);
    assert_eq!(turn.right, vec![2.0, 4.0, 6.0]);
}

#[test]
fn play_turns_overlong_silence_away() {
    let mut out = [9.0f32; 4];
    let turn = play(None, 3, 0.0, &mut out);
    assert_eq!(turn.playback, Playback::Overlong);
    assert_eq!(out, [9.0; 4]);
    assert_eq!(turn.left, vec![0.0; 3]);
}

#[test]
fn playback_plays_the_pending_block_and_feeds_both_channels() {
    let (blocks_tx, blocks_rx) = unbounded();
    let (left_tx, left_rx) = unbounded();
    let (right_tx, right_rx) = unbounded();
    blocks_tx.send(vec![1.0f32, 2.0, 3.0, 4.0]).unwrap();
    let mut out = [9.0f32; 4];
    let result = playback(&blocks_rx, &left_tx, &right_tx, 2, 0.0, &mut out);
    assert_eq!(result, Playback::Block);
    assert_eq!(out, [1.0, 2.0, 3.0, 4.0]);
    assert_eq!(left_rx.try_recv(), Ok(vec![1.0, 3.0]));
    assert_eq!(right_rx.try_recv(), Ok(vec![2.0, 4.0]));
    assert!(left_rx.try_recv().is_err());
    assert!(right_rx.try_recv().is_err());
}

#[test]
fn playback_takes_one_block_per_turn_in_order() {
    let (blocks_tx, blocks_rx) = unbounded();
    let (left_tx, left_rx) = unbounded();
    let (right_tx, _right_rx) = unbounded();
    blocks_tx.send(vec![1u8, 2]).unwrap();
    blocks_tx.send(vec![3u8, 4]).unwrap();
    let mut out = [0u8; 2];
    assert_eq!(playback(&blocks_rx, &left_tx, &right_tx, 1, 0, &mut out), Playback::Block);
    assert_eq!(out, [1, 2]);
    assert_eq!(playback(&blocks_rx, &left_tx, &right_tx, 1, 0, &mut out), Playback::Block);
    assert_eq!(out, [3, 4]);
    assert_eq!(playback(&blocks_rx, &left_tx, &right_tx, 1, 0, &mut out), Playback::Underrun);
    assert_eq!(out, [0, 0]);
    assert_eq!(left_rx.try_iter().collect::<Vec<_>>(), vec![vec![1], vec![3], vec![0]]);
}

#[test]
fn playback_on_an_empty_queue_is_silence() {
    let (_blocks_tx, blocks_rx) = unbounded::<Vec<f32>>();
    let (left_tx, left_rx) = unbounded();
    let (right_tx, right_rx) = unbounded();
    let mut out = [9.0f32; 8];
    let result = playback(&blocks_rx, &left_tx, &right_tx, 4, 0.0, &mut out);
    assert_eq!(result, Playback::Underrun);
    assert_eq!(out, [0.0, 0.0, 0.0, 0.0, 0.0, 0.0, 0.0, 0.0]);
    assert_eq!(left_rx.try_recv(), Ok(vec![0.0; 4]));
    assert_eq!(right_rx.try_recv(), Ok(vec![0.0; 4]));
}

#[test]
fn playback_does_not_wait_for_a_producer_that_has_gone() {
    let (blocks_tx, blocks_rx) = unbounded::<Vec<f32>>();
    drop(blocks_tx);
    let (left_tx, _left_rx) = unbounded();
    let (right_tx, _right_rx) = unbounded();
    let mut out = [9.0f32; 2];
    assert_eq!(playback(&blocks_rx, &left_tx, &right_tx, 1, 0.0, &mut out), Playback::Underrun);
    assert_eq!(out, [0.0, 0.0]);
}

#[test]
fn playback_goes_on_without_an_analyser() {
    let (blocks_tx, blocks_rx) = unbounded();
    let (left_tx, left_rx) = unbounded();
    let (right_tx, right_rx) = unbounded();
    drop(left_rx);
    drop(right_rx);
    blocks_tx.send(vec![1.0f32, 2.0]).unwrap();
    let mut out = [9.0f32; 2];
    assert_eq!(playback(&blocks_rx, &left_tx, &right_tx, 1, 0.0, &mut out), Playback::Block);
    assert_eq!(out, [1.0, 2.0]);
}

#[test]
fn playback_does_not_wait_for_a_full_analyser_queue() {
    let (blocks_tx, blocks_rx) = unbounded();
    let (left_tx, left_rx) = bounded(1);
    let (right_tx, _right_rx) = bounded(1);
    blocks_tx.send(vec![1u8, 2]).unwrap();
    blocks_tx.send(vec![3u8, 4]).unwrap();
    let mut out = [0u8; 2];
    assert_eq!(playback(&blocks_rx, &left_tx, &right_tx, 1, 0, &mut out), Playback::Block);
    assert_eq!(playback(&blocks_rx, &left_tx, &right_tx, 1, 0, &mut out), Playback::Block);
    assert_eq!(out, [3, 4]);
    assert_eq!(left_rx.try_iter().collect::<Vec<_>>(), vec![vec![1]]);
}

#[test]
fn playback_turns_an_overlong_block_away() {
    let (blocks_tx, blocks_rx) = unbounded();
    let (left_tx, left_rx) = unbounded();
    let (right_tx, _right_rx) = unbounded();
    blocks_tx.send(vec![1u8, 2, 3, 4]).unwrap();
    let mut out = [7u8; 2];
    assert_eq!(playback(&blocks_rx, &left_tx, &right_tx, 1, 0, &mut out), Playback::Overlong);
    assert_eq!(out, [7, 7]);
    assert_eq!(left_rx.try_recv(), Ok(vec![1, 3]));
}
