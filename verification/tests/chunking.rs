use loopback_capture::chunk::{downmix_frame, target_frames, ChunkAccumulator};

// One second of audio is split into a hundred chunks, rounding to nearest.
#[test]
fn target_frames_known_rates() {
    assert_eq!(target_frames(48000), 480);
    assert_eq!(target_frames(44100), 441);
    assert_eq!(target_frames(96000), 960);
    assert_eq!(target_frames(8000), 80);
}

#[test]
fn target_frames_rounds_to_nearest() {
    assert_eq!(target_frames(48049), 480);
    assert_eq!(target_frames(48050), 481); // halves round up
    assert_eq!(target_frames(48051), 481);
    assert_eq!(target_frames(50), 1);
}

// The mono sample is the arithmetic mean across the channels of one frame.
#[test]
fn downmix_mean_mono() {
    assert_eq!(downmix_frame(&vec![7]), 7);
    assert_eq!(downmix_frame(&vec![-12]), -12);
}

#[test]
fn downmix_mean_stereo() {
    assert_eq!(downmix_frame(&vec![2, 4]), 3);
    assert_eq!(downmix_frame(&vec![-2, -4]), -3);
    assert_eq!(downmix_frame(&vec![1_000_000, 3_000_000]), 2_000_000);
}

#[test]
fn downmix_mean_six_channels() {
    assert_eq!(downmix_frame(&vec![1, 2, 3, 4, 5, 9]), 4);
    assert_eq!(downmix_frame(&vec![-6, -6, -6, -6, -6, -6]), -6);
    assert_eq!(downmix_frame(&vec![60, 0, 0, 0, 0, 0]), 10);
}

#[test]
fn downmix_truncates_toward_zero() {
    assert_eq!(downmix_frame(&vec![1, 2]), 1);
    assert_eq!(downmix_frame(&vec![-1, -2]), -1);
}

#[test]
fn downmix_extremes_stay_in_range() {
    assert_eq!(downmix_frame(&vec![i32::MAX, i32::MAX]), i32::MAX);
    assert_eq!(downmix_frame(&vec![i32::MIN, i32::MIN]), i32::MIN);
    assert_eq!(downmix_frame(&vec![i32::MIN, i32::MAX]), 0);
}

// Feeding K * target samples through arbitrarily sized (frame-aligned)
// buffers emits exactly K chunks, each the matching contiguous slice of the
// input, in order.
#[test]
fn chunks_are_contiguous_slices_in_order() {
    let input: Vec<i32> = (0..24).collect();
    let mut acc = ChunkAccumulator::new(4);
    let mut emitted: Vec<Vec<i32>> = Vec::new();
    for buf in [&input[0..3], &input[3..8], &input[8..15], &input[15..24]] {
        let chunks = acc.process_interleaved(&buf.to_vec(), 1);
        emitted.extend(chunks);
    }
    assert_eq!(emitted.len(), 6);
    for (k, chunk) in emitted.iter().enumerate() {
        assert_eq!(chunk.len(), 4);
        assert_eq!(chunk.as_slice(), &input[4 * k..4 * k + 4]);
    }
}

#[test]
fn partial_chunk_is_held_back() {
    let mut acc = ChunkAccumulator::new(4);
    let chunks = acc.process_interleaved(&vec![1, 2, 3], 1);
    assert_eq!(chunks.len(), 0);
    let chunks = acc.process_interleaved(&vec![4, 5], 1);
    assert_eq!(chunks.len(), 1);
    assert_eq!(chunks[0], vec![1, 2, 3, 4]);
}

#[test]
fn push_mono_emits_exactly_at_target() {
    let mut acc = ChunkAccumulator::new(2);
    assert_eq!(acc.push_mono(10), None);
    assert_eq!(acc.push_mono(20), Some(vec![10, 20]));
    assert_eq!(acc.push_mono(30), None);
    assert_eq!(acc.push_mono(40), Some(vec![30, 40]));
}

#[test]
fn trailing_partial_frame_is_ignored() {
    let mut acc = ChunkAccumulator::new(2);
    // Five samples at two channels: two complete frames, one sample left over.
    let chunks = acc.process_interleaved(&vec![2, 4, 6, 8, 99], 2);
    assert_eq!(chunks.len(), 1);
    assert_eq!(chunks[0], vec![3, 7]);
}

// sample_rate = 48000 and a 10 ms chunk give target_frames = 480; 960
// stereo frames of identical per-channel value give exactly two chunks of
// 480 samples, every sample that value.
#[test]
fn two_chunks_from_960_stereo_frames() {
    const ONE: i32 = 1 << 24; // 1.0 in the host's fixed-point convention
    let mut acc = ChunkAccumulator::for_sample_rate(48000);
    let mut emitted: Vec<Vec<i32>> = Vec::new();
    // 960 frames fed as arbitrarily sized, frame-aligned buffers.
    for frames in [100usize, 350, 510] {
        let buf: Vec<i32> = std::iter::repeat(ONE).take(frames * 2).collect();
        emitted.extend(acc.process_interleaved(&buf, 2));
    }
    assert_eq!(emitted.len(), 2);
    for chunk in &emitted {
        assert_eq!(chunk.len(), 480);
        assert!(chunk.iter().all(|&s| s == ONE));
    }
}
