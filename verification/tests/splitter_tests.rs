use stem_split::audio::AudioData;
use stem_split::error::SplitError;
use stem_split::splitter::{
    append_useful, extract_window, new_track_accumulators, plan_segments, Segment,
};

fn pattern_bytes(len: usize) -> Vec<u8> {
    (0..len).map(|i| (i * 7 + 3) as u8).collect()
}

/// Run the segmentation pipeline with an identity model: every
/// extracted window is handed back unchanged and trimmed into the
/// track.  The reconstructed track must equal the input byte for byte.
fn identity_roundtrip(n: usize, sample_rate: usize, nb_channels: usize) {
    let stride = nb_channels * 4;
    let bytes = pattern_bytes(n * stride);
    let audio = AudioData::new(bytes.clone(), nb_channels, sample_rate);
    let segs = plan_segments(n, sample_rate);

    let mut tracks = new_track_accumulators(1);
    let mut track = tracks.pop().unwrap();
    for seg in &segs {
        let window = extract_window(&audio, seg);
        let r = append_useful(&mut track, &window, seg, stride);
        assert!(r.is_ok());
    }
    assert_eq!(track.len(), bytes.len());
    assert_eq!(track, bytes);
}

#[test]
fn identity_reconstruction_multiple_windows() {
    // 75 samples at rate 1: slice 30, extend 5, three windows.
    identity_roundtrip(75, 1, 2);
}

#[test]
fn identity_reconstruction_single_short_window() {
    // Shorter than one slice: a single window, no context.
    identity_roundtrip(10, 1, 2);
}

#[test]
fn identity_reconstruction_exact_multiple() {
    // Exactly two slices.
    identity_roundtrip(60, 1, 2);
}

#[test]
fn segment_plan_concrete_scenario() {
    // 90 seconds of stereo canonical PCM at 44.1 kHz.
    let segs = plan_segments(3_969_000, 44_100);
    assert_eq!(segs.len(), 3);

    assert_eq!(segs[0].process_start, 0);
    assert_eq!(segs[0].process_length, 1_543_500);
    assert_eq!(segs[0].useful_start, 0);
    assert_eq!(segs[0].useful_length, 1_323_000);

    assert_eq!(segs[1].process_start, 1_102_500);
    assert_eq!(segs[1].process_length, 1_764_000);
    assert_eq!(segs[1].useful_start, 220_500);
    assert_eq!(segs[1].useful_length, 1_323_000);

    assert_eq!(segs[2].process_start, 2_425_500);
    assert_eq!(segs[2].process_length, 1_543_500);
    assert_eq!(segs[2].useful_start, 220_500);
    assert_eq!(segs[2].useful_length, 1_323_000);
}

#[test]
fn segment_plan_boundaries() {
    // For every window after the first, the processed region starts
    // one extend before its slice; every window ends inside the input.
    let n: usize = 3_969_000;
    let sample_rate: usize = 44_100;
    let slice = sample_rate * 30;
    let extend = sample_rate * 5;
    let segs = plan_segments(n, sample_rate);
    for (i, seg) in segs.iter().enumerate() {
        if i > 0 {
            assert_eq!(seg.process_start, i * slice - extend);
        }
        assert!(seg.process_start + seg.process_length <= n);
    }
}

#[test]
fn segment_plan_counts_and_partition() {
    for &(n, sr) in &[(75usize, 1usize), (10, 1), (60, 1), (31, 1), (3_969_000, 44_100)] {
        let slice = sr * 30;
        let segs = plan_segments(n, sr);
        assert_eq!(segs.len(), (n + slice - 1) / slice);
        let mut covered = 0usize;
        for (i, seg) in segs.iter().enumerate() {
            assert_eq!(seg.index, i);
            // The useful region of window i is exactly the slice
            // [i * slice, i * slice + useful_length).
            assert_eq!(covered, i * slice);
            covered += seg.useful_length;
        }
        assert_eq!(covered, n);
    }
}

#[test]
fn segment_plan_empty_input() {
    let segs = plan_segments(0, 44_100);
    assert!(segs.is_empty());
}

#[test]
fn append_useful_rejects_wrong_shape() {
    // A model output that does not cover the processed window is the
    // model's error and must leave the track unchanged.
    let seg = Segment {
        index: 0,
        process_start: 0,
        process_length: 4,
        useful_start: 0,
        useful_length: 4,
    };
    let mut track = vec![9u8, 9, 9];
    let short_output = pattern_bytes(3 * 8);
    let r = append_useful(&mut track, &short_output, &seg, 8);
    assert_eq!(r, Err(SplitError::Model));
    assert_eq!(track, vec![9u8, 9, 9]);
}

#[test]
fn append_useful_trims_context() {
    // Window of 4 frames whose useful region is frames 1..3.
    let seg = Segment {
        index: 1,
        process_start: 0,
        process_length: 4,
        useful_start: 1,
        useful_length: 2,
    };
    let stride = 2usize;
    let window_out: Vec<u8> = vec![0, 1, 10, 11, 20, 21, 30, 31];
    let mut track: Vec<u8> = vec![7, 8];
    let r = append_useful(&mut track, &window_out, &seg, stride);
    assert!(r.is_ok());
    assert_eq!(track, vec![7, 8, 10, 11, 20, 21]);
}

#[test]
fn extract_window_copies_processed_region() {
    let audio = AudioData::new((0u8..40).collect(), 2, 1);
    let seg = Segment {
        index: 0,
        process_start: 1,
        process_length: 2,
        useful_start: 0,
        useful_length: 2,
    };
    let window = extract_window(&audio, &seg);
    assert_eq!(window, (8u8..24).collect::<Vec<u8>>());
}
