use stem_split::encode::{encoder_time_base, extract_batch, plan_batches, PtsClock};

#[test]
fn encoder_time_base_is_one_over_sample_rate() {
    let tb = encoder_time_base(44_100);
    assert_eq!(tb.num, 1);
    assert_eq!(tb.den, 44_100);
}

#[test]
fn batch_plan_count_is_ceiling() {
    // 10000 samples in frames of 1024: ten batches, the last short.
    let batches = plan_batches(10_000, 1_024);
    assert_eq!(batches.len(), 10);
    for (i, b) in batches.iter().enumerate() {
        assert_eq!(b.index, i);
        assert_eq!(b.start_sample, i * 1_024);
        if i < 9 {
            assert_eq!(b.sample_count, 1_024);
        } else {
            assert_eq!(b.sample_count, 10_000 - 9 * 1_024);
        }
    }
}

#[test]
fn batch_plan_covers_track_exactly() {
    for &(m, f) in &[(10_000usize, 1_024usize), (2_048, 1_024), (1, 1_024), (1_023, 1_024)] {
        let batches = plan_batches(m, f);
        assert_eq!(batches.len(), (m + f - 1) / f);
        let mut next = 0usize;
        let mut total = 0usize;
        for b in &batches {
            assert_eq!(b.start_sample, next);
            assert!(1 <= b.sample_count && b.sample_count <= f);
            next = b.start_sample + b.sample_count;
            total += b.sample_count;
        }
        assert_eq!(next, m);
        assert_eq!(total, m);
    }
}

#[test]
fn batch_plan_empty_track_feeds_nothing() {
    // An empty track makes no encoder calls at all: the container
    // gets its header and trailer but no media packets.
    let batches = plan_batches(0, 1_024);
    assert!(batches.is_empty());
}

#[test]
fn pts_clock_counts_emitted_samples() {
    let mut clock = PtsClock::new();
    assert_eq!(clock.stamp(1_024), 0);
    assert_eq!(clock.stamp(1_024), 1_024);
    assert_eq!(clock.stamp(784), 2_048);
    assert_eq!(clock.next_pts, 2_832);
}

#[test]
fn pts_clock_strictly_increases_on_nonempty_frames() {
    let mut clock = PtsClock::new();
    let mut last = -1i64;
    for emitted in [512i32, 1, 7, 1_024] {
        let pts = clock.stamp(emitted);
        assert!(pts > last);
        last = pts;
    }
    // An empty frame does not advance the clock.
    let pts = clock.stamp(0);
    assert_eq!(pts, clock.next_pts);
}

#[test]
fn extract_batch_copies_sample_range() {
    let track: Vec<u8> = (0u8..48).collect();
    let batches = plan_batches(6, 4);
    assert_eq!(batches.len(), 2);
    // Stride 8: stereo canonical frames.
    let first = extract_batch(&track, &batches[0], 8);
    let second = extract_batch(&track, &batches[1], 8);
    assert_eq!(first, (0u8..32).collect::<Vec<u8>>());
    assert_eq!(second, (32u8..48).collect::<Vec<u8>>());
}
