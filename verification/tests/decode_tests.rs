use stem_split::audio::{AudioData, AudioInfo, SampleFormat};
use stem_split::decode::{accept_decoded, pcm_byte_len, FrameStep};
use stem_split::encode::plan_batches;
use stem_split::error::SplitError;
use stem_split::splitter::{append_useful, extract_window, plan_segments};

fn empty_stereo() -> AudioData {
    AudioData::new(Vec::new(), 2, 44_100)
}

#[test]
fn canonical_info_is_stereo_float() {
    let info = AudioInfo::new_pcm(44_100);
    assert_eq!(info.sample_rate, 44_100);
    assert_eq!(info.sample_fmt, SampleFormat::Float32Interleaved);
    assert_eq!(info.nb_channels, 2);
    assert_eq!(info.sample_size, 4);
}

#[test]
fn audio_data_counts_samples_per_channel() {
    let audio = AudioData::new(vec![0u8; 80], 2, 44_100);
    assert_eq!(audio.samples_per_channel(), 10);
    assert_eq!(empty_stereo().samples_per_channel(), 0);
}

#[test]
fn pcm_byte_len_accounting() {
    assert_eq!(pcm_byte_len(3, 2, 4), 24);
    assert_eq!(pcm_byte_len(0, 2, 4), 0);
    assert_eq!(pcm_byte_len(1_024, 2, 4), 8_192);
}

#[test]
fn accept_decoded_appends_converted_frame() {
    let mut pcm = empty_stereo();
    let frame: Vec<u8> = (0u8..16).collect();
    let r = accept_decoded(&mut pcm, &FrameStep::Produced(frame.clone()));
    assert_eq!(r, Ok(true));
    assert_eq!(pcm.samples, frame);

    let second: Vec<u8> = (16u8..24).collect();
    let r = accept_decoded(&mut pcm, &FrameStep::Produced(second));
    assert_eq!(r, Ok(true));
    assert_eq!(pcm.samples, (0u8..24).collect::<Vec<u8>>());
}

#[test]
fn accept_decoded_exhausted_stops_without_error() {
    let mut pcm = empty_stereo();
    let r = accept_decoded(&mut pcm, &FrameStep::Exhausted);
    assert_eq!(r, Ok(false));
    assert!(pcm.samples.is_empty());
}

#[test]
fn accept_decoded_failure_is_codec_error() {
    let mut pcm = empty_stereo();
    let r = accept_decoded(&mut pcm, &FrameStep::Failed);
    assert_eq!(r, Err(SplitError::Codec));
    assert!(pcm.samples.is_empty());
}

#[test]
fn accept_decoded_rejects_torn_frame() {
    // Five bytes are not a whole number of stereo float frames.
    let mut pcm = empty_stereo();
    let r = accept_decoded(&mut pcm, &FrameStep::Produced(vec![1u8, 2, 3, 4, 5]));
    assert_eq!(r, Err(SplitError::Resample));
    assert!(pcm.samples.is_empty());
}

#[test]
fn error_labels_name_the_stage() {
    assert_eq!(SplitError::Format.label(), "open input failed");
    assert_eq!(SplitError::NoAudioStream.label(), "no audio stream in input");
    assert_eq!(SplitError::MissingExtension.label(), "input path has no extension");
    assert_eq!(SplitError::Codec.label(), "codec call failed");
    assert_eq!(SplitError::Resample.label(), "resample failed");
    assert_eq!(SplitError::Model.label(), "model run failed");
    assert_eq!(SplitError::EncoderNotFound.label(), "encoder not found");
    assert_eq!(SplitError::Encode.label(), "write output failed");
    assert_eq!(SplitError::Io.label(), "file operation failed");
}

#[test]
fn pipeline_preserves_sample_count_in_memory() {
    // Decode-accumulate, identity separation, and encoder batching
    // together keep the per-channel sample count exact: frames fed in
    // equal the track samples covered by the batch plan.
    let mut pcm = AudioData::new(Vec::new(), 2, 1);
    let frames = [
        (0u8..40).collect::<Vec<u8>>(),
        (40u8..80).collect::<Vec<u8>>(),
        (80u8..88).collect::<Vec<u8>>(),
    ];
    for frame in &frames {
        assert_eq!(accept_decoded(&mut pcm, &FrameStep::Produced(frame.clone())), Ok(true));
    }
    assert_eq!(accept_decoded(&mut pcm, &FrameStep::Exhausted), Ok(false));
    let n = pcm.samples_per_channel();
    assert_eq!(n, 11);

    let mut track: Vec<u8> = Vec::new();
    for seg in &plan_segments(n, 1) {
        let window = extract_window(&pcm, seg);
        assert!(append_useful(&mut track, &window, seg, 8).is_ok());
    }
    assert_eq!(track, pcm.samples);

    let track_samples = track.len() / 8;
    let batches = plan_batches(track_samples, 4);
    assert_eq!(batches.len(), 3);
    let covered: usize = batches.iter().map(|b| b.sample_count).sum();
    assert_eq!(covered, n);
}
