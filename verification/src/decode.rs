use crate::audio::{AudioData, BYTES_PER_SAMPLE};
use crate::error::SplitError;
use vstd::arithmetic::div_mod::{lemma_add_mod_noop, lemma_small_mod};
use vstd::arithmetic::mul::{lemma_mul_inequality, lemma_mul_is_commutative};
use vstd::prelude::*;

verus! {

/// One poll of the decoder's frame queue, as the decode loop sees it
/// after the frame has been converted to canonical format: a converted
/// frame's bytes, the benign "no more frames for this input" signal
/// (drain while packets remain, flushed at end of stream), or a real
/// decoder failure.  The benign signal ends the drain loop; it is
/// control flow, not an error.
pub enum FrameStep {
    /// A decoded frame, already resampled to canonical format.
    Produced(Vec<u8>),
    /// No more frames for this input: feed the next packet, or stop
    /// after the final flush.
    Exhausted,
    /// A real decoder or converter error.
    Failed,
}

/// Byte length of an interleaved buffer of `nb_samples` frames of
/// `nb_channels` samples, `sample_size` bytes each: the accounting
/// used when converted samples are copied out of the converter's
/// planar buffer.
pub fn pcm_byte_len(nb_samples: usize, nb_channels: usize, sample_size: usize) -> (r: usize)
    requires
        1 <= sample_size,
        nb_channels * nb_samples * sample_size <= usize::MAX,
    ensures
        r == nb_channels * nb_samples * sample_size,
{
    proof {
        let cs = nb_channels * nb_samples;
        lemma_mul_inequality(1, sample_size as int, cs);
        lemma_mul_is_commutative(sample_size as int, cs);
        assert(1 * cs == cs);
    }
    nb_channels * nb_samples * sample_size
}

/// Fold one poll of the decoder into the canonical PCM accumulator and
/// say whether the drain loop goes on: a converted frame is appended
/// and polling continues, the benign exhaustion signal stops the loop
/// without error, a failure aborts the decode.  A converted frame that
/// is not a whole number of interleaved frames is the converter's
/// error and changes nothing.
pub fn accept_decoded(pcm: &mut AudioData, step: &FrameStep) -> (r: Result<bool, SplitError>)
    requires
        old(pcm).well_formed(),
    ensures
        final(pcm).nb_channels == old(pcm).nb_channels,
        final(pcm).sample_rate == old(pcm).sample_rate,
        final(pcm).well_formed(),
        match step {
            FrameStep::Produced(bytes) => {
                if bytes@.len() as int % old(pcm).spec_stride() == 0 {
                    r == Ok::<bool, SplitError>(true)
                        && final(pcm).samples@ == old(pcm).samples@ + bytes@
                } else {
                    r == Err::<bool, SplitError>(SplitError::Resample) && final(pcm).samples@
                        == old(pcm).samples@
                }
            },
            FrameStep::Exhausted => r == Ok::<bool, SplitError>(false) && final(pcm).samples@
                == old(pcm).samples@,
            FrameStep::Failed => r == Err::<bool, SplitError>(SplitError::Codec)
                && final(pcm).samples@ == old(pcm).samples@,
        },
{
    match step {
        FrameStep::Produced(bytes) => {
            let stride: usize = pcm.nb_channels * BYTES_PER_SAMPLE;
            let blen: usize = bytes.len();
            if blen % stride != 0 {
                return Err(SplitError::Resample);
            }
            let mut j: usize = 0;
            while j < blen
                invariant
                    j <= blen,
                    blen == bytes@.len(),
                    pcm.nb_channels == old(pcm).nb_channels,
                    pcm.sample_rate == old(pcm).sample_rate,
                    pcm.samples@ == old(pcm).samples@ + bytes@.subrange(0, j as int),
                decreases blen - j,
            {
                pcm.samples.push(bytes[j]);
                proof {
                    assert(bytes@.subrange(0, j + 1) == bytes@.subrange(0, j as int).push(
                        bytes@[j as int],
                    ));
                }
                j = j + 1;
            }
            proof {
                assert(bytes@.subrange(0, blen as int) == bytes@);
                let s = old(pcm).spec_stride();
                lemma_add_mod_noop(old(pcm).samples@.len() as int, bytes@.len() as int, s);
                lemma_small_mod(0, s as nat);
            }
            Ok(true)
        },
        FrameStep::Exhausted => Ok(false),
        FrameStep::Failed => Err(SplitError::Codec),
    }
}

} // verus!
