use crate::audio::{
    copy_sample_range, lemma_ceil_div_bounds, lemma_ceil_div_offset, lemma_ceil_div_zero,
    spec_ceil_div, Rational,
};
use vstd::arithmetic::mul::lemma_mul_is_distributive_add_other_way;
use vstd::prelude::*;

verus! {

// ---------------------------------------------------------------------
// Re-encoding a track
//
// The encoder consumes a track's canonical PCM in frames of its own
// preferred size and stamps every emitted frame with a presentation
// timestamp counted in samples.  The container work itself is the
// codec engine's; the rules below fix the frame boundaries and the
// timestamps.
// ---------------------------------------------------------------------

/// Time base for an encoder fed from a sample-counting clock: one tick
/// per sample, `1 / sample_rate` of the target codec parameters.
///
/// The input stream's own time base is never reused here: its tick
/// granularity can differ from the sample clock, and an encoder
/// timestamped with it can see input stepping backward in time.  The
/// output stream still carries the source time base; every packet is
/// rescaled from this encoder time base to the stream's before it is
/// written.
pub fn encoder_time_base(sample_rate: i32) -> (r: Rational)
    requires
        1 <= sample_rate,
    ensures
        r.num == 1,
        r.den == sample_rate,
{
    Rational { num: 1, den: sample_rate }
}

/// Number of encoder calls for `m` samples in frames of `f`: the
/// ceiling of `m / f`.
pub open spec fn spec_batch_count(m: int, f: int) -> int
    recommends
        1 <= f,
{
    spec_ceil_div(m, f)
}

/// Samples in batch `i`: a full frame, except that the last batch
/// takes what is left.
pub open spec fn spec_batch_length(i: int, m: int, f: int) -> int {
    if m - i * f <= f {
        m - i * f
    } else {
        f
    }
}

/// One encoder batch: `sample_count` samples of the track starting at
/// `start_sample`.
#[derive(Clone, Copy, PartialEq, Eq, Structural, Debug)]
pub struct Batch {
    pub index: usize,
    pub start_sample: usize,
    pub sample_count: usize,
}

impl Batch {
    /// The batch is chunk `i` of a track of `m` samples cut into
    /// frames of `f`.
    pub open spec fn matches(&self, i: int, m: int, f: int) -> bool {
        &&& self.index == i
        &&& self.start_sample == i * f
        &&& self.sample_count == spec_batch_length(i, m, f)
    }
}

/// Cut a track of `num_samples` samples per channel into the encoder's
/// frames: `ceil(num_samples / frame_size)` batches, each non-empty,
/// each a full frame except possibly the last, together covering the
/// track exactly in order — so the non-empty encoder feeds number
/// exactly the ceiling, and nothing is fed twice or dropped.
pub fn plan_batches(num_samples: usize, frame_size: usize) -> (r: Vec<Batch>)
    requires
        1 <= frame_size,
        num_samples + frame_size <= usize::MAX,
    ensures
        r@.len() == spec_batch_count(num_samples as int, frame_size as int),
        num_samples == 0 ==> r@.len() == 0,
        forall|i: int|
            0 <= i < r@.len() ==> (#[trigger] r@[i]).matches(
                i,
                num_samples as int,
                frame_size as int,
            ),
        forall|i: int|
            0 <= i < r@.len() ==> 1 <= (#[trigger] r@[i]).sample_count <= frame_size,
        forall|i: int|
            0 <= i < r@.len() ==> (#[trigger] r@[i]).start_sample + r@[i].sample_count
                <= num_samples,
        forall|i: int|
            0 <= i < r@.len() - 1 ==> (#[trigger] r@[i]).start_sample + r@[i].sample_count
                == r@[i + 1].start_sample,
        r@.len() >= 1 ==> r@[0].start_sample == 0 && r@[r@.len() - 1].start_sample + r@[r@.len()
            - 1].sample_count == num_samples,
{
    let mut batches: Vec<Batch> = Vec::new();
    if num_samples == 0 {
        proof {
            lemma_ceil_div_zero(frame_size as int);
        }
        return batches;
    }
    let count: usize = (num_samples + frame_size - 1) / frame_size;
    let mut i: usize = 0;
    while i < count
        invariant
            1 <= frame_size,
            num_samples + frame_size <= usize::MAX,
            1 <= num_samples,
            count == spec_batch_count(num_samples as int, frame_size as int),
            i <= count,
            batches@.len() == i,
            forall|k: int|
                0 <= k < i ==> (#[trigger] batches@[k]).matches(
                    k,
                    num_samples as int,
                    frame_size as int,
                ),
            forall|k: int|
                0 <= k < i ==> 1 <= (#[trigger] batches@[k]).sample_count <= frame_size,
            forall|k: int|
                0 <= k < i ==> (#[trigger] batches@[k]).start_sample + batches@[k].sample_count
                    <= num_samples,
        decreases count - i,
    {
        proof {
            lemma_ceil_div_bounds(num_samples as int, frame_size as int);
            lemma_ceil_div_offset(i as int, num_samples as int, frame_size as int);
        }
        let start_sample: usize = i * frame_size;
        let remaining: usize = num_samples - start_sample;
        let sample_count: usize = if remaining <= frame_size {
            remaining
        } else {
            frame_size
        };
        let b = Batch { index: i, start_sample, sample_count };
        batches.push(b);
        proof {
            assert(b.matches(i as int, num_samples as int, frame_size as int));
        }
        i = i + 1;
    }
    proof {
        lemma_ceil_div_bounds(num_samples as int, frame_size as int);
        let m = num_samples as int;
        let f = frame_size as int;
        let c = count as int;
        assert forall|k: int|
            0 <= k < c - 1 implies (#[trigger] batches@[k]).start_sample
            + batches@[k].sample_count == batches@[k + 1].start_sample by {
            lemma_ceil_div_offset(k, m, f);
            lemma_mul_is_distributive_add_other_way(f, k, 1);
            assert((k + 1) * f == k * f + 1 * f);
        }
        lemma_ceil_div_offset(c - 1, m, f);
        lemma_mul_is_distributive_add_other_way(f, c - 1, 1);
        assert((c - 1 + 1) * f == (c - 1) * f + 1 * f);
    }
    batches
}

/// Copy batch `b` out of a track's canonical bytes: the samples handed
/// to one encoder call, `stride` bytes per interleaved frame.
pub fn extract_batch(track: &Vec<u8>, b: &Batch, stride: usize) -> (r: Vec<u8>)
    requires
        1 <= stride,
        (b.start_sample + b.sample_count) * stride <= track@.len(),
    ensures
        r@ == track@.subrange(
            b.start_sample * stride,
            (b.start_sample + b.sample_count) * stride,
        ),
        r@.len() == b.sample_count * stride,
{
    copy_sample_range(track, b.start_sample, b.sample_count, stride)
}

// ---------------------------------------------------------------------
// Presentation timestamps
// ---------------------------------------------------------------------

/// Running presentation-timestamp state for one output stream.  A
/// frame's timestamp is the total of samples emitted before it — a
/// sample count in the encoder's time base, not wall time and not an
/// input chunk index, since resampling may change the sample count per
/// chunk.
pub struct PtsClock {
    pub next_pts: i64,
}

impl PtsClock {
    /// The clock counts emitted samples: never negative.
    pub open spec fn well_formed(&self) -> bool {
        0 <= self.next_pts
    }

    /// A fresh output stream starts at zero.
    pub fn new() -> (r: PtsClock)
        ensures
            r.next_pts == 0,
            r.well_formed(),
    {
        PtsClock { next_pts: 0 }
    }

    /// Stamp a frame that carries `emitted` samples: yields the
    /// frame's timestamp and advances the running total by exactly the
    /// frame's own sample count.  The timestamp of a non-empty frame
    /// is therefore strictly below the next one.
    pub fn stamp(&mut self, emitted: i32) -> (r: i64)
        requires
            old(self).well_formed(),
            0 <= emitted,
            old(self).next_pts + emitted <= i64::MAX,
        ensures
            r == old(self).next_pts,
            final(self).next_pts == old(self).next_pts + emitted,
            final(self).well_formed(),
            0 < emitted ==> r < final(self).next_pts,
    {
        let pts = self.next_pts;
        self.next_pts = self.next_pts + emitted as i64;
        pts
    }
}

/// Timestamp of frame `k` when frames `0 .. k` emitted the given
/// sample counts: the running total of what came before, so each
/// timestamp exceeds the previous one by that frame's own count.
pub open spec fn spec_pts_at(emitted: Seq<int>, k: int) -> int
    decreases k,
{
    if k <= 0 {
        0
    } else {
        spec_pts_at(emitted, k - 1) + emitted[k - 1]
    }
}

/// Successive presentation timestamps of non-empty frames increase
/// strictly.
pub proof fn lemma_pts_strictly_increasing(emitted: Seq<int>, i: int, j: int)
    requires
        forall|k: int| 0 <= k < emitted.len() ==> 1 <= #[trigger] emitted[k],
        0 <= i < j <= emitted.len(),
    ensures
        spec_pts_at(emitted, i) < spec_pts_at(emitted, j),
    decreases j - i,
{
    if i < j - 1 {
        lemma_pts_strictly_increasing(emitted, i, j - 1);
    }
}

} // verus!
