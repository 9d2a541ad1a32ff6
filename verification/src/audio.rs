use vstd::arithmetic::div_mod::{lemma_basic_div, lemma_fundamental_div_mod, lemma_mod_bound};
use vstd::arithmetic::mul::{
    lemma_mul_inequality, lemma_mul_is_commutative, lemma_mul_is_distributive_add,
    lemma_mul_is_distributive_add_other_way, lemma_mul_is_distributive_sub_other_way,
    lemma_mul_nonnegative,
};
use vstd::prelude::*;

verus! {

/// Ceiling of `n / d` for positive `d`: the least count of `d`-sized
/// chunks that covers `n`.
pub open spec fn spec_ceil_div(n: int, d: int) -> int
    recommends
        1 <= d,
{
    (n + d - 1) / d
}

/// The ceiling is exact: `count - 1` chunks fall short of `n` and
/// `count` chunks reach it.
pub proof fn lemma_ceil_div_bounds(n: int, d: int)
    requires
        1 <= n,
        1 <= d,
    ensures
        1 <= spec_ceil_div(n, d),
        (spec_ceil_div(n, d) - 1) * d < n,
        n <= spec_ceil_div(n, d) * d,
{
    let m = n + d - 1;
    let c = m / d;
    lemma_fundamental_div_mod(m, d);
    lemma_mod_bound(m, d);
    assert(d * c == m - (m % d));
    lemma_mul_is_commutative(c, d);
    lemma_mul_is_distributive_sub_other_way(d, c, 1);
    assert((c - 1) * d == c * d - 1 * d);
    if c < 1 {
        lemma_mul_inequality(c, 0, d);
        assert(c * d <= 0 * d);
        assert(0 * d == 0) by {
            lemma_mul_is_commutative(0, d);
        }
    }
}

/// Covering nothing takes no chunks.
pub proof fn lemma_ceil_div_zero(d: int)
    requires
        1 <= d,
    ensures
        spec_ceil_div(0, d) == 0,
{
    lemma_basic_div(d - 1, d);
}

/// Chunk `i` of the cover starts inside `n`, and every chunk but the
/// last leaves room for a full `d`.
pub proof fn lemma_ceil_div_offset(i: int, n: int, d: int)
    requires
        1 <= n,
        1 <= d,
        0 <= i < spec_ceil_div(n, d),
    ensures
        0 <= i * d,
        i * d < n,
        i < spec_ceil_div(n, d) - 1 ==> i * d + d <= n,
{
    let c = spec_ceil_div(n, d);
    lemma_ceil_div_bounds(n, d);
    lemma_mul_nonnegative(i, d);
    lemma_mul_inequality(i, c - 1, d);
    if i < c - 1 {
        lemma_mul_inequality(i + 1, c - 1, d);
        lemma_mul_is_distributive_add_other_way(d, i, 1);
        assert((i + 1) * d == i * d + 1 * d);
    }
}

/// Width in bytes of one canonical sample (a 32-bit float).
pub const BYTES_PER_SAMPLE: usize = 4;

/// Sample encodings the pipeline can describe.  The canonical
/// intermediate representation between decoding and inference is fixed
/// to interleaved 32-bit float.
#[derive(Clone, Copy, PartialEq, Eq, Structural, Debug)]
pub enum SampleFormat {
    Float32Interleaved,
}

/// Width in bytes of one sample of the given format.
pub open spec fn spec_bytes_per_sample(fmt: SampleFormat) -> int {
    match fmt {
        SampleFormat::Float32Interleaved => 4,
    }
}

/// Shape of a PCM stream: rate, sample format, channel count and
/// sample width.
#[derive(Clone, Copy, PartialEq, Eq, Structural, Debug)]
pub struct AudioInfo {
    pub sample_rate: usize,
    pub sample_fmt: SampleFormat,
    pub nb_channels: usize,
    pub sample_size: usize,
}

impl AudioInfo {
    /// The descriptor is consistent: the stored sample width matches
    /// the sample format, there is at least one channel, and one
    /// interleaved frame fits in a byte count.
    pub open spec fn well_formed(&self) -> bool {
        &&& self.sample_size == spec_bytes_per_sample(self.sample_fmt)
        &&& 1 <= self.nb_channels
        &&& self.nb_channels * self.sample_size <= usize::MAX
    }

    /// Bytes occupied by one interleaved frame: one sample per channel.
    pub open spec fn spec_stride(&self) -> int {
        self.nb_channels * self.sample_size
    }

    /// The canonical intermediate format: interleaved 32-bit float,
    /// stereo, at the given rate.
    pub fn new_pcm(sample_rate: usize) -> (r: AudioInfo)
        ensures
            r.sample_rate == sample_rate,
            r.sample_fmt == SampleFormat::Float32Interleaved,
            r.nb_channels == 2,
            r.sample_size == BYTES_PER_SAMPLE,
            r.well_formed(),
    {
        AudioInfo {
            sample_rate,
            sample_fmt: SampleFormat::Float32Interleaved,
            nb_channels: 2,
            sample_size: BYTES_PER_SAMPLE,
        }
    }
}

/// A rational tick duration, as used for stream time bases: `num/den`
/// seconds per tick.
#[derive(Clone, Copy, PartialEq, Eq, Structural, Debug)]
pub struct Rational {
    pub num: i32,
    pub den: i32,
}

/// Codec identity and stream timing captured verbatim from the input
/// stream before any decoding, and reused unchanged as the target for
/// every output stream.  The opaque native descriptor stays with the
/// codec engine; this records the fields the pipeline's own rules
/// read.
#[derive(Clone, Copy, PartialEq, Eq, Structural, Debug)]
pub struct AudioParameters {
    /// Tick duration of the input stream's timestamps.
    pub time_base: Rational,
    /// Identifier of the input stream's codec.
    pub codec_id: u32,
    /// Sample rate the codec produces and expects.
    pub sample_rate: i32,
    /// Opaque code of the codec's native sample format.
    pub sample_fmt: i32,
    /// Channels in the codec's native layout.
    pub nb_channels: i32,
}

impl AudioParameters {
    /// The captured parameters describe a playable stream.
    pub open spec fn well_formed(&self) -> bool {
        &&& 1 <= self.sample_rate
        &&& 1 <= self.nb_channels
        &&& 1 <= self.time_base.den
        &&& 0 <= self.time_base.num
    }
}

/// Canonical PCM held as raw interleaved bytes.
///
/// Logically the buffer is `sample_count` frames, each holding one
/// `BYTES_PER_SAMPLE`-byte sample per channel; the byte length always
/// equals `sample_count * nb_channels * BYTES_PER_SAMPLE`.
pub struct AudioData {
    pub nb_channels: usize,
    pub sample_rate: usize,
    pub samples: Vec<u8>,
}

impl AudioData {
    /// Bytes occupied by one interleaved frame.
    pub open spec fn spec_stride(&self) -> int {
        self.nb_channels * (BYTES_PER_SAMPLE as int)
    }

    /// The buffer invariant: at least one channel, a frame fits in a
    /// byte count, and the byte length is a whole number of frames.
    pub open spec fn well_formed(&self) -> bool {
        &&& 1 <= self.nb_channels
        &&& self.spec_stride() <= usize::MAX
        &&& self.samples@.len() as int % self.spec_stride() == 0
    }

    /// Samples per channel currently held.
    pub open spec fn spec_sample_count(&self) -> int {
        self.samples@.len() as int / self.spec_stride()
    }

    /// Wrap an interleaved canonical byte buffer.
    pub fn new(samples: Vec<u8>, nb_channels: usize, sample_rate: usize) -> (r: AudioData)
        requires
            1 <= nb_channels,
            nb_channels * (BYTES_PER_SAMPLE as int) <= usize::MAX,
            samples@.len() as int % (nb_channels * (BYTES_PER_SAMPLE as int)) == 0,
        ensures
            r.nb_channels == nb_channels,
            r.sample_rate == sample_rate,
            r.samples == samples,
            r.well_formed(),
    {
        AudioData { nb_channels, sample_rate, samples }
    }

    /// Number of samples each channel holds.
    pub fn samples_per_channel(&self) -> (r: usize)
        requires
            self.well_formed(),
        ensures
            r == self.spec_sample_count(),
    {
        self.samples.len() / (self.nb_channels * BYTES_PER_SAMPLE)
    }
}

/// The byte length of a well-formed buffer is its sample count times
/// its frame stride.
pub proof fn lemma_sample_count_bytes(audio: &AudioData)
    requires
        audio.well_formed(),
    ensures
        audio.spec_sample_count() * audio.spec_stride() == audio.samples@.len(),
{
    let stride = audio.spec_stride();
    let len = audio.samples@.len() as int;
    lemma_fundamental_div_mod(len, stride);
    lemma_mul_is_commutative(stride, len / stride);
}

/// Copy the frames `[start, start + count)` out of an interleaved byte
/// buffer with the given frame stride.
pub fn copy_sample_range(data: &Vec<u8>, start: usize, count: usize, stride: usize) -> (r: Vec<u8>)
    requires
        1 <= stride,
        (start + count) * stride <= data@.len(),
    ensures
        r@ == data@.subrange(start * stride, (start + count) * stride),
        r@.len() == count * stride,
{
    proof {
        lemma_mul_inequality(start as int, start + count, stride as int);
        lemma_mul_is_distributive_add(stride as int, start as int, count as int);
        lemma_mul_is_commutative(stride as int, start as int);
        lemma_mul_is_commutative(stride as int, count as int);
        lemma_mul_is_commutative(stride as int, start + count);
    }
    let dlen: usize = data.len();
    let begin: usize = start * stride;
    let len: usize = count * stride;
    let mut out: Vec<u8> = Vec::new();
    let mut j: usize = 0;
    while j < len
        invariant
            j <= len,
            begin == start * stride,
            len == count * stride,
            dlen == data@.len(),
            begin + len <= dlen,
            out@ == data@.subrange(begin as int, begin + j),
        decreases len - j,
    {
        out.push(data[begin + j]);
        proof {
            assert(data@.subrange(begin as int, begin + j + 1) == data@.subrange(
                begin as int,
                begin + j,
            ).push(data@[begin + j]));
        }
        j = j + 1;
    }
    out
}

} // verus!
