use crate::audio::{
    copy_sample_range, lemma_ceil_div_bounds, lemma_ceil_div_offset, lemma_ceil_div_zero,
    lemma_sample_count_bytes, spec_ceil_div, AudioData, BYTES_PER_SAMPLE,
};
use crate::error::SplitError;
use vstd::arithmetic::mul::{
    lemma_mul_inequality, lemma_mul_is_commutative, lemma_mul_is_distributive_add_other_way,
    lemma_mul_nonnegative,
};
use vstd::prelude::*;

verus! {

// ---------------------------------------------------------------------
// Window geometry
//
// The canonical PCM is cut into `segment_count` windows of
// `slice_length` samples per channel.  Every window except the first
// and last is widened by `extend_length` samples of context on each
// side; the context is handed to the model for continuity and
// discarded afterwards, so the useful regions of the windows partition
// the input exactly.
// ---------------------------------------------------------------------

/// Samples per channel in one inference window: thirty seconds.
pub open spec fn spec_slice_length(sample_rate: int) -> int {
    30 * sample_rate
}

/// One-sided context samples around a window: five seconds.
pub open spec fn spec_extend_length(sample_rate: int) -> int {
    5 * sample_rate
}

/// Number of inference windows for `n` samples per channel: the
/// ceiling of `n / slice_length`.
pub open spec fn spec_segment_count(n: int, slice_length: int) -> int
    recommends
        1 <= slice_length,
{
    spec_ceil_div(n, slice_length)
}

/// Context added before window `i`: none on the first window.
pub open spec fn spec_extend_begin(i: int, ext: int) -> int {
    if i == 0 {
        0
    } else {
        ext
    }
}

/// Context added after window `i`: none on the last window.
pub open spec fn spec_extend_end(i: int, count: int, ext: int) -> int {
    if i == count - 1 {
        0
    } else {
        ext
    }
}

/// Samples per channel window `i` contributes to the output: a full
/// slice, except that the last window takes what is left.
pub open spec fn spec_useful_length(i: int, n: int, sl: int) -> int {
    if i == spec_segment_count(n, sl) - 1 {
        n - i * sl
    } else {
        sl
    }
}

/// First sample of the processed window: the slice start, pulled back
/// by the leading context.
pub open spec fn spec_process_start(i: int, sl: int, ext: int) -> int {
    i * sl - spec_extend_begin(i, ext)
}

/// Samples per channel in the processed window: useful region plus
/// context, clipped to what the buffer still holds.
pub open spec fn spec_process_length(i: int, n: int, sl: int, ext: int) -> int {
    let want = spec_useful_length(i, n, sl) + spec_extend_begin(i, ext) + spec_extend_end(
        i,
        spec_segment_count(n, sl),
        ext,
    );
    let avail = n - spec_process_start(i, sl, ext);
    if want <= avail {
        want
    } else {
        avail
    }
}

/// One inference window of the segment plan.  All counts are samples
/// per channel; `useful_start` is relative to `process_start`.
#[derive(Clone, Copy, PartialEq, Eq, Structural, Debug)]
pub struct Segment {
    pub index: usize,
    pub process_start: usize,
    pub process_length: usize,
    pub useful_start: usize,
    pub useful_length: usize,
}

impl Segment {
    /// The segment is window `i` of the plan for `n` samples per
    /// channel at the given rate.
    pub open spec fn matches(&self, i: int, n: int, sample_rate: int) -> bool {
        let sl = spec_slice_length(sample_rate);
        let ext = spec_extend_length(sample_rate);
        &&& self.index == i
        &&& self.process_start == spec_process_start(i, sl, ext)
        &&& self.process_length == spec_process_length(i, n, sl, ext)
        &&& self.useful_start == spec_extend_begin(i, ext)
        &&& self.useful_length == spec_useful_length(i, n, sl)
    }

    /// The processed window lies inside a buffer of `n` samples per
    /// channel and contains its non-empty useful region.
    pub open spec fn valid_window(&self, n: int) -> bool {
        &&& self.process_start + self.process_length <= n
        &&& self.useful_start + self.useful_length <= self.process_length
        &&& 1 <= self.useful_length
    }
}

/// The window count is the least one whose slices cover `n` samples:
/// `count - 1` full slices fall short of `n`, `count` reach it.
pub proof fn lemma_segment_count_bounds(n: int, sl: int)
    requires
        1 <= n,
        1 <= sl,
    ensures
        1 <= spec_segment_count(n, sl),
        (spec_segment_count(n, sl) - 1) * sl < n,
        n <= spec_segment_count(n, sl) * sl,
{
    lemma_ceil_div_bounds(n, sl);
}

/// Every window offset `i * sl` of the plan lies inside the buffer,
/// and all but the last window leave room for a full slice.
pub proof fn lemma_offset_in_range(i: int, n: int, sl: int)
    requires
        1 <= n,
        1 <= sl,
        0 <= i < spec_segment_count(n, sl),
    ensures
        0 <= i * sl,
        i * sl < n,
        i < spec_segment_count(n, sl) - 1 ==> i * sl + sl <= n,
{
    lemma_ceil_div_offset(i, n, sl);
}

/// Compute the segment plan for `n` samples per channel at the given
/// rate: `ceil(n / slice_length)` windows, each the slice
/// `[i * slice_length, i * slice_length + useful_length)` widened by
/// the context its position allows.  For every window after the first
/// the processed region starts `extend_length` samples before its
/// slice, and every processed region ends inside the buffer.
pub fn plan_segments(n: usize, sample_rate: usize) -> (r: Vec<Segment>)
    requires
        1 <= sample_rate,
        n + 40 * sample_rate <= usize::MAX,
    ensures
        r@.len() == spec_segment_count(n as int, spec_slice_length(sample_rate as int)),
        forall|i: int| 0 <= i < r@.len() ==> (#[trigger] r@[i]).matches(i, n as int, sample_rate as int),
        forall|i: int| 0 <= i < r@.len() ==> (#[trigger] r@[i]).valid_window(n as int),
        forall|i: int|
            1 <= i < r@.len() ==> (#[trigger] r@[i]).process_start == i * spec_slice_length(
                sample_rate as int,
            ) - spec_extend_length(sample_rate as int),
{
    let sl: usize = 30 * sample_rate;
    let ext: usize = 5 * sample_rate;
    let mut segs: Vec<Segment> = Vec::new();
    if n == 0 {
        proof {
            lemma_ceil_div_zero(sl as int);
        }
        return segs;
    }
    let count: usize = (n + sl - 1) / sl;
    let mut i: usize = 0;
    while i < count
        invariant
            1 <= sample_rate,
            n + 40 * sample_rate <= usize::MAX,
            1 <= n,
            sl == 30 * sample_rate,
            ext == 5 * sample_rate,
            count == spec_segment_count(n as int, sl as int),
            i <= count,
            segs@.len() == i,
            forall|k: int| 0 <= k < i ==> (#[trigger] segs@[k]).matches(k, n as int, sample_rate as int),
            forall|k: int| 0 <= k < i ==> (#[trigger] segs@[k]).valid_window(n as int),
        decreases count - i,
    {
        proof {
            lemma_segment_count_bounds(n as int, sl as int);
            lemma_offset_in_range(i as int, n as int, sl as int);
            if i >= 1 {
                lemma_mul_inequality(1, i as int, sl as int);
            }
        }
        let current_offset: usize = i * sl;
        let extend_begin: usize = if i == 0 {
            0
        } else {
            ext
        };
        let extend_end: usize = if i == count - 1 {
            0
        } else {
            ext
        };
        let useful_length: usize = if i == count - 1 {
            n - current_offset
        } else {
            sl
        };
        let process_start: usize = current_offset - extend_begin;
        let want: usize = useful_length + extend_begin + extend_end;
        let avail: usize = n - process_start;
        let process_length: usize = if want <= avail {
            want
        } else {
            avail
        };
        let seg = Segment { index: i, process_start, process_length, useful_start: extend_begin, useful_length };
        segs.push(seg);
        proof {
            assert(seg.matches(i as int, n as int, sample_rate as int));
            assert(seg.valid_window(n as int));
        }
        i = i + 1;
    }
    segs
}

/// Running total of the useful lengths of windows `0 .. k`.
pub open spec fn spec_useful_total(n: int, sl: int, k: int) -> int
    decreases k,
{
    if k <= 0 {
        0
    } else {
        spec_useful_total(n, sl, k - 1) + spec_useful_length(k - 1, n, sl)
    }
}

/// The first `k` useful regions cover exactly the first `k * sl`
/// samples, and all of them together cover all `n`.
proof fn lemma_useful_total_value(n: int, sl: int, k: int)
    requires
        1 <= n,
        1 <= sl,
        0 <= k <= spec_segment_count(n, sl),
    ensures
        spec_useful_total(n, sl, k) == if k == spec_segment_count(n, sl) {
            n
        } else {
            k * sl
        },
    decreases k,
{
    let c = spec_segment_count(n, sl);
    lemma_segment_count_bounds(n, sl);
    if k <= 0 {
        assert(0 * sl == 0) by {
            lemma_mul_is_commutative(0, sl);
        }
    } else {
        lemma_useful_total_value(n, sl, k - 1);
        lemma_mul_is_distributive_add_other_way(sl, k - 1, 1);
        assert((k - 1 + 1) * sl == (k - 1) * sl + 1 * sl);
    }
}

/// The useful regions of the segment plan partition `[0, n)`: there
/// are `ceil(n / slice_length)` of them, region `i` is
/// `[i * slice_length, i * slice_length + useful_length(i))`, each
/// region is non-empty and ends where the next one begins, the last
/// ends at `n`, and the useful lengths sum to `n` exactly — no gap and
/// no overlap.
pub proof fn lemma_useful_regions_partition(n: int, sample_rate: int)
    requires
        1 <= n,
        1 <= sample_rate,
    ensures
        ({
            let sl = spec_slice_length(sample_rate);
            let c = spec_segment_count(n, sl);
            &&& 1 <= c
            &&& (c - 1) * sl < n <= c * sl
            &&& forall|i: int| 0 <= i < c ==> 1 <= #[trigger] spec_useful_length(i, n, sl)
            &&& forall|i: int|
                0 <= i < c - 1 ==> i * sl + #[trigger] spec_useful_length(i, n, sl) == (i + 1)
                    * sl
            &&& (c - 1) * sl + spec_useful_length(c - 1, n, sl) == n
            &&& spec_useful_total(n, sl, c) == n
        }),
{
    let sl = spec_slice_length(sample_rate);
    let c = spec_segment_count(n, sl);
    lemma_segment_count_bounds(n, sl);
    lemma_useful_total_value(n, sl, c);
    assert forall|i: int| 0 <= i < c implies 1 <= #[trigger] spec_useful_length(i, n, sl) by {
        lemma_offset_in_range(i, n, sl);
    }
    assert forall|i: int| 0 <= i < c - 1 implies i * sl + #[trigger] spec_useful_length(i, n, sl)
        == (i + 1) * sl by {
        lemma_mul_is_distributive_add_other_way(sl, i, 1);
        assert((i + 1) * sl == i * sl + 1 * sl);
    }
}

/// Position facts about window `i` that every caller of the plan needs:
/// the processed region lies in the buffer, the useful region lies in
/// the processed one and is exactly the slice `[i * sl, i * sl + ul)`.
proof fn lemma_segment_geometry(i: int, n: int, sample_rate: int)
    requires
        1 <= n,
        1 <= sample_rate,
        0 <= i < spec_segment_count(n, spec_slice_length(sample_rate)),
    ensures
        ({
            let sl = spec_slice_length(sample_rate);
            let ext = spec_extend_length(sample_rate);
            let ps = spec_process_start(i, sl, ext);
            let pl = spec_process_length(i, n, sl, ext);
            let us = spec_extend_begin(i, ext);
            let ul = spec_useful_length(i, n, sl);
            &&& 0 <= ps
            &&& ps + pl <= n
            &&& us + ul <= pl
            &&& 1 <= ul
            &&& ps + us == i * sl
            &&& i * sl + ul <= n
        }),
{
    let sl = spec_slice_length(sample_rate);
    let c = spec_segment_count(n, sl);
    lemma_segment_count_bounds(n, sl);
    lemma_offset_in_range(i, n, sl);
    if i >= 1 {
        lemma_mul_inequality(1, i, sl);
    }
}

// ---------------------------------------------------------------------
// Identity-model reconstruction
//
// The model is a black box, but when it hands every processed window
// back unchanged, trimming the windows to their useful regions and
// concatenating them in index order must rebuild the input exactly.
// This is the sample-accounting heart of the segmenter: the context
// samples are always discarded and the useful regions are seamless.
// ---------------------------------------------------------------------

/// Bytes of processed window `i`, cut from interleaved canonical PCM
/// with the given frame stride.
pub open spec fn spec_window_bytes(
    pcm: Seq<u8>,
    i: int,
    n: int,
    sample_rate: int,
    stride: int,
) -> Seq<u8> {
    let sl = spec_slice_length(sample_rate);
    let ext = spec_extend_length(sample_rate);
    let ps = spec_process_start(i, sl, ext);
    let pl = spec_process_length(i, n, sl, ext);
    pcm.subrange(ps * stride, (ps + pl) * stride)
}

/// A window result trimmed to the window's useful region.
pub open spec fn spec_useful_bytes(
    window: Seq<u8>,
    i: int,
    n: int,
    sample_rate: int,
    stride: int,
) -> Seq<u8> {
    let sl = spec_slice_length(sample_rate);
    let ext = spec_extend_length(sample_rate);
    let us = spec_extend_begin(i, ext);
    let ul = spec_useful_length(i, n, sl);
    window.subrange(us * stride, (us + ul) * stride)
}

/// Track rebuilt from the first `k` windows when the model is the
/// identity: each processed window comes back unchanged and its useful
/// region is appended in index order.
pub open spec fn spec_identity_track(
    pcm: Seq<u8>,
    n: int,
    sample_rate: int,
    stride: int,
    k: int,
) -> Seq<u8>
    decreases k,
{
    if k <= 0 {
        Seq::empty()
    } else {
        spec_identity_track(pcm, n, sample_rate, stride, k - 1) + spec_useful_bytes(
            spec_window_bytes(pcm, k - 1, n, sample_rate, stride),
            k - 1,
            n,
            sample_rate,
            stride,
        )
    }
}

/// Trimming an identity result to its useful region recovers the
/// window's own slice `[i * sl, i * sl + ul)` of the source.
proof fn lemma_trim_identity_window(pcm: Seq<u8>, i: int, n: int, sample_rate: int, stride: int)
    requires
        1 <= n,
        1 <= sample_rate,
        1 <= stride,
        pcm.len() == n * stride,
        0 <= i < spec_segment_count(n, spec_slice_length(sample_rate)),
    ensures
        ({
            let sl = spec_slice_length(sample_rate);
            let co = i * sl;
            let ul = spec_useful_length(i, n, sl);
            spec_useful_bytes(
                spec_window_bytes(pcm, i, n, sample_rate, stride),
                i,
                n,
                sample_rate,
                stride,
            ) == pcm.subrange(co * stride, (co + ul) * stride)
        }),
{
    let sl = spec_slice_length(sample_rate);
    let ext = spec_extend_length(sample_rate);
    let ps = spec_process_start(i, sl, ext);
    let pl = spec_process_length(i, n, sl, ext);
    let us = spec_extend_begin(i, ext);
    let ul = spec_useful_length(i, n, sl);
    let co = i * sl;
    lemma_segment_geometry(i, n, sample_rate);
    lemma_mul_nonnegative(ps, stride);
    lemma_mul_nonnegative(us, stride);
    lemma_mul_nonnegative(co, stride);
    lemma_mul_inequality(ps + pl, n, stride);
    lemma_mul_inequality(us + ul, pl, stride);
    lemma_mul_inequality(co + ul, n, stride);
    lemma_mul_is_distributive_add_other_way(stride, ps, pl);
    lemma_mul_is_distributive_add_other_way(stride, us, ul);
    lemma_mul_is_distributive_add_other_way(stride, ps, us);
    lemma_mul_is_distributive_add_other_way(stride, co, ul);
    assert((ps + us) * stride == co * stride);
    let window = spec_window_bytes(pcm, i, n, sample_rate, stride);
    assert(window.len() == pl * stride);
    assert(spec_useful_bytes(window, i, n, sample_rate, stride) =~= pcm.subrange(
        co * stride,
        (co + ul) * stride,
    ));
}

/// The first `k` trimmed identity windows rebuild exactly the first
/// `spec_useful_total(n, sl, k)` samples of the source.
proof fn lemma_identity_track_prefix(pcm: Seq<u8>, n: int, sample_rate: int, stride: int, k: int)
    requires
        1 <= n,
        1 <= sample_rate,
        1 <= stride,
        pcm.len() == n * stride,
        0 <= k <= spec_segment_count(n, spec_slice_length(sample_rate)),
    ensures
        spec_identity_track(pcm, n, sample_rate, stride, k) == pcm.subrange(
            0,
            spec_useful_total(n, spec_slice_length(sample_rate), k) * stride,
        ),
    decreases k,
{
    let sl = spec_slice_length(sample_rate);
    let c = spec_segment_count(n, sl);
    lemma_segment_count_bounds(n, sl);
    if k <= 0 {
        assert(0 * stride == 0) by {
            lemma_mul_is_commutative(0, stride);
        }
        assert(spec_identity_track(pcm, n, sample_rate, stride, k) =~= pcm.subrange(0, 0));
    } else {
        lemma_identity_track_prefix(pcm, n, sample_rate, stride, k - 1);
        lemma_useful_total_value(n, sl, k - 1);
        lemma_useful_total_value(n, sl, k);
        lemma_trim_identity_window(pcm, k - 1, n, sample_rate, stride);
        lemma_segment_geometry(k - 1, n, sample_rate);
        let co = (k - 1) * sl;
        let ul = spec_useful_length(k - 1, n, sl);
        lemma_mul_nonnegative(co, stride);
        lemma_mul_inequality(co + ul, n, stride);
        lemma_mul_is_distributive_add_other_way(stride, co, ul);
        assert(spec_identity_track(pcm, n, sample_rate, stride, k) =~= pcm.subrange(
            0,
            (co + ul) * stride,
        ));
    }
}

/// With an identity model the reconstructed track equals the input
/// canonical PCM byte for byte, for any sample count — including a
/// single short window and a count divisible by the slice length.
pub proof fn lemma_identity_reconstruction(pcm: Seq<u8>, n: int, sample_rate: int, stride: int)
    requires
        0 <= n,
        1 <= sample_rate,
        1 <= stride,
        pcm.len() == n * stride,
    ensures
        spec_identity_track(
            pcm,
            n,
            sample_rate,
            stride,
            spec_segment_count(n, spec_slice_length(sample_rate)),
        ) == pcm,
{
    let sl = spec_slice_length(sample_rate);
    let c = spec_segment_count(n, sl);
    if n == 0 {
        lemma_ceil_div_zero(sl);
        assert(0 * stride == 0) by {
            lemma_mul_is_commutative(0, stride);
        }
        assert(spec_identity_track(pcm, n, sample_rate, stride, c) =~= pcm);
    } else {
        lemma_identity_track_prefix(pcm, n, sample_rate, stride, c);
        lemma_useful_total_value(n, sl, c);
        assert(pcm.subrange(0, n * stride) =~= pcm);
    }
}

// ---------------------------------------------------------------------
// Executable window handling
// ---------------------------------------------------------------------

/// Copy the processed window of segment `seg` out of the canonical
/// PCM: the bytes handed to one inference call, as a tensor of
/// `process_length` rows of `nb_channels` samples.
pub fn extract_window(audio: &AudioData, seg: &Segment) -> (r: Vec<u8>)
    requires
        audio.well_formed(),
        seg.process_start + seg.process_length <= audio.spec_sample_count(),
    ensures
        r@ == audio.samples@.subrange(
            seg.process_start * audio.spec_stride(),
            (seg.process_start + seg.process_length) * audio.spec_stride(),
        ),
        r@.len() == seg.process_length * audio.spec_stride(),
{
    proof {
        lemma_sample_count_bytes(audio);
        lemma_mul_inequality(
            seg.process_start + seg.process_length,
            audio.spec_sample_count(),
            audio.spec_stride(),
        );
    }
    let stride: usize = audio.nb_channels * BYTES_PER_SAMPLE;
    copy_sample_range(&audio.samples, seg.process_start, seg.process_length, stride)
}

/// Trim a model output for segment `seg` to the window's useful region
/// and append it to a track accumulator.  Results must be appended in
/// index order: the concatenation order encodes time order.
///
/// The output must cover exactly the processed window, `stride` bytes
/// per sample frame.  A result of any other shape is rejected as the
/// model's error and leaves the track unchanged, rather than being
/// mis-sliced silently.
pub fn append_useful(
    track: &mut Vec<u8>,
    window_out: &Vec<u8>,
    seg: &Segment,
    stride: usize,
) -> (r: Result<(), SplitError>)
    requires
        1 <= stride,
        seg.useful_start + seg.useful_length <= seg.process_length,
        seg.process_length * stride <= usize::MAX,
    ensures
        match r {
            Ok(_) => window_out@.len() == seg.process_length * stride && final(track)@ == old(
                track,
            )@ + window_out@.subrange(
                seg.useful_start * stride,
                (seg.useful_start + seg.useful_length) * stride,
            ),
            Err(e) => e == SplitError::Model && window_out@.len() != seg.process_length * stride
                && final(track)@ == old(track)@,
        },
{
    let expected: usize = seg.process_length * stride;
    if window_out.len() != expected {
        return Err(SplitError::Model);
    }
    proof {
        lemma_mul_inequality(
            seg.useful_start + seg.useful_length,
            seg.process_length as int,
            stride as int,
        );
    }
    let mut chunk = copy_sample_range(window_out, seg.useful_start, seg.useful_length, stride);
    track.append(&mut chunk);
    Ok(())
}

/// One empty accumulator per model output, in `track_names` order.
pub fn new_track_accumulators(count: usize) -> (r: Vec<Vec<u8>>)
    ensures
        r@.len() == count,
        forall|i: int| 0 <= i < count ==> (#[trigger] r@[i])@ == Seq::<u8>::empty(),
{
    let mut tracks: Vec<Vec<u8>> = Vec::new();
    let mut i: usize = 0;
    while i < count
        invariant
            i <= count,
            tracks@.len() == i,
            forall|k: int| 0 <= k < i ==> (#[trigger] tracks@[k])@ == Seq::<u8>::empty(),
        decreases count - i,
    {
        tracks.push(Vec::new());
        i = i + 1;
    }
    tracks
}

// ---------------------------------------------------------------------
// Model catalog
//
// The six known separation models, each with the names of its output
// bindings and of the tracks they produce.  The table is a constant of
// the build, looked up by exact name and never mutated.
// ---------------------------------------------------------------------

/// One catalog entry: a model's name, how many stems it separates, the
/// model's output binding for each stem and the stem's track name, in
/// matching order.
pub struct SpleeterModelInfo {
    pub name: &'static str,
    pub output_count: usize,
    pub output_names: Vec<&'static str>,
    pub track_names: Vec<&'static str>,
}

/// Mathematical content of a catalog entry.
#[verifier::ext_equal]
pub ghost struct ModelInfoView {
    pub name: Seq<char>,
    pub output_count: int,
    pub output_names: Seq<Seq<char>>,
    pub track_names: Seq<Seq<char>>,
}

impl View for SpleeterModelInfo {
    type V = ModelInfoView;

    open spec fn view(&self) -> ModelInfoView {
        ModelInfoView {
            name: self.name@,
            output_count: self.output_count as int,
            output_names: self.output_names.deep_view(),
            track_names: self.track_names.deep_view(),
        }
    }
}

impl SpleeterModelInfo {
    /// There is one output binding and one track name per stem.
    pub open spec fn well_formed(&self) -> bool {
        &&& 1 <= self.output_count
        &&& self.output_names@.len() == self.output_count
        &&& self.track_names@.len() == self.output_count
    }
}

/// The catalog: two-, four- and five-stem models, each in a standard
/// and a 16 kHz variant.
pub open spec fn spec_catalog() -> Seq<ModelInfoView> {
    seq![
        ModelInfoView {
            name: "2stems"@,
            output_count: 2,
            output_names: seq!["strided_slice_13"@, "strided_slice_23"@],
            track_names: seq!["vocals"@, "accompaniment"@],
        },
        ModelInfoView {
            name: "4stems"@,
            output_count: 4,
            output_names: seq![
                "strided_slice_13"@,
                "strided_slice_23"@,
                "strided_slice_33"@,
                "strided_slice_43"@,
            ],
            track_names: seq!["vocals"@, "drums"@, "bass"@, "other"@],
        },
        ModelInfoView {
            name: "5stems"@,
            output_count: 5,
            output_names: seq![
                "strided_slice_18"@,
                "strided_slice_38"@,
                "strided_slice_48"@,
                "strided_slice_28"@,
                "strided_slice_58"@,
            ],
            track_names: seq!["vocals"@, "drums"@, "bass"@, "piano"@, "other"@],
        },
        ModelInfoView {
            name: "2stems-16kHz"@,
            output_count: 2,
            output_names: seq!["strided_slice_13"@, "strided_slice_23"@],
            track_names: seq!["vocals"@, "accompaniment"@],
        },
        ModelInfoView {
            name: "4stems-16kHz"@,
            output_count: 4,
            output_names: seq![
                "strided_slice_13"@,
                "strided_slice_23"@,
                "strided_slice_33"@,
                "strided_slice_43"@,
            ],
            track_names: seq!["vocals"@, "drums"@, "bass"@, "other"@],
        },
        ModelInfoView {
            name: "5stems-16kHz"@,
            output_count: 5,
            output_names: seq![
                "strided_slice_18"@,
                "strided_slice_38"@,
                "strided_slice_48"@,
                "strided_slice_28"@,
                "strided_slice_58"@,
            ],
            track_names: seq!["vocals"@, "drums"@, "bass"@, "piano"@, "other"@],
        },
    ]
}

/// Build entry `i` of the catalog.
pub fn catalog_entry(i: usize) -> (r: SpleeterModelInfo)
    requires
        i < spec_catalog().len(),
    ensures
        r@ == spec_catalog()[i as int],
        r.well_formed(),
{
    let mut output_names: Vec<&'static str> = Vec::new();
    let mut track_names: Vec<&'static str> = Vec::new();
    let name: &'static str;
    let output_count: usize;
    if i == 0 || i == 3 {
        name = if i == 0 {
            "2stems"
        } else {
            "2stems-16kHz"
        };
        output_count = 2;
        output_names.push("strided_slice_13");
        output_names.push("strided_slice_23");
        track_names.push("vocals");
        track_names.push("accompaniment");
    } else if i == 1 || i == 4 {
        name = if i == 1 {
            "4stems"
        } else {
            "4stems-16kHz"
        };
        output_count = 4;
        output_names.push("strided_slice_13");
        output_names.push("strided_slice_23");
        output_names.push("strided_slice_33");
        output_names.push("strided_slice_43");
        track_names.push("vocals");
        track_names.push("drums");
        track_names.push("bass");
        track_names.push("other");
    } else {
        name = if i == 2 {
            "5stems"
        } else {
            "5stems-16kHz"
        };
        output_count = 5;
        output_names.push("strided_slice_18");
        output_names.push("strided_slice_38");
        output_names.push("strided_slice_48");
        output_names.push("strided_slice_28");
        output_names.push("strided_slice_58");
        track_names.push("vocals");
        track_names.push("drums");
        track_names.push("bass");
        track_names.push("piano");
        track_names.push("other");
    }
    let r = SpleeterModelInfo { name, output_count, output_names, track_names };
    proof {
        assert(r@ =~~= spec_catalog()[i as int]);
    }
    r
}

/// The names of the models the catalog knows, in catalog order.
pub fn existing_models() -> (r: Vec<&'static str>)
    ensures
        r@.len() == spec_catalog().len(),
        forall|i: int| 0 <= i < r@.len() ==> (#[trigger] r@[i])@ == spec_catalog()[i].name,
{
    let mut names: Vec<&'static str> = Vec::new();
    let mut i: usize = 0;
    while i < 6
        invariant
            i <= 6,
            names@.len() == i,
            forall|k: int| 0 <= k < i ==> (#[trigger] names@[k])@ == spec_catalog()[k].name,
        decreases 6 - i,
    {
        let entry = catalog_entry(i);
        names.push(entry.name);
        i = i + 1;
    }
    names
}

impl SpleeterModelInfo {
    /// Look a model up by exact name: the catalog entry of that name,
    /// or nothing when no entry has it.
    pub fn get_by_name(model_name: &str) -> (r: Option<SpleeterModelInfo>)
        ensures
            match r {
                Some(info) => info@.name == model_name@ && info.well_formed() && exists|i: int|
                    0 <= i < spec_catalog().len() && info@ == #[trigger] spec_catalog()[i],
                None => forall|i: int|
                    0 <= i < spec_catalog().len() ==> (#[trigger] spec_catalog()[i]).name
                        != model_name@,
            },
    {
        let target: String = model_name.to_owned();
        let mut i: usize = 0;
        while i < 6
            invariant
                i <= 6,
                target@ == model_name@,
                forall|k: int|
                    0 <= k < i ==> (#[trigger] spec_catalog()[k]).name != model_name@,
            decreases 6 - i,
        {
            let entry = catalog_entry(i);
            if entry.name.to_owned() == target {
                return Some(entry);
            }
            i = i + 1;
        }
        None
    }
}

} // verus!
