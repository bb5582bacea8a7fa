//! Audio buffer primitives: time/sample-index conversion, zero-crossing
//! search and crossfade blending.
//!
//! Sample amplitudes are fixed-point `i32` values (the scale is chosen by
//! the caller and never matters to the engine), so every primitive here is
//! an exact integer computation.

use vstd::prelude::*;

use vstd::arithmetic::div_mod::{lemma_div_is_ordered, lemma_div_multiples_vanish};
use vstd::math::min;

use crate::{MAX_BUFFER_SAMPLES, MAX_SAMPLE_RATE, MAX_TIME_MS};

verus! {

/// Errors that can arise while loading, converting or saving audio.
#[derive(Debug)]
pub enum AudioError {
    /// The input file does not exist.
    FileNotFound(String),
    /// The file extension is not one of the recognized audio formats.
    UnsupportedFormat(String),
    /// An underlying I/O failure.
    Io(String),
    /// A WAV read or write failure.
    Hound(String),
    /// The resampler failed.
    Resample(String),
    /// A demux or codec-level decode failure.
    Decode(String),
}

/// Decoded mono audio: fixed-point samples at a fixed rate.
pub struct AudioData {
    /// Sample data (mono, fixed-point).
    pub samples: Vec<i32>,
    /// Sample rate in hertz.
    pub sample_rate: u32,
}

/// Duration of `len` samples at `rate` hertz, in milliseconds, rounded to
/// nearest.
pub open spec fn spec_duration_ms(len: int, rate: int) -> int {
    (len * 1000 + rate / 2) / rate
}

/// The sample index of time stamp `ms` at `rate` hertz, rounded to nearest.
pub open spec fn spec_time_to_sample(ms: int, rate: int) -> int {
    (ms * rate + 500) / 1000
}

/// The time stamp in milliseconds of sample index `sample` at `rate`
/// hertz, rounded to nearest.
pub open spec fn spec_sample_to_time(sample: int, rate: int) -> int {
    (sample * 1000 + rate / 2) / rate
}

/// Bounded factors give a bounded product.
pub(crate) proof fn lemma_mul_bound_commute(a: int, b: int, ma: int, mb: int)
    requires
        0 <= a <= ma,
        0 <= b <= mb,
    ensures
        a * b <= ma * mb,
{
    broadcast use vstd::arithmetic::mul::group_mul_properties;

    vstd::arithmetic::mul::lemma_mul_upper_bound(a, ma, b, mb);
}

/// The product of two `i32` values stays far inside `i64`.
proof fn lemma_i32_mul_in_i64(a: int, b: int)
    requires
        -0x8000_0000 <= a <= 0x7fff_ffff,
        -0x8000_0000 <= b <= 0x7fff_ffff,
    ensures
        -0x4000_0000_0000_0000 <= a * b <= 0x4000_0000_0000_0000,
{
    assert(-0x4000_0000_0000_0000 <= a * b <= 0x4000_0000_0000_0000) by (nonlinear_arith)
        requires
            -0x8000_0000 <= a <= 0x7fff_ffff,
            -0x8000_0000 <= b <= 0x7fff_ffff,
    ;
}

impl AudioData {
    /// A positive, bounded sample rate and a buffer small enough for exact
    /// millisecond arithmetic.  The bounds are what 64-bit integer
    /// arithmetic forces, far beyond any real audio file.
    pub open spec fn well_formed(self) -> bool {
        &&& 1 <= self.sample_rate <= MAX_SAMPLE_RATE
        &&& self.samples@.len() <= MAX_BUFFER_SAMPLES
    }

    /// Duration of the buffer in milliseconds, rounded to nearest.
    pub fn duration(&self) -> (d: u64)
        requires
            self.well_formed(),
        ensures
            d == spec_duration_ms(self.samples@.len() as int, self.sample_rate as int),
    {
        let rate: u64 = self.sample_rate as u64;
        (self.samples.len() as u64 * 1000 + rate / 2) / rate
    }

    /// The sample index of time stamp `time_ms`, rounded to nearest.  The
    /// result may lie beyond the end of the buffer.
    pub fn time_to_sample(&self, time_ms: u64) -> (s: u64)
        requires
            self.well_formed(),
            time_ms <= MAX_TIME_MS,
        ensures
            s == spec_time_to_sample(time_ms as int, self.sample_rate as int),
    {
        let rate: u64 = self.sample_rate as u64;
        proof {
            lemma_mul_bound_commute(time_ms as int, rate as int, MAX_TIME_MS as int, MAX_SAMPLE_RATE as int);
        }
        (time_ms * rate + 500) / 1000
    }

    /// The time stamp in milliseconds of sample index `sample`, rounded to
    /// nearest.
    pub fn sample_to_time(&self, sample: u64) -> (t: u64)
        requires
            self.well_formed(),
            sample <= MAX_BUFFER_SAMPLES,
        ensures
            t == spec_sample_to_time(sample as int, self.sample_rate as int),
    {
        let rate: u64 = self.sample_rate as u64;
        (sample * 1000 + rate / 2) / rate
    }

    /// An exact copy of this buffer.
    pub fn duplicate(&self) -> (r: AudioData)
        ensures
            r.samples@ == self.samples@,
            r.sample_rate == self.sample_rate,
    {
        let mut samples: Vec<i32> = Vec::new();
        push_slice_range(&mut samples, self.samples.as_slice(), 0, self.samples.len());
        assert(samples@ =~= self.samples@);
        AudioData { samples, sample_rate: self.sample_rate }
    }
}

/// Appends `s[from..to]` to `out`.
pub fn push_slice_range(out: &mut Vec<i32>, s: &[i32], from: usize, to: usize)
    requires
        from <= to <= s@.len(),
    ensures
        final(out)@ == old(out)@ + s@.subrange(from as int, to as int),
{
    let mut i: usize = from;
    while i < to
        invariant
            from <= i <= to <= s@.len(),
            out@ == old(out)@ + s@.subrange(from as int, i as int),
        decreases to - i,
    {
        let v: i32 = s[i];
        out.push(v);
        assert(old(out)@ + s@.subrange(from as int, i + 1) =~= (old(out)@ + s@.subrange(
            from as int,
            i as int,
        )).push(v));
        i = i + 1;
    }
}

/// Whether the signal changes sign (or touches zero) between index `i` and
/// `i + 1`.
pub open spec fn is_crossing(s: Seq<i32>, i: int) -> bool {
    (s[i] as int) * (s[i + 1] as int) <= 0
}

/// Distance between two indices.
pub open spec fn dist(a: int, b: int) -> int {
    if a >= b {
        a - b
    } else {
        b - a
    }
}

/// First index of the zero-crossing search window around `target`.
pub open spec fn zc_start(target: int, radius: int) -> int {
    if target > radius {
        target - radius
    } else {
        0
    }
}

/// One-past-last candidate index of the search window: candidates need a
/// successor sample, so the window stops one short of the buffer end.
pub open spec fn zc_end(len: int, target: int, radius: int) -> int {
    min(target + radius, len - 1)
}

/// The best crossing among candidates `[start, i)`: the one closest to
/// `target`, earliest on a tie, paired with its distance.  `None` when no
/// candidate is a crossing.
pub open spec fn crossing_scan(s: Seq<i32>, target: int, start: int, i: int) -> Option<(int, int)>
    decreases i - start,
{
    if i <= start {
        None
    } else {
        let prev = crossing_scan(s, target, start, i - 1);
        let j = i - 1;
        if is_crossing(s, j) && (prev is None || dist(j, target) < (prev->0).1) {
            Some((j, dist(j, target)))
        } else {
            prev
        }
    }
}

/// Magnitude of a sample.
pub open spec fn abs_val(x: i32) -> int {
    if x >= 0 {
        x as int
    } else {
        -(x as int)
    }
}

/// The index with the smallest sample magnitude among `[start, i)`,
/// earliest on a tie, paired with that magnitude.  `None` when the range
/// is empty.
pub open spec fn abs_scan(s: Seq<i32>, start: int, i: int) -> Option<(int, int)>
    decreases i - start,
{
    if i <= start {
        None
    } else {
        let prev = abs_scan(s, start, i - 1);
        let j = i - 1;
        if prev is None || abs_val(s[j]) < (prev->0).1 {
            Some((j, abs_val(s[j])))
        } else {
            prev
        }
    }
}

/// The boundary-snapping rule: the crossing in the search window nearest
/// to `target` (earliest on ties); failing that, the window index whose
/// sample is smallest in magnitude; failing that (empty window), `target`
/// clamped into the buffer.
pub open spec fn spec_zero_cross(s: Seq<i32>, target: int, radius: int) -> int {
    let start = zc_start(target, radius);
    let end = zc_end(s.len() as int, target, radius);
    match crossing_scan(s, target, start, end) {
        Some(p) => p.0,
        None => match abs_scan(s, start, end) {
            Some(p) => p.0,
            None => min(target, s.len() - 1),
        },
    }
}

proof fn lemma_crossing_scan_in_range(s: Seq<i32>, target: int, start: int, i: int)
    requires
        0 <= start,
        crossing_scan(s, target, start, i) is Some,
    ensures
        start <= (crossing_scan(s, target, start, i)->0).0 < i,
    decreases i - start,
{
    if i > start {
        if crossing_scan(s, target, start, i - 1) is Some {
            lemma_crossing_scan_in_range(s, target, start, i - 1);
        }
    }
}

proof fn lemma_abs_scan_in_range(s: Seq<i32>, start: int, i: int)
    requires
        0 <= start,
        abs_scan(s, start, i) is Some,
    ensures
        start <= (abs_scan(s, start, i)->0).0 < i,
    decreases i - start,
{
    if i > start {
        if abs_scan(s, start, i - 1) is Some {
            lemma_abs_scan_in_range(s, start, i - 1);
        }
    }
}

/// The snapped index always lies inside the buffer.
pub proof fn lemma_zero_cross_in_bounds(s: Seq<i32>, target: int, radius: int)
    requires
        s.len() > 0,
        target >= 0,
        radius >= 0,
    ensures
        0 <= spec_zero_cross(s, target, radius) < s.len(),
{
    let start = zc_start(target, radius);
    let end = zc_end(s.len() as int, target, radius);
    if crossing_scan(s, target, start, end) is Some {
        lemma_crossing_scan_in_range(s, target, start, end);
    } else if abs_scan(s, start, end) is Some {
        lemma_abs_scan_in_range(s, start, end);
    }
}


proof fn lemma_crossing_scan_minimal(s: Seq<i32>, target: int, start: int, i: int)
    requires
        0 <= start,
    ensures
        match crossing_scan(s, target, start, i) {
            Some(p) => is_crossing(s, p.0) && p.1 == dist(p.0, target) && forall|j: int|
                start <= j < i && is_crossing(s, j) ==> p.1 <= dist(j, target),
            None => forall|j: int| start <= j < i ==> !is_crossing(s, j),
        },
    decreases i - start,
{
    if i > start {
        lemma_crossing_scan_minimal(s, target, start, i - 1);
    }
}

proof fn lemma_abs_scan_minimal(s: Seq<i32>, start: int, i: int)
    requires
        0 <= start,
    ensures
        match abs_scan(s, start, i) {
            Some(p) => p.1 == abs_val(s[p.0]) && forall|j: int|
                start <= j < i ==> p.1 <= abs_val(s[j]),
            None => i <= start,
        },
    decreases i - start,
{
    if i > start {
        lemma_abs_scan_minimal(s, start, i - 1);
    }
}

/// What the snapping rule guarantees: when the search window holds a
/// crossing, the snapped index is a crossing at least as close to the
/// target as any other crossing in the window; when it holds none but is
/// not empty, the snapped index carries the smallest sample magnitude of
/// the window.
pub proof fn lemma_zero_cross_properties(s: Seq<i32>, target: int, radius: int)
    requires
        s.len() > 0,
        target >= 0,
        radius >= 0,
    ensures
        ({
            let start = zc_start(target, radius);
            let end = zc_end(s.len() as int, target, radius);
            let r = spec_zero_cross(s, target, radius);
            &&& (exists|j: int| start <= j < end && is_crossing(s, j)) ==> is_crossing(s, r)
                && start <= r < end && (forall|j: int|
                start <= j < end && is_crossing(s, j) ==> dist(r, target) <= dist(j, target))
            &&& !(exists|j: int| start <= j < end && is_crossing(s, j)) && start < end ==> start
                <= r < end && (forall|j: int| start <= j < end ==> abs_val(s[r]) <= abs_val(s[j]))
        }),
{
    let start = zc_start(target, radius);
    let end = zc_end(s.len() as int, target, radius);
    lemma_crossing_scan_minimal(s, target, start, end);
    lemma_abs_scan_minimal(s, start, end);
    if crossing_scan(s, target, start, end) is Some {
        lemma_crossing_scan_in_range(s, target, start, end);
    } else if abs_scan(s, start, end) is Some {
        lemma_abs_scan_in_range(s, start, end);
    }
}

/// Stateless audio processing: loading policy, boundary snapping and
/// crossfade blending.  Holds the sample rate every loaded file is
/// normalized to.
pub struct AudioProcessor {
    /// The rate every loaded file is normalized to.
    pub target_sample_rate: u32,
}

impl AudioProcessor {
    /// A processor normalizing to `target_sample_rate` hertz.
    pub fn new(target_sample_rate: u32) -> (p: AudioProcessor)
        ensures
            p.target_sample_rate == target_sample_rate,
    {
        AudioProcessor { target_sample_rate }
    }

    /// The rate every loaded file is normalized to.
    pub fn target_rate(&self) -> (r: u32)
        ensures
            r == self.target_sample_rate,
    {
        self.target_sample_rate
    }

    /// Finds the best cut point near `target_sample`: scans the window
    /// `[target - search_range, target + search_range]` (clamped to the
    /// buffer) for the sign change closest to the target, and falls back
    /// to the quietest sample of the window when the signal never crosses
    /// zero there.
    pub fn find_zero_crossing(samples: &[i32], target_sample: usize, search_range: usize) -> (idx:
        usize)
        requires
            samples@.len() > 0,
        ensures
            idx == spec_zero_cross(samples@, target_sample as int, search_range as int),
            idx < samples@.len(),
    {
        let len: usize = samples.len();
        let ghost t = target_sample as int;
        let ghost r = search_range as int;
        let start: usize = if target_sample > search_range {
            target_sample - search_range
        } else {
            0
        };
        let end: usize = if target_sample <= len - 1 && search_range <= (len - 1) - target_sample {
            target_sample + search_range
        } else {
            len - 1
        };
        assert(start == zc_start(t, r));
        assert(end == zc_end(len as int, t, r));

        let default_idx: usize = if target_sample <= len - 1 {
            target_sample
        } else {
            len - 1
        };
        let mut best: usize = default_idx;
        let mut best_dist: usize = 0;
        let mut found: bool = false;
        let mut i: usize = start;
        while i < end
            invariant
                start <= i,
                i <= end || i == start,
                end <= len - 1,
                len == samples@.len(),
                start == zc_start(t, r),
                t == target_sample as int,
                t >= 0,
                default_idx == min(t, len - 1),
                found ==> crossing_scan(samples@, t, start as int, i as int) == Some(
                    (best as int, best_dist as int),
                ),
                !found ==> crossing_scan(samples@, t, start as int, i as int) is None,
                found ==> start <= best < end,
                !found ==> best == default_idx,
            decreases end - i,
        {
            let d: usize = if i >= target_sample {
                i - target_sample
            } else {
                target_sample - i
            };
            proof {
                lemma_i32_mul_in_i64(samples@[i as int] as int, samples@[i + 1] as int);
            }
            let prod: i64 = (samples[i] as i64) * (samples[i + 1] as i64);
            assert(prod <= 0 <==> is_crossing(samples@, i as int));
            proof {
                let prev = crossing_scan(samples@, t, start as int, i as int);
                assert(crossing_scan(samples@, t, start as int, i as int + 1) == (if is_crossing(
                    samples@,
                    i as int,
                ) && (prev is None || dist(i as int, t) < (prev->0).1) {
                    Some((i as int, dist(i as int, t)))
                } else {
                    prev
                }));
            }
            if prod <= 0 && (!found || d < best_dist) {
                best = i;
                best_dist = d;
                found = true;
            }
            i = i + 1;
        }
        proof {
            if start > end {
                assert(crossing_scan(samples@, t, start as int, end as int) is None);
            }
        }
        if found {
            return best;
        }
        // No crossing in the window: pick the quietest sample there.
        let mut fbest: usize = default_idx;
        let mut fbest_val: i64 = 0;
        let mut ffound: bool = false;
        let mut i: usize = start;
        while i < end
            invariant
                start <= i,
                i <= end || i == start,
                end <= len - 1,
                len == samples@.len(),
                t == target_sample as int,
                t >= 0,
                default_idx == min(t, len - 1),
                ffound ==> abs_scan(samples@, start as int, i as int) == Some(
                    (fbest as int, fbest_val as int),
                ),
                !ffound ==> abs_scan(samples@, start as int, i as int) is None,
                ffound ==> start <= fbest < end,
                !ffound ==> fbest == default_idx,
            decreases end - i,
        {
            let v: i32 = samples[i];
            let a: i64 = if v >= 0 {
                v as i64
            } else {
                -(v as i64)
            };
            assert(a == abs_val(samples@[i as int]));
            proof {
                let prev = abs_scan(samples@, start as int, i as int);
                assert(abs_scan(samples@, start as int, i as int + 1) == (if prev is None
                    || abs_val(samples@[i as int]) < (prev->0).1 {
                    Some((i as int, abs_val(samples@[i as int])))
                } else {
                    prev
                }));
            }
            if !ffound || a < fbest_val {
                fbest = i;
                fbest_val = a;
                ffound = true;
            }
            i = i + 1;
        }
        proof {
            if start > end {
                assert(abs_scan(samples@, start as int, end as int) is None);
            }
        }
        fbest
    }
}

/// Truncating (round-toward-zero) division by a positive divisor: the
/// semantics of Rust's integer division.
pub open spec fn tdiv(n: int, d: int) -> int {
    if n >= 0 {
        n / d
    } else {
        -((-n) / d)
    }
}

/// Linear blend of `x` (fading out) and `y` (fading in) at step `i` of a
/// fade of length `f`.
pub open spec fn blend(x: i32, y: i32, i: int, f: int) -> i32 {
    tdiv((x as int) * (f - i) + (y as int) * i, f) as i32
}

/// How many samples of the fade a crossfade can actually use: the requested
/// length, clamped to both segment lengths.
pub open spec fn fade_len(a: Seq<i32>, b: Seq<i32>, fade: int) -> int {
    min(fade, min(a.len() as int, b.len() as int))
}

/// The crossfaded join of two segments: `a` without its tail, then the
/// linear blend of `a`'s tail with `b`'s head, then `b` without its head.
/// A zero fade or an empty segment degrades to plain concatenation.
pub open spec fn spec_crossfade(a: Seq<i32>, b: Seq<i32>, fade: int) -> Seq<i32> {
    if fade <= 0 || a.len() == 0 || b.len() == 0 {
        a + b
    } else {
        let f = fade_len(a, b, fade);
        a.take(a.len() - f) + Seq::new(f as nat, |i: int| blend(a[a.len() - f + i], b[i], i, f))
            + b.skip(f)
    }
}

/// The crossfade output length is the sum of the inputs minus the usable
/// fade length.
pub proof fn lemma_crossfade_len(a: Seq<i32>, b: Seq<i32>, fade: int)
    requires
        fade >= 0,
    ensures
        spec_crossfade(a, b, fade).len() == a.len() + b.len() - fade_len(a, b, fade),
{
}

/// A product of values bounded in magnitude is bounded in magnitude.
proof fn lemma_mul_abs_bound(a: int, b: int, ma: int, mb: int)
    requires
        -ma <= a <= ma,
        0 <= b <= mb,
    ensures
        -(ma * mb) <= a * b <= ma * mb,
{
    assert(-(ma * mb) <= a * b <= ma * mb) by (nonlinear_arith)
        requires
            -ma <= a <= ma,
            0 <= b <= mb,
    ;
}

/// The blend numerator lies between `i32::MIN * f` and `i32::MAX * f`.
proof fn lemma_blend_num_bounds(x: int, y: int, i: int, f: int)
    requires
        -0x8000_0000 <= x <= 0x7fff_ffff,
        -0x8000_0000 <= y <= 0x7fff_ffff,
        0 <= i < f,
    ensures
        (-0x8000_0000) * f <= x * (f - i) + y * i <= 0x7fff_ffff * f,
{
    assert((-0x8000_0000) * f <= x * (f - i) + y * i <= 0x7fff_ffff * f) by (nonlinear_arith)
        requires
            -0x8000_0000 <= x <= 0x7fff_ffff,
            -0x8000_0000 <= y <= 0x7fff_ffff,
            0 <= i < f,
    ;
}

/// One blended sample, computed exactly as [`blend`] states.
fn blend_exec(x: i32, y: i32, i: usize, f: usize) -> (r: i32)
    requires
        i < f,
    ensures
        r == blend(x, y, i as int, f as int),
{
    proof {
        lemma_mul_abs_bound(x as int, (f - i) as int, 0x8000_0000, usize::MAX as int);
        lemma_mul_abs_bound(y as int, i as int, 0x8000_0000, usize::MAX as int);
    }
    let num: i128 = (x as i128) * ((f - i) as i128) + (y as i128) * (i as i128);
    let ghost n = num as int;
    let ghost fd = f as int;
    proof {
        lemma_blend_num_bounds(x as int, y as int, i as int, fd);
    }
    let q: i128 = if num >= 0 {
        proof {
            broadcast use vstd::arithmetic::div_mod::lemma_div_is_ordered;
            broadcast use vstd::arithmetic::div_mod::lemma_div_multiples_vanish;
            broadcast use vstd::arithmetic::div_mod::lemma_div_pos_is_pos;

            vstd::arithmetic::div_mod::lemma_div_multiples_vanish(0x7fff_ffff, fd);
            assert((fd * 0x7fff_ffff) / fd == 0x7fff_ffff);
            assert(fd * 0x7fff_ffff == 0x7fff_ffff * fd) by (nonlinear_arith);
            assert(n / fd <= 0x7fff_ffff);
        }
        ((num as u128) / (f as u128)) as i128
    } else {
        proof {
            broadcast use vstd::arithmetic::div_mod::lemma_div_is_ordered;
            broadcast use vstd::arithmetic::div_mod::lemma_div_multiples_vanish;
            broadcast use vstd::arithmetic::div_mod::lemma_div_pos_is_pos;

            vstd::arithmetic::div_mod::lemma_div_multiples_vanish(0x8000_0000, fd);
            assert((fd * 0x8000_0000) / fd == 0x8000_0000);
            assert(fd * 0x8000_0000 == 0x8000_0000 * fd) by (nonlinear_arith);
            assert((-n) / fd <= 0x8000_0000);
        }
        -((((-num) as u128) / (f as u128)) as i128)
    };
    assert(q == tdiv(n, fd));
    q as i32
}

impl AudioProcessor {
    /// Joins two segments with a linear crossfade of up to
    /// `crossfade_samples` samples, exactly as [`spec_crossfade`] states.
    /// The output length is always the sum of the segment lengths minus the
    /// usable fade length, and a zero fade is plain concatenation.
    pub fn apply_crossfade(segment1: &[i32], segment2: &[i32], crossfade_samples: usize) -> (out:
        Vec<i32>)
        ensures
            out@ == spec_crossfade(segment1@, segment2@, crossfade_samples as int),
            out@.len() == segment1@.len() + segment2@.len() - fade_len(
                segment1@,
                segment2@,
                crossfade_samples as int,
            ),
            crossfade_samples == 0 ==> out@ == segment1@ + segment2@,
    {
        proof {
            lemma_crossfade_len(segment1@, segment2@, crossfade_samples as int);
        }
        let mut out: Vec<i32> = Vec::new();
        if crossfade_samples == 0 || segment1.len() == 0 || segment2.len() == 0 {
            push_slice_range(&mut out, segment1, 0, segment1.len());
            push_slice_range(&mut out, segment2, 0, segment2.len());
            assert(out@ =~= segment1@ + segment2@);
            return out;
        }
        let alen: usize = segment1.len();
        let blen: usize = segment2.len();
        let f: usize = if crossfade_samples <= alen && crossfade_samples <= blen {
            crossfade_samples
        } else if alen <= blen {
            alen
        } else {
            blen
        };
        assert(f == fade_len(segment1@, segment2@, crossfade_samples as int));
        push_slice_range(&mut out, segment1, 0, alen - f);
        let ghost mid = Seq::new(f as nat, |i: int| blend(segment1@[alen - f + i], segment2@[i], i, f as int));
        let mut i: usize = 0;
        while i < f
            invariant
                0 < f <= alen <= segment1@.len(),
                f <= blen == segment2@.len(),
                alen == segment1@.len(),
                0 <= i <= f,
                mid == Seq::new(f as nat, |k: int| blend(segment1@[alen - f + k], segment2@[k], k, f as int)),
                out@ == segment1@.take(alen - f) + mid.take(i as int),
            decreases f - i,
        {
            let v: i32 = blend_exec(segment1[alen - f + i], segment2[i], i, f);
            out.push(v);
            assert(mid.take(i + 1) =~= mid.take(i as int).push(mid[i as int]));
            assert(out@ =~= segment1@.take(alen - f) + mid.take(i + 1));
            i = i + 1;
        }
        push_slice_range(&mut out, segment2, f, blen);
        assert(mid.take(f as int) =~= mid);
        assert(out@ =~= segment1@.take(alen - f) + mid + segment2@.skip(f as int));
        out
    }
}

/// A character with ASCII upper case folded to lower case.
pub open spec fn lower_ascii_char(c: char) -> char {
    if 'A' <= c <= 'Z' {
        ((c as u8) + 32) as char
    } else {
        c
    }
}

/// A text with ASCII upper case folded to lower case.
pub open spec fn lower_ascii(s: Seq<char>) -> Seq<char> {
    s.map_values(|c: char| lower_ascii_char(c))
}

/// The file extension of a path, lower-cased: the text after the last dot
/// of the file name, provided that dot does not open the name.
pub open spec fn spec_extension(p: Seq<char>) -> Option<Seq<char>> {
    let name = crate::exporter::after_last_slash(p);
    let i = crate::exporter::last_dot_index(name);
    if i >= 1 {
        Some(lower_ascii(name.skip(i + 1)))
    } else {
        None
    }
}

/// Which decode path a file takes.
#[derive(Debug)]
pub enum AudioFormatKind {
    /// A WAV file, decoded directly.
    Wav,
    /// A compressed format the demuxing decoder handles.
    Compressed,
    /// A recognizable extension no decoder handles; carries the
    /// lower-cased extension.
    Unsupported(String),
    /// No usable extension.
    NoExtension,
}

/// Whether the lower-cased extension names a compressed format the
/// demuxing decoder handles.
pub open spec fn is_compressed_ext(e: Seq<char>) -> bool {
    e == "mp3"@ || e == "m4a"@ || e == "aac"@ || e == "flac"@ || e == "ogg"@
}

/// Whether a classification matches the spec-level kind.
pub open spec fn classify_matches(k: AudioFormatKind, p: Seq<char>) -> bool {
    match spec_extension(p) {
        None => k is NoExtension,
        Some(e) => if e == "wav"@ {
            k is Wav
        } else if is_compressed_ext(e) {
            k is Compressed
        } else {
            k matches AudioFormatKind::Unsupported(x) && x@ == e
        },
    }
}

/// Whether two character vectors hold the same text.
fn chars_eq_str(a: &Vec<char>, b: &str) -> (r: bool)
    ensures
        r == (a@ == b@),
{
    let bv: Vec<char> = crate::strfmt::chars_of(b);
    if a.len() != bv.len() {
        return false;
    }
    let mut i: usize = 0;
    while i < a.len()
        invariant
            0 <= i <= a@.len(),
            a@.len() == bv@.len(),
            bv@ == b@,
            forall|k: int| 0 <= k < i ==> a@[k] == bv@[k],
        decreases a@.len() - i,
    {
        if a[i] != bv[i] {
            return false;
        }
        i = i + 1;
    }
    proof {
        assert(a@ =~= b@);
    }
    true
}

impl AudioProcessor {
    /// Decides which decode path a file takes, from its extension alone:
    /// WAV files go to the direct reader, the known compressed formats to
    /// the demuxing decoder, and anything else is refused.
    pub fn classify_audio_path(path: &str) -> (k: AudioFormatKind)
        ensures
            classify_matches(k, path@),
    {
        let name: Vec<char> = crate::exporter::file_name_chars(path);
        let ghost nv = name@;
        // Find the last dot of the name.
        let mut dot: usize = 0;
        let mut has_dot: bool = false;
        let mut m: usize = name.len();
        while m > 0 && !has_dot
            invariant
                0 <= m <= name@.len(),
                nv == name@,
                !has_dot ==> (forall|k: int| m <= k < name@.len() ==> name@[k] != '.'),
                has_dot ==> 0 <= dot < name@.len() && name@[dot as int] == '.' && (forall|k: int|
                    dot < k < name@.len() ==> name@[k] != '.'),
            decreases m + (if has_dot {
                0int
            } else {
                1int
            }),
        {
            if name[m - 1] == '.' {
                dot = m - 1;
                has_dot = true;
            } else {
                m = m - 1;
            }
        }
        proof {
            if has_dot {
                crate::exporter::lemma_last_dot_split(nv, dot as int);
            } else {
                crate::exporter::lemma_last_dot_split(nv, -1);
            }
        }
        if !(has_dot && dot >= 1) {
            return AudioFormatKind::NoExtension;
        }
        // Lower-case the extension.
        let mut ext: Vec<char> = Vec::new();
        let mut i: usize = dot + 1;
        proof {
            assert(ext@ =~= lower_ascii(nv.skip(dot + 1)).take(0));
        }
        while i < name.len()
            invariant
                dot + 1 <= i <= name@.len(),
                nv == name@,
                ext@ == lower_ascii(nv.skip(dot + 1)).take(i as int - (dot + 1)),
            decreases name@.len() - i,
        {
            let c: char = name[i];
            let lc: char = if 'A' <= c && c <= 'Z' {
                ((c as u8) + 32) as char
            } else {
                c
            };
            ext.push(lc);
            proof {
                assert(lc == lower_ascii_char(nv[i as int]));
                assert(lower_ascii(nv.skip(dot + 1)).take(i + 1 - (dot + 1)) =~= lower_ascii(
                    nv.skip(dot + 1),
                ).take(i as int - (dot + 1)).push(lc));
            }
            i = i + 1;
        }
        proof {
            assert(ext@ =~= lower_ascii(nv.skip(dot + 1)));
        }
        if chars_eq_str(&ext, "wav") {
            AudioFormatKind::Wav
        } else if chars_eq_str(&ext, "mp3") || chars_eq_str(&ext, "m4a") || chars_eq_str(
            &ext,
            "aac",
        ) || chars_eq_str(&ext, "flac") || chars_eq_str(&ext, "ogg") {
            AudioFormatKind::Compressed
        } else {
            AudioFormatKind::Unsupported(crate::strfmt::string_from_chars(&ext))
        }
    }
}

impl Default for AudioProcessor {
    /// A processor normalizing to the default 48 kHz.
    fn default() -> (p: AudioProcessor)
        ensures
            p.target_sample_rate == 48000,
    {
        AudioProcessor::new(48000)
    }
}

} // verus!
