//! The energy-based voice-activity detector: a stateless-per-call detector
//! that classifies fixed-size hopping windows as speech or silence by their
//! root-mean-square energy, finds speech segment boundaries, and tightens
//! externally supplied coarse spans to the detected speech onset.
//!
//! All energies are exact integer arithmetic over the fixed-point sample
//! scale of [`crate::audio`]: a window is speech when the integer square
//! root of its mean squared sample value exceeds the threshold.

use vstd::prelude::*;

use crate::ProgressStatus;
use crate::audio::{iabs, spec_mono_sample, AudioData};
use crate::error::TranscribeError;
use crate::num::{isqrt_u64, lemma_isqrt_is, spec_isqrt};
use core::sync::atomic::{AtomicBool, Ordering};
use std::sync::Arc;
use vstd::arithmetic::div_mod::{lemma_div_is_ordered, lemma_div_multiples_vanish};
use vstd::arithmetic::mul::lemma_mul_inequality;
use vstd::slice::slice_subrange;

verus! {

/// A cooperative cancellation token: one writer may set it, any number of
/// readers may poll it. Clones share the same underlying flag.
#[derive(Clone)]
pub struct CancelFlag {
    inner: Arc<AtomicBool>,
}

impl CancelFlag {
    /// A fresh token, not yet cancelled.
    pub fn new() -> CancelFlag {
        CancelFlag { inner: Arc::new(AtomicBool::new(false)) }
    }

    /// Requests cancellation; every reader sharing this flag will see it.
    pub fn cancel(&self) {
        self.inner.store(true, Ordering::Relaxed);
    }

    /// Polls the flag. Another thread may set it at any moment, so nothing
    /// can be promised about the value.
    pub fn is_cancelled(&self) -> bool {
        self.inner.load(Ordering::Relaxed)
    }
}

/// The sum of squared sample values of a window.
pub open spec fn sum_squares(s: Seq<i32>) -> int
    decreases s.len(),
{
    if s.len() == 0 {
        0
    } else {
        sum_squares(s.drop_last()) + s.last() * s.last()
    }
}

/// The root-mean-square amplitude of a window in micro-units: the integer
/// square root of the mean squared sample value.
pub open spec fn spec_rms(s: Seq<i32>) -> int {
    spec_isqrt(sum_squares(s) / s.len() as int)
}

/// Whether a window counts as speech: it is non-empty and its energy
/// exceeds the threshold.
pub open spec fn spec_contains_speech(threshold: int, s: Seq<i32>) -> bool {
    s.len() > 0 && spec_rms(s) > threshold
}

/// An energy detector: the RMS threshold in micro-units above which a
/// window counts as speech, the sample rate the buffer was recorded at,
/// and the window size and hop in milliseconds.
#[derive(Debug, Clone, PartialEq, Eq, Structural)]
pub struct EnergyVAD {
    pub threshold: u32,
    pub sample_rate: u32,
    pub frame_size_ms: u64,
    pub frame_shift_ms: u64,
}

impl EnergyVAD {
    /// A detector with the default threshold of 0.1 (100000 micro-units)
    /// and 200 ms windows hopping by 100 ms.
    pub fn new(sample_rate: u32) -> (v: EnergyVAD)
        ensures
            v.threshold == 100000,
            v.sample_rate == sample_rate,
            v.frame_size_ms == 200,
            v.frame_shift_ms == 100,
    {
        EnergyVAD { threshold: 100000, sample_rate, frame_size_ms: 200, frame_shift_ms: 100 }
    }

    pub fn with_threshold(self, threshold: u32) -> (v: EnergyVAD)
        ensures
            v == (EnergyVAD { threshold, ..self }),
    {
        EnergyVAD { threshold, ..self }
    }

    pub fn with_frame_size_ms(self, ms: u64) -> (v: EnergyVAD)
        ensures
            v == (EnergyVAD { frame_size_ms: ms, ..self }),
    {
        EnergyVAD { frame_size_ms: ms, ..self }
    }

    pub fn with_frame_shift_ms(self, ms: u64) -> (v: EnergyVAD)
        ensures
            v == (EnergyVAD { frame_shift_ms: ms, ..self }),
    {
        EnergyVAD { frame_shift_ms: ms, ..self }
    }

    /// The root-mean-square amplitude of a window, exactly.
    pub fn calculate_rms(&self, samples: &[i32]) -> (r: u64)
        requires
            samples@.len() > 0,
        ensures
            r == spec_rms(samples@),
    {
        let n = samples.len();
        let mut sum: u128 = 0;
        let mut i: usize = 0;
        while i < n
            invariant
                n == samples@.len(),
                i <= n,
                sum == sum_squares(samples@.subrange(0, i as int)),
                sum <= i * 0x4000_0000_0000_0000,
            decreases n - i,
        {
            let v = *vstd::slice::slice_index_get(samples, i) as i64;
            proof {
                assert(0 <= v * v <= 0x4000_0000_0000_0000) by (nonlinear_arith)
                    requires
                        -0x8000_0000 <= v <= 0x7FFF_FFFF,
                ;
            }
            let sq: u128 = (v * v) as u128;
            proof {
                assert(samples@.subrange(0, i as int + 1).drop_last() =~= samples@.subrange(
                    0,
                    i as int,
                ));
                assert(samples@.subrange(0, i as int + 1).last() == samples@[i as int]);
                assert((i as int) * 0x4000_0000_0000_0000 + 0x4000_0000_0000_0000 == (i as int + 1)
                    * 0x4000_0000_0000_0000) by (nonlinear_arith);
            }
            sum = sum + sq;
            i = i + 1;
        }
        proof {
            assert(samples@.subrange(0, n as int) =~= samples@);
        }
        let mean_u128: u128 = sum / (n as u128);
        proof {
            lemma_div_is_ordered(sum as int, n as int * 0x4000_0000_0000_0000, n as int);
            lemma_div_multiples_vanish(0x4000_0000_0000_0000, n as int);
            assert(n as int * 0x4000_0000_0000_0000 / n as int == 0x4000_0000_0000_0000);
            assert(mean_u128 <= 0x4000_0000_0000_0000);
        }
        let mean: u64 = mean_u128 as u64;
        isqrt_u64(mean)
    }

    /// Whether a window counts as speech: non-empty and louder than the
    /// threshold.
    pub fn contain_speech(&self, samples: &[i32]) -> (r: bool)
        ensures
            r == spec_contains_speech(self.threshold as int, samples@),
    {
        if samples.len() == 0 {
            return false;
        }
        let rms = self.calculate_rms(samples);
        rms > self.threshold as u64
    }
}


/// The sum of squares splits over concatenation.
proof fn lemma_sum_squares_concat(a: Seq<i32>, b: Seq<i32>)
    ensures
        sum_squares(a + b) == sum_squares(a) + sum_squares(b),
    decreases b.len(),
{
    if b.len() == 0 {
        assert(a + b =~= a);
    } else {
        assert((a + b).drop_last() =~= a + b.drop_last());
        assert((a + b).last() == b.last());
        lemma_sum_squares_concat(a, b.drop_last());
    }
}

/// The sum of squares of any window of a buffer that is zero up to `p`
/// and constant afterwards: only the samples past `p` contribute.
proof fn lemma_sum_squares_mixed(s: Seq<i32>, p: int, amp: i32, from: int, to: int)
    requires
        0 <= from <= to <= s.len(),
        0 <= p <= s.len(),
        forall|i: int| 0 <= i < p ==> s[i] == 0,
        forall|i: int| p <= i < s.len() ==> s[i] == amp,
    ensures
        sum_squares(s.subrange(from, to)) == (if to <= p {
            0
        } else if from >= p {
            (to - from) * (amp as int * amp as int)
        } else {
            (to - p) * (amp as int * amp as int)
        }),
{
    let w = s.subrange(from, to);
    if to <= p {
        assert(forall|i: int| 0 <= i < w.len() ==> w[i] == 0);
        lemma_sum_squares_of_constant(w, 0);
        assert(w.len() * (0 as int * 0 as int) == 0) by (nonlinear_arith);
    } else if from >= p {
        assert(forall|i: int| 0 <= i < w.len() ==> w[i] == amp);
        lemma_sum_squares_of_constant(w, amp);
    } else {
        let quiet = s.subrange(from, p);
        let loud = s.subrange(p, to);
        assert(w =~= quiet + loud);
        lemma_sum_squares_concat(quiet, loud);
        assert(forall|i: int| 0 <= i < quiet.len() ==> quiet[i] == 0);
        lemma_sum_squares_of_constant(quiet, 0);
        assert(quiet.len() * (0 as int * 0 as int) == 0) by (nonlinear_arith);
        assert(forall|i: int| 0 <= i < loud.len() ==> loud[i] == amp);
        lemma_sum_squares_of_constant(loud, amp);
    }
}

/// The samples of hopping window `i`: `size` samples starting at
/// `i * shift`, clipped to the end of the buffer.
pub open spec fn spec_window(s: Seq<i32>, size: int, shift: int, i: int) -> Seq<i32>
    recommends
        0 <= i,
        shift >= 1,
        i * shift < s.len(),
{
    s.subrange(
        i * shift,
        if i * shift + size <= s.len() {
            i * shift + size
        } else {
            s.len() as int
        },
    )
}

/// How many hopping windows a buffer has: one for every start offset
/// `i * shift` inside the buffer.
pub open spec fn spec_window_count(len: int, shift: int) -> int
    recommends
        shift >= 1,
{
    if len <= 0 {
        0
    } else {
        (len - 1) / shift + 1
    }
}

/// Window starts below the count lie inside the buffer and vice versa, and
/// there are no more windows than samples.
pub proof fn lemma_window_count(len: int, shift: int)
    requires
        shift >= 1,
        len >= 0,
    ensures
        spec_window_count(len, shift) <= len,
        spec_window_count(len, shift) >= 0,
        forall|i: int| 0 <= i ==> (#[trigger] (i * shift) < len <==> i < spec_window_count(len, shift)),
{
    if len > 0 {
        let q = (len - 1) / shift;
        vstd::arithmetic::div_mod::lemma_div_pos_is_pos(len - 1, shift);
        assert(q <= len - 1) by {
            vstd::arithmetic::div_mod::lemma_div_is_ordered_by_denominator(len - 1, 1, shift);
            assert((len - 1) / 1 == len - 1);
        }
        assert forall|i: int| 0 <= i implies (#[trigger] (i * shift) < len <==> i
            < spec_window_count(len, shift)) by {
            if i <= q {
                vstd::arithmetic::div_mod::lemma_fundamental_div_mod(len - 1, shift);
                vstd::arithmetic::div_mod::lemma_mod_bound(len - 1, shift);
                assert(shift * q <= len - 1);
                lemma_mul_inequality(i, q, shift);
                assert(i * shift <= q * shift);
                assert(q * shift == shift * q) by (nonlinear_arith);
            }
            if i * shift < len {
                assert(i * shift <= len - 1);
                lemma_div_is_ordered(i * shift, len - 1, shift);
                assert(i * shift / shift == i) by {
                    lemma_div_multiples_vanish(i, shift);
                    assert(i * shift == shift * i) by (nonlinear_arith);
                }
            }
        }
    } else {
        assert forall|i: int| 0 <= i implies (#[trigger] (i * shift) < len <==> i
            < spec_window_count(len, shift)) by {
            vstd::arithmetic::mul::lemma_mul_nonnegative(i, shift);
        }
    }
}

/// One step of the detector's scan: the segments emitted so far, the open
/// segment's start and end in milliseconds, and whether a segment is open,
/// after the first `k` windows have been classified.
pub open spec fn spec_scan(
    th: int,
    s: Seq<i32>,
    size: int,
    shift: int,
    shift_ms: int,
    k: int,
) -> (Seq<(int, int)>, int, int, bool)
    decreases k,
{
    if k <= 0 {
        (Seq::<(int, int)>::empty(), 0, 0, false)
    } else {
        let prev = spec_scan(th, s, size, shift, shift_ms, k - 1);
        let i = k - 1;
        if spec_contains_speech(th, spec_window(s, size, shift, i)) {
            if prev.3 {
                (prev.0, prev.1, prev.2 + shift_ms, true)
            } else {
                (prev.0, i * shift_ms, (i + 1) * shift_ms, true)
            }
        } else {
            if prev.3 {
                (prev.0.push((prev.1, prev.2)), prev.1, prev.2, false)
            } else {
                (prev.0, prev.1, prev.2, false)
            }
        }
    }
}

/// All speech segments of a buffer: maximal runs of speech windows, each
/// reported as `(start_ms, end_ms)` on the hop grid; a run still open at
/// the end of the buffer is extended to the buffer's full duration when it
/// falls short of it.
pub open spec fn spec_active_segments(
    th: int,
    s: Seq<i32>,
    size: int,
    shift: int,
    shift_ms: int,
    total_ms: int,
) -> Seq<(int, int)> {
    let st = spec_scan(th, s, size, shift, shift_ms, spec_window_count(s.len() as int, shift));
    if st.3 {
        st.0.push(
            (
                st.1,
                if st.2 < total_ms {
                    total_ms
                } else {
                    st.2
                },
            ),
        )
    } else {
        st.0
    }
}

impl EnergyVAD {
    /// Finds all speech segments of a buffer in one pass: a window of
    /// `frame_size_ms` slides in steps of `frame_shift_ms`; a maximal run
    /// of speech windows becomes one `(start_ms, end_ms)` segment, and a
    /// run still open at the end of the buffer is extended to the buffer's
    /// full duration when it falls short of it.
    pub fn detect_all_active_segments(&self, samples: &[i32]) -> (r: Vec<(u64, u64)>)
        requires
            self.sample_rate >= 1,
            self.sample_rate as int * self.frame_size_ms as int <= u64::MAX,
            self.sample_rate as int * self.frame_shift_ms as int >= 1000,
            self.sample_rate as int * self.frame_shift_ms as int <= u64::MAX,
            samples@.len() * 1000 <= u64::MAX,
            samples@.len() * self.frame_shift_ms as int <= u64::MAX,
        ensures
            ({
                let size = self.sample_rate as int * self.frame_size_ms as int / 1000;
                let shift = self.sample_rate as int * self.frame_shift_ms as int / 1000;
                let total_ms = samples@.len() as int * 1000 / self.sample_rate as int;
                let segs = spec_active_segments(
                    self.threshold as int,
                    samples@,
                    size,
                    shift,
                    self.frame_shift_ms as int,
                    total_ms,
                );
                r@.len() == segs.len() && forall|k: int|
                    #![trigger r@[k]]
                    0 <= k < segs.len() ==> r@[k].0 == segs[k].0 && r@[k].1 == segs[k].1
            }),
    {
        let size: u64 = self.sample_rate as u64 * self.frame_size_ms / 1000;
        let shift: u64 = self.sample_rate as u64 * self.frame_shift_ms / 1000;
        let sms: u64 = self.frame_shift_ms;
        let len: usize = samples.len();
        let total_ms: u64 = len as u64 * 1000 / self.sample_rate as u64;
        let ghost th = self.threshold as int;
        let ghost count = spec_window_count(len as int, shift as int);
        proof {
            lemma_div_is_ordered(1000, self.sample_rate as int * self.frame_shift_ms as int, 1000);
            lemma_window_count(len as int, shift as int);
        }
        let mut segments: Vec<(u64, u64)> = Vec::new();
        let mut start_ms: u64 = 0;
        let mut end_ms: u64 = 0;
        let mut active = false;
        let mut i: u64 = 0;
        let mut offset: u128 = 0;
        while offset < len as u128
            invariant
                1 <= shift,
                shift == self.sample_rate as int * self.frame_shift_ms as int / 1000,
                size == self.sample_rate as int * self.frame_size_ms as int / 1000,
                sms == self.frame_shift_ms,
                th == self.threshold as int,
                len == samples@.len(),
                len as int * sms as int <= u64::MAX,
                count == spec_window_count(len as int, shift as int),
                0 <= count <= len,
                forall|j: int|
                    0 <= j ==> (#[trigger] (j * shift as int) < len as int <==> j < count),
                i <= count,
                offset == i as int * shift as int,
                ({
                    let st = spec_scan(th, samples@, size as int, shift as int, sms as int,
                    i as int);
                    &&& segments@.len() == st.0.len()
                    &&& (forall|k: int|
                        #![trigger segments@[k]]
                        0 <= k < st.0.len() ==> segments@[k].0 == st.0[k].0 && segments@[k].1
                            == st.0[k].1)
                    &&& active == st.3
                    &&& (active ==> start_ms == st.1 && end_ms == st.2)
                    &&& (active ==> end_ms <= i as int * sms as int)
                }),
            decreases count - i,
        {
            proof {
                assert(i < count);
            }
            let off_usize: usize = offset as usize;
            let rem: u128 = len as u128 - offset;
            let frame_end: usize = if (size as u128) <= rem {
                (offset + size as u128) as usize
            } else {
                len
            };
            let frame = slice_subrange(samples, off_usize, frame_end);
            proof {
                assert(frame@ =~= spec_window(samples@, size as int, shift as int, i as int));
            }
            let is_speech = self.contain_speech(frame);
            proof {
                assert((i as int + 1) * sms as int <= len as int * sms as int) by {
                    lemma_mul_inequality(i as int + 1, len as int, sms as int);
                }
                assert(i as int * sms as int + sms as int == (i as int + 1) * sms as int)
                    by (nonlinear_arith);
            }
            if is_speech {
                if active {
                    end_ms = end_ms + sms;
                } else {
                    active = true;
                    start_ms = i * sms;
                    end_ms = start_ms + sms;
                }
            } else {
                if active {
                    segments.push((start_ms, end_ms));
                    active = false;
                }
            }
            proof {
                assert((i as int + 1) * shift as int == i as int * shift as int + shift as int)
                    by (nonlinear_arith);
                assert((i as int + 1) * shift as int <= 0xFFFF_FFFF_FFFF_FFFF
                    * 0xFFFF_FFFF_FFFF_FFFF) by (nonlinear_arith)
                    requires
                        i as int + 1 <= 0xFFFF_FFFF_FFFF_FFFF,
                        shift <= 0xFFFF_FFFF_FFFF_FFFF,
                ;
            }
            i = i + 1;
            offset = offset + shift as u128;
        }
        proof {
            assert(!((i as int) * (shift as int) < (len as int)));
            assert(i == count);
        }
        if active {
            let final_end = if end_ms < total_ms {
                total_ms
            } else {
                end_ms
            };
            segments.push((start_ms, final_end));
        }
        proof {
            let st = spec_scan(th, samples@, size as int, shift as int, sms as int, count);
            let segs = spec_active_segments(th, samples@, size as int, shift as int, sms as int,
            total_ms as int);
            if st.3 {
                assert(segs == st.0.push(
                    (
                        st.1,
                        if st.2 < total_ms as int {
                            total_ms as int
                        } else {
                            st.2
                        },
                    ),
                ));
                assert(segments@.len() == segs.len());
                assert(forall|k: int|
                    #![trigger segments@[k]]
                    0 <= k < segs.len() ==> segments@[k].0 == segs[k].0 && segments@[k].1
                        == segs[k].1);
            } else {
                assert(segs == st.0);
            }
            let size2 = self.sample_rate as int * self.frame_size_ms as int / 1000;
            let shift2 = self.sample_rate as int * self.frame_shift_ms as int / 1000;
            let total2 = samples@.len() as int * 1000 / self.sample_rate as int;
            assert(size2 == size as int);
            assert(shift2 == shift as int);
            assert(total2 == total_ms as int);
            let segs2 = spec_active_segments(th, samples@, size2, shift2, sms as int, total2);
            assert(segs2 == segs);
            assert(segments@.len() == segs2.len());
            assert(forall|k: int|
                #![trigger segments@[k]]
                0 <= k < segs2.len() ==> segments@[k].0 == segs2[k].0 && segments@[k].1
                    == segs2[k].1);
        }
        segments
    }
}


/// The index of the first speech window at or after window `i`, or -1 when
/// every remaining window is silence.
pub open spec fn spec_first_speech_window(
    th: int,
    s: Seq<i32>,
    size: int,
    shift: int,
    i: int,
) -> int
    recommends
        shift >= 1,
        0 <= i,
    decreases spec_window_count(s.len() as int, shift) - i,
{
    if i < 0 || i >= spec_window_count(s.len() as int, shift) {
        -1
    } else if spec_contains_speech(th, spec_window(s, size, shift, i)) {
        i
    } else {
        spec_first_speech_window(th, s, size, shift, i + 1)
    }
}

/// How far into a buffer speech starts, in milliseconds: the time of the
/// first speech window on the hop grid; 0 when speech starts at the very
/// first window, and 0 when no window is speech at all.
pub open spec fn spec_silent_offset_ms(
    th: int,
    s: Seq<i32>,
    size: int,
    shift: int,
    shift_ms: int,
) -> int {
    let f = spec_first_speech_window(th, s, size, shift, 0);
    if f <= 0 {
        0
    } else {
        f * shift_ms
    }
}

impl EnergyVAD {
    /// Scans windows in order and reports the time offset of the first
    /// speech window, or 0 when the buffer starts with speech or holds
    /// none at all.
    pub fn detect_silent_offset_ms(&self, samples: &[i32]) -> (r: u64)
        requires
            self.sample_rate >= 1,
            self.sample_rate as int * self.frame_size_ms as int <= u64::MAX,
            self.sample_rate as int * self.frame_shift_ms as int >= 1000,
            self.sample_rate as int * self.frame_shift_ms as int <= u64::MAX,
            samples@.len() * self.frame_shift_ms as int <= u64::MAX,
        ensures
            ({
                let size = self.sample_rate as int * self.frame_size_ms as int / 1000;
                let shift = self.sample_rate as int * self.frame_shift_ms as int / 1000;
                r == spec_silent_offset_ms(
                    self.threshold as int,
                    samples@,
                    size,
                    shift,
                    self.frame_shift_ms as int,
                )
            }),
            r as int <= samples@.len() * self.frame_shift_ms as int,
    {
        let size: u64 = self.sample_rate as u64 * self.frame_size_ms / 1000;
        let shift: u64 = self.sample_rate as u64 * self.frame_shift_ms / 1000;
        let sms: u64 = self.frame_shift_ms;
        let len: usize = samples.len();
        let ghost th = self.threshold as int;
        let ghost count = spec_window_count(len as int, shift as int);
        proof {
            lemma_div_is_ordered(1000, self.sample_rate as int * self.frame_shift_ms as int, 1000);
            lemma_window_count(len as int, shift as int);
        }
        let mut i: u64 = 0;
        let mut offset: u128 = 0;
        while offset < len as u128
            invariant
                1 <= shift,
                shift == self.sample_rate as int * self.frame_shift_ms as int / 1000,
                size == self.sample_rate as int * self.frame_size_ms as int / 1000,
                sms == self.frame_shift_ms,
                th == self.threshold as int,
                len == samples@.len(),
                len as int * sms as int <= u64::MAX,
                count == spec_window_count(len as int, shift as int),
                0 <= count <= len,
                forall|j: int|
                    0 <= j ==> (#[trigger] (j * shift as int) < len as int <==> j < count),
                i <= count,
                offset == i as int * shift as int,
                spec_first_speech_window(th, samples@, size as int, shift as int, 0)
                    == spec_first_speech_window(th, samples@, size as int, shift as int, i as int),
            decreases count - i,
        {
            proof {
                assert(i < count);
            }
            let off_usize: usize = offset as usize;
            let rem: u128 = len as u128 - offset;
            let frame_end: usize = if (size as u128) <= rem {
                (offset + size as u128) as usize
            } else {
                len
            };
            let frame = slice_subrange(samples, off_usize, frame_end);
            proof {
                assert(frame@ =~= spec_window(samples@, size as int, shift as int, i as int));
            }
            let is_speech = self.contain_speech(frame);
            if is_speech {
                if i == 0 {
                    return 0;
                } else {
                    proof {
                        assert(i as int * sms as int <= len as int * sms as int) by {
                            lemma_mul_inequality(i as int, len as int, sms as int);
                        }
                    }
                    return i * sms;
                }
            }
            proof {
                assert((i as int + 1) * shift as int == i as int * shift as int + shift as int)
                    by (nonlinear_arith);
                assert((i as int + 1) * shift as int <= 0xFFFF_FFFF_FFFF_FFFF
                    * 0xFFFF_FFFF_FFFF_FFFF) by (nonlinear_arith)
                    requires
                        i as int + 1 <= 0xFFFF_FFFF_FFFF_FFFF,
                        shift <= 0xFFFF_FFFF_FFFF_FFFF,
                ;
            }
            i = i + 1;
            offset = offset + shift as u128;
        }
        proof {
            assert(!((i as int) * (shift as int) < (len as int)));
            assert(i == count);
        }
        0
    }
}

/// On an all-zero buffer no window is speech, so the detector finds no
/// active segments and no speech onset, whatever the threshold.
pub proof fn lemma_silence_detects_nothing(
    th: int,
    s: Seq<i32>,
    size: int,
    shift: int,
    shift_ms: int,
    total_ms: int,
)
    requires
        th >= 0,
        shift >= 1,
        size >= 0,
        forall|i: int| 0 <= i < s.len() ==> s[i] == 0,
    ensures
        spec_active_segments(th, s, size, shift, shift_ms, total_ms) =~= Seq::<(int, int)>::empty(),
        spec_silent_offset_ms(th, s, size, shift, shift_ms) == 0,
{
    let count = spec_window_count(s.len() as int, shift);
    lemma_window_count(s.len() as int, shift);
    assert forall|i: int| 0 <= i < count implies !spec_contains_speech(
        th,
        spec_window(s, size, shift, i),
    ) by {
        vstd::arithmetic::mul::lemma_mul_nonnegative(i, shift);
        assert(i * shift < s.len());
        let w = spec_window(s, size, shift, i);
        assert forall|j: int| 0 <= j < w.len() implies w[j] == 0 by {
            assert(w[j] == s[i * shift + j]);
        }
        lemma_zero_window_is_not_speech(th, w);
    }
    lemma_scan_of_silence(th, s, size, shift, shift_ms, count);
    lemma_first_speech_of_silence(th, s, size, shift, 0);
}

proof fn lemma_scan_of_silence(
    th: int,
    s: Seq<i32>,
    size: int,
    shift: int,
    shift_ms: int,
    k: int,
)
    requires
        k <= spec_window_count(s.len() as int, shift),
        forall|i: int| 0 <= i < k ==> !spec_contains_speech(
            th,
            #[trigger] spec_window(s, size, shift, i),
        ),
    ensures
        spec_scan(th, s, size, shift, shift_ms, k) == (Seq::<(int, int)>::empty(), 0int, 0int, false),
    decreases k,
{
    if k > 0 {
        lemma_scan_of_silence(th, s, size, shift, shift_ms, k - 1);
    }
}

proof fn lemma_first_speech_of_silence(th: int, s: Seq<i32>, size: int, shift: int, i: int)
    requires
        shift >= 1,
        0 <= i,
        forall|j: int| 0 <= j < spec_window_count(s.len() as int, shift)
            ==> !spec_contains_speech(th, #[trigger] spec_window(s, size, shift, j)),
    ensures
        spec_first_speech_window(th, s, size, shift, i) == -1,
    decreases spec_window_count(s.len() as int, shift) - i,
{
    if i < spec_window_count(s.len() as int, shift) {
        lemma_first_speech_of_silence(th, s, size, shift, i + 1);
    }
}

/// Silence has no energy: an all-zero window is never speech, whatever the
/// threshold.
pub proof fn lemma_zero_window_is_not_speech(threshold: int, s: Seq<i32>)
    requires
        threshold >= 0,
        forall|i: int| 0 <= i < s.len() ==> s[i] == 0,
    ensures
        !spec_contains_speech(threshold, s),
{
    if s.len() > 0 {
        lemma_sum_squares_of_constant(s, 0);
        assert(sum_squares(s) == s.len() * 0);
        assert(s.len() * 0 == 0) by (nonlinear_arith);
        assert(sum_squares(s) / s.len() as int == 0) by {
            vstd::arithmetic::div_mod::lemma_basic_div(0, s.len() as int);
        }
        lemma_isqrt_is(0, 0);
        assert(spec_rms(s) == 0);
    }
}

/// A window of constant amplitude `a` has root-mean-square exactly `|a|`.
pub proof fn lemma_rms_of_constant(s: Seq<i32>, a: i32)
    requires
        s.len() > 0,
        forall|i: int| 0 <= i < s.len() ==> s[i] == a,
    ensures
        spec_rms(s) == iabs(a as int),
{
    lemma_sum_squares_of_constant(s, a);
    let n = s.len() as int;
    let aa = a as int * a as int;
    assert(sum_squares(s) == n * aa);
    assert(n * aa / n == aa) by {
        lemma_div_multiples_vanish(aa, n);
    }
    let b = iabs(a as int);
    assert(b == a as int || b == -(a as int));
    assert(aa == b * b) by (nonlinear_arith)
        requires
            aa == a as int * a as int,
            b == a as int || b == -(a as int),
    ;
    assert(b * b <= aa < (b + 1) * (b + 1)) by (nonlinear_arith)
        requires
            b >= 0,
            aa == b * b,
    ;
    lemma_isqrt_is(aa, b);
}

proof fn lemma_sum_squares_of_constant(s: Seq<i32>, a: i32)
    requires
        forall|i: int| 0 <= i < s.len() ==> s[i] == a,
    ensures
        sum_squares(s) == s.len() * (a as int * a as int),
    decreases s.len(),
{
    let aa = a as int * a as int;
    if s.len() == 0 {
        assert(0 * aa == 0) by (nonlinear_arith);
    } else {
        lemma_sum_squares_of_constant(s.drop_last(), a);
        assert((s.len() - 1) * aa + aa == s.len() * aa) by (nonlinear_arith);
    }
}



/// The structural invariant of a scan state: every emitted segment runs
/// forward in time, segments do not overlap and are time-ordered, ends
/// stay on the hop grid scanned so far, and an open run lies after every
/// emitted segment.
pub open spec fn spec_scan_ordered(st: (Seq<(int, int)>, int, int, bool), k: int, shift_ms: int) -> bool {
    &&& (forall|a: int| 0 <= a < st.0.len() ==> #[trigger] st.0[a].0 <= st.0[a].1)
    &&& (forall|a: int, b: int| 0 <= a < b < st.0.len() ==> #[trigger] st.0[a].1 <= #[trigger] st.0[b].0)
    &&& (st.0.len() > 0 ==> st.0.last().1 <= k * shift_ms)
    &&& (st.3 ==> st.1 <= st.2 <= k * shift_ms)
    &&& (st.3 && st.0.len() > 0 ==> st.0.last().1 <= st.1)
}

proof fn lemma_scan_is_ordered(th: int, s: Seq<i32>, size: int, shift: int, shift_ms: int, k: int)
    requires
        shift_ms >= 0,
        k >= 0,
    ensures
        spec_scan_ordered(spec_scan(th, s, size, shift, shift_ms, k), k, shift_ms),
    decreases k,
{
    if k > 0 {
        lemma_scan_is_ordered(th, s, size, shift, shift_ms, k - 1);
        let prev = spec_scan(th, s, size, shift, shift_ms, k - 1);
        let st = spec_scan(th, s, size, shift, shift_ms, k);
        let i = k - 1;
        assert((k - 1) * shift_ms + shift_ms == k * shift_ms) by (nonlinear_arith);
        assert((k - 1) * shift_ms <= k * shift_ms);
        if spec_contains_speech(th, spec_window(s, size, shift, i)) {
            if !prev.3 {
                assert(i * shift_ms <= (i + 1) * shift_ms) by (nonlinear_arith)
                    requires
                        shift_ms >= 0,
                ;
            }
        } else {
            if prev.3 {
                assert(forall|a: int| 0 <= a < prev.0.len() ==> #[trigger] st.0[a] == prev.0[a]);
                assert(st.0.last() == (prev.1, prev.2));
                assert forall|a: int, b: int| 0 <= a < b < st.0.len() implies #[trigger] st.0[
                    a
                ].1 <= #[trigger] st.0[b].0 by {
                    if b < prev.0.len() {
                        assert(prev.0[a].1 <= prev.0[b].0);
                    } else {
                        assert(st.0[b].0 == prev.1);
                        let last = prev.0.len() - 1;
                        if a == last {
                            assert(prev.0[a].1 <= prev.1);
                        } else {
                            assert(prev.0[a].1 <= prev.0[last].0);
                            assert(prev.0[last].0 <= prev.0[last].1);
                            assert(prev.0[last].1 <= prev.1);
                        }
                    }
                }
            }
        }
    } else {
        assert(0 * shift_ms == 0) by (nonlinear_arith);
    }
}

/// The detector's segments satisfy the data model of a speech interval
/// list: every segment runs forward in time, and the list is time-ordered
/// with no overlap.
pub proof fn lemma_active_segments_ordered(
    th: int,
    s: Seq<i32>,
    size: int,
    shift: int,
    shift_ms: int,
    total_ms: int,
)
    requires
        shift >= 1,
        shift_ms >= 0,
    ensures
        ({
            let segs = spec_active_segments(th, s, size, shift, shift_ms, total_ms);
            &&& (forall|a: int| 0 <= a < segs.len() ==> #[trigger] segs[a].0 <= segs[a].1)
            &&& (forall|a: int, b: int|
                0 <= a < b < segs.len() ==> #[trigger] segs[a].1 <= #[trigger] segs[b].0)
        }),
{
    let count = spec_window_count(s.len() as int, shift);
    lemma_window_count(s.len() as int, shift);
    lemma_scan_is_ordered(th, s, size, shift, shift_ms, count);
    let st = spec_scan(th, s, size, shift, shift_ms, count);
    let segs = spec_active_segments(th, s, size, shift, shift_ms, total_ms);
    if st.3 {
        assert(forall|a: int| 0 <= a < st.0.len() ==> #[trigger] segs[a] == st.0[a]);
        assert(segs.last().0 == st.1);
        assert forall|a: int, b: int| 0 <= a < b < segs.len() implies #[trigger] segs[a].1
            <= #[trigger] segs[b].0 by {
            if b < st.0.len() {
                assert(st.0[a].1 <= st.0[b].0);
            } else {
                assert(segs[b].0 == st.1);
                let last = st.0.len() - 1;
                if a == last {
                    assert(st.0[a].1 <= st.1);
                } else {
                    assert(st.0[a].1 <= st.0[last].0);
                    assert(st.0[last].0 <= st.0[last].1);
                    assert(st.0[last].1 <= st.1);
                }
            }
        }
    }
}


/// The classification of every hopping window of a buffer holding one
/// second of silence then one second of amplitude one half at 16 kHz,
/// under the default windows and threshold: the windows from the tenth
/// on are speech, the ones before are not.
proof fn lemma_scenario_windows(s: Seq<i32>)
    requires
        s.len() == 32000,
        forall|i: int| 0 <= i < 16000 ==> #[trigger] s[i] == 0,
        forall|i: int| 16000 <= i < 32000 ==> #[trigger] s[i] == 500000,
    ensures
        forall|i: int| 0 <= i < 20 ==> (spec_contains_speech(
            100000,
            #[trigger] spec_window(s, 3200, 1600, i),
        ) <==> i >= 9),
{
    assert forall|i: int| 0 <= i < 20 implies (spec_contains_speech(
        100000,
        #[trigger] spec_window(s, 3200, 1600, i),
    ) <==> i >= 9) by {
        let from = i * 1600;
        let to = if i * 1600 + 3200 <= 32000 {
            i * 1600 + 3200
        } else {
            32000
        };
        let w = spec_window(s, 3200, 1600, i);
        assert(w == s.subrange(from, to));
        lemma_sum_squares_mixed(s, 16000, 500000, from, to);
        if i <= 8 {
            assert(to <= 16000);
            assert(sum_squares(w) == 0);
            assert(sum_squares(w) / w.len() as int == 0) by {
                vstd::arithmetic::div_mod::lemma_basic_div(0, w.len() as int);
            }
            lemma_isqrt_is(0, 0);
            assert(spec_rms(w) == 0);
        } else if i == 9 {
            assert(from == 14400 && to == 17600);
            assert(sum_squares(w) == 1600 * (500000int * 500000));
            assert(w.len() == 3200);
            assert(sum_squares(w) / w.len() as int == 125000000000);
            assert(353553int * 353553 <= 125000000000 < 353554int * 353554) by (nonlinear_arith);
            lemma_isqrt_is(125000000000, 353553);
            assert(spec_rms(w) == 353553);
        } else if i <= 18 {
            assert(from >= 16000 && to == from + 3200);
            assert(sum_squares(w) == 3200 * (500000int * 500000));
            assert(w.len() == 3200);
            assert(sum_squares(w) / w.len() as int == 250000000000);
            assert(500000int * 500000 <= 250000000000 < 500001int * 500001) by (nonlinear_arith);
            lemma_isqrt_is(250000000000, 500000);
            assert(spec_rms(w) == 500000);
        } else {
            assert(i == 19 && from == 30400 && to == 32000);
            assert(sum_squares(w) == 1600 * (500000int * 500000));
            assert(w.len() == 1600);
            assert(sum_squares(w) / w.len() as int == 250000000000);
            assert(500000int * 500000 <= 250000000000 < 500001int * 500001) by (nonlinear_arith);
            lemma_isqrt_is(250000000000, 500000);
            assert(spec_rms(w) == 500000);
        }
    }
}

/// The detector's answer on a buffer that is silent for its first second
/// and holds amplitude one half for its second second, at 16 kHz with
/// the default windows and threshold: exactly one segment, starting one
/// hop before the true 1000 ms onset and extended to the full 2000 ms.
pub proof fn lemma_silence_then_speech_scenario(s: Seq<i32>)
    requires
        s.len() == 32000,
        forall|i: int| 0 <= i < 16000 ==> #[trigger] s[i] == 0,
        forall|i: int| 16000 <= i < 32000 ==> #[trigger] s[i] == 500000,
    ensures
        spec_active_segments(100000, s, 3200, 1600, 100, 2000) =~= seq![(900int, 2000int)],
{
    lemma_scenario_windows(s);
    lemma_window_count(32000, 1600);
    assert(spec_window_count(s.len() as int, 1600) == 20);
    lemma_scan_of_silence(100000, s, 3200, 1600, 100, 9);
    assert(spec_scan(100000, s, 3200, 1600, 100, 9) == (
        Seq::<(int, int)>::empty(),
        0int,
        0int,
        false,
    ));
    assert(spec_scan(100000, s, 3200, 1600, 100, 10) == (
        Seq::<(int, int)>::empty(),
        900int,
        1000int,
        true,
    ));
    assert(spec_scan(100000, s, 3200, 1600, 100, 11) == (
        Seq::<(int, int)>::empty(),
        900int,
        1100int,
        true,
    ));
    assert(spec_scan(100000, s, 3200, 1600, 100, 12) == (
        Seq::<(int, int)>::empty(),
        900int,
        1200int,
        true,
    ));
    assert(spec_scan(100000, s, 3200, 1600, 100, 13) == (
        Seq::<(int, int)>::empty(),
        900int,
        1300int,
        true,
    ));
    assert(spec_scan(100000, s, 3200, 1600, 100, 14) == (
        Seq::<(int, int)>::empty(),
        900int,
        1400int,
        true,
    ));
    assert(spec_scan(100000, s, 3200, 1600, 100, 15) == (
        Seq::<(int, int)>::empty(),
        900int,
        1500int,
        true,
    ));
    assert(spec_scan(100000, s, 3200, 1600, 100, 16) == (
        Seq::<(int, int)>::empty(),
        900int,
        1600int,
        true,
    ));
    assert(spec_scan(100000, s, 3200, 1600, 100, 17) == (
        Seq::<(int, int)>::empty(),
        900int,
        1700int,
        true,
    ));
    assert(spec_scan(100000, s, 3200, 1600, 100, 18) == (
        Seq::<(int, int)>::empty(),
        900int,
        1800int,
        true,
    ));
    assert(spec_scan(100000, s, 3200, 1600, 100, 19) == (
        Seq::<(int, int)>::empty(),
        900int,
        1900int,
        true,
    ));
    assert(spec_scan(100000, s, 3200, 1600, 100, 20) == (
        Seq::<(int, int)>::empty(),
        900int,
        2000int,
        true,
    ));
    assert(spec_active_segments(100000, s, 3200, 1600, 100, 2000) =~= Seq::<(int, int)>::empty()
        .push((900int, 2000int)));
    assert(Seq::<(int, int)>::empty().push((900int, 2000int)) =~= seq![(900int, 2000int)]);
}

/// The sample sequence the silence trimmer works on: the buffer itself when
/// it is already mono, else its mono downmix.
pub open spec fn spec_trim_input(audio: AudioData) -> Seq<i32> {
    if audio.config.channels > 1 {
        Seq::new(
            (audio.samples@.len() as int / audio.config.channels as int) as nat,
            |f: int| spec_mono_sample(audio.samples@, audio.config.channels as int, f) as i32,
        )
    } else {
        audio.samples@
    }
}

/// One coarse span tightened to the detected speech onset inside it, at a
/// sample rate of 16 kHz with 200 ms windows hopping by 100 ms: the onset
/// minus one window (a guard band so the onset is not clipped), clamped to
/// never leave the original span. A span whose sample range is empty, whose
/// onset is at the very start, or whose tightened start would not precede
/// its end passes through unchanged.
pub open spec fn spec_trim_span(samples: Seq<i32>, threshold: int, span: (u64, u64)) -> (int, int) {
    let start_index = 16000 * (span.0 as int) / 1000;
    let end_index_raw = 16000 * (span.1 as int) / 1000;
    let end_index = if end_index_raw <= samples.len() {
        end_index_raw
    } else {
        samples.len() as int
    };
    if start_index >= end_index {
        (span.0 as int, span.1 as int)
    } else {
        let sub = samples.subrange(start_index, end_index);
        let off = spec_silent_offset_ms(threshold, sub, 3200, 1600, 100);
        if off == 0 {
            (span.0 as int, span.1 as int)
        } else {
            let offset_ms = if off > 200 {
                span.0 + off - 200
            } else {
                span.0 as int
            };
            if offset_ms >= span.1 {
                (span.0 as int, span.1 as int)
            } else {
                (offset_ms, span.1 as int)
            }
        }
    }
}

/// The progress reported after finishing one span of a batch, as a
/// percentage of spans processed.
pub fn span_progress_percent(index: usize, total: usize) -> (p: i32)
    requires
        total > 0,
        index < total,
        (index + 1) * 100 <= usize::MAX,
    ensures
        p == (index + 1) * 100 / total as int,
        0 <= p <= 100,
{
    let p = (index + 1) * 100 / total;
    proof {
        lemma_div_is_ordered((index + 1) * 100, total as int * 100, total as int);
        lemma_div_multiples_vanish(100, total as int);
        vstd::arithmetic::div_mod::lemma_div_pos_is_pos((index + 1) * 100, total as int);
    }
    p as i32
}

/// Tightens each caller-supplied coarse `(start_ms, end_ms)` span to the
/// speech onset detected inside it, checking the cancellation flag once per
/// span before doing that span's work. On cancellation the spans already
/// computed are discarded: the result is an empty list with the status
/// `Cancelled`, never a partial list. Multi-channel input is downmixed
/// first; input at any rate other than 16 kHz is rejected.
pub fn trim_start_slient_duration_of_audio(
    audio_data: &AudioData,
    timestamps: &Vec<(u64, u64)>,
    threshold: u32,
    cancel: &CancelFlag,
) -> (r: Result<(Vec<(u64, u64)>, ProgressStatus), TranscribeError>)
    requires
        audio_data.config.channels >= 1,
        audio_data.samples@.len() * 1000 <= u64::MAX,
        forall|i: int| #![trigger timestamps@[i]] 0 <= i < timestamps@.len() ==> timestamps@[i].0
            * 16000 <= u64::MAX && timestamps@[i].1 * 16000 <= u64::MAX,
    ensures
        r is Err <==> audio_data.config.sample_rate != 16000,
        r is Err ==> r == Err::<(Vec<(u64, u64)>, ProgressStatus), TranscribeError>(
            TranscribeError::SampleRateMismatch(audio_data.config.sample_rate),
        ),
        r matches Ok((out, status)) ==> status == ProgressStatus::Cancelled ==> out@.len() == 0,
        r matches Ok((out, status)) ==> status == ProgressStatus::Finished ==> out@.len()
            == timestamps@.len() && (forall|k: int|
            #![trigger out@[k]]
            0 <= k < timestamps@.len() ==> out@[k].0 == spec_trim_span(
                spec_trim_input(*audio_data),
                threshold as int,
                timestamps@[k],
            ).0 && out@[k].1 == spec_trim_span(
                spec_trim_input(*audio_data),
                threshold as int,
                timestamps@[k],
            ).1),
        audio_data.config.sample_rate == 16000 && timestamps@.len() == 0 ==> (r matches Ok(p)
            && p.1 == ProgressStatus::Finished),
{
    let audio_samples: Vec<i32> = if !audio_data.is_whisper_compatible() {
        if audio_data.config.sample_rate != 16000 {
            return Err(TranscribeError::SampleRateMismatch(audio_data.config.sample_rate));
        }
        if audio_data.config.channels > 1 {
            let mono = audio_data.to_mono();
            proof {
                assert(mono.samples@ =~= spec_trim_input(*audio_data));
            }
            mono.samples
        } else {
            let copy = audio_data.samples.clone();
            proof {
                assert(copy@ =~= spec_trim_input(*audio_data));
            }
            copy
        }
    } else {
        let copy = audio_data.samples.clone();
        proof {
            assert(copy@ =~= spec_trim_input(*audio_data));
        }
        copy
    };
    let ghost input = spec_trim_input(*audio_data);
    let vad = EnergyVAD::new(16000).with_threshold(threshold);
    let total_samples = audio_samples.len();
    proof {
        assert(total_samples <= audio_data.samples@.len());
        assert(total_samples as int * 1000 <= u64::MAX);
    }
    let n = timestamps.len();
    let mut output: Vec<(u64, u64)> = Vec::new();
    let mut i: usize = 0;
    while i < n
        invariant
            n == timestamps@.len(),
            i <= n,
            audio_data.config.sample_rate == 16000,
            audio_samples@ == input,
            total_samples == audio_samples@.len(),
            total_samples as int * 1000 <= u64::MAX,
            vad.threshold == threshold,
            vad.sample_rate == 16000,
            vad.frame_size_ms == 200,
            vad.frame_shift_ms == 100,
            forall|j: int| #![trigger timestamps@[j]] 0 <= j < timestamps@.len() ==> timestamps@[
                j
            ].0 * 16000 <= u64::MAX && timestamps@[j].1 * 16000 <= u64::MAX,
            output@.len() == i,
            forall|k: int|
                #![trigger output@[k]]
                0 <= k < i ==> output@[k].0 == spec_trim_span(input, threshold as int,
                timestamps@[k]).0 && output@[k].1 == spec_trim_span(input, threshold as int,
                timestamps@[k]).1,
        decreases n - i,
    {
        if cancel.is_cancelled() {
            return Ok((Vec::new(), ProgressStatus::Cancelled));
        }
        let span = timestamps[i];
        let start_ms = span.0;
        let end_ms = span.1;
        let start_index_u64: u64 = 16000 * start_ms / 1000;
        let end_index_full: u64 = 16000 * end_ms / 1000;
        let end_index_u64: u64 = if end_index_full <= total_samples as u64 {
            end_index_full
        } else {
            total_samples as u64
        };
        if start_index_u64 >= end_index_u64 {
            output.push((start_ms, end_ms));
        } else {
            let start_index = start_index_u64 as usize;
            let end_index = end_index_u64 as usize;
            let segment = slice_subrange(audio_samples.as_slice(), start_index, end_index);
            proof {
                assert(segment@ == input.subrange(start_index as int, end_index as int));
                assert(segment@.len() * 100 <= u64::MAX);
            }
            let silent_offset = vad.detect_silent_offset_ms(segment);
            if silent_offset == 0 {
                output.push((start_ms, end_ms));
            } else {
                proof {
                    assert(silent_offset as int <= segment@.len() * 100);
                    assert(segment@.len() * 100 * 10 <= u64::MAX);
                    assert(start_ms as int + silent_offset as int <= u64::MAX);
                }
                let offset_ms: u64 = if silent_offset > 200 {
                    start_ms + silent_offset - 200
                } else {
                    start_ms
                };
                if offset_ms >= end_ms {
                    output.push((start_ms, end_ms));
                } else {
                    output.push((offset_ms, end_ms));
                }
            }
        }
        i = i + 1;
    }
    Ok((output, ProgressStatus::Finished))
}

} // verus!
