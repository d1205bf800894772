//! The PCM sample model: a format descriptor and an owned sample buffer
//! with downmixing, peak normalization, gain and compatibility checks.
//!
//! Samples are fixed-point integers in micro-units: [`SAMPLE_UNIT`]
//! micro-units stand for the amplitude 1.0, so a full-scale sine peaks at
//! `SAMPLE_UNIT` and silence is 0. Integer PCM read from a file is mapped
//! into this scale by dividing by the largest representable magnitude of
//! its bit depth.

use vstd::prelude::*;

use crate::error::TranscribeError;
use crate::num::div_trunc;
use vstd::arithmetic::div_mod::{lemma_div_is_ordered, lemma_div_multiples_vanish};
use vstd::arithmetic::mul::lemma_mul_inequality;


verus! {

/// The absolute value of an integer.
pub open spec fn iabs(x: int) -> int {
    if x >= 0 {
        x
    } else {
        -x
    }
}

/// Micro-units per unit amplitude: the fixed-point scale of all samples.
pub const SAMPLE_UNIT: i64 = 1000000;

/// A PCM format descriptor: sample rate in Hz, interleaved channel count,
/// and bits per sample.
#[derive(Debug, Clone, Copy, PartialEq, Eq, Structural)]
pub struct AudioConfig {
    pub sample_rate: u32,
    pub channels: u16,
    pub bit_depth: u16,
}

impl Default for AudioConfig {
    /// The format the inference engine expects: 16 kHz, mono, 16-bit.
    fn default() -> (c: AudioConfig)
        ensures
            c.sample_rate == 16000,
            c.channels == 1,
            c.bit_depth == 16,
    {
        AudioConfig { sample_rate: 16000, channels: 1, bit_depth: 16 }
    }
}

impl AudioConfig {
    pub fn new(sample_rate: u32, channels: u16, bit_depth: u16) -> (c: AudioConfig)
        ensures
            c.sample_rate == sample_rate,
            c.channels == channels,
            c.bit_depth == bit_depth,
    {
        AudioConfig { sample_rate, channels, bit_depth }
    }

    /// The format the inference engine expects.
    pub fn whisper_optimized() -> (c: AudioConfig)
        ensures
            c.sample_rate == 16000,
            c.channels == 1,
            c.bit_depth == 16,
    {
        AudioConfig::default()
    }

    /// Whether this format can be fed to the inference engine as it stands.
    pub fn is_whisper_compatible(&self) -> (r: bool)
        ensures
            r == (self.sample_rate == 16000 && self.channels == 1 && self.bit_depth == 16),
    {
        self.sample_rate == 16000 && self.channels == 1 && self.bit_depth == 16
    }
}

/// A decoded audio buffer: interleaved fixed-point samples plus the format
/// they were decoded from. The buffer is owned exclusively; derived buffers
/// (such as a mono downmix) are new copies, never aliases.
#[derive(Debug, Clone)]
pub struct AudioData {
    pub samples: Vec<i32>,
    pub config: AudioConfig,
}

/// The largest absolute sample value in a buffer, 0 when empty.
pub open spec fn spec_max_abs(s: Seq<i32>) -> int
    decreases s.len(),
{
    if s.len() == 0 {
        0
    } else {
        let rest = spec_max_abs(s.drop_last());
        if iabs(s.last() as int) > rest {
            iabs(s.last() as int)
        } else {
            rest
        }
    }
}

pub proof fn lemma_max_abs_bounds(s: Seq<i32>)
    ensures
        forall|i: int| 0 <= i < s.len() ==> iabs(#[trigger] s[i] as int) <= spec_max_abs(s),
        spec_max_abs(s) >= 0,
        s.len() > 0 ==> exists|i: int|
            0 <= i < s.len() && iabs(#[trigger] s[i] as int) == spec_max_abs(s),
    decreases s.len(),
{
    if s.len() > 0 {
        lemma_max_abs_bounds(s.drop_last());
        assert(forall|i: int| 0 <= i < s.len() - 1 ==> s.drop_last()[i] == s[i]);
        if iabs(s.last() as int) > spec_max_abs(s.drop_last()) {
            assert(iabs(s[s.len() - 1] as int) == spec_max_abs(s));
        } else {
            if s.len() > 1 {
                let j = choose|i: int|
                    0 <= i < s.len() - 1 && iabs(#[trigger] s.drop_last()[i] as int) == spec_max_abs(
                        s.drop_last(),
                    );
                assert(iabs(s[j] as int) == spec_max_abs(s));
            } else {
                assert(iabs(s[0] as int) == spec_max_abs(s));
            }
        }
    }
}

/// If every element's magnitude is at most `b` and some element reaches `b`,
/// the maximum is exactly `b`.
pub proof fn lemma_max_abs_exact(s: Seq<i32>, b: int, w: int)
    requires
        forall|i: int| 0 <= i < s.len() ==> iabs(#[trigger] s[i] as int) <= b,
        0 <= w < s.len(),
        iabs(s[w] as int) == b,
    ensures
        spec_max_abs(s) == b,
{
    lemma_max_abs_bounds(s);
    let j = choose|i: int| 0 <= i < s.len() && iabs(#[trigger] s[i] as int) == spec_max_abs(s);
    assert(spec_max_abs(s) <= b);
    assert(iabs(s[w] as int) <= spec_max_abs(s));
}

/// The mean of one frame's channel samples, rounded toward zero; a sample
/// index outside the buffer contributes zero rather than failing.
pub open spec fn spec_mono_sample(s: Seq<i32>, channels: int, frame: int) -> int {
    div_trunc(spec_frame_sum(s, channels, frame, channels), channels)
}

/// The sum of the first `k` channel samples of one frame.
pub open spec fn spec_frame_sum(s: Seq<i32>, channels: int, frame: int, k: int) -> int
    decreases k,
{
    if k <= 0 {
        0
    } else {
        let idx = frame * channels + (k - 1);
        spec_frame_sum(s, channels, frame, k - 1) + if 0 <= idx < s.len() {
            s[idx] as int
        } else {
            0
        }
    }
}

/// One scaled sample of peak normalization: `v * SAMPLE_UNIT / m`, rounded
/// toward zero.
pub open spec fn spec_scaled(v: int, m: int) -> int {
    div_trunc(v * SAMPLE_UNIT, m)
}

/// One sample after gain: scaled by `gain` micro-units per unit, then
/// clamped into `[-SAMPLE_UNIT, SAMPLE_UNIT]` to prevent clipping artifacts.
pub open spec fn spec_gain_sample(v: int, gain: int) -> int {
    let q = div_trunc(v * gain, SAMPLE_UNIT as int);
    if q > SAMPLE_UNIT {
        SAMPLE_UNIT as int
    } else if q < -SAMPLE_UNIT {
        -(SAMPLE_UNIT as int)
    } else {
        q
    }
}

impl AudioData {
    pub fn new(samples: Vec<i32>, config: AudioConfig) -> (d: AudioData)
        ensures
            d.samples == samples,
            d.config == config,
    {
        AudioData { samples, config }
    }

    /// The number of frames: interleaved samples divided by channel count.
    pub fn frame_count(&self) -> (r: usize)
        requires
            self.config.channels >= 1,
        ensures
            r == self.samples@.len() as int / self.config.channels as int,
    {
        self.samples.len() / self.config.channels as usize
    }

    /// The buffer's duration in milliseconds, 0 when empty.
    pub fn duration_ms(&self) -> (r: u64)
        requires
            self.config.channels >= 1,
            self.config.sample_rate >= 1,
            self.samples@.len() * 1000 <= u64::MAX,
    ensures
            r == self.samples@.len() as int / self.config.channels as int * 1000
                / self.config.sample_rate as int,
    {
        let frames = (self.samples.len() / self.config.channels as usize) as u64;
        proof {
            let len = self.samples@.len() as int;
            let ch = self.config.channels as int;
            assert(len / ch <= len) by {
                vstd::arithmetic::div_mod::lemma_div_is_ordered_by_denominator(len, 1, ch);
            }
            lemma_mul_inequality(frames as int, len, 1000);
        }
        frames * 1000 / self.config.sample_rate as u64
    }

    /// Whether the buffer's format can be fed to the inference engine.
    pub fn is_whisper_compatible(&self) -> (r: bool)
        ensures
            r == (self.config.sample_rate == 16000 && self.config.channels == 1
                && self.config.bit_depth == 16),
    {
        self.config.is_whisper_compatible()
    }

    /// Peak-normalizes in place: if the largest magnitude `m` is positive
    /// and not already the peak, every sample is scaled by `1/m` so the new
    /// peak is exactly [`SAMPLE_UNIT`]. Empty and already-normalized buffers
    /// are left untouched.
    pub fn normalize(&mut self)
        ensures
            final(self).config == old(self).config,
            final(self).samples@.len() == old(self).samples@.len(),
            spec_max_abs(old(self).samples@) == 0 || spec_max_abs(old(self).samples@)
                == SAMPLE_UNIT ==> final(self).samples@ == old(self).samples@,
            spec_max_abs(old(self).samples@) > 0 && spec_max_abs(old(self).samples@)
                != SAMPLE_UNIT ==> forall|i: int|
                0 <= i < old(self).samples@.len() ==> final(self).samples@[i] == spec_scaled(
                    old(self).samples@[i] as int,
                    spec_max_abs(old(self).samples@),
                ),
            spec_max_abs(old(self).samples@) > 0 ==> spec_max_abs(final(self).samples@)
                == SAMPLE_UNIT,
    {
        let ghost orig = self.samples@;
        let n = self.samples.len();
        let mut m: u64 = 0;
        let mut i: usize = 0;
        while i < n
            invariant
                n == self.samples@.len(),
                i <= n,
                m == spec_max_abs(self.samples@.subrange(0, i as int)),
                m <= 0x8000_0000,
            decreases n - i,
        {
            let v = self.samples[i] as i64;
            let a: u64 = if v >= 0 {
                v as u64
            } else {
                (-v) as u64
            };
            proof {
                assert(self.samples@.subrange(0, i as int + 1).drop_last() =~= self.samples@
                    .subrange(0, i as int));
                assert(self.samples@.subrange(0, i as int + 1).last() == self.samples@[i as int]);
            }
            if a > m {
                m = a;
            }
            i = i + 1;
        }
        proof {
            assert(self.samples@.subrange(0, n as int) =~= self.samples@);
            assert(m == spec_max_abs(self.samples@));
        }
        if m == 0 || m == 1000000 {
            return ;
        }
        let mut i: usize = 0;
        while i < n
            invariant
                n == self.samples@.len(),
                n == orig.len(),
                i <= n,
                0 < m <= 0x8000_0000,
                m == spec_max_abs(orig),
                self.config == old(self).config,
                forall|j: int| i <= j < n ==> self.samples@[j] == orig[j],
                forall|j: int|
                    0 <= j < i ==> self.samples@[j] == spec_scaled(orig[j] as int, m as int),
            decreases n - i,
        {
            let v = self.samples[i] as i64;
            proof {
                lemma_max_abs_bounds(orig);
                assert(iabs(orig[i as int] as int) <= m);
            }
            let mag: u64 = if v >= 0 {
                v as u64
            } else {
                (-v) as u64
            };
            let q: u64 = (mag * 1000000) / m;
            proof {
                lemma_scaled_abs(v as int, m as int);
                assert(iabs(v as int) * SAMPLE_UNIT == mag * 1000000) by (nonlinear_arith)
                    requires
                        iabs(v as int) == mag as int,
                        SAMPLE_UNIT == 1000000,
                ;
                assert(q as int == iabs(v as int) * SAMPLE_UNIT / (m as int));
                assert(q <= 1000000);
            }
            let scaled: i32 = if v >= 0 {
                q as i32
            } else {
                (-(q as i64)) as i32
            };
            proof {
                assert(scaled as int == spec_scaled(orig[i as int] as int, m as int));
            }
            self.samples.set(i, scaled);
            i = i + 1;
        }
        proof {
            lemma_max_abs_bounds(orig);
            let w = choose|k: int|
                0 <= k < orig.len() && iabs(#[trigger] orig[k] as int) == spec_max_abs(orig);
            lemma_scaled_abs(orig[w] as int, m as int);
            assert(iabs(self.samples@[w] as int) == SAMPLE_UNIT);
            assert(forall|j: int| 0 <= j < n ==> iabs(#[trigger] self.samples@[j] as int)
                <= SAMPLE_UNIT) by {
                assert forall|j: int| 0 <= j < n implies iabs(
                    #[trigger] self.samples@[j] as int,
                ) <= SAMPLE_UNIT by {
                    lemma_scaled_abs(orig[j] as int, m as int);
                }
            }
            lemma_max_abs_exact(self.samples@, SAMPLE_UNIT as int, w);
        }
    }

    /// Applies a gain in place: every sample is scaled by `gain` micro-units
    /// per unit, then clamped into `[-SAMPLE_UNIT, SAMPLE_UNIT]`, so the
    /// result never leaves the representable amplitude range.
    pub fn apply_gain(&mut self, gain: u64)
        ensures
            final(self).config == old(self).config,
            final(self).samples@.len() == old(self).samples@.len(),
            forall|i: int|
                0 <= i < old(self).samples@.len() ==> final(self).samples@[i] == spec_gain_sample(
                    old(self).samples@[i] as int,
                    gain as int,
                ),
            forall|i: int|
                0 <= i < final(self).samples@.len() ==> -SAMPLE_UNIT
                    <= #[trigger] final(self).samples@[i] <= SAMPLE_UNIT,
    {
        let ghost orig = self.samples@;
        let n = self.samples.len();
        let mut i: usize = 0;
        while i < n
            invariant
                n == self.samples@.len(),
                n == orig.len(),
                i <= n,
                self.config == old(self).config,
                forall|j: int| i <= j < n ==> self.samples@[j] == orig[j],
                forall|j: int|
                    0 <= j < i ==> self.samples@[j] == spec_gain_sample(
                        orig[j] as int,
                        gain as int,
                    ),
            decreases n - i,
        {
            let v = self.samples[i] as i64;
            let mag: u128 = if v >= 0 {
                v as u128
            } else {
                (-v) as u128
            };
            proof {
                assert(mag * (gain as u128) <= 0x8000_0000 * 0xFFFF_FFFF_FFFF_FFFFu128)
                    by (nonlinear_arith)
                    requires
                        mag <= 0x8000_0000,
                        gain <= 0xFFFF_FFFF_FFFF_FFFFu64,
                ;
            }
            let q: u128 = (mag * gain as u128) / 1000000;
            proof {
                if v >= 0 {
                    vstd::arithmetic::mul::lemma_mul_nonnegative(v as int, gain as int);
                    assert(mag * gain as u128 == v as int * gain as int);
                } else {
                    assert((-v) as int * gain as int == -(v as int * gain as int))
                        by (nonlinear_arith);
                }
            }
            let clamped: i32 = if v >= 0 {
                if q >= 1000000 {
                    1000000
                } else {
                    q as i32
                }
            } else {
                if q >= 1000000 {
                    -1000000
                } else {
                    (-(q as i64)) as i32
                }
            };
            proof {
                assert(clamped as int == spec_gain_sample(orig[i as int] as int, gain as int));
            }
            self.samples.set(i, clamped);
            i = i + 1;
        }
    }

    /// Downmixes to one channel: each output sample is the mean of that
    /// frame's channel samples. Already-mono input yields a value-equal
    /// copy, never an alias.
    pub fn to_mono(&self) -> (r: AudioData)
        requires
            self.config.channels >= 1,
        ensures
            r.config.channels == 1,
            r.config.sample_rate == self.config.sample_rate,
            r.config.bit_depth == self.config.bit_depth,
            self.config.channels == 1 ==> r.samples@ == self.samples@,
            self.config.channels > 1 ==> r.samples@.len() == self.samples@.len() as int
                / self.config.channels as int,
            self.config.channels > 1 ==> forall|f: int|
                0 <= f < r.samples@.len() ==> r.samples@[f] == spec_mono_sample(
                    self.samples@,
                    self.config.channels as int,
                    f,
                ),
    {
        if self.config.channels == 1 {
            let samples = self.samples.clone();
            proof {
                assert(samples@ =~= self.samples@);
            }
            return AudioData::new(samples, self.config);
        }
        let channels = self.config.channels as usize;
        let frame_count = self.frame_count();
        let mut mono_samples: Vec<i32> = Vec::new();
        let mut frame: usize = 0;
        while frame < frame_count
            invariant
                1 <= channels <= u16::MAX,
                channels == self.config.channels,
                frame_count == self.samples@.len() as int / channels as int,
                frame <= frame_count,
                mono_samples@.len() == frame,
                forall|f: int|
                    0 <= f < frame ==> mono_samples@[f] == spec_mono_sample(
                        self.samples@,
                        channels as int,
                        f,
                    ),
            decreases frame_count - frame,
        {
            let mut sum: i64 = 0;
            let mut channel: usize = 0;
            while channel < channels
                invariant
                    1 <= channels <= u16::MAX,
                    channel <= channels,
                    frame < frame_count,
                    frame_count == self.samples@.len() as int / channels as int,
                    sum == spec_frame_sum(self.samples@, channels as int, frame as int,
                    channel as int),
                    iabs(sum as int) <= channel * 0x8000_0000,
                decreases channels - channel,
            {
                proof {
                    assert((channel + 1) * 0x8000_0000 == channel * 0x8000_0000 + 0x8000_0000)
                        by (nonlinear_arith);
                    assert(channels * 0x8000_0000 <= 0x8000_0000_0000) by (nonlinear_arith)
                        requires
                            channels <= 0x10000,
                    ;
                    assert(frame * channels + channel < frame_count * channels)
                        by (nonlinear_arith)
                        requires
                            frame < frame_count,
                            channel < channels,
                            channels >= 1,
                    ;
                    assert(frame_count * channels <= self.samples@.len()) by {
                        let len = self.samples@.len() as int;
                        let ch = channels as int;
                        vstd::arithmetic::div_mod::lemma_fundamental_div_mod(len, ch);
                        vstd::arithmetic::div_mod::lemma_mod_bound(len, ch);
                        assert(len == ch * (len / ch) + len % ch);
                        assert(len % ch >= 0);
                        assert(frame_count as int == len / ch);
                        assert(frame_count as int * (channels as int) == ch * (len / ch))
                            by (nonlinear_arith)
                            requires
                                frame_count as int == len / ch,
                                ch == channels as int,
                        ;
                    }
                }
                let total = self.samples.len();
                let index = frame * channels + channel;
                if index < total {
                    sum = sum + self.samples[index] as i64;
                } else {
                    sum = sum + 0;
                }
                channel = channel + 1;
            }
            proof {
                assert(iabs(sum as int) <= channels as int * 0x8000_0000);
                assert(channels as int * 0x8000_0000 <= 0x8000_0000_0000) by (nonlinear_arith)
                    requires
                        channels <= 0x10000,
                ;
                lemma_frame_sum_sharp(self.samples@, channels as int, frame as int,
                channels as int);
                assert(channels as int * 0x7FFF_FFFF <= 0x7FFF_FFFF_0000) by (nonlinear_arith)
                    requires
                        channels <= 0x10000,
                ;
            }
            let mag: u64 = if sum >= 0 {
                sum as u64
            } else {
                (-sum) as u64
            };
            let q: u64 = mag / (channels as u64);
            proof {
                if sum >= 0 {
                    assert(q <= 0x7FFF_FFFF) by {
                        lemma_div_is_ordered(
                            mag as int,
                            channels as int * 0x7FFF_FFFF,
                            channels as int,
                        );
                        lemma_div_multiples_vanish(0x7FFF_FFFF, channels as int);
                    }
                } else {
                    assert(q <= 0x8000_0000) by {
                        lemma_div_is_ordered(
                            mag as int,
                            channels as int * 0x8000_0000,
                            channels as int,
                        );
                        lemma_div_multiples_vanish(0x8000_0000, channels as int);
                    }
                }
            }
            let mono: i32 = if sum >= 0 {
                q as i32
            } else {
                (-(q as i64)) as i32
            };
            proof {
                assert(mono as int == spec_mono_sample(self.samples@, channels as int,
                frame as int));
            }
            mono_samples.push(mono);
            frame = frame + 1;
        }
        let mono_config = AudioConfig {
            channels: 1,
            sample_rate: self.config.sample_rate,
            bit_depth: self.config.bit_depth,
        };
        AudioData::new(mono_samples, mono_config)
    }
}

/// The magnitude of a scaled sample is the scaled magnitude; at the peak it
/// is exactly [`SAMPLE_UNIT`], and it never exceeds it.
proof fn lemma_scaled_abs(v: int, m: int)
    requires
        m > 0,
        iabs(v) <= m,
    ensures
        iabs(spec_scaled(v, m)) == iabs(v) * SAMPLE_UNIT / m,
        iabs(spec_scaled(v, m)) <= SAMPLE_UNIT,
        iabs(v) == m ==> iabs(spec_scaled(v, m)) == SAMPLE_UNIT,
{
    let u = SAMPLE_UNIT as int;
    if v >= 0 {
        vstd::arithmetic::mul::lemma_mul_nonnegative(v, u);
        assert(spec_scaled(v, m) == v * u / m);
        assert(v * u / m >= 0) by {
            vstd::arithmetic::div_mod::lemma_div_pos_is_pos(v * u, m);
        }
    } else {
        vstd::arithmetic::mul::lemma_mul_nonnegative(-v, u);
        assert((-v) * u == -(v * u)) by (nonlinear_arith);
        assert(spec_scaled(v, m) == -((-v) * u / m));
        assert((-v) * u / m >= 0) by {
            vstd::arithmetic::div_mod::lemma_div_pos_is_pos((-v) * u, m);
        }
    }
    assert(iabs(spec_scaled(v, m)) == iabs(v) * u / m);
    lemma_mul_inequality(iabs(v), m, u);
    lemma_div_is_ordered(iabs(v) * u, m * u, m);
    lemma_div_multiples_vanish(u, m);
    assert(m * u / m == u);
}

/// A sum of `k` channel samples is at most `k` times the largest positive
/// sample value.
proof fn lemma_frame_sum_sharp(s: Seq<i32>, channels: int, frame: int, k: int)
    requires
        0 <= k,
    ensures
        spec_frame_sum(s, channels, frame, k) <= k * 0x7FFF_FFFF,
    decreases k,
{
    if k > 0 {
        lemma_frame_sum_sharp(s, channels, frame, k - 1);
        assert((k - 1) * 0x7FFF_FFFF + 0x7FFF_FFFF == k * 0x7FFF_FFFF) by (nonlinear_arith);
    }
}


/// The largest representable positive magnitude of integer PCM at a given
/// bit depth; 0 for unsupported depths.
pub open spec fn pcm_full_scale(bit_depth: int) -> int {
    if bit_depth == 16 {
        32767
    } else if bit_depth == 24 {
        8388607
    } else if bit_depth == 32 {
        2147483647
    } else {
        0
    }
}

/// Converts raw integer PCM to fixed-point samples by dividing each value by
/// the largest representable magnitude for the bit depth (16-bit: 32767,
/// 24-bit: 8388607, 32-bit: 2147483647). Any other depth is rejected.
pub fn convert_int_samples(raw: &Vec<i32>, bit_depth: u16) -> (r: Result<
    Vec<i32>,
    TranscribeError,
>)
    requires
        bit_depth == 16 || bit_depth == 24 ==> forall|i: int|
            0 <= i < raw@.len() ==> -(pcm_full_scale(bit_depth as int) + 1) <= #[trigger] raw@[i]
                <= pcm_full_scale(bit_depth as int),
    ensures
        r is Ok <==> (bit_depth == 16 || bit_depth == 24 || bit_depth == 32),
        r is Err ==> r == Err::<Vec<i32>, TranscribeError>(
            TranscribeError::UnsupportedBitDepth(bit_depth),
        ),
        r matches Ok(v) ==> v@.len() == raw@.len() && forall|i: int|
            0 <= i < raw@.len() ==> #[trigger] v@[i] == div_trunc(
                raw@[i] * SAMPLE_UNIT,
                pcm_full_scale(bit_depth as int),
            ),
{
    let full_scale: u64 = if bit_depth == 16 {
        32767
    } else if bit_depth == 24 {
        8388607
    } else if bit_depth == 32 {
        2147483647
    } else {
        return Err(TranscribeError::UnsupportedBitDepth(bit_depth));
    };
    let mut out: Vec<i32> = Vec::new();
    let n = raw.len();
    let mut i: usize = 0;
    while i < n
        invariant
            n == raw@.len(),
            i <= n,
            full_scale == pcm_full_scale(bit_depth as int),
            full_scale >= 32767,
            bit_depth == 16 || bit_depth == 24 ==> forall|j: int|
                0 <= j < raw@.len() ==> -(pcm_full_scale(bit_depth as int) + 1)
                    <= #[trigger] raw@[j] <= pcm_full_scale(bit_depth as int),
            bit_depth == 16 || bit_depth == 24 || bit_depth == 32,
            out@.len() == i,
            forall|j: int|
                0 <= j < i ==> #[trigger] out@[j] == div_trunc(
                    raw@[j] * SAMPLE_UNIT,
                    pcm_full_scale(bit_depth as int),
                ),
        decreases n - i,
    {
        let v = raw[i] as i64;
        proof {
            assert(-(pcm_full_scale(bit_depth as int) + 1) <= v
                <= pcm_full_scale(bit_depth as int));
        }
        let mag: u64 = if v >= 0 {
            v as u64
        } else {
            (-v) as u64
        };
        let q: u64 = mag * 1000000 / full_scale;
        proof {
            let fs = full_scale as int;
            assert(mag as int <= fs + 1);
            lemma_mul_inequality(mag as int, fs + 1, 1000000);
            assert((fs + 1) * 1000000 <= fs * 2000000) by (nonlinear_arith)
                requires
                    fs >= 1,
            ;
            lemma_div_is_ordered(mag as int * 1000000, fs * 2000000, fs);
            assert(fs * 2000000 / fs == 2000000) by {
                lemma_div_multiples_vanish(2000000, fs);
            }
            assert(q <= 2000000);
        }
        let sample: i32 = if v >= 0 {
            q as i32
        } else {
            (-(q as i64)) as i32
        };
        proof {
            if v >= 0 {
                assert(v * SAMPLE_UNIT == mag as int * 1000000) by (nonlinear_arith)
                    requires
                        v == mag as int,
                        SAMPLE_UNIT == 1000000,
                ;
            } else {
                assert((-v) * SAMPLE_UNIT == mag as int * 1000000) by (nonlinear_arith)
                    requires
                        -v == mag as int,
                        SAMPLE_UNIT == 1000000,
                ;
            }
            assert(sample as int == div_trunc(raw@[i as int] * SAMPLE_UNIT,
            pcm_full_scale(bit_depth as int)));
        }
        out.push(sample);
        i = i + 1;
    }
    Ok(out)
}

/// Checks that a format is exactly what the inference engine accepts,
/// reporting the first mismatch: sample rate, then channel count, then bit
/// depth.
pub fn ensure_whisper_compatible(config: &AudioConfig) -> (r: Result<(), TranscribeError>)
    ensures
        r is Ok <==> (config.sample_rate == 16000 && config.channels == 1 && config.bit_depth
            == 16),
        config.sample_rate != 16000 ==> r == Err::<(), TranscribeError>(
            TranscribeError::SampleRateMismatch(config.sample_rate),
        ),
        config.sample_rate == 16000 && config.channels != 1 ==> r == Err::<(), TranscribeError>(
            TranscribeError::ChannelMismatch(config.channels),
        ),
        config.sample_rate == 16000 && config.channels == 1 && config.bit_depth != 16 ==> r
            == Err::<(), TranscribeError>(TranscribeError::BitDepthMismatch(config.bit_depth)),
    {
    if config.sample_rate != 16000 {
        return Err(TranscribeError::SampleRateMismatch(config.sample_rate));
    }
    if config.channels != 1 {
        return Err(TranscribeError::ChannelMismatch(config.channels));
    }
    if config.bit_depth != 16 {
        return Err(TranscribeError::BitDepthMismatch(config.bit_depth));
    }
    Ok(())
}

} // verus!

