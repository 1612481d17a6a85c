//! Spectral feature extraction: turning a block of complex baseband
//! samples into one power value per monitored frequency.
//!
//! Samples are fixed-point: a complex value is a pair of bounded integers.
//! Two interchangeable strategies are covered.  The full-spectrum path
//! maps transform bins to their real-world frequencies, reordering them so
//! the first output is the most negative frequency offset.  The
//! per-frequency path mixes the block with a supplied complex sinusoid
//! (the digital mixer for one target frequency), applies a moving-average
//! low-pass filter, and measures the mean squared magnitude.  Blocks
//! shorter than the minimum a strategy needs yield no output at all.

use vstd::prelude::*;
use vstd::arithmetic::div_mod::lemma_div_is_ordered;
use vstd::arithmetic::div_mod::lemma_div_multiples_vanish;
use crate::config::CENTER_BOUND;
use crate::config::SAMPLE_RATE_BOUND;
use crate::config::FFT_SIZE_BOUND;
use crate::math_tools::lemma_mul_bounded;

verus! {

/// A complex baseband sample in fixed-point form.
#[derive(Clone, Copy, Debug, PartialEq, Eq, Structural)]
pub struct Iq {
    pub re: i64,
    pub im: i64,
}

/// Length of the moving-average low-pass filter, in samples.
pub const FILTER_SIZE: usize = 20;

/// Largest magnitude of a fixed-point sample component.
pub const SAMPLE_BOUND: i64 = 16_777_216;

/// Largest magnitude of a mixer component (a scaled unit sinusoid).
pub const MIXER_BOUND: i64 = 65_536;

/// Largest number of samples in one block.
pub const BLOCK_BOUND: usize = 16_777_216;

/// True of a sequence of bounded samples.
pub open spec fn samples_bounded(s: Seq<Iq>, bound: int) -> bool {
    forall|i: int|
        0 <= i < s.len() ==> -bound <= #[trigger] s[i].re <= bound && -bound <= s[i].im <= bound
}

/// Real part of sample `i` mixed with mixer entry `i`.
pub open spec fn mixed_re(s: Seq<Iq>, m: Seq<Iq>, i: int) -> int {
    s[i].re * m[i].re - s[i].im * m[i].im
}

/// Imaginary part of sample `i` mixed with mixer entry `i`.
pub open spec fn mixed_im(s: Seq<Iq>, m: Seq<Iq>, i: int) -> int {
    s[i].re * m[i].im + s[i].im * m[i].re
}

/// Sum of the real parts of the mixed signal over indices `[lo, hi)`.
pub open spec fn window_sum_re(s: Seq<Iq>, m: Seq<Iq>, lo: int, hi: int) -> int
    decreases hi - lo,
{
    if lo >= hi {
        0
    } else {
        window_sum_re(s, m, lo, hi - 1) + mixed_re(s, m, hi - 1)
    }
}

/// Sum of the imaginary parts of the mixed signal over indices `[lo, hi)`.
pub open spec fn window_sum_im(s: Seq<Iq>, m: Seq<Iq>, lo: int, hi: int) -> int
    decreases hi - lo,
{
    if lo >= hi {
        0
    } else {
        window_sum_im(s, m, lo, hi - 1) + mixed_im(s, m, hi - 1)
    }
}

/// Largest magnitude of one mixed component (sample times mixer).
pub const MIXED_BOUND: i64 = 2_199_023_255_552;

/// Largest magnitude of one filtered component (a window of mixed
/// components summed).
pub const FILTER_SUM_BOUND: i64 = 43_980_465_111_040;

/// A product of two values bounded in magnitude is bounded by the product
/// of the bounds.
pub proof fn lemma_mul_abs_bounded(a: int, b: int, ab: int, bb: int)
    by (nonlinear_arith)
    requires
        -ab <= a <= ab,
        -bb <= b <= bb,
        0 <= ab,
        0 <= bb,
    ensures
        -(ab * bb) <= a * b <= ab * bb,
{
}

/// Digital downconversion of one block for one target frequency: each
/// sample is multiplied by the matching entry of the supplied mixer (a
/// fixed-point complex sinusoid at the target's frequency offset), and a
/// moving-average low-pass filter of length `FILTER_SIZE` runs over the
/// mixed signal.  The first `FILTER_SIZE - 1` outputs, which would rest
/// on an incomplete window, are discarded; each kept output is the plain
/// sum of one full window of mixed samples (the averaging divisor is a
/// constant scale factor and is left folded into the fixed-point scale).
/// A block shorter than the filter window yields nothing at all.
pub fn downconvert_and_filter(samples: &Vec<Iq>, mixer: &Vec<Iq>) -> (out: Vec<Iq>)
    requires
        mixer@.len() == samples@.len(),
        samples@.len() <= BLOCK_BOUND,
        samples_bounded(samples@, SAMPLE_BOUND as int),
        samples_bounded(mixer@, MIXER_BOUND as int),
    ensures
        samples@.len() < FILTER_SIZE ==> out@.len() == 0,
        samples@.len() >= FILTER_SIZE ==> out@.len() == samples@.len() - FILTER_SIZE + 1,
        forall|k: int|
            0 <= k < out@.len() ==> (#[trigger] out@[k]).re == window_sum_re(
                samples@,
                mixer@,
                k,
                k + FILTER_SIZE,
            ) && out@[k].im == window_sum_im(samples@, mixer@, k, k + FILTER_SIZE),
        samples_bounded(out@, FILTER_SUM_BOUND as int),
{
    let n = samples.len();
    let mut out: Vec<Iq> = Vec::new();
    if n < FILTER_SIZE {
        return out;
    }
    let mut k: usize = 0;
    while k + FILTER_SIZE <= n
        invariant
            FILTER_SIZE <= n <= BLOCK_BOUND,
            n == samples@.len(),
            mixer@.len() == n,
            samples_bounded(samples@, SAMPLE_BOUND as int),
            samples_bounded(mixer@, MIXER_BOUND as int),
            k <= n - FILTER_SIZE + 1,
            out@.len() == k,
            forall|kk: int|
                0 <= kk < k ==> (#[trigger] out@[kk]).re == window_sum_re(
                    samples@,
                    mixer@,
                    kk,
                    kk + FILTER_SIZE,
                ) && out@[kk].im == window_sum_im(samples@, mixer@, kk, kk + FILTER_SIZE),
            samples_bounded(out@, FILTER_SUM_BOUND as int),
        decreases n - k,
    {
        let mut acc_re: i64 = 0;
        let mut acc_im: i64 = 0;
        let mut j: usize = 0;
        while j < FILTER_SIZE
            invariant
                FILTER_SIZE <= n,
                n == samples@.len(),
                mixer@.len() == n,
                k + FILTER_SIZE <= n,
                samples_bounded(samples@, SAMPLE_BOUND as int),
                samples_bounded(mixer@, MIXER_BOUND as int),
                j <= FILTER_SIZE,
                acc_re == window_sum_re(samples@, mixer@, k as int, k + j),
                acc_im == window_sum_im(samples@, mixer@, k as int, k + j),
                -(j * MIXED_BOUND) <= acc_re <= j * MIXED_BOUND,
                -(j * MIXED_BOUND) <= acc_im <= j * MIXED_BOUND,
            decreases FILTER_SIZE - j,
        {
            let s = samples[k + j];
            let m = mixer[k + j];
            proof {
                lemma_mul_abs_bounded(s.re as int, m.re as int, SAMPLE_BOUND as int, MIXER_BOUND as int);
                lemma_mul_abs_bounded(s.im as int, m.im as int, SAMPLE_BOUND as int, MIXER_BOUND as int);
                lemma_mul_abs_bounded(s.re as int, m.im as int, SAMPLE_BOUND as int, MIXER_BOUND as int);
                lemma_mul_abs_bounded(s.im as int, m.re as int, SAMPLE_BOUND as int, MIXER_BOUND as int);
            }
            let pre = s.re * m.re - s.im * m.im;
            let pim = s.re * m.im + s.im * m.re;
            acc_re = acc_re + pre;
            acc_im = acc_im + pim;
            j = j + 1;
        }
        out.push(Iq { re: acc_re, im: acc_im });
        k = k + 1;
    }
    out
}

/// Sum of squared magnitudes of the first `count` filtered outputs.
pub open spec fn filtered_sq_sum(s: Seq<Iq>, m: Seq<Iq>, count: int) -> int
    decreases count,
{
    if count <= 0 {
        0
    } else {
        filtered_sq_sum(s, m, count - 1) + window_sum_re(s, m, count - 1, count - 1 + FILTER_SIZE)
            * window_sum_re(s, m, count - 1, count - 1 + FILTER_SIZE) + window_sum_im(
            s,
            m,
            count - 1,
            count - 1 + FILTER_SIZE,
        ) * window_sum_im(s, m, count - 1, count - 1 + FILTER_SIZE)
    }
}

/// The linear signal power of one downconverted channel: the summed
/// squared magnitude of the filtered signal, divided by the number of
/// input samples.
pub open spec fn channel_power_spec(s: Seq<Iq>, m: Seq<Iq>) -> int {
    filtered_sq_sum(s, m, s.len() - FILTER_SIZE + 1) / s.len() as int
}

/// Extracts the linear power of one target frequency from a sample block
/// by downconversion and filtering.  A block shorter than the filter
/// window is rejected: it yields no power value at all.
pub fn channel_power(samples: &Vec<Iq>, mixer: &Vec<Iq>) -> (p: Option<u128>)
    requires
        mixer@.len() == samples@.len(),
        samples@.len() <= BLOCK_BOUND,
        samples_bounded(samples@, SAMPLE_BOUND as int),
        samples_bounded(mixer@, MIXER_BOUND as int),
    ensures
        samples@.len() < FILTER_SIZE ==> p.is_none(),
        samples@.len() >= FILTER_SIZE ==> p == Some(
            channel_power_spec(samples@, mixer@) as u128,
        ),
{
    let n = samples.len();
    if n < FILTER_SIZE {
        return None;
    }
    let filtered = downconvert_and_filter(samples, mixer);
    let count = filtered.len();
    let mut acc: u128 = 0;
    let mut k: usize = 0;
    while k < count
        invariant
            count == filtered@.len(),
            count == samples@.len() - FILTER_SIZE + 1,
            FILTER_SIZE <= samples@.len() <= BLOCK_BOUND,
            mixer@.len() == samples@.len(),
            forall|kk: int|
                0 <= kk < count ==> (#[trigger] filtered@[kk]).re == window_sum_re(
                    samples@,
                    mixer@,
                    kk,
                    kk + FILTER_SIZE,
                ) && filtered@[kk].im == window_sum_im(samples@, mixer@, kk, kk + FILTER_SIZE),
            samples_bounded(filtered@, FILTER_SUM_BOUND as int),
            k <= count,
            acc == filtered_sq_sum(samples@, mixer@, k as int),
            acc <= k * 3868562622766813359059763200,
        decreases count - k,
    {
        let f = filtered[k];
        proof {
            lemma_mul_abs_bounded(
                f.re as int,
                f.re as int,
                FILTER_SUM_BOUND as int,
                FILTER_SUM_BOUND as int,
            );
            lemma_mul_abs_bounded(
                f.im as int,
                f.im as int,
                FILTER_SUM_BOUND as int,
                FILTER_SUM_BOUND as int,
            );
            assert(f.re as int * f.re as int >= 0) by (nonlinear_arith);
            assert(f.im as int * f.im as int >= 0) by (nonlinear_arith);
        }
        let sq_re: i128 = (f.re as i128) * (f.re as i128);
        let sq_im: i128 = (f.im as i128) * (f.im as i128);
        acc = acc + (sq_re as u128) + (sq_im as u128);
        k = k + 1;
    }
    Some(acc / (n as u128))
}

/// One monitored frequency together with its fixed-point mixer sinusoid.
pub struct Channel {
    /// The target frequency, in hertz.
    pub frequency: i64,
    /// One complex sinusoid entry per sample of the block, at the
    /// target's offset from the hardware center frequency.
    pub mixer: Vec<Iq>,
}

/// Extracts one `(frequency, linear power)` pair per monitored channel
/// from a sample block.  A block shorter than the filter window yields no
/// pairs at all, leaving downstream state untouched.
pub fn channel_powers(samples: &Vec<Iq>, channels: &Vec<Channel>) -> (out: Vec<(i64, u128)>)
    requires
        samples@.len() <= BLOCK_BOUND,
        samples_bounded(samples@, SAMPLE_BOUND as int),
        forall|i: int|
            0 <= i < channels@.len() ==> (#[trigger] channels@[i]).mixer@.len() == samples@.len()
                && samples_bounded(channels@[i].mixer@, MIXER_BOUND as int),
    ensures
        samples@.len() < FILTER_SIZE ==> out@.len() == 0,
        samples@.len() >= FILTER_SIZE ==> out@.len() == channels@.len(),
        forall|i: int|
            0 <= i < out@.len() ==> (#[trigger] out@[i]).0 == channels@[i].frequency && out@[i].1
                == channel_power_spec(samples@, channels@[i].mixer@) as u128,
    {
    let mut out: Vec<(i64, u128)> = Vec::new();
    if samples.len() < FILTER_SIZE {
        return out;
    }
    let mut i: usize = 0;
    while i < channels.len()
        invariant
            FILTER_SIZE <= samples@.len() <= BLOCK_BOUND,
            samples_bounded(samples@, SAMPLE_BOUND as int),
            forall|ii: int|
                0 <= ii < channels@.len() ==> (#[trigger] channels@[ii]).mixer@.len()
                    == samples@.len() && samples_bounded(channels@[ii].mixer@, MIXER_BOUND as int),
            i <= channels@.len(),
            out@.len() == i,
            forall|ii: int|
                0 <= ii < i ==> (#[trigger] out@[ii]).0 == channels@[ii].frequency && out@[ii].1
                    == channel_power_spec(samples@, channels@[ii].mixer@) as u128,
        decreases channels@.len() - i,
    {
        let c = &channels[i];
        let p = channel_power(samples, &c.mixer);
        match p {
            Some(v) => out.push((c.frequency, v)),
            None => (),
        }
        i = i + 1;
    }
    out
}

/// Whether a block of `samples_read` samples suffices for a transform of
/// `fft_size` points; a shorter block must be skipped with a warning and
/// produces no readings.
pub fn fft_block_ready(samples_read: usize, fft_size: usize) -> (ok: bool)
    ensures
        ok == (samples_read >= fft_size),
{
    samples_read >= fft_size
}

/// Frequency offset of shifted bin `j` of an `n`-point transform at
/// sample rate `fs`: the mathematical value `(j - n/2) * fs / n`, rounded
/// toward zero.
pub open spec fn bin_offset(fs: u64, n: int, j: int) -> int {
    if j >= n / 2 {
        ((j - n / 2) * fs) / n
    } else {
        -(((n / 2 - j) * fs) / n)
    }
}

/// Real-world frequency of shifted bin `j`: the hardware center frequency
/// plus the bin's offset, bin 0 being the most negative offset.
pub open spec fn bin_frequency(center: i64, fs: u64, n: int, j: int) -> int {
    center + bin_offset(fs, n, j)
}

/// Maps raw transform output to `(frequency, linear power)` pairs in
/// shifted order: output `j` carries unshifted bin `(j + n/2) % n`, so
/// the first output is the most negative frequency offset and frequencies
/// ascend from there.
pub fn spectrum_powers(bins: &Vec<u128>, center: i64, sample_rate: u64) -> (out: Vec<(i64, u128)>)
    requires
        1 <= bins@.len() <= FFT_SIZE_BOUND,
        -CENTER_BOUND <= center <= CENTER_BOUND,
        sample_rate <= SAMPLE_RATE_BOUND,
    ensures
        out@.len() == bins@.len(),
        forall|j: int|
            0 <= j < out@.len() ==> (#[trigger] out@[j]).0 == bin_frequency(
                center,
                sample_rate,
                bins@.len() as int,
                j,
            ) && out@[j].1 == bins@[(j + bins@.len() as int / 2) % bins@.len() as int],
{
    let n = bins.len();
    let half = n / 2;
    let mut out: Vec<(i64, u128)> = Vec::new();
    let mut j: usize = 0;
    while j < n
        invariant
            1 <= n <= FFT_SIZE_BOUND,
            n == bins@.len(),
            half == n / 2,
            -CENTER_BOUND <= center <= CENTER_BOUND,
            sample_rate <= SAMPLE_RATE_BOUND,
            j <= n,
            out@.len() == j,
            forall|jj: int|
                0 <= jj < j ==> (#[trigger] out@[jj]).0 == bin_frequency(
                    center,
                    sample_rate,
                    n as int,
                    jj,
                ) && out@[jj].1 == bins@[(jj + n as int / 2) % n as int],
        decreases n - j,
    {
        let k = (j + half) % n;
        let freq: i64;
        if j >= half {
            let d = (j - half) as u64;
            proof {
                lemma_mul_bounded(d as int, sample_rate as int, FFT_SIZE_BOUND as int, SAMPLE_RATE_BOUND as int);
                lemma_mul_bounded(n as int, sample_rate as int, FFT_SIZE_BOUND as int, SAMPLE_RATE_BOUND as int);
                assert(d as int * sample_rate as int <= n as int * sample_rate as int)
                    by (nonlinear_arith)
                    requires
                        0 <= d as int <= n as int,
                        0 <= sample_rate as int,
                ;
                lemma_div_is_ordered(
                    d as int * sample_rate as int,
                    n as int * sample_rate as int,
                    n as int,
                );
                lemma_div_multiples_vanish(sample_rate as int, n as int);
            }
            let prod = d * sample_rate;
            let off = prod / (n as u64);
            freq = center + (off as i64);
        } else {
            let d = (half - j) as u64;
            proof {
                lemma_mul_bounded(d as int, sample_rate as int, FFT_SIZE_BOUND as int, SAMPLE_RATE_BOUND as int);
                lemma_mul_bounded(n as int, sample_rate as int, FFT_SIZE_BOUND as int, SAMPLE_RATE_BOUND as int);
                assert(d as int * sample_rate as int <= n as int * sample_rate as int)
                    by (nonlinear_arith)
                    requires
                        0 <= d as int <= n as int,
                        0 <= sample_rate as int,
                ;
                lemma_div_is_ordered(
                    d as int * sample_rate as int,
                    n as int * sample_rate as int,
                    n as int,
                );
                lemma_div_multiples_vanish(sample_rate as int, n as int);
            }
            let prod = d * sample_rate;
            let off = prod / (n as u64);
            freq = center - (off as i64);
        }
        out.push((freq, bins[k]));
        j = j + 1;
    }
    out
}

} // verus!
