//! Configuration of the autocorrelation pitch detector: the sample rate it is
//! tuned to, the range of frequencies it looks for, and the shortest window of
//! samples that holds one period of the lowest of them.

use vstd::prelude::*;

verus! {

/// Lowest detectable frequency in Hz (a low male voice).
pub const DEFAULT_MIN_FREQ_HZ: u32 = 80;

/// Highest detectable frequency in Hz (a high soprano).
pub const DEFAULT_MAX_FREQ_HZ: u32 = 1000;

/// `a / b` rounded up.
pub open spec fn ceil_div(a: int, b: int) -> int {
    (a + b - 1) / b
}

/// Detects the dominant pitch of a mono signal by autocorrelation.
pub struct PitchDetector {
    /// The sample rate the detector was configured for, in Hz.
    sample_rate: u32,
    /// Minimum detectable frequency, in Hz.
    min_freq: u32,
    /// Maximum detectable frequency, in Hz.
    max_freq: u32,
}

impl PitchDetector {
    /// The sample rate, in Hz.
    pub closed spec fn spec_sample_rate(self) -> u32 {
        self.sample_rate
    }

    /// The lowest frequency looked for, in Hz.
    pub closed spec fn spec_min_freq(self) -> u32 {
        self.min_freq
    }

    /// The highest frequency looked for, in Hz.
    pub closed spec fn spec_max_freq(self) -> u32 {
        self.max_freq
    }

    /// Creates a detector for signals sampled at `sample_rate` Hz that looks
    /// for pitches from 80 Hz to 1000 Hz.
    pub fn new(sample_rate: u32) -> (detector: Self)
        ensures
            detector.spec_sample_rate() == sample_rate,
            detector.spec_min_freq() == DEFAULT_MIN_FREQ_HZ,
            detector.spec_max_freq() == DEFAULT_MAX_FREQ_HZ,
    {
        PitchDetector { sample_rate, min_freq: DEFAULT_MIN_FREQ_HZ, max_freq: DEFAULT_MAX_FREQ_HZ }
    }

    /// The sample rate, in Hz.
    pub fn sample_rate(&self) -> (rate: u32)
        ensures
            rate == self.spec_sample_rate(),
    {
        self.sample_rate
    }

    /// The lowest frequency looked for, in Hz.
    pub fn min_freq(&self) -> (freq: u32)
        ensures
            freq == self.spec_min_freq(),
    {
        self.min_freq
    }

    /// The highest frequency looked for, in Hz.
    pub fn max_freq(&self) -> (freq: u32)
        ensures
            freq == self.spec_max_freq(),
    {
        self.max_freq
    }

    /// The number of samples that hold one full period of the lowest
    /// detectable frequency: `sample_rate / min_freq`, rounded up
    /// (552 samples at 44100 Hz for 80 Hz).
    pub fn min_samples(&self) -> (count: usize)
        requires
            self.spec_min_freq() > 0,
        ensures
            count == ceil_div(self.spec_sample_rate() as int, self.spec_min_freq() as int),
            count * self.spec_min_freq() >= self.spec_sample_rate(),
            count == 0 || (count - 1) * self.spec_min_freq() < self.spec_sample_rate(),
    {
        let whole: u32 = self.sample_rate / self.min_freq;
        let rest: u32 = self.sample_rate % self.min_freq;
        proof {
            let a = self.sample_rate as int;
            let b = self.min_freq as int;
            assert(a == b * (a / b) + a % b && 0 <= a % b < b) by (nonlinear_arith)
                requires b > 0;
            assert(a % b != 0 ==> a / b < 0xffff_ffff) by (nonlinear_arith)
                requires b > 0, a >= 0, a <= 0xffff_ffff, a == b * (a / b) + a % b, 0 <= a % b < b;
            assert(ceil_div(a, b) == a / b + if a % b == 0 { 0int } else { 1int }) by (nonlinear_arith)
                requires b > 0, a >= 0, a == b * (a / b) + a % b, 0 <= a % b < b;
            let q = a / b + if a % b == 0 { 0int } else { 1int };
            assert(q * b >= a && (q == 0 || (q - 1) * b < a)) by (nonlinear_arith)
                requires b > 0, a >= 0, a == b * (a / b) + a % b, 0 <= a % b < b,
                    q == a / b + if a % b == 0 { 0int } else { 1int };
        }
        let count: u32 = if rest == 0 {
            whole
        } else {
            whole + 1
        };
        count as usize
    }
}

} // verus!
