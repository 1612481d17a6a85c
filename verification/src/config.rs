//! Static configuration of one sensor: identity, metadata, storage
//! connection, and radio parameters.  Radio quantities are fixed-point
//! integers: frequencies and sample rate in hertz, gain in milli-decibels.

use vstd::prelude::*;

verus! {

/// Largest center or monitored frequency magnitude, in hertz (one
/// terahertz), so that frequency arithmetic stays inside `i64`.
pub const CENTER_BOUND: i64 = 1_000_000_000_000;

/// Largest sample rate, in hertz (ten gigahertz).
pub const SAMPLE_RATE_BOUND: u64 = 10_000_000_000;

/// Largest transform size.
pub const FFT_SIZE_BOUND: usize = 1_048_576;

/// Connection parameters of the durable store.
#[derive(Clone)]
pub struct Postgres {
    pub connection_url: String,
}

/// Radio parameters.
#[derive(Clone)]
pub struct Sdr {
    /// Hardware center frequency, in hertz.
    pub center_frequency: i64,
    /// Sample rate, in hertz.
    pub sample_rate: u64,
    /// Receive gain, in milli-decibels.
    pub gain: i64,
    /// Monitored frequencies, in hertz.
    pub frequencies: Vec<i64>,
    /// Size of the full-spectrum transform.
    pub fft_size: usize,
}

/// Full configuration of one sensor.
#[derive(Clone)]
pub struct Config {
    /// Identity assigned by storage on first reconciliation; absent until
    /// then.
    pub id: Option<u128>,
    pub name: String,
    pub geohash: String,
    pub postgres: Postgres,
    pub sdr: Sdr,
}

impl Config {
    /// Well-formedness of the radio parameters: every frequency in range
    /// and a usable transform size, so the extraction arithmetic cannot
    /// overflow.
    pub open spec fn wf(self) -> bool {
        &&& -CENTER_BOUND <= self.sdr.center_frequency <= CENTER_BOUND
        &&& self.sdr.sample_rate <= SAMPLE_RATE_BOUND
        &&& 1 <= self.sdr.fft_size <= FFT_SIZE_BOUND
        &&& forall|i: int|
            0 <= i < self.sdr.frequencies.len() ==> -CENTER_BOUND <= #[trigger] self.sdr.frequencies[i]
                <= CENTER_BOUND
    }

    /// Checks the radio parameters; a configuration that fails here is
    /// malformed and must abort the pipeline before it starts.
    pub fn validate(&self) -> (ok: bool)
        ensures
            ok == self.wf(),
    {
        if !(-CENTER_BOUND <= self.sdr.center_frequency && self.sdr.center_frequency
            <= CENTER_BOUND) {
            return false;
        }
        if !(self.sdr.sample_rate <= SAMPLE_RATE_BOUND) {
            return false;
        }
        if !(1 <= self.sdr.fft_size && self.sdr.fft_size <= FFT_SIZE_BOUND) {
            return false;
        }
        let mut i: usize = 0;
        while i < self.sdr.frequencies.len()
            invariant
                0 <= i <= self.sdr.frequencies.len(),
                forall|j: int|
                    0 <= j < i ==> -CENTER_BOUND <= #[trigger] self.sdr.frequencies[j]
                        <= CENTER_BOUND,
            decreases self.sdr.frequencies.len() - i,
        {
            let f = self.sdr.frequencies[i];
            if !(-CENTER_BOUND <= f && f <= CENTER_BOUND) {
                return false;
            }
            i = i + 1;
        }
        true
    }

    /// True on first run, before storage has assigned an identity.
    pub fn needs_registration(&self) -> (r: bool)
        ensures
            r == self.id.is_none(),
    {
        self.id.is_none()
    }

    /// Records the identity that storage assigned on first reconciliation.
    pub fn assign_id(&mut self, id: u128)
        requires
            old(self).id.is_none(),
        ensures
            final(self).id == Some(id),
            final(self).name == old(self).name,
            final(self).geohash == old(self).geohash,
            final(self).postgres == old(self).postgres,
            final(self).sdr == old(self).sdr,
    {
        self.id = Some(id);
    }
}

} // verus!
