//! Profile comparison: for each profile, the average of the highest CPU
//! frequency sampled under load.

use vstd::prelude::*;

verus! {

/// Seconds of load per profile.
pub const STRESS_SECS: u64 = 15;

/// Seconds of sampling under load.
pub const SAMPLE_SECS: u64 = 14;

/// Seconds of cooling down between profiles.
pub const COOLDOWN_SECS: u64 = 20;

/// Seconds for a profile to settle before the idle snapshot.
pub const SETTLE_SECS: u64 = 2;

/// Milliseconds between two samples.
pub const SAMPLE_MS: u64 = 500;

/// The profiles compared, in order.
pub fn measured_profiles() -> (r: Vec<&'static str>)
    ensures
        r@.len() == 3,
        r@[0]@ == "eco"@,
        r@[1]@ == "normal"@,
        r@[2]@ == "performance"@,
{
    crate::profiles::valid_profiles()
}

/// Sum and count of frequency samples, in kHz.
pub struct FreqSampler {
    sum: i64,
    n: i64,
}

pub struct SamplerView {
    pub sum: int,
    pub n: int,
}

impl View for FreqSampler {
    type V = SamplerView;

    closed spec fn view(&self) -> SamplerView {
        SamplerView { sum: self.sum as int, n: self.n as int }
    }
}

/// The average of the samples, in MHz (integer division, as a sum of kHz
/// divided by the count and then by 1000); 0 without samples.
pub open spec fn average_mhz_spec(s: SamplerView) -> int {
    if s.n > 0 {
        s.sum / s.n / 1000
    } else {
        0
    }
}

impl FreqSampler {
    #[verifier::type_invariant]
    closed spec fn inv(&self) -> bool {
        0 <= self.sum && 0 <= self.n
    }

    pub fn new() -> (r: FreqSampler)
        ensures
            r@ == (SamplerView { sum: 0, n: 0 }),
    {
        FreqSampler { sum: 0, n: 0 }
    }

    /// Whether `khz` can still be added without the sum or count overflowing.
    pub fn can_add(&self, khz: i64) -> (r: bool)
        ensures
            r == (0 <= khz && self@.sum + khz <= i64::MAX && self@.n + 1 <= i64::MAX),
    {
        proof {
            use_type_invariant(self);
        }
        0 <= khz && khz <= i64::MAX - self.sum && self.n < i64::MAX
    }

    /// Adds one sample (the highest frequency over all CPUs, or 0).
    pub fn add(&mut self, khz: i64)
        requires
            0 <= khz,
            old(self)@.sum + khz <= i64::MAX,
            old(self)@.n + 1 <= i64::MAX,
        ensures
            final(self)@ == (SamplerView { sum: old(self)@.sum + khz, n: old(self)@.n + 1 }),
    {
        proof {
            use_type_invariant(&*self);
        }
        *self = FreqSampler { sum: self.sum + khz, n: self.n + 1 };
    }

    /// The average sample, in MHz; 0 without samples.
    pub fn average_mhz(&self) -> (r: i64)
        ensures
            r == average_mhz_spec(self@),
    {
        proof {
            use_type_invariant(self);
        }
        if self.n > 0 {
            self.sum / self.n / 1000
        } else {
            0
        }
    }
}

} // verus!
