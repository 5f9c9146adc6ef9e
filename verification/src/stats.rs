//! Per-pixel convergence statistics.
//!
//! Each pixel carries a sample count, the last quantized (8-bit-per-channel)
//! display color of its running mean, a stagnation counter and a one-word
//! fingerprint of the object ids its primary rays have hit. The embedding
//! application folds the floating-point radiance into the running mean and
//! quantizes it; this module holds the verified convergence rule: if the
//! quantized mean repeats, the stagnation counter grows, otherwise it resets,
//! and the pixel is reported done once the counter reaches the threshold.
//!
//! The rule deliberately retires a pixel whose quantized mean is only
//! transiently stable: that is a bias/performance tradeoff, kept as designed,
//! and a known source of residual noise.

use vstd::prelude::*;

verus! {

/// Consecutive identical quantized means after which a pixel is retired.
pub const CONVERGENCE_THRESHOLD: u32 = 5;

/// Running convergence state of one pixel.
#[derive(Clone, Copy, Debug)]
pub struct Stats {
    /// Samples folded in so far.
    pub n: u32,
    /// Quantized display color of the running mean after the last sample.
    pub color: (u8, u8, u8),
    /// How many consecutive samples left the quantized mean unchanged.
    pub bad_avgs: u32,
    /// One-word Bloom-style fingerprint of visited object ids.
    pub fingerprint: u64,
}

/// The bit of the fingerprint word that stands for an object id.
pub open spec fn fp_bit(obj_id: u64) -> u64 {
    1u64 << (obj_id % 64)
}

/// Whether the fingerprint word records an id's bit as visited.
pub open spec fn fp_contains(fp: u64, obj_id: u64) -> bool {
    fp & fp_bit(obj_id) != 0
}

impl Stats {
    /// The stagnation counter never exceeds the sample count.
    pub open spec fn wf(&self) -> bool {
        self.bad_avgs <= self.n
    }

    /// Fresh statistics: no samples, black display color, empty fingerprint.
    pub fn new() -> (s: Self)
        ensures
            s.n == 0,
            s.color == (0u8, 0u8, 0u8),
            s.bad_avgs == 0,
            s.fingerprint == 0,
            s.wf(),
    {
        Stats { n: 0, color: (0, 0, 0), bad_avgs: 0, fingerprint: 0 }
    }

    /// Folds one sample's outcome in: `color` is the quantized display color
    /// of the new running mean, `obj_id` the object the sample's primary ray
    /// hit. The stagnation counter grows by one when the quantized mean
    /// repeats and resets to zero otherwise; the id's bit joins the
    /// fingerprint; the pixel is reported done exactly when the counter has
    /// reached the threshold.
    pub fn add(&mut self, color: (u8, u8, u8), obj_id: u64) -> (done: bool)
        requires
            old(self).n < u32::MAX,
            old(self).wf(),
        ensures
            final(self).n == old(self).n + 1,
            final(self).color == color,
            final(self).bad_avgs == if color == old(self).color {
                old(self).bad_avgs + 1
            } else {
                0int
            },
            final(self).fingerprint == old(self).fingerprint | fp_bit(obj_id),
            done == (final(self).bad_avgs >= CONVERGENCE_THRESHOLD),
            final(self).wf(),
    {
        let repeated = self.color.0 == color.0 && self.color.1 == color.1
            && self.color.2 == color.2;
        self.n = self.n + 1;
        self.color = color;
        if repeated {
            self.bad_avgs = self.bad_avgs + 1;
        } else {
            self.bad_avgs = 0;
        }
        self.fingerprint = self.fingerprint | (1u64 << (obj_id % 64));
        self.bad_avgs >= CONVERGENCE_THRESHOLD
    }
}

/// The fingerprint only accumulates: after a sample, the sampled id is
/// recorded, and every id recorded before stays recorded.
pub proof fn lemma_fingerprint_grows(fp: u64, obj_id: u64, other: u64)
    ensures
        fp_contains(fp | fp_bit(obj_id), obj_id),
        fp_contains(fp, other) ==> fp_contains(fp | fp_bit(obj_id), other),
{
    assert((fp | (1u64 << (obj_id % 64))) & (1u64 << (obj_id % 64)) != 0) by (bit_vector);
    assert(fp & (1u64 << (other % 64)) != 0 ==> (fp | (1u64 << (obj_id % 64))) & (1u64 << (
    other % 64)) != 0) by (bit_vector);
}

} // verus!
