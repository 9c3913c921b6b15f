use crate::buffer::audio_buffer::Gain;
use vstd::prelude::*;

verus! {

/// How long a fade of `length_ms` milliseconds is in samples at `sample_rate`:
/// rounded up to a whole sample, and capped at `usize::MAX`.
pub open spec fn fade_length(length_ms: usize, sample_rate: usize) -> usize {
    let samples = (length_ms * sample_rate + 999) / 1000;
    if samples > usize::MAX {
        usize::MAX
    } else {
        samples as usize
    }
}

/// The gain at step `index` of a linear fade of `length` steps: `index` parts of
/// `length`, unity from the last step on and for a fade without length.
pub open spec fn fade_gain(length: usize, index: usize) -> Gain {
    if length == 0 || index >= length {
        Gain { numerator: 1, denominator: 1 }
    } else {
        Gain { numerator: index, denominator: length }
    }
}

/// A linear ramp between silence and unity, a fixed number of samples long. A
/// fade-in walks it upwards, a fade-out downwards.
#[derive(Clone, Copy, Debug)]
pub struct Fade {
    length: usize,
}

impl Fade {
    /// The number of samples that the fade takes.
    pub closed spec fn length(&self) -> usize {
        self.length
    }

    /// A fade of `length_ms` milliseconds at `sample_rate`.
    pub fn new(length_ms: usize, sample_rate: usize) -> (fade: Self)
        ensures
            fade.length() == fade_length(length_ms, sample_rate),
    {
        assert(length_ms * sample_rate <= usize::MAX * usize::MAX) by (nonlinear_arith)
            requires
                length_ms <= usize::MAX,
                sample_rate <= usize::MAX,
        ;
        assert(usize::MAX * usize::MAX + 999 < 0x1_0000_0000_0000_0000_0000_0000_0000_0000)
            by (nonlinear_arith)
            requires
                usize::MAX <= 0xffff_ffff_ffff_ffff,
        ;
        let product: u128 = (length_ms as u128) * (sample_rate as u128);
        let samples: u128 = (product + 999) / 1000;
        if samples > usize::MAX as u128 {
            Self { length: usize::MAX }
        } else {
            Self { length: samples as usize }
        }
    }

    pub fn len(&self) -> (length: usize)
        ensures
            length == self.length(),
    {
        self.length
    }

    /// The gain at step `index` of the fade.
    pub fn gain_at(&self, index: usize) -> (gain: Gain)
        ensures
            gain == fade_gain(self.length(), index),
            gain.is_valid(),
    {
        if self.length == 0 || index >= self.length {
            Gain::unity()
        } else {
            Gain::new(index, self.length)
        }
    }
}

} // verus!
