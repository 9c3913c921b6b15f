use crate::buffer::sample_location::SampleLocation;
use vstd::prelude::*;

verus! {

/// A gain between silence and unity, as the fraction `numerator / denominator`.
#[derive(Clone, Copy, Debug, PartialEq, Eq, Structural)]
pub struct Gain {
    pub numerator: usize,
    pub denominator: usize,
}

impl Gain {
    /// A fraction that has a value, and one of at most one.
    pub open spec fn is_valid(self) -> bool {
        0 < self.denominator && self.numerator <= self.denominator
    }

    pub fn new(numerator: usize, denominator: usize) -> (gain: Self)
        ensures
            gain.numerator == numerator,
            gain.denominator == denominator,
    {
        Self { numerator, denominator }
    }

    pub fn unity() -> (gain: Self)
        ensures
            gain.numerator == 1,
            gain.denominator == 1,
    {
        Self { numerator: 1, denominator: 1 }
    }
}

/// Whether the block of `num_channels` by `num_frames` samples that starts at
/// `location` lies inside a buffer of `channels` by `frames` samples.
pub open spec fn region_fits(
    location: SampleLocation,
    num_channels: usize,
    num_frames: usize,
    channels: usize,
    frames: usize,
) -> bool {
    location.channel + num_channels <= channels && location.frame + num_frames <= frames
}

/// Planar sample storage, as the engine sees it. The engine never looks at a
/// sample: it asks for the size, clears, and sums one buffer into another.
///
/// The first seven functions are the model that the contracts speak of. An
/// implementation gives each the meaning that its name says: `frames`,
/// `channels` and `rate` are the three sizes, `silent` says whether every
/// sample is zero, and `cleared`, `mixed` and `mixed_with_gain` are the buffer
/// that `clear`, `add_from` and `add_from_with_gain` would leave, computed
/// without changing this one.
pub trait AudioBuffer: Sized {
    spec fn frames(&self) -> usize;

    spec fn channels(&self) -> usize;

    spec fn rate(&self) -> usize;

    spec fn silent(&self) -> bool;

    spec fn cleared(&self) -> Self;

    spec fn mixed(
        &self,
        source: &Self,
        source_location: SampleLocation,
        destination_location: SampleLocation,
        num_channels: usize,
        num_frames: usize,
    ) -> Self;

    spec fn mixed_with_gain(
        &self,
        source: &Self,
        source_location: SampleLocation,
        destination_location: SampleLocation,
        num_channels: usize,
        num_frames: usize,
        gain: Gain,
    ) -> Self;

    /// A silent buffer of the given size.
    fn with_size(num_frames: usize, num_channels: usize, sample_rate: usize) -> (buffer: Self)
        ensures
            buffer.frames() == num_frames,
            buffer.channels() == num_channels,
            buffer.rate() == sample_rate,
            buffer.silent(),
    ;

    fn num_frames(&self) -> (num_frames: usize)
        ensures
            num_frames == self.frames(),
    ;

    fn num_channels(&self) -> (num_channels: usize)
        ensures
            num_channels == self.channels(),
    ;

    fn sample_rate(&self) -> (sample_rate: usize)
        ensures
            sample_rate == self.rate(),
    ;

    /// Sets every sample to zero.
    fn clear(&mut self)
        ensures
            *final(self) == old(self).cleared(),
            final(self).frames() == old(self).frames(),
            final(self).channels() == old(self).channels(),
            final(self).rate() == old(self).rate(),
            final(self).silent(),
    ;

    /// Adds a block of `source`, sample by sample, to a block of this buffer.
    fn add_from(
        &mut self,
        source: &Self,
        source_location: SampleLocation,
        destination_location: SampleLocation,
        num_channels: usize,
        num_frames: usize,
    )
        requires
            region_fits(
                source_location,
                num_channels,
                num_frames,
                source.channels(),
                source.frames(),
            ),
            region_fits(
                destination_location,
                num_channels,
                num_frames,
                old(self).channels(),
                old(self).frames(),
            ),
        ensures
            *final(self) == old(self).mixed(
                source,
                source_location,
                destination_location,
                num_channels,
                num_frames,
            ),
            final(self).frames() == old(self).frames(),
            final(self).channels() == old(self).channels(),
            final(self).rate() == old(self).rate(),
    ;

    /// As `add_from`, with every sample of `source` scaled by `gain` first.
    fn add_from_with_gain(
        &mut self,
        source: &Self,
        source_location: SampleLocation,
        destination_location: SampleLocation,
        num_channels: usize,
        num_frames: usize,
        gain: Gain,
    )
        requires
            gain.is_valid(),
            region_fits(
                source_location,
                num_channels,
                num_frames,
                source.channels(),
                source.frames(),
            ),
            region_fits(
                destination_location,
                num_channels,
                num_frames,
                old(self).channels(),
                old(self).frames(),
            ),
        ensures
            *final(self) == old(self).mixed_with_gain(
                source,
                source_location,
                destination_location,
                num_channels,
                num_frames,
                gain,
            ),
            final(self).frames() == old(self).frames(),
            final(self).channels() == old(self).channels(),
            final(self).rate() == old(self).rate(),
    ;
}

} // verus!
