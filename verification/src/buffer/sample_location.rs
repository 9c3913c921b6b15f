use vstd::prelude::*;

verus! {

/// The place of one sample in a buffer: its channel and its frame.
#[derive(Clone, Copy, Debug, PartialEq, Eq, Structural)]
pub struct SampleLocation {
    pub channel: usize,
    pub frame: usize,
}

impl SampleLocation {
    pub fn new(channel: usize, frame: usize) -> (location: Self)
        ensures
            location.channel == channel,
            location.frame == frame,
    {
        Self { channel, frame }
    }

    /// The first sample of the first channel.
    pub fn origin() -> (location: Self)
        ensures
            location.channel == 0,
            location.frame == 0,
    {
        Self { channel: 0, frame: 0 }
    }
}

} // verus!
