use crate::buffer::audio_buffer::AudioBuffer;
use vstd::prelude::*;

verus! {

/// What the host's audio callback calls, once for every block that it wants.
pub trait AudioProcess<B: AudioBuffer> {
    /// What has to hold of the process between two callbacks.
    spec fn wf(&self) -> bool;

    /// Renders the next block into `data`, all of it.
    fn process(&mut self, data: &mut B)
        requires
            old(self).wf(),
        ensures
            final(self).wf(),
            final(data).frames() == old(data).frames(),
            final(data).channels() == old(data).channels(),
            final(data).rate() == old(data).rate(),
    ;

    fn get_maximum_number_of_frames(&self) -> usize;

    fn get_maximum_number_of_channel(&self) -> usize;
}

} // verus!
