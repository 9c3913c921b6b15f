use crate::buffer::audio_buffer::AudioBuffer;
use crate::buffer::audio_buffer::Gain;
use crate::buffer::sample_location::SampleLocation;
use crate::dsp::sampler::fade::fade_gain;
use crate::dsp::sampler::fade::Fade;
use vstd::prelude::*;

verus! {

/// What a voice is doing.
#[derive(Clone, Copy, Debug, PartialEq, Eq, Structural)]
pub enum VoiceState {
    /// Not playing.
    Stopped,
    /// Playing, on the way up: so many samples of the fade are done.
    FadingIn(usize),
    /// Playing at full gain.
    Playing,
    /// Playing, on the way down: so many samples of the fade remain.
    FadingOut(usize),
}

/// One playback of the sample: where its playhead is and what it is doing.
#[derive(Clone, Copy, Debug, PartialEq, Eq, Structural)]
pub struct Voice {
    pub state: VoiceState,
    pub position: usize,
}

/// The state that `stop` leaves a voice in: a voice that plays fades out from
/// the gain that it has, which for one that has not made a sound yet is no
/// fade at all.
pub open spec fn stopped_state(state: VoiceState, fade_length: usize) -> VoiceState {
    match state {
        VoiceState::Stopped => VoiceState::Stopped,
        VoiceState::FadingIn(done) => if done == 0 {
            VoiceState::Stopped
        } else if done >= fade_length {
            if fade_length == 0 {
                VoiceState::Stopped
            } else {
                VoiceState::FadingOut(fade_length)
            }
        } else {
            VoiceState::FadingOut(done)
        },
        VoiceState::Playing => if fade_length == 0 {
            VoiceState::Stopped
        } else {
            VoiceState::FadingOut(fade_length)
        },
        VoiceState::FadingOut(remaining) => VoiceState::FadingOut(remaining),
    }
}

/// The gain with which a voice in `state` plays its next sample.
pub open spec fn state_gain(state: VoiceState, fade_length: usize) -> Gain {
    match state {
        VoiceState::Stopped => Gain { numerator: 0, denominator: 1 },
        VoiceState::FadingIn(done) => fade_gain(fade_length, done),
        VoiceState::Playing => Gain { numerator: 1, denominator: 1 },
        VoiceState::FadingOut(remaining) => fade_gain(fade_length, remaining),
    }
}

/// The state of a voice after it has played one sample in `state`.
pub open spec fn advanced_state(state: VoiceState, fade_length: usize) -> VoiceState {
    match state {
        VoiceState::Stopped => VoiceState::Stopped,
        VoiceState::FadingIn(done) => if done + 1 >= fade_length {
            VoiceState::Playing
        } else {
            VoiceState::FadingIn((done + 1) as usize)
        },
        VoiceState::Playing => VoiceState::Playing,
        VoiceState::FadingOut(remaining) => if remaining <= 1 {
            VoiceState::Stopped
        } else {
            VoiceState::FadingOut((remaining - 1) as usize)
        },
    }
}

/// The state in which a voice goes into its next frame: as it is while the
/// playhead is inside the sample, and as `stop` leaves it once the playhead has
/// run off the end.
pub open spec fn entering_state(
    voice: Voice,
    sample_frames: usize,
    fade_length: usize,
) -> VoiceState {
    if voice.position >= sample_frames {
        stopped_state(voice.state, fade_length)
    } else {
        voice.state
    }
}

/// Whether the voice is playing: it is anything but stopped.
pub open spec fn is_active(voice: Voice) -> bool {
    voice.state != VoiceState::Stopped
}

/// The voice after one frame. A voice that is playing moves its playhead by
/// one and its fade by one step; a stopped voice stays as it is.
pub open spec fn voice_step(voice: Voice, sample_frames: usize, fade_length: usize) -> Voice {
    if voice.state == VoiceState::Stopped {
        voice
    } else {
        Voice {
            state: advanced_state(entering_state(voice, sample_frames, fade_length), fade_length),
            position: if voice.position < usize::MAX {
                (voice.position + 1) as usize
            } else {
                voice.position
            },
        }
    }
}

/// The voice after `num_frames` frames.
pub open spec fn voice_after(
    voice: Voice,
    num_frames: nat,
    sample_frames: usize,
    fade_length: usize,
) -> Voice
    decreases num_frames,
{
    if num_frames == 0 {
        voice
    } else {
        voice_step(
            voice_after(voice, (num_frames - 1) as nat, sample_frames, fade_length),
            sample_frames,
            fade_length,
        )
    }
}

/// In how many of its next `num_frames` frames the voice is playing.
pub open spec fn active_frames(
    voice: Voice,
    num_frames: nat,
    sample_frames: usize,
    fade_length: usize,
) -> nat
    decreases num_frames,
{
    if num_frames == 0 {
        0
    } else {
        let before = voice_after(voice, (num_frames - 1) as nat, sample_frames, fade_length);
        active_frames(voice, (num_frames - 1) as nat, sample_frames, fade_length) + if is_active(
            before,
        ) {
            1nat
        } else {
            0nat
        }
    }
}

/// What a voice plays in its next frame: the frame of the sample under its
/// playhead, and the gain. `None` for a voice that does not play, and for one
/// that fades out past the end of the sample.
pub open spec fn frame_played(voice: Voice, sample_frames: usize, fade_length: usize) -> Option<
    (usize, Gain),
> {
    let state = entering_state(voice, sample_frames, fade_length);
    if state != VoiceState::Stopped && voice.position < sample_frames {
        Some((voice.position, state_gain(state, fade_length)))
    } else {
        None
    }
}

/// The gain with which the voice plays the frame that comes after `frame`
/// frames, or silence if it does not play then.
pub open spec fn gain_in_frame(
    voice: Voice,
    frame: nat,
    sample_frames: usize,
    fade_length: usize,
) -> Gain {
    match frame_played(
        voice_after(voice, frame, sample_frames, fade_length),
        sample_frames,
        fade_length,
    ) {
        Some((_, gain)) => gain,
        None => Gain { numerator: 0, denominator: 1 },
    }
}

/// On how many channels a voice plays: on as many as both the output and the
/// sample have.
pub open spec fn shared_channels(output_channels: usize, sample_channels: usize) -> usize {
    if output_channels < sample_channels {
        output_channels
    } else {
        sample_channels
    }
}

/// `output` after the voice has played its next `num_frames` frames into the
/// frames of `output` from `frame_offset` on: frame by frame, what
/// `frame_played` says is added, on `num_channels` channels.
pub open spec fn rendered_voice<B: AudioBuffer>(
    output: B,
    voice: Voice,
    frame_offset: usize,
    num_frames: nat,
    sample: B,
    fade_length: usize,
    num_channels: usize,
) -> B
    decreases num_frames,
{
    if num_frames == 0 {
        output
    } else {
        let before = rendered_voice(
            output,
            voice,
            frame_offset,
            (num_frames - 1) as nat,
            sample,
            fade_length,
            num_channels,
        );
        match frame_played(
            voice_after(voice, (num_frames - 1) as nat, sample.frames(), fade_length),
            sample.frames(),
            fade_length,
        ) {
            Some((position, gain)) => before.mixed_with_gain(
                &sample,
                SampleLocation { channel: 0, frame: position },
                SampleLocation { channel: 0, frame: (frame_offset + num_frames - 1) as usize },
                num_channels,
                1,
                gain,
            ),
            None => before,
        }
    }
}

/// `output` after the first `count` of `voices` have each played their next
/// `num_frames` frames into it, one after the other.
pub open spec fn rendered_voices<B: AudioBuffer>(
    output: B,
    voices: Seq<Voice>,
    frame_offset: usize,
    num_frames: nat,
    sample: B,
    fade_length: usize,
    num_channels: usize,
    count: nat,
) -> B
    decreases count,
{
    if count == 0 {
        output
    } else {
        rendered_voice(
            rendered_voices(
                output,
                voices,
                frame_offset,
                num_frames,
                sample,
                fade_length,
                num_channels,
                (count - 1) as nat,
            ),
            voices[count - 1],
            frame_offset,
            num_frames,
            sample,
            fade_length,
            num_channels,
        )
    }
}

/// A voice that has stopped adds nothing.
pub proof fn lemma_stopped_voice_is_silent<B: AudioBuffer>(
    output: B,
    voice: Voice,
    frame_offset: usize,
    num_frames: nat,
    sample: B,
    fade_length: usize,
    num_channels: usize,
)
    requires
        voice.state == VoiceState::Stopped,
    ensures
        rendered_voice(output, voice, frame_offset, num_frames, sample, fade_length, num_channels)
            == output,
    decreases num_frames,
{
    if num_frames > 0 {
        lemma_stopped_voice_is_silent(
            output,
            voice,
            frame_offset,
            (num_frames - 1) as nat,
            sample,
            fade_length,
            num_channels,
        );
        lemma_stopped_voice_stays(voice, (num_frames - 1) as nat, sample.frames(), fade_length);
    }
}

/// What a voice plays in `first + second` frames is what it plays in `first`
/// frames and then, from where it has got to, in `second` more.
pub proof fn lemma_rendered_voice_split<B: AudioBuffer>(
    output: B,
    voice: Voice,
    frame_offset: usize,
    first: nat,
    second: nat,
    sample: B,
    fade_length: usize,
    num_channels: usize,
)
    requires
        frame_offset + first + second <= usize::MAX,
    ensures
        rendered_voice(
            output,
            voice,
            frame_offset,
            first + second,
            sample,
            fade_length,
            num_channels,
        ) == rendered_voice(
            rendered_voice(output, voice, frame_offset, first, sample, fade_length, num_channels),
            voice_after(voice, first, sample.frames(), fade_length),
            (frame_offset + first) as usize,
            second,
            sample,
            fade_length,
            num_channels,
        ),
    decreases second,
{
    if second > 0 {
        lemma_rendered_voice_split(
            output,
            voice,
            frame_offset,
            first,
            (second - 1) as nat,
            sample,
            fade_length,
            num_channels,
        );
        lemma_voice_after_split(voice, first, (second - 1) as nat, sample.frames(), fade_length);
        assert(first + second - 1 == first + (second - 1));
    }
}

/// A voice that has stopped stays as it is.
pub proof fn lemma_stopped_voice_stays(
    voice: Voice,
    num_frames: nat,
    sample_frames: usize,
    fade_length: usize,
)
    requires
        voice.state == VoiceState::Stopped,
    ensures
        voice_after(voice, num_frames, sample_frames, fade_length) == voice,
        active_frames(voice, num_frames, sample_frames, fade_length) == 0,
    decreases num_frames,
{
    if num_frames > 0 {
        lemma_stopped_voice_stays(voice, (num_frames - 1) as nat, sample_frames, fade_length);
    }
}

/// Frames add up: the voice after `first + second` frames is the voice after
/// `first` frames, `second` frames later.
pub proof fn lemma_voice_after_split(
    voice: Voice,
    first: nat,
    second: nat,
    sample_frames: usize,
    fade_length: usize,
)
    ensures
        voice_after(voice, first + second, sample_frames, fade_length) == voice_after(
            voice_after(voice, first, sample_frames, fade_length),
            second,
            sample_frames,
            fade_length,
        ),
        active_frames(voice, first + second, sample_frames, fade_length) == active_frames(
            voice,
            first,
            sample_frames,
            fade_length,
        ) + active_frames(
            voice_after(voice, first, sample_frames, fade_length),
            second,
            sample_frames,
            fade_length,
        ),
    decreases second,
{
    if second > 0 {
        lemma_voice_after_split(voice, first, (second - 1) as nat, sample_frames, fade_length);
        assert(first + second - 1 == first + (second - 1));
    }
}

/// The playhead moves by one for every frame in which the voice is playing,
/// and not while it is stopped.
pub proof fn lemma_playhead_advances_while_active(
    voice: Voice,
    num_frames: nat,
    sample_frames: usize,
    fade_length: usize,
)
    requires
        voice.position + num_frames <= usize::MAX,
    ensures
        voice_after(voice, num_frames, sample_frames, fade_length).position == voice.position
            + active_frames(voice, num_frames, sample_frames, fade_length),
        active_frames(voice, num_frames, sample_frames, fade_length) <= num_frames,
    decreases num_frames,
{
    if num_frames > 0 {
        lemma_playhead_advances_while_active(
            voice,
            (num_frames - 1) as nat,
            sample_frames,
            fade_length,
        );
    }
}

/// A voice that starts inside the sample fades in step by step: as long as the
/// playhead stays inside the sample, it plays frame `frame` of the fade with
/// `frame` parts of the fade's length, and every later frame at unity.
pub proof fn lemma_fade_in(
    position: usize,
    frame: nat,
    sample_frames: usize,
    fade_length: usize,
)
    requires
        position + frame < sample_frames,
    ensures
        ({
            let voice = Voice { state: VoiceState::FadingIn(0), position };
            let before = voice_after(voice, frame, sample_frames, fade_length);
            &&& before.position == position + frame
            &&& before.state == if frame == 0 || frame < fade_length {
                VoiceState::FadingIn(frame as usize)
            } else {
                VoiceState::Playing
            }
            &&& gain_in_frame(voice, frame, sample_frames, fade_length) == fade_gain(
                fade_length,
                frame as usize,
            )
        }),
    decreases frame,
{
    if frame > 0 {
        lemma_fade_in(position, (frame - 1) as nat, sample_frames, fade_length);
    }
}

/// A voice that is stopped while it plays at unity fades out step by step: as
/// long as the playhead stays inside the sample, it plays frame `frame` after
/// the stop with the parts of the fade that remain, down to silence once the
/// fade is over.
pub proof fn lemma_fade_out(
    position: usize,
    frame: nat,
    sample_frames: usize,
    fade_length: usize,
)
    requires
        position + frame < sample_frames,
        fade_length > 0,
    ensures
        ({
            let voice = Voice {
                state: stopped_state(VoiceState::Playing, fade_length),
                position,
            };
            let before = voice_after(voice, frame, sample_frames, fade_length);
            &&& before.state == if frame < fade_length {
                VoiceState::FadingOut((fade_length - frame) as usize)
            } else {
                VoiceState::Stopped
            }
            &&& frame <= fade_length ==> before.position == position + frame
            &&& gain_in_frame(voice, frame, sample_frames, fade_length) == if frame == 0 {
                Gain { numerator: 1, denominator: 1 }
            } else if frame < fade_length {
                Gain { numerator: (fade_length - frame) as usize, denominator: fade_length }
            } else {
                Gain { numerator: 0, denominator: 1 }
            }
        }),
    decreases frame,
{
    if frame > 0 {
        lemma_fade_out(position, (frame - 1) as nat, sample_frames, fade_length);
    }
}

impl Default for Voice {
    /// A stopped voice at the start of the sample.
    fn default() -> (voice: Self)
        ensures
            voice == (Voice { state: VoiceState::Stopped, position: 0 }),
    {
        Voice { state: VoiceState::Stopped, position: 0 }
    }
}

impl Voice {
    pub fn is_stopped(&self) -> (stopped: bool)
        ensures
            stopped == (self.state == VoiceState::Stopped),
    {
        match self.state {
            VoiceState::Stopped => true,
            _ => false,
        }
    }

    pub fn get_position(&self) -> (position: usize)
        ensures
            position == self.position,
    {
        self.position
    }

    /// Puts the playhead at `position` and lets the voice fade in from there.
    pub fn start_from_position(&mut self, position: usize)
        ensures
            *final(self) == (Voice { state: VoiceState::FadingIn(0), position }),
    {
        self.state = VoiceState::FadingIn(0);
        self.position = position;
    }

    /// Lets the voice fade out from the gain that it has. The playhead stays.
    pub fn stop(&mut self, fade: &Fade)
        ensures
            final(self).position == old(self).position,
            final(self).state == stopped_state(old(self).state, fade.length()),
    {
        self.state = Self::stopped(self.state, fade.len());
    }

    fn stopped(state: VoiceState, fade_length: usize) -> (stopped: VoiceState)
        ensures
            stopped == stopped_state(state, fade_length),
    {
        match state {
            VoiceState::Stopped => VoiceState::Stopped,
            VoiceState::FadingIn(done) => {
                if done == 0 || fade_length == 0 {
                    VoiceState::Stopped
                } else if done >= fade_length {
                    VoiceState::FadingOut(fade_length)
                } else {
                    VoiceState::FadingOut(done)
                }
            },
            VoiceState::Playing => {
                if fade_length == 0 {
                    VoiceState::Stopped
                } else {
                    VoiceState::FadingOut(fade_length)
                }
            },
            VoiceState::FadingOut(remaining) => VoiceState::FadingOut(remaining),
        }
    }

    /// Moves the voice on by one frame, and says what it plays in that frame:
    /// the frame of the sample, and the gain.
    pub fn advance(&mut self, sample_frames: usize, fade: &Fade) -> (played: Option<(usize, Gain)>)
        ensures
            *final(self) == voice_step(*old(self), sample_frames, fade.length()),
            played == frame_played(*old(self), sample_frames, fade.length()),
            played matches Some((frame, gain)) ==> frame < sample_frames && gain.is_valid(),
    {
        if self.is_stopped() {
            return None;
        }
        let fade_length = fade.len();
        let state = if self.position >= sample_frames {
            Self::stopped(self.state, fade_length)
        } else {
            self.state
        };
        let gain = match state {
            VoiceState::Stopped => {
                self.state = VoiceState::Stopped;
                None
            },
            VoiceState::FadingIn(done) => {
                self.state = if done >= fade_length || done + 1 >= fade_length {
                    VoiceState::Playing
                } else {
                    VoiceState::FadingIn(done + 1)
                };
                Some(fade.gain_at(done))
            },
            VoiceState::Playing => Some(Gain::unity()),
            VoiceState::FadingOut(remaining) => {
                self.state = if remaining <= 1 {
                    VoiceState::Stopped
                } else {
                    VoiceState::FadingOut(remaining - 1)
                };
                Some(fade.gain_at(remaining))
            },
        };
        let position = self.position;
        if position < usize::MAX {
            self.position = position + 1;
        }
        match gain {
            Some(gain) => {
                if position < sample_frames {
                    Some((position, gain))
                } else {
                    None
                }
            },
            None => None,
        }
    }

    /// Plays `num_frames` frames of `sample` into the frames of `output_buffer`
    /// from `frame_offset` on, on top of what is there, on as many channels as
    /// both buffers have: frame by frame what `advance` says.
    pub fn render<B: AudioBuffer>(
        &mut self,
        output_buffer: &mut B,
        frame_offset: usize,
        num_frames: usize,
        sample: &B,
        fade: &Fade,
    )
        requires
            frame_offset + num_frames <= old(output_buffer).frames(),
        ensures
            *final(self) == voice_after(
                *old(self),
                num_frames as nat,
                sample.frames(),
                fade.length(),
            ),
            *final(output_buffer) == rendered_voice(
                *old(output_buffer),
                *old(self),
                frame_offset,
                num_frames as nat,
                *sample,
                fade.length(),
                shared_channels(old(output_buffer).channels(), sample.channels()),
            ),
            final(output_buffer).frames() == old(output_buffer).frames(),
            final(output_buffer).channels() == old(output_buffer).channels(),
            final(output_buffer).rate() == old(output_buffer).rate(),
    {
        let sample_frames = sample.num_frames();
        let num_channels = if output_buffer.num_channels() < sample.num_channels() {
            output_buffer.num_channels()
        } else {
            sample.num_channels()
        };
        let mut frame: usize = 0;
        while frame < num_frames
            invariant
                frame <= num_frames,
                frame_offset + num_frames <= output_buffer.frames(),
                sample_frames == sample.frames(),
                num_channels == shared_channels(old(output_buffer).channels(), sample.channels()),
                *self == voice_after(*old(self), frame as nat, sample_frames, fade.length()),
                *output_buffer == rendered_voice(
                    *old(output_buffer),
                    *old(self),
                    frame_offset,
                    frame as nat,
                    *sample,
                    fade.length(),
                    num_channels,
                ),
                output_buffer.frames() == old(output_buffer).frames(),
                output_buffer.channels() == old(output_buffer).channels(),
                output_buffer.rate() == old(output_buffer).rate(),
            decreases num_frames - frame,
        {
            if self.is_stopped() {
                proof {
                    lemma_stopped_voice_stays(
                        *self,
                        (num_frames - frame) as nat,
                        sample_frames,
                        fade.length(),
                    );
                    lemma_voice_after_split(
                        *old(self),
                        frame as nat,
                        (num_frames - frame) as nat,
                        sample_frames,
                        fade.length(),
                    );
                    lemma_rendered_voice_split(
                        *old(output_buffer),
                        *old(self),
                        frame_offset,
                        frame as nat,
                        (num_frames - frame) as nat,
                        *sample,
                        fade.length(),
                        num_channels,
                    );
                    lemma_stopped_voice_is_silent(
                        *output_buffer,
                        *self,
                        (frame_offset + frame) as usize,
                        (num_frames - frame) as nat,
                        *sample,
                        fade.length(),
                        num_channels,
                    );
                }
                return ;
            }
            if let Some((position, gain)) = self.advance(sample_frames, fade) {
                output_buffer.add_from_with_gain(
                    sample,
                    SampleLocation::new(0, position),
                    SampleLocation::new(0, frame_offset + frame),
                    num_channels,
                    1,
                    gain,
                );
            }
            frame += 1;
        }
    }
}

/// The voices after `stop`: every one that played fades out.
pub open spec fn stop_all(voices: Seq<Voice>, fade_length: usize) -> Seq<Voice> {
    Seq::new(
        voices.len(),
        |i: int| Voice { state: stopped_state(voices[i].state, fade_length),
            position: voices[i].position },
    )
}

/// The voices `num_frames` frames later.
pub open spec fn advance_all(
    voices: Seq<Voice>,
    num_frames: nat,
    sample_frames: usize,
    fade_length: usize,
) -> Seq<Voice> {
    Seq::new(voices.len(), |i: int| voice_after(voices[i], num_frames, sample_frames, fade_length))
}

/// The index of the first voice that is stopped, or -1 if every voice plays.
pub open spec fn first_stopped(voices: Seq<Voice>) -> int
    decreases voices.len(),
{
    if voices.len() == 0 {
        -1
    } else {
        let before = first_stopped(voices.drop_last());
        if before >= 0 {
            before
        } else if voices.last().state == VoiceState::Stopped {
            voices.len() - 1
        } else {
            -1
        }
    }
}

/// What `first_stopped` finds.
pub proof fn lemma_first_stopped(voices: Seq<Voice>)
    ensures
        -1 <= first_stopped(voices) < voices.len(),
        first_stopped(voices) >= 0 ==> voices[first_stopped(voices)].state == VoiceState::Stopped,
        forall|j: int|
            0 <= j < voices.len() && (first_stopped(voices) < 0 || j < first_stopped(voices)) ==> (
            #[trigger] voices[j]).state != VoiceState::Stopped,
    decreases voices.len(),
{
    if voices.len() > 0 {
        lemma_first_stopped(voices.drop_last());
        assert forall|j: int|
            0 <= j < voices.len() && (first_stopped(voices) < 0 || j < first_stopped(
                voices,
            )) implies (#[trigger] voices[j]).state != VoiceState::Stopped by {
            if j < voices.len() - 1 {
                assert(voices.drop_last()[j] == voices[j]);
            }
        }
    }
}

/// Lets every voice that plays fade out.
pub fn stop_voices(voices: &mut Vec<Voice>, fade: &Fade)
    ensures
        final(voices)@ == stop_all(old(voices)@, fade.length()),
{
    let mut index: usize = 0;
    while index < voices.len()
        invariant
            index <= voices@.len(),
            voices@.len() == old(voices)@.len(),
            forall|i: int|
                0 <= i < index ==> voices@[i] == (Voice {
                    state: stopped_state(old(voices)@[i].state, fade.length()),
                    position: old(voices)@[i].position,
                }),
            forall|i: int| index <= i < voices@.len() ==> voices@[i] == old(voices)@[i],
        decreases voices@.len() - index,
    {
        voices[index].stop(fade);
        index += 1;
    }
    assert(voices@ == stop_all(old(voices)@, fade.length()));
}

/// Starts the first voice that is stopped from `position`, and says which one
/// it was. Where every voice plays, none is started.
pub fn start_free_voice(voices: &mut Vec<Voice>, position: usize) -> (started: Option<usize>)
    ensures
        first_stopped(old(voices)@) >= 0 ==> started == Some(first_stopped(old(voices)@) as usize)
            && final(voices)@ == old(voices)@.update(
            first_stopped(old(voices)@),
            Voice { state: VoiceState::FadingIn(0), position },
        ),
        first_stopped(old(voices)@) < 0 ==> started is None && final(voices)@ == old(voices)@,
{
    let mut index: usize = 0;
    while index < voices.len()
        invariant
            index <= voices@.len(),
            voices@ == old(voices)@,
            forall|j: int| 0 <= j < index ==> (#[trigger] voices@[j]).state != VoiceState::Stopped,
        decreases voices@.len() - index,
    {
        if voices[index].is_stopped() {
            proof {
                lemma_first_stopped(voices@);
            }
            voices[index].start_from_position(position);
            return Some(index);
        }
        index += 1;
    }
    proof {
        lemma_first_stopped(voices@);
    }
    None
}

/// Lets every voice play `num_frames` frames of `sample` into the frames of
/// `output_buffer` from `frame_offset` on, one on top of the other.
pub fn render_voices<B: AudioBuffer>(
    voices: &mut Vec<Voice>,
    output_buffer: &mut B,
    frame_offset: usize,
    num_frames: usize,
    sample: &B,
    fade: &Fade,
)
    requires
        frame_offset + num_frames <= old(output_buffer).frames(),
    ensures
        final(voices)@ == advance_all(
            old(voices)@,
            num_frames as nat,
            sample.frames(),
            fade.length(),
        ),
        *final(output_buffer) == rendered_voices(
            *old(output_buffer),
            old(voices)@,
            frame_offset,
            num_frames as nat,
            *sample,
            fade.length(),
            shared_channels(old(output_buffer).channels(), sample.channels()),
            old(voices)@.len(),
        ),
        final(output_buffer).frames() == old(output_buffer).frames(),
        final(output_buffer).channels() == old(output_buffer).channels(),
        final(output_buffer).rate() == old(output_buffer).rate(),
{
    let mut index: usize = 0;
    while index < voices.len()
        invariant
            index <= voices@.len(),
            voices@.len() == old(voices)@.len(),
            frame_offset + num_frames <= output_buffer.frames(),
            forall|i: int|
                0 <= i < index ==> voices@[i] == voice_after(
                    old(voices)@[i],
                    num_frames as nat,
                    sample.frames(),
                    fade.length(),
                ),
            forall|i: int| index <= i < voices@.len() ==> voices@[i] == old(voices)@[i],
            *output_buffer == rendered_voices(
                *old(output_buffer),
                old(voices)@,
                frame_offset,
                num_frames as nat,
                *sample,
                fade.length(),
                shared_channels(old(output_buffer).channels(), sample.channels()),
                index as nat,
            ),
            output_buffer.frames() == old(output_buffer).frames(),
            output_buffer.channels() == old(output_buffer).channels(),
            output_buffer.rate() == old(output_buffer).rate(),
        decreases voices@.len() - index,
    {
        voices[index].render(output_buffer, frame_offset, num_frames, sample, fade);
        index += 1;
    }
    assert(voices@ == advance_all(
        old(voices)@,
        num_frames as nat,
        sample.frames(),
        fade.length(),
    ));
}

/// `count` voices, all stopped.
pub fn stopped_voices(count: usize) -> (voices: Vec<Voice>)
    ensures
        voices@ == Seq::new(
            count as nat,
            |i: int| Voice { state: VoiceState::Stopped, position: 0 },
        ),
{
    let mut voices: Vec<Voice> = Vec::with_capacity(count);
    while voices.len() < count
        invariant
            voices@.len() <= count,
            forall|i: int|
                0 <= i < voices@.len() ==> voices@[i] == (Voice {
                    state: VoiceState::Stopped,
                    position: 0,
                }),
        decreases count - voices@.len(),
    {
        voices.push(Voice::default());
    }
    voices
}

} // verus!
