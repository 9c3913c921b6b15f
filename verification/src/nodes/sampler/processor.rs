use crate::buffer::audio_buffer::AudioBuffer;
use crate::dsp::sampler::fade::fade_length;
use crate::dsp::sampler::fade::Fade;
use crate::dsp::sampler::processor::after_start;
use crate::dsp::sampler::processor::after_stop;
use crate::dsp::sampler::processor::SamplerEvent;
use crate::dsp::sampler::processor::SamplerState;
use crate::dsp::sampler::voice::advance_all;
use crate::dsp::sampler::voice::first_stopped;
use crate::dsp::sampler::voice::render_voices;
use crate::dsp::sampler::voice::rendered_voices;
use crate::dsp::sampler::voice::shared_channels;
use crate::dsp::sampler::voice::start_free_voice;
use crate::dsp::sampler::voice::stop_all;
use crate::dsp::sampler::voice::stop_voices;
use crate::dsp::sampler::voice::stopped_voices;
use crate::dsp::sampler::voice::Voice;
use crate::dsp::sampler::voice::VoiceState;
use crate::graph::dsp::DspParameterMap;
use crate::graph::dsp::DspProcessor;
use crate::timestamp::Timestamp;
use vstd::prelude::*;

verus! {

pub const NUM_VOICES: usize = 4;

pub const FADE_LENGTH_MS: usize = 50;

/// Plays one sample, started and stopped by direct calls between blocks. A
/// start lets the sound before it fade out while the new one fades in.
pub struct SamplerDspProcess<B> {
    fade: Fade,
    voices: Vec<Voice>,
    active_voice: Option<usize>,
    buffer: B,
}

impl<B: AudioBuffer> SamplerDspProcess<B> {
    pub closed spec fn fade(&self) -> Fade {
        self.fade
    }

    /// The sample that is played.
    pub closed spec fn sample(&self) -> B {
        self.buffer
    }

    /// The voices and which of them is the active one. No events wait: this
    /// sampler has none.
    pub closed spec fn state(&self) -> SamplerState {
        SamplerState {
            voices: self.voices@,
            active_voice: self.active_voice,
            pending_events: Seq::<SamplerEvent>::empty(),
        }
    }

    /// A sampler for `buffer` whose voices are all stopped.
    pub fn new(sample_rate: usize, buffer: B) -> (sampler: Self)
        ensures
            sampler.fade().length() == fade_length(FADE_LENGTH_MS, sample_rate),
            sampler.sample() == buffer,
            sampler.state().voices == Seq::new(
                NUM_VOICES as nat,
                |i: int| Voice { state: VoiceState::Stopped, position: 0 },
            ),
            sampler.state().active_voice is None,
    {
        let voices = stopped_voices(NUM_VOICES);
        Self { fade: Fade::new(FADE_LENGTH_MS, sample_rate), voices, active_voice: None, buffer }
    }

    /// The length of the fades in samples.
    pub fn fade_length(&self) -> (length: usize)
        ensures
            length == self.fade().length(),
    {
        self.fade.len()
    }

    /// Starts the first voice that is stopped from `position`, after what
    /// played has been told to fade out.
    fn assign_voice(&mut self, position: usize)
        ensures
            final(self).fade() == old(self).fade(),
            final(self).sample() == old(self).sample(),
            final(self).state().pending_events == old(self).state().pending_events,
            ({
                let stopped = stop_all(old(self).state().voices, old(self).fade().length());
                let free = first_stopped(stopped);
                &&& free >= 0 ==> final(self).state().voices == stopped.update(
                    free,
                    Voice { state: VoiceState::FadingIn(0), position },
                ) && final(self).state().active_voice == Some(free as usize)
                &&& free < 0
                    ==> final(self).state().voices == stopped
                        && final(self).state().active_voice is None
            }),
    {
        self.stop();
        self.active_voice = start_free_voice(&mut self.voices, position);
    }

    fn get_active_voice(&self) -> (voice: Option<&Voice>)
        ensures
            voice is Some <==> (self.active_voice matches Some(active) && active
                < self.voices@.len()),
            voice matches Some(v) ==> *v == self.voices@[self.active_voice->0 as int],
    {
        if let Some(active_voice_index) = self.active_voice {
            if active_voice_index < self.voices.len() {
                return Some(&self.voices[active_voice_index]);
            }
        }
        None
    }

    fn get_active_voice_position(&self) -> (position: Option<usize>)
        ensures
            position is Some <==> (self.active_voice matches Some(active) && active
                < self.voices@.len()),
            position matches Some(p) ==> p == self.voices@[self.active_voice->0 as int].position,
    {
        match self.get_active_voice() {
            Some(voice) => Some(voice.get_position()),
            None => None,
        }
    }

    /// Starts to play from `from_position`, unless the active voice stands
    /// there already.
    pub fn start(&mut self, from_position: usize)
        ensures
            final(self).fade() == old(self).fade(),
            final(self).sample() == old(self).sample(),
            final(self).state() == after_start(
                old(self).state(),
                from_position,
                old(self).fade().length(),
            ),
    {
        if let Some(current_position) = self.get_active_voice_position() {
            if current_position == from_position {
                return ;
            }
        }
        self.assign_voice(from_position);
    }

    /// Lets every voice that plays fade out.
    pub fn stop(&mut self)
        ensures
            final(self).fade() == old(self).fade(),
            final(self).sample() == old(self).sample(),
            final(self).state() == after_stop(old(self).state(), old(self).fade().length()),
    {
        stop_voices(&mut self.voices, &self.fade);
        self.active_voice = None;
    }

    /// Lets every voice play the first `num_frames` frames of the block into
    /// `output_buffer`, one on top of the other.
    pub fn render_block(&mut self, output_buffer: &mut B, num_frames: usize)
        requires
            num_frames <= old(output_buffer).frames(),
        ensures
            final(self).fade() == old(self).fade(),
            final(self).sample() == old(self).sample(),
            final(self).state() == (SamplerState {
                voices: advance_all(
                    old(self).state().voices,
                    num_frames as nat,
                    old(self).sample().frames(),
                    old(self).fade().length(),
                ),
                active_voice: old(self).state().active_voice,
                pending_events: Seq::<SamplerEvent>::empty(),
            }),
            *final(output_buffer) == rendered_voices(
                *old(output_buffer),
                old(self).state().voices,
                0,
                num_frames as nat,
                old(self).sample(),
                old(self).fade().length(),
                shared_channels(old(output_buffer).channels(), old(self).sample().channels()),
                old(self).state().voices.len(),
            ),
            final(output_buffer).frames() == old(output_buffer).frames(),
            final(output_buffer).channels() == old(output_buffer).channels(),
            final(output_buffer).rate() == old(output_buffer).rate(),
    {
        render_voices(&mut self.voices, output_buffer, 0, num_frames, &self.buffer, &self.fade);
    }
}

impl<B: AudioBuffer + Send> DspProcessor<B> for SamplerDspProcess<B> {
    /// Every voice plays the first `num_frames` frames of the block on top of
    /// what is there. The input, the time and the parameters play no part.
    open spec fn renders(
        &self,
        input_buffer: &B,
        output_buffer: &B,
        rendered: &B,
        num_frames: usize,
        start_time: &Timestamp,
        parameters: &DspParameterMap,
    ) -> bool {
        *rendered == rendered_voices(
            *output_buffer,
            self.state().voices,
            0,
            num_frames as nat,
            self.sample(),
            self.fade().length(),
            shared_channels(output_buffer.channels(), self.sample().channels()),
            self.state().voices.len(),
        )
    }

    fn process_audio(
        &mut self,
        _input_buffer: &B,
        output_buffer: &mut B,
        num_frames: usize,
        _start_time: &Timestamp,
        _parameters: &DspParameterMap,
    )
        ensures
            final(self).fade() == old(self).fade(),
            final(self).sample() == old(self).sample(),
            final(self).state() == (SamplerState {
                voices: advance_all(
                    old(self).state().voices,
                    num_frames as nat,
                    old(self).sample().frames(),
                    old(self).fade().length(),
                ),
                active_voice: old(self).state().active_voice,
                pending_events: Seq::<SamplerEvent>::empty(),
            }),
            *final(output_buffer) == rendered_voices(
                *old(output_buffer),
                old(self).state().voices,
                0,
                num_frames as nat,
                old(self).sample(),
                old(self).fade().length(),
                shared_channels(old(output_buffer).channels(), old(self).sample().channels()),
                old(self).state().voices.len(),
            ),
    {
        self.render_block(output_buffer, num_frames);
    }
}

} // verus!
