use rust_audio_engine::buffer::audio_buffer::{AudioBuffer, Gain};
use rust_audio_engine::buffer::sample_location::SampleLocation;
use rust_audio_engine::dsp::sampler::fade::Fade;
use rust_audio_engine::dsp::sampler::voice::{Voice, VoiceState};

/// Planar storage of samples, one channel after the other.
struct OwnedAudioBuffer {
    samples: Vec<f32>,
    num_frames: usize,
    num_channels: usize,
    sample_rate: usize,
}

impl OwnedAudioBuffer {
    fn new(num_frames: usize, num_channels: usize, sample_rate: usize) -> Self {
        Self {
            samples: vec![0.0; num_frames * num_channels],
            num_frames,
            num_channels,
            sample_rate,
        }
    }

    fn get_sample(&self, location: &SampleLocation) -> f32 {
        self.samples[location.channel * self.num_frames + location.frame]
    }

    fn set_sample(&mut self, location: SampleLocation, value: f32) {
        self.samples[location.channel * self.num_frames + location.frame] = value;
    }

    fn fill_with_value(&mut self, value: f32) {
        for sample in self.samples.iter_mut() {
            *sample = value;
        }
    }
}

impl AudioBuffer for OwnedAudioBuffer {
    fn frames(&self) -> usize {
        self.num_frames
    }

    fn channels(&self) -> usize {
        self.num_channels
    }

    fn rate(&self) -> usize {
        self.sample_rate
    }

    fn silent(&self) -> bool {
        self.samples.iter().all(|sample| *sample == 0.0)
    }

    fn cleared(&self) -> Self {
        Self::new(self.num_frames, self.num_channels, self.sample_rate)
    }

    fn mixed(
        &self,
        source: &Self,
        source_location: SampleLocation,
        destination_location: SampleLocation,
        num_channels: usize,
        num_frames: usize,
    ) -> Self {
        self.mixed_with_gain(
            source,
            source_location,
            destination_location,
            num_channels,
            num_frames,
            Gain::unity(),
        )
    }

    fn mixed_with_gain(
        &self,
        source: &Self,
        source_location: SampleLocation,
        destination_location: SampleLocation,
        num_channels: usize,
        num_frames: usize,
        gain: Gain,
    ) -> Self {
        let mut mixed = Self {
            samples: self.samples.clone(),
            num_frames: self.num_frames,
            num_channels: self.num_channels,
            sample_rate: self.sample_rate,
        };
        mixed.add_from_with_gain(
            source,
            source_location,
            destination_location,
            num_channels,
            num_frames,
            gain,
        );
        mixed
    }

    fn with_size(num_frames: usize, num_channels: usize, sample_rate: usize) -> Self {
        Self::new(num_frames, num_channels, sample_rate)
    }

    fn num_frames(&self) -> usize {
        self.num_frames
    }

    fn num_channels(&self) -> usize {
        self.num_channels
    }

    fn sample_rate(&self) -> usize {
        self.sample_rate
    }

    fn clear(&mut self) {
        self.fill_with_value(0.0);
    }

    fn add_from(
        &mut self,
        source: &Self,
        source_location: SampleLocation,
        destination_location: SampleLocation,
        num_channels: usize,
        num_frames: usize,
    ) {
        self.add_from_with_gain(
            source,
            source_location,
            destination_location,
            num_channels,
            num_frames,
            Gain::unity(),
        );
    }

    fn add_from_with_gain(
        &mut self,
        source: &Self,
        source_location: SampleLocation,
        destination_location: SampleLocation,
        num_channels: usize,
        num_frames: usize,
        gain: Gain,
    ) {
        let factor = gain.numerator as f32 / gain.denominator as f32;
        for channel in 0..num_channels {
            for frame in 0..num_frames {
                let from = SampleLocation::new(
                    source_location.channel + channel,
                    source_location.frame + frame,
                );
                let to = SampleLocation::new(
                    destination_location.channel + channel,
                    destination_location.frame + frame,
                );
                let value = self.get_sample(&to) + source.get_sample(&from) * factor;
                self.set_sample(to, value);
            }
        }
    }
}

fn ones(num_frames: usize) -> OwnedAudioBuffer {
    let mut sample = OwnedAudioBuffer::new(num_frames, 1, 1000);
    sample.fill_with_value(1.0);
    sample
}

#[test]
fn fade_length_is_rounded_up() {
    assert_eq!(Fade::new(50, 44100).len(), 2205);
    assert_eq!(Fade::new(50, 48000).len(), 2400);
    assert_eq!(Fade::new(50, 30).len(), 2);
    assert_eq!(Fade::new(50, 1).len(), 1);
    assert_eq!(Fade::new(50, 0).len(), 0);
    assert_eq!(Fade::new(0, 44100).len(), 0);
    assert_eq!(Fade::new(usize::MAX, usize::MAX).len(), usize::MAX);
}

#[test]
fn fade_gain_is_linear() {
    let fade = Fade::new(50, 1000);
    assert_eq!(fade.len(), 50);
    assert_eq!(fade.gain_at(0), Gain::new(0, 50));
    assert_eq!(fade.gain_at(25), Gain::new(25, 50));
    assert_eq!(fade.gain_at(49), Gain::new(49, 50));
    assert_eq!(fade.gain_at(50), Gain::unity());
    assert_eq!(fade.gain_at(5000), Gain::unity());
    assert_eq!(Fade::new(0, 1000).gain_at(0), Gain::unity());
}

#[test]
fn new_voice_is_stopped() {
    let voice = Voice::default();
    assert!(voice.is_stopped());
    assert_eq!(voice.get_position(), 0);
}

#[test]
fn voice_fades_in_frame_by_frame() {
    let fade = Fade::new(50, 1000);
    let mut voice = Voice::default();
    voice.start_from_position(100);
    assert_eq!(voice.state, VoiceState::FadingIn(0));

    assert_eq!(voice.advance(1000, &fade), Some((100, Gain::new(0, 50))));
    assert_eq!(voice.advance(1000, &fade), Some((101, Gain::new(1, 50))));
    for _ in 2..49 {
        voice.advance(1000, &fade);
    }
    assert_eq!(voice.state, VoiceState::FadingIn(49));
    assert_eq!(voice.advance(1000, &fade), Some((149, Gain::new(49, 50))));
    assert_eq!(voice.state, VoiceState::Playing);
    assert_eq!(voice.advance(1000, &fade), Some((150, Gain::unity())));
    assert_eq!(voice.get_position(), 151);
}

#[test]
fn voice_fades_out_frame_by_frame() {
    let fade = Fade::new(50, 1000);
    let mut voice = Voice { state: VoiceState::Playing, position: 10 };
    voice.stop(&fade);
    assert_eq!(voice.state, VoiceState::FadingOut(50));
    assert_eq!(voice.get_position(), 10);

    assert_eq!(voice.advance(1000, &fade), Some((10, Gain::unity())));
    assert_eq!(voice.advance(1000, &fade), Some((11, Gain::new(49, 50))));
    for _ in 2..49 {
        voice.advance(1000, &fade);
    }
    assert_eq!(voice.advance(1000, &fade), Some((59, Gain::new(1, 50))));
    assert!(voice.is_stopped());
    assert_eq!(voice.advance(1000, &fade), None);
    assert_eq!(voice.get_position(), 60);
}

#[test]
fn stop_in_the_fade_in_turns_round_at_the_same_gain() {
    let fade = Fade::new(50, 1000);
    let mut voice = Voice { state: VoiceState::FadingIn(20), position: 20 };
    voice.stop(&fade);
    assert_eq!(voice.state, VoiceState::FadingOut(20));
    assert_eq!(voice.advance(1000, &fade), Some((20, Gain::new(20, 50))));
    assert_eq!(voice.state, VoiceState::FadingOut(19));
}

#[test]
fn stop_before_the_first_frame_stops_at_once() {
    let fade = Fade::new(50, 1000);
    let mut voice = Voice::default();
    voice.start_from_position(7);
    voice.stop(&fade);
    assert!(voice.is_stopped());
    assert_eq!(voice.get_position(), 7);
}

#[test]
fn stop_of_a_stopped_or_fading_voice_changes_nothing() {
    let fade = Fade::new(50, 1000);
    let mut voice = Voice::default();
    voice.stop(&fade);
    assert_eq!(voice, Voice::default());
    let mut voice = Voice { state: VoiceState::FadingOut(3), position: 9 };
    voice.stop(&fade);
    assert_eq!(voice, Voice { state: VoiceState::FadingOut(3), position: 9 });
}

#[test]
fn voice_without_a_fade_starts_and_stops_at_once() {
    let fade = Fade::new(0, 1000);
    let mut voice = Voice::default();
    voice.start_from_position(0);
    assert_eq!(voice.advance(10, &fade), Some((0, Gain::unity())));
    assert_eq!(voice.state, VoiceState::Playing);
    voice.stop(&fade);
    assert!(voice.is_stopped());
}

#[test]
fn voice_fades_out_when_it_runs_off_the_sample() {
    let fade = Fade::new(50, 1000);
    let mut voice = Voice { state: VoiceState::Playing, position: 9 };
    assert_eq!(voice.advance(10, &fade), Some((9, Gain::unity())));
    // past the end: the voice fades out over nothing
    assert_eq!(voice.advance(10, &fade), None);
    assert_eq!(voice.state, VoiceState::FadingOut(49));
    assert_eq!(voice.get_position(), 11);
    for _ in 0..49 {
        assert_eq!(voice.advance(10, &fade), None);
    }
    assert!(voice.is_stopped());
    assert_eq!(voice.get_position(), 60);
    assert_eq!(voice.advance(10, &fade), None);
    assert_eq!(voice.get_position(), 60);
}

#[test]
fn playhead_moves_by_the_frames_that_were_played() {
    let fade = Fade::new(50, 1000);
    let sample = ones(1000);
    let mut output = OwnedAudioBuffer::new(400, 1, 1000);

    let mut voice = Voice::default();
    voice.render(&mut output, 0, 400, &sample, &fade);
    assert_eq!(voice.get_position(), 0);

    voice.start_from_position(100);
    voice.render(&mut output, 0, 300, &sample, &fade);
    assert_eq!(voice.get_position(), 400);

    voice.stop(&fade);
    voice.render(&mut output, 0, 400, &sample, &fade);
    // fifty frames of fade-out, then stopped
    assert_eq!(voice.get_position(), 450);
    assert!(voice.is_stopped());
}

#[test]
fn voice_renders_on_top_of_what_is_there() {
    let fade = Fade::new(50, 1000);
    let sample = ones(1000);
    let mut output = OwnedAudioBuffer::new(200, 1, 1000);
    output.fill_with_value(0.25);

    let mut voice = Voice::default();
    voice.start_from_position(0);
    voice.render(&mut output, 100, 100, &sample, &fade);

    assert_eq!(output.get_sample(&SampleLocation::new(0, 99)), 0.25);
    assert_eq!(output.get_sample(&SampleLocation::new(0, 100)), 0.25);
    assert_eq!(output.get_sample(&SampleLocation::new(0, 125)), 0.75);
    assert_eq!(output.get_sample(&SampleLocation::new(0, 150)), 1.25);
    assert_eq!(output.get_sample(&SampleLocation::new(0, 199)), 1.25);
}

#[test]
fn voice_started_past_the_end_of_the_sample_stops_in_its_first_frame() {
    let fade = Fade::new(50, 1000);
    let mut voice = Voice::default();
    voice.start_from_position(10);
    assert_eq!(voice.advance(10, &fade), None);
    assert!(voice.is_stopped());
    assert_eq!(voice.get_position(), 11);
    assert_eq!(voice.advance(10, &fade), None);
    assert_eq!(voice.get_position(), 11);
}
