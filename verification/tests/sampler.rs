use rust_audio_engine::buffer::audio_buffer::{AudioBuffer, Gain};
use rust_audio_engine::buffer::sample_location::SampleLocation;
use rust_audio_engine::dsp::sampler::processor::{SamplerDspProcess, SamplerEvent};
use rust_audio_engine::graph::dsp::{DspParameterMap, DspProcessor};
use rust_audio_engine::timestamp::Timestamp;

/// Planar storage of samples, one channel after the other.
struct OwnedAudioBuffer {
    samples: Vec<f32>,
    num_frames: usize,
    num_channels: usize,
    sample_rate: usize,
}

impl OwnedAudioBuffer {
    fn new(num_frames: usize, num_channels: usize, sample_rate: usize) -> Self {
        Self {
            samples: vec![0.0; num_frames * num_channels],
            num_frames,
            num_channels,
            sample_rate,
        }
    }

    fn get_sample(&self, location: &SampleLocation) -> f32 {
        self.samples[location.channel * self.num_frames + location.frame]
    }

    fn set_sample(&mut self, location: SampleLocation, value: f32) {
        self.samples[location.channel * self.num_frames + location.frame] = value;
    }

    fn fill_with_value(&mut self, value: f32) {
        for sample in self.samples.iter_mut() {
            *sample = value;
        }
    }
}

impl AudioBuffer for OwnedAudioBuffer {
    fn frames(&self) -> usize {
        self.num_frames
    }

    fn channels(&self) -> usize {
        self.num_channels
    }

    fn rate(&self) -> usize {
        self.sample_rate
    }

    fn silent(&self) -> bool {
        self.samples.iter().all(|sample| *sample == 0.0)
    }

    fn cleared(&self) -> Self {
        Self::new(self.num_frames, self.num_channels, self.sample_rate)
    }

    fn mixed(
        &self,
        source: &Self,
        source_location: SampleLocation,
        destination_location: SampleLocation,
        num_channels: usize,
        num_frames: usize,
    ) -> Self {
        self.mixed_with_gain(
            source,
            source_location,
            destination_location,
            num_channels,
            num_frames,
            Gain::unity(),
        )
    }

    fn mixed_with_gain(
        &self,
        source: &Self,
        source_location: SampleLocation,
        destination_location: SampleLocation,
        num_channels: usize,
        num_frames: usize,
        gain: Gain,
    ) -> Self {
        let mut mixed = Self {
            samples: self.samples.clone(),
            num_frames: self.num_frames,
            num_channels: self.num_channels,
            sample_rate: self.sample_rate,
        };
        mixed.add_from_with_gain(
            source,
            source_location,
            destination_location,
            num_channels,
            num_frames,
            gain,
        );
        mixed
    }

    fn with_size(num_frames: usize, num_channels: usize, sample_rate: usize) -> Self {
        Self::new(num_frames, num_channels, sample_rate)
    }

    fn num_frames(&self) -> usize {
        self.num_frames
    }

    fn num_channels(&self) -> usize {
        self.num_channels
    }

    fn sample_rate(&self) -> usize {
        self.sample_rate
    }

    fn clear(&mut self) {
        self.fill_with_value(0.0);
    }

    fn add_from(
        &mut self,
        source: &Self,
        source_location: SampleLocation,
        destination_location: SampleLocation,
        num_channels: usize,
        num_frames: usize,
    ) {
        self.add_from_with_gain(
            source,
            source_location,
            destination_location,
            num_channels,
            num_frames,
            Gain::unity(),
        );
    }

    fn add_from_with_gain(
        &mut self,
        source: &Self,
        source_location: SampleLocation,
        destination_location: SampleLocation,
        num_channels: usize,
        num_frames: usize,
        gain: Gain,
    ) {
        let factor = gain.numerator as f32 / gain.denominator as f32;
        for channel in 0..num_channels {
            for frame in 0..num_frames {
                let from = SampleLocation::new(
                    source_location.channel + channel,
                    source_location.frame + frame,
                );
                let to = SampleLocation::new(
                    destination_location.channel + channel,
                    destination_location.frame + frame,
                );
                let value = self.get_sample(&to) + source.get_sample(&from) * factor;
                self.set_sample(to, value);
            }
        }
    }
}

fn create_sample_with_value(
    num_frames: usize,
    num_channels: usize,
    sample_rate: usize,
    value: f32,
) -> OwnedAudioBuffer {
    let mut sample = OwnedAudioBuffer::new(num_frames, num_channels, sample_rate);
    sample.fill_with_value(value);
    sample
}

fn process_sampler(
    sampler: &mut SamplerDspProcess<OwnedAudioBuffer>,
    num_frames: usize,
    num_channels: usize,
    sample_rate: usize,
) -> OwnedAudioBuffer {
    let mut output_buffer = OwnedAudioBuffer::new(num_frames, num_channels, sample_rate);
    let input_buffer = OwnedAudioBuffer::new(num_frames, num_channels, sample_rate);
    let start_time = Timestamp::zero();

    sampler.process_audio(
        &input_buffer,
        &mut output_buffer,
        num_frames,
        &start_time,
        &DspParameterMap::new(),
    );

    output_buffer
}

fn expect_sample(expected_value: f32, buffer: &OwnedAudioBuffer, frame: usize, channel: usize) {
    let actual = buffer.get_sample(&SampleLocation::new(channel, frame));
    assert!(
        (expected_value - actual).abs() <= 1e-2,
        "frame {}: {} is not {}",
        frame,
        actual,
        expected_value
    );
}

#[test]
fn fades_in() {
    let num_frames = 10_000;
    let sample_rate = 44_100;
    let num_channels = 1;

    let sample = create_sample_with_value(num_frames, num_channels, sample_rate, 1.0);
    let (mut event_transmitter, event_receiver) = lockfree::channel::spsc::create();
    let mut sampler = SamplerDspProcess::new(sample_rate, sample, event_receiver);

    let _ = event_transmitter.send(SamplerEvent::start(
        Timestamp::zero(),
        Timestamp::from_samples(100, sample_rate),
    ));

    let output_buffer = process_sampler(&mut sampler, num_frames, num_channels, sample_rate);

    expect_sample(0.0, &output_buffer, 0, 0);
    expect_sample(0.5, &output_buffer, sampler.fade_length() / 2, 0);
    expect_sample(1.0, &output_buffer, sampler.fade_length(), 0);
}

#[test]
fn fades_out() {
    let num_frames = 10_000;
    let sample_rate = 44_100;
    let num_channels = 1;

    let sample = create_sample_with_value(num_frames, num_channels, sample_rate, 1.0);
    let (mut event_transmitter, event_receiver) = lockfree::channel::spsc::create();
    let mut sampler = SamplerDspProcess::new(sample_rate, sample, event_receiver);

    let _ = event_transmitter.send(SamplerEvent::start(Timestamp::zero(), Timestamp::zero()));

    let fade_length = sampler.fade_length();

    let _ = process_sampler(&mut sampler, 2 * fade_length, num_channels, sample_rate);
    let _ = event_transmitter.send(SamplerEvent::stop(Timestamp::zero()));
    let output = process_sampler(&mut sampler, 2 * fade_length, num_channels, sample_rate);

    expect_sample(1.0, &output, 0, 0);
    expect_sample(0.5, &output, sampler.fade_length() / 2, 0);
    expect_sample(0.0, &output, sampler.fade_length(), 0);
}

#[test]
fn fade_out_beyond_sample() {
    let num_frames = 10_000;
    let sample_rate = 48_000;
    let num_channels = 2;

    let sample = create_sample_with_value(num_frames, num_channels, sample_rate, 1.0);
    let (mut event_transmitter, event_receiver) = lockfree::channel::spsc::create();
    let mut sampler = SamplerDspProcess::new(sample_rate, sample, event_receiver);

    let _ = event_transmitter.send(SamplerEvent::start(Timestamp::zero(), Timestamp::zero()));

    let fade_length = sampler.fade_length();

    let _ = process_sampler(
        &mut sampler,
        num_frames - fade_length / 2,
        num_channels,
        sample_rate,
    );

    let _ = event_transmitter.send(SamplerEvent::stop(Timestamp::zero()));

    let output = process_sampler(&mut sampler, 2 * fade_length, num_channels, sample_rate);

    expect_sample(1.0, &output, 0, 0);
    expect_sample(0.0, &output, sampler.fade_length(), 0);
}

#[test]
fn start_event() {
    let num_frames = 10_000;
    let sample_rate = 48_000;
    let num_channels = 2;

    let sample = create_sample_with_value(num_frames, num_channels, sample_rate, 1.0);
    let (mut event_transmitter, event_receiver) = lockfree::channel::spsc::create();
    let mut sampler = SamplerDspProcess::new(sample_rate, sample, event_receiver);

    let start_time_in_samples = 1500;

    let _ = event_transmitter.send(SamplerEvent::start(
        Timestamp::from_samples(start_time_in_samples, sample_rate),
        Timestamp::zero(),
    ));

    let output = process_sampler(&mut sampler, num_frames, num_channels, sample_rate);
    expect_sample(0.0, &output, start_time_in_samples - 1, 0);
    // The voice fades in from the frame of the event: full level is reached a
    // fade later.
    expect_sample(0.0, &output, start_time_in_samples, 0);
    expect_sample(0.5, &output, start_time_in_samples + sampler.fade_length() / 2, 0);
    expect_sample(1.0, &output, start_time_in_samples + sampler.fade_length(), 0);
}

#[test]
fn stop_event() {
    let num_frames = 10_000;
    let sample_rate = 48_000;
    let num_channels = 2;

    let sample = create_sample_with_value(num_frames, num_channels, sample_rate, 1.0);
    let (mut event_transmitter, event_receiver) = lockfree::channel::spsc::create();
    let mut sampler = SamplerDspProcess::new(sample_rate, sample, event_receiver);

    let stop_time_in_samples = 2000;

    let _ = event_transmitter.send(SamplerEvent::stop(Timestamp::from_samples(
        stop_time_in_samples,
        sample_rate,
    )));

    let _ = event_transmitter.send(SamplerEvent::start(Timestamp::zero(), Timestamp::zero()));

    let output = process_sampler(&mut sampler, num_frames, num_channels, sample_rate);
    // The stop falls into the fade-in, which is 2400 frames long at this rate:
    // the voice turns round at the level that it has reached.
    let fade_length = sampler.fade_length();
    assert_eq!(fade_length, 2400);
    let reached = stop_time_in_samples as f32 / fade_length as f32;
    expect_sample(reached, &output, stop_time_in_samples - 1, 0);
    expect_sample(reached, &output, stop_time_in_samples, 0);
    expect_sample(reached / 2.0, &output, stop_time_in_samples + stop_time_in_samples / 2, 0);
    expect_sample(0.0, &output, stop_time_in_samples + stop_time_in_samples, 0);
    expect_sample(0.0, &output, stop_time_in_samples + sampler.fade_length(), 0);
}

#[test]
fn stop_event_after_the_fade_in() {
    let num_frames = 10_000;
    let sample_rate = 48_000;

    let sample = create_sample_with_value(num_frames, 1, sample_rate, 1.0);
    let (mut event_transmitter, event_receiver) = lockfree::channel::spsc::create();
    let mut sampler = SamplerDspProcess::new(sample_rate, sample, event_receiver);

    let stop_time_in_samples = 3000;
    let _ = event_transmitter.send(SamplerEvent::start(Timestamp::zero(), Timestamp::zero()));
    let _ = event_transmitter.send(SamplerEvent::stop(Timestamp::from_samples(
        stop_time_in_samples,
        sample_rate,
    )));

    let output = process_sampler(&mut sampler, num_frames, 1, sample_rate);
    let fade_length = sampler.fade_length();
    expect_sample(1.0, &output, stop_time_in_samples - 1, 0);
    expect_sample(1.0, &output, stop_time_in_samples, 0);
    expect_sample(0.5, &output, stop_time_in_samples + fade_length / 2, 0);
    expect_sample(0.0, &output, stop_time_in_samples + fade_length, 0);
}

#[test]
fn fade_is_fifty_milliseconds_long() {
    let (_transmitter, receiver) = lockfree::channel::spsc::create();
    let sampler = SamplerDspProcess::new(44_100, OwnedAudioBuffer::new(4, 1, 44_100), receiver);
    assert_eq!(sampler.fade_length(), 2205);

    let (_transmitter, receiver) = lockfree::channel::spsc::create();
    let sampler = SamplerDspProcess::new(48_000, OwnedAudioBuffer::new(4, 1, 48_000), receiver);
    assert_eq!(sampler.fade_length(), 2400);

    let (_transmitter, receiver) = lockfree::channel::spsc::create();
    let sampler = SamplerDspProcess::new(30, OwnedAudioBuffer::new(4, 1, 30), receiver);
    assert_eq!(sampler.fade_length(), 2);
}

#[test]
fn second_start_fades_over_the_first() {
    let sample_rate = 1000;
    let mut sample = OwnedAudioBuffer::new(1000, 1, sample_rate);
    for frame in 0..1000 {
        sample.set_sample(SampleLocation::new(0, frame), if frame < 500 { 1.0 } else { 3.0 });
    }
    let (mut event_transmitter, event_receiver) = lockfree::channel::spsc::create();
    let mut sampler = SamplerDspProcess::new(sample_rate, sample, event_receiver);
    assert_eq!(sampler.fade_length(), 50);

    let _ = event_transmitter.send(SamplerEvent::start(Timestamp::zero(), Timestamp::zero()));
    let _ = event_transmitter.send(SamplerEvent::start(
        Timestamp::from_samples(100, sample_rate),
        Timestamp::from_samples(500, sample_rate),
    ));

    let output = process_sampler(&mut sampler, 400, 1, sample_rate);
    expect_sample(1.0, &output, 99, 0);
    // first voice at 1.0 on the way down, second at 3.0 on the way up
    expect_sample(1.0 * 1.0 + 3.0 * 0.0, &output, 100, 0);
    expect_sample(1.0 * 0.5 + 3.0 * 0.5, &output, 125, 0);
    expect_sample(3.0, &output, 150, 0);
    expect_sample(3.0, &output, 399, 0);
}

#[test]
fn third_start_is_dropped_while_two_voices_sound() {
    let sample_rate = 1000;
    let sample = create_sample_with_value(1000, 1, sample_rate, 1.0);
    let (mut event_transmitter, event_receiver) = lockfree::channel::spsc::create();
    let mut sampler = SamplerDspProcess::new(sample_rate, sample, event_receiver);

    let _ = event_transmitter.send(SamplerEvent::start(Timestamp::zero(), Timestamp::zero()));
    let _ = event_transmitter.send(SamplerEvent::start(
        Timestamp::from_samples(100, sample_rate),
        Timestamp::from_samples(500, sample_rate),
    ));
    let _ = event_transmitter.send(SamplerEvent::start(
        Timestamp::from_samples(110, sample_rate),
        Timestamp::from_samples(700, sample_rate),
    ));

    let output = process_sampler(&mut sampler, 400, 1, sample_rate);
    // at 110 the first voice has 40 steps left, the second has done 10: both are
    // told to fade out, none is free, and the third start is lost
    expect_sample(40.0 / 50.0 + 10.0 / 50.0, &output, 110, 0);
    expect_sample(30.0 / 50.0, &output, 120, 0);
    expect_sample(0.0, &output, 150, 0);
    expect_sample(0.0, &output, 399, 0);
}

#[test]
fn start_at_the_position_of_the_active_voice_is_ignored() {
    let sample_rate = 1000;
    let sample = create_sample_with_value(1000, 1, sample_rate, 1.0);
    let (mut event_transmitter, event_receiver) = lockfree::channel::spsc::create();
    let mut sampler = SamplerDspProcess::new(sample_rate, sample, event_receiver);

    let _ = event_transmitter.send(SamplerEvent::start(Timestamp::zero(), Timestamp::zero()));
    let _ = event_transmitter.send(SamplerEvent::start(
        Timestamp::from_samples(200, sample_rate),
        Timestamp::from_samples(200, sample_rate),
    ));

    let output = process_sampler(&mut sampler, 400, 1, sample_rate);
    expect_sample(1.0, &output, 199, 0);
    expect_sample(1.0, &output, 200, 0);
    expect_sample(1.0, &output, 225, 0);
}

#[test]
fn late_event_happens_at_the_start_of_the_block() {
    let sample_rate = 1000;
    let sample = create_sample_with_value(1000, 1, sample_rate, 1.0);
    let (mut event_transmitter, event_receiver) = lockfree::channel::spsc::create();
    let mut sampler = SamplerDspProcess::new(sample_rate, sample, event_receiver);
    let _ = event_transmitter.send(SamplerEvent::start(Timestamp::zero(), Timestamp::zero()));

    let mut output_buffer = OwnedAudioBuffer::new(200, 1, sample_rate);
    let input_buffer = OwnedAudioBuffer::new(200, 1, sample_rate);
    sampler.process_audio(
        &input_buffer,
        &mut output_buffer,
        200,
        &Timestamp::from_samples(5000, sample_rate),
        &DspParameterMap::new(),
    );
    expect_sample(0.0, &output_buffer, 0, 0);
    expect_sample(0.5, &output_buffer, 25, 0);
    expect_sample(1.0, &output_buffer, 50, 0);
}

#[test]
fn event_after_the_block_waits_for_its_block() {
    let sample_rate = 1000;
    let sample = create_sample_with_value(1000, 1, sample_rate, 1.0);
    let (mut event_transmitter, event_receiver) = lockfree::channel::spsc::create();
    let mut sampler = SamplerDspProcess::new(sample_rate, sample, event_receiver);
    let _ = event_transmitter.send(SamplerEvent::start(
        Timestamp::from_samples(250, sample_rate),
        Timestamp::zero(),
    ));

    let output = process_sampler(&mut sampler, 200, 1, sample_rate);
    assert!(output.silent());

    let mut output_buffer = OwnedAudioBuffer::new(200, 1, sample_rate);
    let input_buffer = OwnedAudioBuffer::new(200, 1, sample_rate);
    sampler.process_audio(
        &input_buffer,
        &mut output_buffer,
        200,
        &Timestamp::from_samples(200, sample_rate),
        &DspParameterMap::new(),
    );
    expect_sample(0.0, &output_buffer, 49, 0);
    expect_sample(0.0, &output_buffer, 50, 0);
    expect_sample(0.5, &output_buffer, 75, 0);
    expect_sample(1.0, &output_buffer, 100, 0);
}

#[test]
fn eleventh_event_waits_in_the_channel() {
    let sample_rate = 1000;
    let sample = create_sample_with_value(1000, 1, sample_rate, 1.0);
    let (mut event_transmitter, event_receiver) = lockfree::channel::spsc::create();
    let mut sampler = SamplerDspProcess::new(sample_rate, sample, event_receiver);
    for _ in 0..10 {
        let _ = event_transmitter.send(SamplerEvent::stop(Timestamp::from_samples(
            900,
            sample_rate,
        )));
    }
    let _ = event_transmitter.send(SamplerEvent::start(Timestamp::zero(), Timestamp::zero()));

    // ten stops wait for frame 900; the start is still in the channel
    let output = process_sampler(&mut sampler, 100, 1, sample_rate);
    assert!(output.silent());
    assert!(sampler.insert_event(SamplerEvent::stop(Timestamp::zero())) == false);
}

#[test]
fn inserted_events_happen_in_the_order_of_their_times() {
    let sample_rate = 1000;
    let sample = create_sample_with_value(1000, 1, sample_rate, 1.0);
    let (_event_transmitter, event_receiver) = lockfree::channel::spsc::create();
    let mut sampler = SamplerDspProcess::new(sample_rate, sample, event_receiver);
    assert!(sampler.insert_event(SamplerEvent::stop(Timestamp::from_samples(300, sample_rate))));
    assert!(sampler.insert_event(SamplerEvent::start(Timestamp::from_samples(100, sample_rate), Timestamp::zero())));

    let mut output = OwnedAudioBuffer::new(500, 1, sample_rate);
    sampler.render_block(&mut output, 500, &Timestamp::zero());
    expect_sample(0.0, &output, 99, 0);
    expect_sample(0.5, &output, 125, 0);
    expect_sample(1.0, &output, 299, 0);
    expect_sample(1.0, &output, 300, 0);
    expect_sample(0.5, &output, 325, 0);
    expect_sample(0.0, &output, 350, 0);
}

#[test]
fn sample_with_fewer_channels_than_the_output_plays_on_its_own_channels() {
    let sample_rate = 1000;
    let sample = create_sample_with_value(1000, 1, sample_rate, 1.0);
    let (_event_transmitter, event_receiver) = lockfree::channel::spsc::create();
    let mut sampler = SamplerDspProcess::new(sample_rate, sample, event_receiver);
    assert!(sampler.insert_event(SamplerEvent::start(Timestamp::zero(), Timestamp::zero())));

    let mut output = OwnedAudioBuffer::new(100, 2, sample_rate);
    sampler.render_block(&mut output, 100, &Timestamp::zero());
    expect_sample(1.0, &output, 60, 0);
    expect_sample(0.0, &output, 60, 1);
}

#[test]
fn start_from_the_beginning_of_the_sample_fades_in() {
    let num_frames = 10_000;
    let sample_rate = 44_100;

    let sample = create_sample_with_value(num_frames, 1, sample_rate, 1.0);
    let (mut event_transmitter, event_receiver) = lockfree::channel::spsc::create();
    let mut sampler = SamplerDspProcess::new(sample_rate, sample, event_receiver);

    let _ = event_transmitter.send(SamplerEvent::start(Timestamp::zero(), Timestamp::zero()));

    let output_buffer = process_sampler(&mut sampler, num_frames, 1, sample_rate);

    let fade_length = sampler.fade_length();
    assert_eq!(output_buffer.get_sample(&SampleLocation::new(0, 0)), 0.0);
    expect_sample(0.5, &output_buffer, fade_length / 2, 0);
    expect_sample(1.0, &output_buffer, fade_length, 0);
    assert_eq!(output_buffer.get_sample(&SampleLocation::new(0, fade_length)), 1.0);
}
