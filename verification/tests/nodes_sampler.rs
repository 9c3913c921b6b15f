use rust_audio_engine::buffer::audio_buffer::{AudioBuffer, Gain};
use rust_audio_engine::buffer::sample_location::SampleLocation;
use rust_audio_engine::graph::dsp::{DspParameterMap, DspProcessor};
use rust_audio_engine::nodes::sampler::processor::SamplerDspProcess;
use rust_audio_engine::timestamp::Timestamp;

/// Planar storage of samples, one channel after the other.
struct OwnedAudioBuffer {
    samples: Vec<f32>,
    num_frames: usize,
    num_channels: usize,
    sample_rate: usize,
}

impl OwnedAudioBuffer {
    fn new(num_frames: usize, num_channels: usize, sample_rate: usize) -> Self {
        Self {
            samples: vec![0.0; num_frames * num_channels],
            num_frames,
            num_channels,
            sample_rate,
        }
    }

    fn get_sample(&self, location: &SampleLocation) -> f32 {
        self.samples[location.channel * self.num_frames + location.frame]
    }

    fn set_sample(&mut self, location: SampleLocation, value: f32) {
        self.samples[location.channel * self.num_frames + location.frame] = value;
    }

    fn fill_with_value(&mut self, value: f32) {
        for sample in self.samples.iter_mut() {
            *sample = value;
        }
    }
}

impl AudioBuffer for OwnedAudioBuffer {
    fn frames(&self) -> usize {
        self.num_frames
    }

    fn channels(&self) -> usize {
        self.num_channels
    }

    fn rate(&self) -> usize {
        self.sample_rate
    }

    fn silent(&self) -> bool {
        self.samples.iter().all(|sample| *sample == 0.0)
    }

    fn cleared(&self) -> Self {
        Self::new(self.num_frames, self.num_channels, self.sample_rate)
    }

    fn mixed(
        &self,
        source: &Self,
        source_location: SampleLocation,
        destination_location: SampleLocation,
        num_channels: usize,
        num_frames: usize,
    ) -> Self {
        self.mixed_with_gain(
            source,
            source_location,
            destination_location,
            num_channels,
            num_frames,
            Gain::unity(),
        )
    }

    fn mixed_with_gain(
        &self,
        source: &Self,
        source_location: SampleLocation,
        destination_location: SampleLocation,
        num_channels: usize,
        num_frames: usize,
        gain: Gain,
    ) -> Self {
        let mut mixed = Self {
            samples: self.samples.clone(),
            num_frames: self.num_frames,
            num_channels: self.num_channels,
            sample_rate: self.sample_rate,
        };
        mixed.add_from_with_gain(
            source,
            source_location,
            destination_location,
            num_channels,
            num_frames,
            gain,
        );
        mixed
    }

    fn with_size(num_frames: usize, num_channels: usize, sample_rate: usize) -> Self {
        Self::new(num_frames, num_channels, sample_rate)
    }

    fn num_frames(&self) -> usize {
        self.num_frames
    }

    fn num_channels(&self) -> usize {
        self.num_channels
    }

    fn sample_rate(&self) -> usize {
        self.sample_rate
    }

    fn clear(&mut self) {
        self.fill_with_value(0.0);
    }

    fn add_from(
        &mut self,
        source: &Self,
        source_location: SampleLocation,
        destination_location: SampleLocation,
        num_channels: usize,
        num_frames: usize,
    ) {
        self.add_from_with_gain(
            source,
            source_location,
            destination_location,
            num_channels,
            num_frames,
            Gain::unity(),
        );
    }

    fn add_from_with_gain(
        &mut self,
        source: &Self,
        source_location: SampleLocation,
        destination_location: SampleLocation,
        num_channels: usize,
        num_frames: usize,
        gain: Gain,
    ) {
        let factor = gain.numerator as f32 / gain.denominator as f32;
        for channel in 0..num_channels {
            for frame in 0..num_frames {
                let from = SampleLocation::new(
                    source_location.channel + channel,
                    source_location.frame + frame,
                );
                let to = SampleLocation::new(
                    destination_location.channel + channel,
                    destination_location.frame + frame,
                );
                let value = self.get_sample(&to) + source.get_sample(&from) * factor;
                self.set_sample(to, value);
            }
        }
    }
}

fn create_sample_with_value(
    num_frames: usize,
    num_channels: usize,
    sample_rate: usize,
    value: f32,
) -> OwnedAudioBuffer {
    let mut sample = OwnedAudioBuffer::new(num_frames, num_channels, sample_rate);
    sample.fill_with_value(value);
    sample
}

fn process_sampler(
    sampler: &mut SamplerDspProcess<OwnedAudioBuffer>,
    num_frames: usize,
    num_channels: usize,
    sample_rate: usize,
) -> OwnedAudioBuffer {
    let mut output_buffer = OwnedAudioBuffer::new(num_frames, num_channels, sample_rate);
    let input_buffer = OwnedAudioBuffer::new(num_frames, num_channels, sample_rate);
    let start_time = Timestamp::from_ticks(0);

    sampler.process_audio(
        &input_buffer,
        &mut output_buffer,
        num_frames,
        &start_time,
        &DspParameterMap::new(),
    );

    output_buffer
}

fn assert_relative_eq(expected: f32, actual: f32, epsilon: f32) {
    assert!((expected - actual).abs() <= epsilon, "{} is not {}", actual, expected);
}

#[test]
fn processor_fades_in() {
    let num_frames = 10_000;
    let sample_rate = 44_100;
    let num_channels = 1;

    let sample = create_sample_with_value(num_frames, num_channels, sample_rate, 1.0);
    let mut sampler = SamplerDspProcess::new(sample_rate, sample);

    sampler.start(0);

    let output_buffer = process_sampler(&mut sampler, num_frames, num_channels, sample_rate);

    assert_relative_eq(
        0.0,
        output_buffer.get_sample(&SampleLocation { frame: 0, channel: 0 }),
        f32::EPSILON,
    );
    assert_relative_eq(
        0.5,
        output_buffer.get_sample(&SampleLocation { frame: sampler.fade_length() / 2, channel: 0 }),
        0.01,
    );
    assert_relative_eq(
        1.0,
        output_buffer.get_sample(&SampleLocation { frame: sampler.fade_length(), channel: 0 }),
        0.01,
    );
}

#[test]
fn processor_fades_out() {
    let num_frames = 10_000;
    let sample_rate = 44_100;
    let num_channels = 1;

    let sample = create_sample_with_value(num_frames, num_channels, sample_rate, 1.0);
    let mut sampler = SamplerDspProcess::new(sample_rate, sample);

    sampler.start(0);

    let fade_length = sampler.fade_length();

    let _ = process_sampler(&mut sampler, 2 * fade_length, num_channels, sample_rate);
    sampler.stop();
    let output = process_sampler(&mut sampler, 2 * fade_length, num_channels, sample_rate);

    assert_relative_eq(
        1.0,
        output.get_sample(&SampleLocation { frame: 0, channel: 0 }),
        f32::EPSILON,
    );
    assert_relative_eq(
        0.5,
        output.get_sample(&SampleLocation { frame: sampler.fade_length() / 2, channel: 0 }),
        0.01,
    );
    assert_relative_eq(
        0.0,
        output.get_sample(&SampleLocation { frame: sampler.fade_length(), channel: 0 }),
        0.01,
    );
}

#[test]
fn processor_fade_out_beyond_sample() {
    let num_frames = 10_000;
    let sample_rate = 48_000;
    let num_channels = 2;

    let sample = create_sample_with_value(num_frames, num_channels, sample_rate, 1.0);
    let mut sampler = SamplerDspProcess::new(sample_rate, sample);
    sampler.start(0);

    let fade_length = sampler.fade_length();

    let _ = process_sampler(
        &mut sampler,
        num_frames - fade_length / 2,
        num_channels,
        sample_rate,
    );

    sampler.stop();

    let output = process_sampler(&mut sampler, 2 * fade_length, num_channels, sample_rate);

    assert_relative_eq(
        1.0,
        output.get_sample(&SampleLocation { frame: 0, channel: 0 }),
        f32::EPSILON,
    );
    assert_relative_eq(
        0.0,
        output.get_sample(&SampleLocation { frame: sampler.fade_length(), channel: 0 }),
        0.01,
    );
}

#[test]
fn processor_has_room_for_four_voices() {
    let sample_rate = 1000;
    let sample = create_sample_with_value(4000, 1, sample_rate, 1.0);
    let mut sampler = SamplerDspProcess::new(sample_rate, sample);

    // each start comes while the voices before it still fade out
    sampler.start(0);
    let _ = process_sampler(&mut sampler, 10, 1, sample_rate);
    sampler.start(1000);
    let _ = process_sampler(&mut sampler, 10, 1, sample_rate);
    sampler.start(2000);
    let _ = process_sampler(&mut sampler, 10, 1, sample_rate);
    sampler.start(3000);
    let output = process_sampler(&mut sampler, 100, 1, sample_rate);

    // the fourth voice found a place and reaches full level after its fade
    assert_relative_eq(1.0, output.get_sample(&SampleLocation { frame: 60, channel: 0 }), 0.01);
}

#[test]
fn processor_ignores_a_start_where_it_plays_already() {
    let sample_rate = 1000;
    let sample = create_sample_with_value(4000, 1, sample_rate, 1.0);
    let mut sampler = SamplerDspProcess::new(sample_rate, sample);
    sampler.start(0);
    let _ = process_sampler(&mut sampler, 100, 1, sample_rate);
    sampler.start(100);
    let output = process_sampler(&mut sampler, 100, 1, sample_rate);
    assert_relative_eq(1.0, output.get_sample(&SampleLocation { frame: 0, channel: 0 }), 0.0);
    assert_relative_eq(1.0, output.get_sample(&SampleLocation { frame: 25, channel: 0 }), 0.0);
}
