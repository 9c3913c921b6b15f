use rust_audio_engine::audio_process::AudioProcess;
use rust_audio_engine::buffer::audio_buffer::{AudioBuffer, Gain};
use rust_audio_engine::buffer::sample_location::SampleLocation;
use rust_audio_engine::commands::command::{Command, ParameterChangeRequest};
use rust_audio_engine::commands::id::Id;
use rust_audio_engine::commands::notification::Notification;
use rust_audio_engine::graph::connection::Connection;
use rust_audio_engine::graph::dsp::{Dsp, DspParameterMap, DspProcessor};
use rust_audio_engine::graph::endpoint::{Endpoint, EndpointType};
use rust_audio_engine::parameter::{Parameter, ParameterEvent, VALUE_SCALE};
use rust_audio_engine::realtime::garbage_collector::GarbageCollectionCommand;
use rust_audio_engine::realtime::processor::Processor;
use rust_audio_engine::timestamp::Timestamp;

/// Planar storage of samples, one channel after the other.
#[derive(Clone, PartialEq)]
struct OwnedAudioBuffer {
    samples: Vec<f32>,
    num_frames: usize,
    num_channels: usize,
    sample_rate: usize,
}

impl OwnedAudioBuffer {
    fn new(num_frames: usize, num_channels: usize, sample_rate: usize) -> Self {
        Self {
            samples: vec![0.0; num_frames * num_channels],
            num_frames,
            num_channels,
            sample_rate,
        }
    }

    fn get_sample(&self, location: &SampleLocation) -> f32 {
        self.samples[location.channel * self.num_frames + location.frame]
    }

    fn set_sample(&mut self, location: SampleLocation, value: f32) {
        self.samples[location.channel * self.num_frames + location.frame] = value;
    }

    fn fill_with_value(&mut self, value: f32) {
        for sample in self.samples.iter_mut() {
            *sample = value;
        }
    }
}

impl AudioBuffer for OwnedAudioBuffer {
    fn frames(&self) -> usize {
        self.num_frames
    }

    fn channels(&self) -> usize {
        self.num_channels
    }

    fn rate(&self) -> usize {
        self.sample_rate
    }

    fn silent(&self) -> bool {
        self.samples.iter().all(|sample| *sample == 0.0)
    }

    fn cleared(&self) -> Self {
        Self::new(self.num_frames, self.num_channels, self.sample_rate)
    }

    fn mixed(
        &self,
        source: &Self,
        source_location: SampleLocation,
        destination_location: SampleLocation,
        num_channels: usize,
        num_frames: usize,
    ) -> Self {
        self.mixed_with_gain(
            source,
            source_location,
            destination_location,
            num_channels,
            num_frames,
            Gain::unity(),
        )
    }

    fn mixed_with_gain(
        &self,
        source: &Self,
        source_location: SampleLocation,
        destination_location: SampleLocation,
        num_channels: usize,
        num_frames: usize,
        gain: Gain,
    ) -> Self {
        let mut mixed = Self {
            samples: self.samples.clone(),
            num_frames: self.num_frames,
            num_channels: self.num_channels,
            sample_rate: self.sample_rate,
        };
        mixed.add_from_with_gain(
            source,
            source_location,
            destination_location,
            num_channels,
            num_frames,
            gain,
        );
        mixed
    }

    fn with_size(num_frames: usize, num_channels: usize, sample_rate: usize) -> Self {
        Self::new(num_frames, num_channels, sample_rate)
    }

    fn num_frames(&self) -> usize {
        self.num_frames
    }

    fn num_channels(&self) -> usize {
        self.num_channels
    }

    fn sample_rate(&self) -> usize {
        self.sample_rate
    }

    fn clear(&mut self) {
        self.fill_with_value(0.0);
    }

    fn add_from(
        &mut self,
        source: &Self,
        source_location: SampleLocation,
        destination_location: SampleLocation,
        num_channels: usize,
        num_frames: usize,
    ) {
        self.add_from_with_gain(
            source,
            source_location,
            destination_location,
            num_channels,
            num_frames,
            Gain::unity(),
        );
    }

    fn add_from_with_gain(
        &mut self,
        source: &Self,
        source_location: SampleLocation,
        destination_location: SampleLocation,
        num_channels: usize,
        num_frames: usize,
        gain: Gain,
    ) {
        let factor = gain.numerator as f32 / gain.denominator as f32;
        for channel in 0..num_channels {
            for frame in 0..num_frames {
                let from = SampleLocation::new(
                    source_location.channel + channel,
                    source_location.frame + frame,
                );
                let to = SampleLocation::new(
                    destination_location.channel + channel,
                    destination_location.frame + frame,
                );
                let value = self.get_sample(&to) + source.get_sample(&from) * factor;
                self.set_sample(to, value);
            }
        }
    }
}

/// Fills the block with the value of one of its parameters at the start of the
/// block.
#[derive(Clone)]
struct Level {
    parameter_id: Id,
}

impl DspProcessor<OwnedAudioBuffer> for Level {
    fn renders(
        &self,
        input_buffer: &OwnedAudioBuffer,
        output_buffer: &OwnedAudioBuffer,
        rendered: &OwnedAudioBuffer,
        num_frames: usize,
        start_time: &Timestamp,
        parameters: &DspParameterMap,
    ) -> bool {
        let mut processor = self.clone();
        let mut output = output_buffer.clone();
        processor.process_audio(input_buffer, &mut output, num_frames, start_time, parameters);
        output == *rendered
    }

    fn process_audio(
        &mut self,
        _input_buffer: &OwnedAudioBuffer,
        output_buffer: &mut OwnedAudioBuffer,
        num_frames: usize,
        start_time: &Timestamp,
        parameters: &DspParameterMap,
    ) {
        let parameter = match parameters.get(&self.parameter_id) {
            Some(parameter) => parameter,
            None => return,
        };
        let value = parameter.get_value_at_time(start_time) as f32 / VALUE_SCALE as f32;
        for channel in 0..output_buffer.num_channels() {
            for frame in 0..num_frames {
                output_buffer.set_sample(SampleLocation::new(channel, frame), value);
            }
        }
    }
}

/// Passes its input on.
#[derive(Clone)]
struct Through;

impl DspProcessor<OwnedAudioBuffer> for Through {
    fn renders(
        &self,
        input_buffer: &OwnedAudioBuffer,
        output_buffer: &OwnedAudioBuffer,
        rendered: &OwnedAudioBuffer,
        num_frames: usize,
        start_time: &Timestamp,
        parameters: &DspParameterMap,
    ) -> bool {
        let mut processor = self.clone();
        let mut output = output_buffer.clone();
        processor.process_audio(input_buffer, &mut output, num_frames, start_time, parameters);
        output == *rendered
    }

    fn process_audio(
        &mut self,
        input_buffer: &OwnedAudioBuffer,
        output_buffer: &mut OwnedAudioBuffer,
        num_frames: usize,
        _start_time: &Timestamp,
        _parameters: &DspParameterMap,
    ) {
        let num_channels = output_buffer.num_channels();
        output_buffer.add_from(
            input_buffer,
            SampleLocation::new(0, 0),
            SampleLocation::new(0, 0),
            num_channels,
            num_frames,
        );
    }
}

const LEVEL: usize = 1;
const LEVEL_PARAMETER: usize = 2;
const THROUGH: usize = 3;

fn level(initial: i64) -> Box<Dsp<OwnedAudioBuffer>> {
    let mut parameters = DspParameterMap::new();
    parameters.insert(Parameter::new(Id::with_value(LEVEL_PARAMETER), initial));
    Box::new(Dsp::new(
        Id::with_value(LEVEL),
        Box::new(Level { parameter_id: Id::with_value(LEVEL_PARAMETER) }),
        parameters,
    ))
}

fn through() -> Box<Dsp<OwnedAudioBuffer>> {
    Box::new(Dsp::new(Id::with_value(THROUGH), Box::new(Through), DspParameterMap::new()))
}

fn output_of(id: usize) -> Endpoint {
    Endpoint::new(Id::with_value(id), EndpointType::Output)
}

struct Engine {
    processor: Processor<OwnedAudioBuffer>,
    commands: lockfree::channel::mpsc::Sender<Command<OwnedAudioBuffer>>,
    notifications: lockfree::channel::spsc::Receiver<Notification>,
    garbage: lockfree::channel::spsc::Receiver<GarbageCollectionCommand<OwnedAudioBuffer>>,
}

fn engine(sample_rate: usize) -> Engine {
    let (commands, command_rx) = lockfree::channel::mpsc::create();
    let (notification_tx, notifications) = lockfree::channel::spsc::create();
    let (processor, garbage) = Processor::new(sample_rate, command_rx, notification_tx);
    Engine { processor, commands, notifications, garbage }
}

fn send(engine: &Engine, command: Command<OwnedAudioBuffer>) {
    assert!(engine.commands.send(command).is_ok());
}

fn render(engine: &mut Engine, num_frames: usize) -> OwnedAudioBuffer {
    let mut buffer = OwnedAudioBuffer::new(num_frames, 2, 44100);
    buffer.fill_with_value(9.0);
    engine.processor.process(&mut buffer);
    buffer
}

fn assert_all(buffer: &OwnedAudioBuffer, expected: f32) {
    for channel in 0..buffer.num_channels() {
        for frame in 0..buffer.num_frames() {
            let sample = buffer.get_sample(&SampleLocation::new(channel, frame));
            assert!((sample - expected).abs() <= 1e-6, "{} at {}/{}", sample, channel, frame);
        }
    }
}

#[test]
fn limits_are_fixed() {
    let engine = engine(44100);
    assert_eq!(engine.processor.get_maximum_number_of_frames(), 512);
    assert_eq!(engine.processor.get_maximum_number_of_channel(), 2);
}

#[test]
fn stopped_processor_renders_silence_and_stands_still() {
    let mut engine = engine(44100);
    send(&engine, Command::AddDsp(level(500_000)));
    send(&engine, Command::ConnectToOutput(output_of(LEVEL)));

    let buffer = render(&mut engine, 256);
    assert!(buffer.silent());
    assert_eq!(engine.processor.current_time(), Timestamp::zero());
    assert!(engine.notifications.recv().is_err());
}

#[test]
fn started_processor_renders_the_output_endpoint() {
    let mut engine = engine(44100);
    send(&engine, Command::AddDsp(level(500_000)));
    send(&engine, Command::ConnectToOutput(output_of(LEVEL)));
    send(&engine, Command::Start);

    let buffer = render(&mut engine, 256);
    assert_all(&buffer, 0.5);
    assert_eq!(engine.processor.current_time(), Timestamp::from_samples(256, 44100));
}

#[test]
fn started_processor_without_an_output_renders_silence() {
    let mut engine = engine(44100);
    send(&engine, Command::AddDsp(level(500_000)));
    send(&engine, Command::Start);

    let buffer = render(&mut engine, 256);
    assert!(buffer.silent());
    assert_eq!(engine.processor.current_time(), Timestamp::from_samples(256, 44100));
}

#[test]
fn long_buffer_is_rendered_in_blocks() {
    let mut engine = engine(44100);
    send(&engine, Command::AddDsp(level(250_000)));
    send(&engine, Command::ConnectToOutput(output_of(LEVEL)));
    send(&engine, Command::Start);

    // 1300 = 512 + 512 + 276
    let buffer = render(&mut engine, 1300);
    assert_all(&buffer, 0.25);
    assert_eq!(engine.processor.current_time(), Timestamp::from_samples(1300, 44100));
}

#[test]
fn third_channel_is_left_silent() {
    let mut engine = engine(44100);
    send(&engine, Command::AddDsp(level(250_000)));
    send(&engine, Command::ConnectToOutput(output_of(LEVEL)));
    send(&engine, Command::Start);

    let mut buffer = OwnedAudioBuffer::new(64, 3, 44100);
    engine.processor.process(&mut buffer);
    assert_eq!(buffer.get_sample(&SampleLocation::new(0, 10)), 0.25);
    assert_eq!(buffer.get_sample(&SampleLocation::new(1, 10)), 0.25);
    assert_eq!(buffer.get_sample(&SampleLocation::new(2, 10)), 0.0);
}

#[test]
fn stop_silences_the_next_block_and_holds_the_position() {
    let mut engine = engine(44100);
    send(&engine, Command::AddDsp(level(500_000)));
    send(&engine, Command::ConnectToOutput(output_of(LEVEL)));
    send(&engine, Command::Start);
    let _ = render(&mut engine, 100);

    send(&engine, Command::Stop);
    let buffer = render(&mut engine, 100);
    assert!(buffer.silent());
    assert_eq!(engine.processor.current_time(), Timestamp::from_samples(100, 44100));

    send(&engine, Command::Start);
    let buffer = render(&mut engine, 100);
    assert_all(&buffer, 0.5);
    assert_eq!(engine.processor.current_time(), Timestamp::from_samples(200, 44100));
}

#[test]
fn commands_are_done_in_their_order() {
    let mut engine = engine(44100);
    send(&engine, Command::Start);
    send(&engine, Command::Stop);
    send(&engine, Command::Start);
    send(&engine, Command::AddDsp(level(500_000)));
    send(&engine, Command::AddDsp(through()));
    send(&engine, Command::AddConnection(Connection::new(Id::with_value(LEVEL), Id::with_value(THROUGH))));
    send(&engine, Command::ConnectToOutput(output_of(LEVEL)));
    send(&engine, Command::ConnectToOutput(output_of(THROUGH)));

    let buffer = render(&mut engine, 64);
    assert_all(&buffer, 0.5);

    send(&engine, Command::RemoveConnection(Connection::new(Id::with_value(LEVEL), Id::with_value(THROUGH))));
    let buffer = render(&mut engine, 64);
    assert!(buffer.silent());
}

#[test]
fn parameter_change_reaches_the_node() {
    let mut engine = engine(44100);
    send(&engine, Command::AddDsp(level(500_000)));
    send(&engine, Command::ConnectToOutput(output_of(LEVEL)));
    send(&engine, Command::Start);
    send(
        &engine,
        Command::ParameterValueChange(ParameterChangeRequest {
            dsp_id: Id::with_value(LEVEL),
            parameter_id: Id::with_value(LEVEL_PARAMETER),
            event: ParameterEvent::set_at_time(750_000, Timestamp::from_samples(64, 44100)),
        }),
    );

    let buffer = render(&mut engine, 64);
    assert_all(&buffer, 0.5);
    let buffer = render(&mut engine, 64);
    assert_all(&buffer, 0.75);
}

#[test]
fn parameter_change_for_an_unknown_node_or_parameter_is_ignored() {
    let mut engine = engine(44100);
    send(&engine, Command::AddDsp(level(500_000)));
    send(&engine, Command::ConnectToOutput(output_of(LEVEL)));
    send(&engine, Command::Start);
    for (dsp_id, parameter_id) in [(77, LEVEL_PARAMETER), (LEVEL, 77)] {
        send(
            &engine,
            Command::ParameterValueChange(ParameterChangeRequest {
                dsp_id: Id::with_value(dsp_id),
                parameter_id: Id::with_value(parameter_id),
                event: ParameterEvent::set_at_time(750_000, Timestamp::zero()),
            }),
        );
    }
    let buffer = render(&mut engine, 64);
    assert_all(&buffer, 0.5);
}

#[test]
fn removed_node_goes_to_the_garbage_channel() {
    let mut engine = engine(44100);
    send(&engine, Command::AddDsp(level(500_000)));
    send(&engine, Command::ConnectToOutput(output_of(LEVEL)));
    send(&engine, Command::Start);
    let _ = render(&mut engine, 64);
    assert!(engine.garbage.recv().is_err());

    send(&engine, Command::RemoveDsp(Id::with_value(LEVEL)));
    let buffer = render(&mut engine, 64);
    assert!(buffer.silent());
    match engine.garbage.recv() {
        Ok(GarbageCollectionCommand::DisposeDsp(dsp)) => {
            assert_eq!(dsp.get_id(), Id::with_value(LEVEL))
        }
        Err(_) => panic!("nothing was retired"),
    }
}

#[test]
fn position_is_reported_thirty_times_a_second() {
    let mut engine = engine(44100);
    send(&engine, Command::Start);

    // an interval is 1470 samples long
    let _ = render(&mut engine, 1024);
    assert!(engine.notifications.recv().is_err());
    let _ = render(&mut engine, 1024);
    match engine.notifications.recv() {
        Ok(Notification::Position(time)) => assert_eq!(time, Timestamp::from_samples(2048, 44100)),
        Err(_) => panic!("no position was reported"),
    }
    assert!(engine.notifications.recv().is_err());
    // 2048 = 1470 + 578; 578 + 891 = 1469 is one short
    let _ = render(&mut engine, 891);
    assert!(engine.notifications.recv().is_err());
    let _ = render(&mut engine, 1);
    assert!(engine.notifications.recv().is_ok());
}

#[test]
fn command_can_be_applied_directly() {
    let mut engine = engine(44100);
    engine.processor.apply_command(Command::AddDsp(level(125_000)));
    engine.processor.apply_command(Command::ConnectToOutput(output_of(LEVEL)));
    engine.processor.apply_command(Command::Start);
    let buffer = render(&mut engine, 64);
    assert_all(&buffer, 0.125);
}

#[test]
fn position_report_is_handed_back_when_it_is_due() {
    let mut engine = engine(44100);
    // an interval is 1470 samples long; the transport has not run
    assert!(engine.processor.position_report(1469).is_none());
    match engine.processor.position_report(1) {
        Some(Notification::Position(time)) => assert_eq!(time, Timestamp::zero()),
        None => panic!("no report was due"),
    }
    assert!(engine.processor.position_report(0).is_none());
    assert!(engine.notifications.recv().is_err());
}

#[test]
fn every_block_of_one_buffer_is_rendered_at_the_same_time() {
    let mut engine = engine(44100);
    send(&engine, Command::AddDsp(level(0)));
    send(&engine, Command::ConnectToOutput(output_of(LEVEL)));
    send(&engine, Command::Start);
    // the level steps to 0.5 at sample 600, inside the second block of the
    // first buffer; that buffer is rendered at time zero throughout
    send(
        &engine,
        Command::ParameterValueChange(ParameterChangeRequest {
            dsp_id: Id::with_value(LEVEL),
            parameter_id: Id::with_value(LEVEL_PARAMETER),
            event: ParameterEvent::set_at_time(500_000, Timestamp::from_samples(600, 44100)),
        }),
    );
    let buffer = render(&mut engine, 1024);
    assert_all(&buffer, 0.0);
    let buffer = render(&mut engine, 1024);
    assert_all(&buffer, 0.5);
}
