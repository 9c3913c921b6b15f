use crate::buffer::audio_buffer::AudioBuffer;
use crate::dsp::sampler::fade::fade_length;
use crate::dsp::sampler::fade::Fade;
use crate::dsp::sampler::voice::advance_all;
use crate::dsp::sampler::voice::first_stopped;
use crate::dsp::sampler::voice::render_voices;
use crate::dsp::sampler::voice::rendered_voices;
use crate::dsp::sampler::voice::shared_channels;
use crate::dsp::sampler::voice::start_free_voice;
use crate::dsp::sampler::voice::stop_all;
use crate::dsp::sampler::voice::stop_voices;
use crate::dsp::sampler::voice::stopped_voices;
use crate::dsp::sampler::voice::Voice;
use crate::dsp::sampler::voice::VoiceState;
use crate::graph::dsp::DspParameterMap;
use crate::graph::dsp::DspProcessor;
use crate::timestamp::incremented_ticks;
use crate::timestamp::ticks_to_samples;
use crate::timestamp::Timestamp;
use vstd::prelude::*;

verus! {

pub type EventReceiver = lockfree::channel::spsc::Receiver<SamplerEvent>;

pub type EventTransmitter = lockfree::channel::spsc::Sender<SamplerEvent>;

/// How many playbacks of the sample can sound at once: the one that plays and
/// the one before it that still fades out.
pub const NUM_VOICES: usize = 2;

pub const FADE_LENGTH_MS: usize = 50;

/// How many events can wait for their time.
pub const MAX_PENDING_EVENTS: usize = 10;

/// What a sampler event asks for.
#[derive(Clone, Copy, Debug, PartialEq, Eq, Structural)]
pub enum SampleEventType {
    /// Start to play, from this position in the sample.
    Start(Timestamp),
    Stop,
}

/// A start or a stop, and the time at which it is to happen.
#[derive(Clone, Copy, Debug, PartialEq, Eq, Structural)]
pub struct SamplerEvent {
    pub time: Timestamp,
    pub event_type: SampleEventType,
}

impl SamplerEvent {
    pub fn start(start_at_time: Timestamp, position_in_sample: Timestamp) -> (event: Self)
        ensures
            event.time == start_at_time,
            event.event_type == SampleEventType::Start(position_in_sample),
    {
        Self { time: start_at_time, event_type: SampleEventType::Start(position_in_sample) }
    }

    pub fn stop(stop_at_time: Timestamp) -> (event: Self)
        ensures
            event.time == stop_at_time,
            event.event_type == SampleEventType::Stop,
    {
        Self { time: stop_at_time, event_type: SampleEventType::Stop }
    }
}

/// The place of a new event at `ticks` among `events`: behind the last event
/// that is not later.
pub open spec fn insertion_index(events: Seq<SamplerEvent>, ticks: nat) -> int
    decreases events.len(),
{
    if events.len() == 0 {
        0
    } else if events.last().time.ticks() <= ticks {
        events.len() as int
    } else {
        insertion_index(events.drop_last(), ticks)
    }
}

/// Whether the events stand in the order of their times.
pub open spec fn is_sorted(events: Seq<SamplerEvent>) -> bool {
    forall|i: int, j: int|
        0 <= i <= j < events.len() ==> (#[trigger] events[i]).time.ticks() <= (
        #[trigger] events[j]).time.ticks()
}

/// What `insertion_index` finds.
pub proof fn lemma_insertion_index(events: Seq<SamplerEvent>, ticks: nat)
    ensures
        0 <= insertion_index(events, ticks) <= events.len(),
        insertion_index(events, ticks) > 0 ==> events[insertion_index(events, ticks)
            - 1].time.ticks() <= ticks,
        forall|j: int|
            insertion_index(events, ticks) <= j < events.len()
                ==> (#[trigger] events[j]).time.ticks()
                > ticks,
    decreases events.len(),
{
    if events.len() > 0 && events.last().time.ticks() > ticks {
        lemma_insertion_index(events.drop_last(), ticks);
        assert forall|j: int| insertion_index(events, ticks) <= j < events.len() implies (
        #[trigger] events[j]).time.ticks() > ticks by {
            if j < events.len() - 1 {
                assert(events.drop_last()[j] == events[j]);
            }
        }
    }
}

/// Events that are put in at their `insertion_index` stay in the order of
/// their times, and events of one time in the order in which they came.
pub proof fn lemma_insertion_keeps_order(events: Seq<SamplerEvent>, event: SamplerEvent)
    requires
        is_sorted(events),
    ensures
        is_sorted(events.insert(insertion_index(events, event.time.ticks()), event)),
{
    let at = insertion_index(events, event.time.ticks());
    lemma_insertion_index(events, event.time.ticks());
    let after = events.insert(at, event);
    assert forall|i: int, j: int| 0 <= i <= j < after.len()
        implies (#[trigger] after[i]).time.ticks()
        <= (#[trigger] after[j]).time.ticks() by {
        let source = |k: int|
            if k < at {
                k
            } else {
                k - 1
            };
        if i != at {
            assert(after[i] == events[source(i)]);
        }
        if j != at {
            assert(after[j] == events[source(j)]);
        }
        if i < at {
            assert(events[i].time.ticks() <= events[at - 1].time.ticks());
        }
    }
}

/// The events that wait after the events of `received` have been put among
/// `waiting`, one after the other, each at its `insertion_index`.
pub open spec fn with_events(waiting: Seq<SamplerEvent>, received: Seq<SamplerEvent>) -> Seq<
    SamplerEvent,
>
    decreases received.len(),
{
    if received.len() == 0 {
        waiting
    } else {
        let before = with_events(waiting, received.drop_last());
        before.insert(insertion_index(before, received.last().time.ticks()), received.last())
    }
}

/// Events that wait in the order of their times still do after more have been
/// put among them.
pub proof fn lemma_with_events_keeps_order(waiting: Seq<SamplerEvent>, received: Seq<SamplerEvent>)
    requires
        is_sorted(waiting),
    ensures
        is_sorted(with_events(waiting, received)),
    decreases received.len(),
{
    if received.len() > 0 {
        lemma_with_events_keeps_order(waiting, received.drop_last());
        lemma_insertion_keeps_order(with_events(waiting, received.drop_last()), received.last());
    }
}

/// What a sampler is made of, as far as its contracts go.
pub struct SamplerState {
    pub voices: Seq<Voice>,
    pub active_voice: Option<usize>,
    pub pending_events: Seq<SamplerEvent>,
}

/// The state after `stop`: every voice that played fades out, and none is the
/// active one.
pub open spec fn after_stop(state: SamplerState, fade_length: usize) -> SamplerState {
    SamplerState {
        voices: stop_all(state.voices, fade_length),
        active_voice: None,
        pending_events: state.pending_events,
    }
}

/// Whether a start from `from_position` would start what plays already: the
/// active voice stands at that position.
pub open spec fn is_repeated_start(state: SamplerState, from_position: usize) -> bool {
    state.active_voice matches Some(active) && active < state.voices.len()
        && state.voices[active as int].position == from_position
}

/// The state after a start from `from_position`. A start of what plays
/// already changes nothing. Else what played fades out, and the first voice
/// that is stopped starts and is the active one; if none is stopped the start
/// is dropped.
pub open spec fn after_start(
    state: SamplerState,
    from_position: usize,
    fade_length: usize,
) -> SamplerState {
    if is_repeated_start(state, from_position) {
        state
    } else {
        let stopped = stop_all(state.voices, fade_length);
        let free = first_stopped(stopped);
        if free >= 0 {
            SamplerState {
                voices: stopped.update(
                    free,
                    Voice { state: VoiceState::FadingIn(0), position: from_position },
                ),
                active_voice: Some(free as usize),
                pending_events: state.pending_events,
            }
        } else {
            SamplerState {
                voices: stopped,
                active_voice: None,
                pending_events: state.pending_events,
            }
        }
    }
}

/// The state after `event` has happened.
pub open spec fn after_event(
    state: SamplerState,
    event: SamplerEvent,
    sample_rate: usize,
    fade_length: usize,
) -> SamplerState {
    match event.event_type {
        SampleEventType::Start(position_in_sample) => after_start(
            state,
            ticks_to_samples(position_in_sample.ticks(), sample_rate as nat) as usize,
            fade_length,
        ),
        SampleEventType::Stop => after_stop(state, fade_length),
    }
}

/// Whether the first of `events` happens before `end_ticks`.
pub open spec fn has_event_before(events: Seq<SamplerEvent>, end_ticks: nat) -> bool {
    events.len() > 0 && events[0].time.ticks() < end_ticks
}

/// The frame of the block at which an event of time `event_ticks` happens,
/// when the block starts at `start_ticks`, is `number_of_frames` long and has
/// been rendered up to the frame `position`: the frame nearest to the event's
/// time, but not before `position`, where an event that is late happens, and
/// not behind the end of the block.
pub open spec fn event_frame(
    event_ticks: nat,
    start_ticks: nat,
    position: usize,
    number_of_frames: usize,
    sample_rate: usize,
) -> usize {
    let now = incremented_ticks(start_ticks, position as nat, sample_rate as nat);
    let time = if event_ticks >= now {
        event_ticks
    } else {
        now
    };
    let since_start = if time >= start_ticks {
        (time - start_ticks) as nat
    } else {
        0
    };
    let frame = ticks_to_samples(since_start, sample_rate as nat);
    if frame < position {
        position
    } else if frame > number_of_frames {
        number_of_frames
    } else {
        frame as usize
    }
}

/// A sampler in the middle of a block: its state, and the output as far as it
/// has been rendered.
pub struct SamplerBlock<B> {
    pub state: SamplerState,
    pub output: B,
}

/// The sampler and the output at the end of a block that starts at
/// `start_ticks`, is `number_of_frames` long and has been rendered up to the
/// frame `position`. The voices play up to the frame of the next event that is
/// due in the block, the event happens, and so on until no event is left that
/// is due; then the voices play to the end of the block.
pub open spec fn render_from<B: AudioBuffer>(
    block: SamplerBlock<B>,
    position: usize,
    number_of_frames: usize,
    start_ticks: nat,
    sample_rate: usize,
    sample: B,
    fade_length: usize,
    num_channels: usize,
) -> SamplerBlock<B>
    decreases number_of_frames - position, block.state.pending_events.len(),
{
    let state = block.state;
    if position >= number_of_frames {
        block
    } else if has_event_before(
        state.pending_events,
        incremented_ticks(start_ticks, number_of_frames as nat, sample_rate as nat),
    ) {
        let event = state.pending_events[0];
        let end_frame = event_frame(
            event.time.ticks(),
            start_ticks,
            position,
            number_of_frames,
            sample_rate,
        );
        let played = SamplerState {
            voices: advance_all(
                state.voices,
                (end_frame - position) as nat,
                sample.frames(),
                fade_length,
            ),
            active_voice: state.active_voice,
            pending_events: state.pending_events.drop_first(),
        };
        render_from(
            SamplerBlock {
                state: after_event(played, event, sample_rate, fade_length),
                output: rendered_voices(
                    block.output,
                    state.voices,
                    position,
                    (end_frame - position) as nat,
                    sample,
                    fade_length,
                    num_channels,
                    state.voices.len(),
                ),
            },
            end_frame,
            number_of_frames,
            start_ticks,
            sample_rate,
            sample,
            fade_length,
            num_channels,
        )
    } else {
        SamplerBlock {
            state: SamplerState {
                voices: advance_all(
                    state.voices,
                    (number_of_frames - position) as nat,
                    sample.frames(),
                    fade_length,
                ),
                active_voice: state.active_voice,
                pending_events: state.pending_events,
            },
            output: rendered_voices(
                block.output,
                state.voices,
                position,
                (number_of_frames - position) as nat,
                sample,
                fade_length,
                num_channels,
                state.voices.len(),
            ),
        }
    }
}

/// Plays one sample, with starts and stops that happen at the very frame they
/// are timed for. A start lets the sound before it fade out while the new one
/// fades in, so nothing clicks.
pub struct SamplerDspProcess<B> {
    fade: Fade,
    voices: Vec<Voice>,
    active_voice: Option<usize>,
    buffer: B,
    event_receiver: EventReceiver,
    pending_events: Vec<SamplerEvent>,
}

impl<B: AudioBuffer> SamplerDspProcess<B> {
    pub closed spec fn fade(&self) -> Fade {
        self.fade
    }

    /// The sample that is played.
    pub closed spec fn sample(&self) -> B {
        self.buffer
    }

    /// The voices, which voice is the active one, and the events that wait.
    pub closed spec fn state(&self) -> SamplerState {
        SamplerState {
            voices: self.voices@,
            active_voice: self.active_voice,
            pending_events: self.pending_events@,
        }
    }

    /// A sampler for `buffer` whose voices are all stopped. Its events come
    /// through `event_receiver`.
    pub fn new(sample_rate: usize, buffer: B, event_receiver: EventReceiver) -> (sampler: Self)
        ensures
            sampler.fade().length() == fade_length(FADE_LENGTH_MS, sample_rate),
            sampler.sample() == buffer,
            sampler.state().voices == Seq::new(
                NUM_VOICES as nat,
                |i: int| Voice { state: VoiceState::Stopped, position: 0 },
            ),
            sampler.state().active_voice is None,
            sampler.state().pending_events == Seq::<SamplerEvent>::empty(),
    {
        let voices = stopped_voices(NUM_VOICES);
        Self {
            fade: Fade::new(FADE_LENGTH_MS, sample_rate),
            voices,
            active_voice: None,
            buffer,
            event_receiver,
            pending_events: Vec::with_capacity(MAX_PENDING_EVENTS),
        }
    }

    /// The length of the fades in samples.
    pub fn fade_length(&self) -> (length: usize)
        ensures
            length == self.fade().length(),
    {
        self.fade.len()
    }

    /// Lets every voice play `num_frames` frames into the frames of
    /// `output_buffer` from `frame_offset` on, one on top of the other.
    pub fn process_voices(&mut self, output_buffer: &mut B, frame_offset: usize, num_frames: usize)
        requires
            frame_offset + num_frames <= old(output_buffer).frames(),
        ensures
            final(self).fade() == old(self).fade(),
            final(self).sample() == old(self).sample(),
            final(self).state() == (SamplerState {
                voices: advance_all(
                    old(self).state().voices,
                    num_frames as nat,
                    old(self).sample().frames(),
                    old(self).fade().length(),
                ),
                active_voice: old(self).state().active_voice,
                pending_events: old(self).state().pending_events,
            }),
            *final(output_buffer) == rendered_voices(
                *old(output_buffer),
                old(self).state().voices,
                frame_offset,
                num_frames as nat,
                old(self).sample(),
                old(self).fade().length(),
                shared_channels(old(output_buffer).channels(), old(self).sample().channels()),
                old(self).state().voices.len(),
            ),
            final(output_buffer).frames() == old(output_buffer).frames(),
            final(output_buffer).channels() == old(output_buffer).channels(),
            final(output_buffer).rate() == old(output_buffer).rate(),
    {
        render_voices(
            &mut self.voices,
            output_buffer,
            frame_offset,
            num_frames,
            &self.buffer,
            &self.fade,
        );
    }

    /// Where in the block the voices have to stop for the next event, and the
    /// event: the first that waits, if it happens before the block ends. With
    /// no such event the voices can play to the end of the block.
    fn next_render_point(
        &mut self,
        frame_start_time: &Timestamp,
        position: usize,
        number_of_frames: usize,
        sample_rate: usize,
    ) -> (point: (usize, Option<SamplerEvent>))
        requires
            position <= number_of_frames,
        ensures
            final(self).fade == old(self).fade,
            final(self).buffer == old(self).buffer,
            final(self).voices == old(self).voices,
            final(self).active_voice == old(self).active_voice,
            position <= point.0 <= number_of_frames,
            has_event_before(
                old(self).pending_events@,
                incremented_ticks(
                    frame_start_time.ticks(),
                    number_of_frames as nat,
                    sample_rate as nat,
                ),
            ) ==> point.1 == Some(old(self).pending_events@[0]) && point.0 == event_frame(
                old(self).pending_events@[0].time.ticks(),
                frame_start_time.ticks(),
                position,
                number_of_frames,
                sample_rate,
            ) && final(self).pending_events@ == old(self).pending_events@.drop_first(),
            !has_event_before(
                old(self).pending_events@,
                incremented_ticks(
                    frame_start_time.ticks(),
                    number_of_frames as nat,
                    sample_rate as nat,
                ),
            ) ==> point.1 is None && point.0 == number_of_frames && final(self).pending_events@
                == old(self).pending_events@,
    {
        let frame_end_time = frame_start_time.incremented(number_of_frames, sample_rate);

        if let Some(next_event) = self.next_event_before(&frame_end_time) {
            let current_frame_position = frame_start_time.incremented(position, sample_rate);
            let event_time = next_event.time.later_of(&current_frame_position);
            let position_in_frame = event_time.since(frame_start_time);
            let frame = position_in_frame.get_samples(sample_rate);
            let end_frame = if frame < position {
                position
            } else if frame > number_of_frames {
                number_of_frames
            } else {
                frame
            };
            (end_frame, Some(next_event))
        } else {
            (number_of_frames, None)
        }
    }

    /// Takes the first event that waits, if it happens before `end_time`.
    fn next_event_before(&mut self, end_time: &Timestamp) -> (event: Option<SamplerEvent>)
        ensures
            final(self).fade == old(self).fade,
            final(self).buffer == old(self).buffer,
            final(self).voices == old(self).voices,
            final(self).active_voice == old(self).active_voice,
            has_event_before(old(self).pending_events@, end_time.ticks()) ==> event == Some(
                old(self).pending_events@[0],
            ) && final(self).pending_events@ == old(self).pending_events@.drop_first(),
            !has_event_before(old(self).pending_events@, end_time.ticks()) ==> event is None
                && final(self).pending_events@ == old(self).pending_events@,
    {
        if self.pending_events.len() > 0 {
            if self.pending_events[0].time.is_before(end_time) {
                let event = self.pending_events.remove(0);
                assert(self.pending_events@ == old(self).pending_events@.drop_first());
                return Some(event);
            }
        }
        None
    }

    /// Lets `event` happen.
    pub fn process_event(&mut self, event: &SamplerEvent, sample_rate: usize)
        ensures
            final(self).fade() == old(self).fade(),
            final(self).sample() == old(self).sample(),
            final(self).state() == after_event(
                old(self).state(),
                *event,
                sample_rate,
                old(self).fade().length(),
            ),
    {
        match event.event_type {
            SampleEventType::Start(position_in_sample) => {
                let position_in_sample = position_in_sample.get_samples(sample_rate);
                self.start(position_in_sample);
            },
            SampleEventType::Stop => self.stop(),
        }
    }

    /// Puts `event` among the events that wait, in the order of their times and
    /// behind those of its own time. With `MAX_PENDING_EVENTS` waiting already
    /// it is dropped, and `false` comes back.
    pub fn insert_event(&mut self, event: SamplerEvent) -> (inserted: bool)
        ensures
            final(self).fade() == old(self).fade(),
            final(self).sample() == old(self).sample(),
            final(self).state().voices == old(self).state().voices,
            final(self).state().active_voice == old(self).state().active_voice,
            inserted == (old(self).state().pending_events.len() < MAX_PENDING_EVENTS),
            inserted
                ==> final(self).state().pending_events == old(self).state().pending_events.insert(
                insertion_index(old(self).state().pending_events, event.time.ticks()),
                event,
            ),
            inserted
                ==> final(self).state().pending_events.len()
                    == old(self).state().pending_events.len() + 1,
            !inserted ==> final(self).state().pending_events == old(self).state().pending_events,
    {
        if self.pending_events.len() >= MAX_PENDING_EVENTS {
            return false;
        }
        proof {
            lemma_insertion_index(self.pending_events@, event.time.ticks());
        }
        let mut index: usize = self.pending_events.len();
        assert(self.pending_events@.subrange(0, index as int) == self.pending_events@);
        while index > 0 && event.time.is_before(&self.pending_events[index - 1].time)
            invariant
                index <= self.pending_events@.len(),
                self.pending_events@ == old(self).pending_events@,
                insertion_index(self.pending_events@, event.time.ticks()) == insertion_index(
                    self.pending_events@.subrange(0, index as int),
                    event.time.ticks(),
                ),
            decreases index,
        {
            let ghost prefix = self.pending_events@.subrange(0, index as int);
            assert(prefix.last() == self.pending_events@[index - 1]);
            assert(prefix.drop_last() == self.pending_events@.subrange(0, index - 1));
            index -= 1;
        }
        proof {
            let prefix = self.pending_events@.subrange(0, index as int);
            if index > 0 {
                assert(prefix.last() == self.pending_events@[index - 1]);
            }
        }
        self.pending_events.insert(index, event);
        true
    }

    /// Takes the events that have come through the channel, as long as there
    /// is room for them among the events that wait, and puts each among them.
    fn read_events(&mut self)
        ensures
            final(self).fade() == old(self).fade(),
            final(self).sample() == old(self).sample(),
            final(self).state().voices == old(self).state().voices,
            final(self).state().active_voice == old(self).state().active_voice,
            exists|received: Seq<SamplerEvent>|
                final(self).state().pending_events == #[trigger] with_events(
                    old(self).state().pending_events,
                    received,
                ),
    {
        let ghost mut received = Seq::<SamplerEvent>::empty();
        while self.pending_events.len() < MAX_PENDING_EVENTS
            invariant
                self.fade() == old(self).fade(),
                self.sample() == old(self).sample(),
                self.state().voices == old(self).state().voices,
                self.state().active_voice == old(self).state().active_voice,
                self.pending_events@ == with_events(old(self).pending_events@, received),
            decreases MAX_PENDING_EVENTS - self.pending_events@.len(),
        {
            match self.event_receiver.recv() {
                Ok(event) => {
                    let _ = self.insert_event(event);
                    proof {
                        assert(received.push(event).drop_last() == received);
                        received = received.push(event);
                    }
                },
                Err(_) => {
                    break ;
                },
            }
        }
        assert(self.state().pending_events == with_events(
            old(self).state().pending_events,
            received,
        ));
    }

    /// Starts the first voice that is stopped from `position`, after what
    /// played has been told to fade out.
    fn assign_voice(&mut self, position: usize)
        ensures
            final(self).fade() == old(self).fade(),
            final(self).sample() == old(self).sample(),
            final(self).state().pending_events == old(self).state().pending_events,
            ({
                let stopped = stop_all(old(self).state().voices, old(self).fade().length());
                let free = first_stopped(stopped);
                &&& free >= 0 ==> final(self).state().voices == stopped.update(
                    free,
                    Voice { state: VoiceState::FadingIn(0), position },
                ) && final(self).state().active_voice == Some(free as usize)
                &&& free < 0
                    ==> final(self).state().voices == stopped
                        && final(self).state().active_voice is None
            }),
    {
        self.stop();
        self.active_voice = start_free_voice(&mut self.voices, position);
    }

    fn get_active_voice(&self) -> (voice: Option<&Voice>)
        ensures
            voice is Some
                <==> (self.active_voice matches Some(active) && active < self.voices@.len()),
            voice matches Some(v) ==> *v == self.voices@[self.active_voice->0 as int],
    {
        if let Some(active_voice_index) = self.active_voice {
            if active_voice_index < self.voices.len() {
                return Some(&self.voices[active_voice_index]);
            }
        }
        None
    }

    fn get_active_voice_position(&self) -> (position: Option<usize>)
        ensures
            position is Some <==> (self.active_voice matches Some(active) && active
                < self.voices@.len()),
            position matches Some(p) ==> p == self.voices@[self.active_voice->0 as int].position,
    {
        match self.get_active_voice() {
            Some(voice) => Some(voice.get_position()),
            None => None,
        }
    }

    /// Starts to play from `from_position`, unless the active voice stands
    /// there already.
    fn start(&mut self, from_position: usize)
        ensures
            final(self).fade() == old(self).fade(),
            final(self).sample() == old(self).sample(),
            final(self).state() == after_start(
                old(self).state(),
                from_position,
                old(self).fade().length(),
            ),
    {
        if let Some(current_position) = self.get_active_voice_position() {
            if current_position == from_position {
                return ;
            }
        }
        self.assign_voice(from_position);
    }

    /// Lets every voice that plays fade out.
    fn stop(&mut self)
        ensures
            final(self).fade() == old(self).fade(),
            final(self).sample() == old(self).sample(),
            final(self).state() == after_stop(old(self).state(), old(self).fade().length()),
    {
        stop_voices(&mut self.voices, &self.fade);
        self.active_voice = None;
    }

    /// Renders a block of `num_frames` frames that starts at `start_time` into
    /// `output_buffer`, with the events that wait: each happens at its frame.
    pub fn render_block(&mut self, output_buffer: &mut B, num_frames: usize, start_time: &Timestamp)
        requires
            num_frames <= old(output_buffer).frames(),
        ensures
            final(self).fade() == old(self).fade(),
            final(self).sample() == old(self).sample(),
            (SamplerBlock { state: final(self).state(), output: *final(output_buffer) })
                == render_from(
                SamplerBlock { state: old(self).state(), output: *old(output_buffer) },
                0,
                num_frames,
                start_time.ticks(),
                old(output_buffer).rate(),
                old(self).sample(),
                old(self).fade().length(),
                shared_channels(old(output_buffer).channels(), old(self).sample().channels()),
            ),
            final(output_buffer).frames() == old(output_buffer).frames(),
            final(output_buffer).channels() == old(output_buffer).channels(),
            final(output_buffer).rate() == old(output_buffer).rate(),
    {
        let sample_rate = output_buffer.sample_rate();
        let ghost num_channels = shared_channels(
            output_buffer.channels(),
            self.sample().channels(),
        );
        let mut position: usize = 0;

        while position < num_frames
            invariant
                position <= num_frames,
                num_frames <= output_buffer.frames(),
                sample_rate == old(output_buffer).rate(),
                num_channels == shared_channels(
                    old(output_buffer).channels(),
                    old(self).sample().channels(),
                ),
                self.fade() == old(self).fade(),
                self.sample() == old(self).sample(),
                render_from(
                    SamplerBlock { state: self.state(), output: *output_buffer },
                    position,
                    num_frames,
                    start_time.ticks(),
                    sample_rate,
                    self.sample(),
                    self.fade().length(),
                    num_channels,
                ) == render_from(
                    SamplerBlock { state: old(self).state(), output: *old(output_buffer) },
                    0,
                    num_frames,
                    start_time.ticks(),
                    sample_rate,
                    self.sample(),
                    self.fade().length(),
                    num_channels,
                ),
                output_buffer.frames() == old(output_buffer).frames(),
                output_buffer.channels() == old(output_buffer).channels(),
                output_buffer.rate() == old(output_buffer).rate(),
            decreases num_frames - position, self.pending_events@.len(),
        {
            let (end_frame, event) = self.next_render_point(
                start_time,
                position,
                num_frames,
                sample_rate,
            );
            let frames = end_frame - position;
            self.process_voices(output_buffer, position, frames);
            position = end_frame;

            if let Some(event) = event {
                self.process_event(&event, sample_rate);
            }
        }
    }
}

impl<B: AudioBuffer + Send> DspProcessor<B> for SamplerDspProcess<B> {
    /// The block as `render_from` leaves it, once the events that have come
    /// are among those that wait. The input and the parameters play no part.
    open spec fn renders(
        &self,
        input_buffer: &B,
        output_buffer: &B,
        rendered: &B,
        num_frames: usize,
        start_time: &Timestamp,
        parameters: &DspParameterMap,
    ) -> bool {
        exists|received: Seq<SamplerEvent>|
            *rendered == render_from(
                SamplerBlock {
                    state: SamplerState {
                        voices: self.state().voices,
                        active_voice: self.state().active_voice,
                        pending_events: #[trigger] with_events(
                            self.state().pending_events,
                            received,
                        ),
                    },
                    output: *output_buffer,
                },
                0,
                num_frames,
                start_time.ticks(),
                output_buffer.rate(),
                self.sample(),
                self.fade().length(),
                shared_channels(output_buffer.channels(), self.sample().channels()),
            ).output
    }

    /// Takes the events that have come, and renders the block with them and
    /// with those that waited already.
    fn process_audio(
        &mut self,
        _input_buffer: &B,
        output_buffer: &mut B,
        num_frames: usize,
        start_time: &Timestamp,
        _parameters: &DspParameterMap,
    )
        ensures
            final(self).fade() == old(self).fade(),
            final(self).sample() == old(self).sample(),
            exists|received: Seq<SamplerEvent>|
                (SamplerBlock { state: final(self).state(), output: *final(output_buffer) })
                    == render_from(
                    SamplerBlock {
                        state: SamplerState {
                            voices: old(self).state().voices,
                            active_voice: old(self).state().active_voice,
                            pending_events: #[trigger] with_events(
                                old(self).state().pending_events,
                                received,
                            ),
                        },
                        output: *old(output_buffer),
                    },
                    0,
                    num_frames,
                    start_time.ticks(),
                    old(output_buffer).rate(),
                    old(self).sample(),
                    old(self).fade().length(),
                    shared_channels(old(output_buffer).channels(), old(self).sample().channels()),
                ),
    {
        self.read_events();
        self.render_block(output_buffer, num_frames, start_time);
    }
}

} // verus!
