use crate::audio_process::AudioProcess;
use crate::buffer::audio_buffer::AudioBuffer;
use crate::commands::command::Command;
use crate::commands::notification::Notification;
use crate::realtime::dsp_graph::DspGraph;
use crate::realtime::garbage_collector::GarbageCollectionCommand;
use crate::realtime::periodic_notification::PeriodicNotification;
use crate::timestamp::samples_to_ticks;
use crate::timestamp::Timestamp;
use lockfree::channel::mpsc;
use lockfree::channel::spsc;
use vstd::prelude::*;

verus! {

/// The longest block that the graph renders in one go; longer requests are cut
/// into blocks of this length.
pub const MAXIMUM_NUMBER_OF_FRAMES: usize = 512;

pub const MAXIMUM_NUMBER_OF_CHANNELS: usize = 2;

/// How often per second the transport position is reported.
pub const POSITION_INTERVAL_HZ: usize = 30;

/// The realtime end of the engine: it takes the commands of the control side,
/// renders the graph for the host, and reports how far the transport has run.
#[verifier::reject_recursive_types(B)]
pub struct Processor<B> {
    started: bool,
    sample_rate: usize,
    command_rx: mpsc::Receiver<Command<B>>,
    notification_tx: spsc::Sender<Notification>,
    sample_position: usize,
    graph: DspGraph<B>,
    position_notification: PeriodicNotification,
}

impl<B: AudioBuffer> Processor<B> {
    /// Whether the transport runs.
    pub closed spec fn is_started(&self) -> bool {
        self.started
    }

    pub closed spec fn rate(&self) -> usize {
        self.sample_rate
    }

    /// How many samples the transport has run.
    pub closed spec fn position(&self) -> usize {
        self.sample_position
    }

    pub closed spec fn graph(&self) -> DspGraph<B> {
        self.graph
    }

    pub closed spec fn position_notification(&self) -> PeriodicNotification {
        self.position_notification
    }

    /// Whether `after` is this processor with another graph and perhaps the
    /// transport switched, and all else the same.
    pub open spec fn same_transport(&self, after: &Self) -> bool {
        &&& after.rate() == self.rate()
        &&& after.position() == self.position()
        &&& after.position_notification() == self.position_notification()
    }

    /// Whether `after` is what `command` makes of this processor.
    pub open spec fn after_command(&self, after: &Self, command: Command<B>) -> bool {
        &&& self.same_transport(after)
        &&& match command {
            Command::Start => after.is_started() && after.graph() == self.graph(),
            Command::Stop => !after.is_started() && after.graph() == self.graph(),
            Command::AddDsp(dsp) => after.is_started() == self.is_started()
                && self.graph().after_add_dsp(&after.graph(), dsp),
            Command::RemoveDsp(id) => after.is_started() == self.is_started()
                && self.graph().after_remove_dsp(&after.graph(), id),
            Command::ParameterValueChange(change_request) => after.is_started()
                == self.is_started() && self.graph().after_parameter_change(
                &after.graph(),
                change_request,
            ),
            Command::AddConnection(connection) => after.is_started() == self.is_started()
                && self.graph().after_add_connection(&after.graph(), connection),
            Command::RemoveConnection(connection) => after.is_started() == self.is_started()
                && self.graph().after_remove_connection(&after.graph(), connection),
            Command::ConnectToOutput(output_endpoint) => after.is_started() == self.is_started()
                && self.graph().after_connect_to_output(&after.graph(), output_endpoint),
        }
    }

    /// Whether `states` are the states that a processor goes through while it
    /// does the commands of `commands` one after the other: one state before
    /// each command, and one after the last.
    pub open spec fn is_run_of(states: Seq<Self>, commands: Seq<Command<B>>) -> bool {
        &&& states.len() == commands.len() + 1
        &&& forall|i: int|
            0 <= i < commands.len() ==> (#[trigger] states[i]).after_command(
                &states[i + 1],
                commands[i],
            )
    }

    /// Whether `other` is in the state of this processor: the transport, the
    /// position, the graph and the count towards the next report are the same.
    pub open spec fn same_state(&self, other: &Self) -> bool {
        &&& self.same_transport(other)
        &&& other.is_started() == self.is_started()
        &&& other.graph() == self.graph()
    }

    /// Whether `after` is what the commands of `commands`, done one after the
    /// other, make of this processor.
    pub open spec fn after_commands(&self, after: &Self, commands: Seq<Command<B>>) -> bool {
        exists|states: Seq<Self>| #[trigger]
            Self::is_run_of(states, commands) && self.same_state(&states[0]) && after.same_state(
                &states[commands.len() as int],
            )
    }

    /// Into how many blocks a buffer of `num_frames` frames is cut.
    pub open spec fn number_of_blocks(num_frames: usize) -> int {
        (num_frames + MAXIMUM_NUMBER_OF_FRAMES - 1) / (MAXIMUM_NUMBER_OF_FRAMES as int)
    }

    /// Whether `graphs` and `outputs` are what the graph and the output buffer
    /// go through while a buffer of `num_frames` frames is rendered: they are
    /// as they are before the first block, and after every block. Block after
    /// block is `MAXIMUM_NUMBER_OF_FRAMES` long, and the last one as long as
    /// what is left. Every block is rendered at the one time `time`.
    pub open spec fn is_rendering_of(
        graphs: Seq<DspGraph<B>>,
        outputs: Seq<B>,
        num_frames: usize,
        time: Timestamp,
    ) -> bool {
        &&& graphs.len() == Self::number_of_blocks(num_frames) + 1
        &&& outputs.len() == Self::number_of_blocks(num_frames) + 1
        &&& forall|i: int|
            0 <= i < Self::number_of_blocks(num_frames) ==> (#[trigger] graphs[i]).after_process(
                &graphs[i + 1],
            ) && graphs[i].output_after_process(
                &graphs[i + 1],
                outputs[i],
                outputs[i + 1],
                (i * MAXIMUM_NUMBER_OF_FRAMES) as usize,
                if num_frames - i * MAXIMUM_NUMBER_OF_FRAMES < MAXIMUM_NUMBER_OF_FRAMES {
                    (num_frames - i * MAXIMUM_NUMBER_OF_FRAMES) as usize
                } else {
                    MAXIMUM_NUMBER_OF_FRAMES
                },
                time,
            )
    }

    /// Whether `graph_after` and `output_after` are what rendering a buffer at
    /// the time `time` leaves of `graph_before` and `output_before`.
    pub open spec fn after_blocks(
        graph_before: DspGraph<B>,
        output_before: B,
        graph_after: DspGraph<B>,
        output_after: B,
        time: Timestamp,
    ) -> bool {
        exists|graphs: Seq<DspGraph<B>>, outputs: Seq<B>| #[trigger]
            Self::is_rendering_of(graphs, outputs, output_before.frames(), time) && graphs[0]
                == graph_before && outputs[0] == output_before && graphs[graphs.len() - 1]
                == graph_after && outputs[outputs.len() - 1] == output_after
    }

    /// The time that the transport has run: its position, at the sample rate.
    pub open spec fn transport_time(&self) -> Timestamp {
        Timestamp::at_ticks(samples_to_ticks(self.position() as nat, self.rate() as nat) as u64)
    }

    /// Whether `after` and `output_after` are what a cleared buffer
    /// `output_before` makes of this processor and becomes itself: nothing
    /// happens if the transport is stopped; else the graph is rendered into
    /// the buffer, every block of it at the time that the transport has run
    /// before, the position moves on and the frames are counted towards the
    /// next report.
    pub open spec fn after_rendering(
        &self,
        after: &Self,
        output_before: B,
        output_after: B,
    ) -> bool {
        &&& after.rate() == self.rate()
        &&& after.is_started() == self.is_started()
        &&& !self.is_started() ==> self.same_transport(after) && after.graph() == self.graph()
            && output_after == output_before
        &&& self.is_started() ==> {
            &&& Self::after_blocks(
                self.graph(),
                output_before,
                after.graph(),
                output_after,
                self.transport_time(),
            )
            &&& after.position() == if self.position() + output_before.frames() > usize::MAX {
                usize::MAX
            } else {
                (self.position() + output_before.frames()) as usize
            }
            &&& after.position_notification().interval() == self.position_notification().interval()
            &&& after.position_notification().elapsed() == (self.position_notification().elapsed()
                + output_before.frames()) % (self.position_notification().interval() as int)
        }
    }

    pub closed spec fn is_well_formed(&self) -> bool {
        &&& self.graph.wf()
        &&& self.position_notification.wf()
    }

    /// A stopped processor with an empty graph at position zero, and the
    /// receiving end of the channel on which its graph retires nodes.
    pub fn new(
        sample_rate: usize,
        command_rx: mpsc::Receiver<Command<B>>,
        notification_tx: spsc::Sender<Notification>,
    ) -> (made: (Self, spsc::Receiver<GarbageCollectionCommand<B>>))
        ensures
            made.0.is_well_formed(),
            !made.0.is_started(),
            made.0.rate() == sample_rate,
            made.0.position() == 0,
            made.0.graph().node_ids().len() == 0,
            made.0.graph().edges().len() == 0,
            made.0.graph().output_endpoint() is None,
            made.0.graph().max_frames() == MAXIMUM_NUMBER_OF_FRAMES,
            made.0.graph().max_channels() == MAXIMUM_NUMBER_OF_CHANNELS,
    {
        let (graph, garbage_collection_rx) = DspGraph::new(
            MAXIMUM_NUMBER_OF_FRAMES,
            MAXIMUM_NUMBER_OF_CHANNELS,
            sample_rate,
        );
        let processor = Self {
            started: false,
            sample_rate,
            command_rx,
            notification_tx,
            sample_position: 0,
            graph,
            position_notification: PeriodicNotification::new(sample_rate, POSITION_INTERVAL_HZ),
        };
        (processor, garbage_collection_rx)
    }

    /// Renders the graph into all of `output_buffer`, in blocks of at most
    /// `MAXIMUM_NUMBER_OF_FRAMES` frames, each at the current transport time.
    fn process_graph(&mut self, output_buffer: &mut B)
        requires
            old(self).graph.wf(),
        ensures
            final(self).graph.wf(),
            final(self).started == old(self).started,
            final(self).sample_rate == old(self).sample_rate,
            final(self).sample_position == old(self).sample_position,
            final(self).position_notification == old(self).position_notification,
            final(self).graph.output_endpoint() == old(self).graph.output_endpoint(),
            final(output_buffer).frames() == old(output_buffer).frames(),
            final(output_buffer).channels() == old(output_buffer).channels(),
            final(output_buffer).rate() == old(output_buffer).rate(),
            old(self).graph.output_endpoint() is None
                ==> *final(output_buffer) == *old(output_buffer),
            Self::after_blocks(
                old(self).graph,
                *old(output_buffer),
                final(self).graph,
                *final(output_buffer),
                old(self).transport_time(),
            ),
    {
        let current_time = self.current_time();
        let total = output_buffer.num_frames();
        let ghost mut graphs = seq![self.graph];
        let ghost mut outputs = seq![*output_buffer];
        let ghost mut blocks: int = 0;
        let mut offset: usize = 0;
        while offset < total
            invariant
                self.graph.wf(),
                offset <= total,
                total == old(output_buffer).frames(),
                current_time == old(self).transport_time(),
                self.started == old(self).started,
                self.sample_rate == old(self).sample_rate,
                self.sample_position == old(self).sample_position,
                self.position_notification == old(self).position_notification,
                self.graph.output_endpoint() == old(self).graph.output_endpoint(),
                output_buffer.frames() == old(output_buffer).frames(),
                output_buffer.channels() == old(output_buffer).channels(),
                output_buffer.rate() == old(output_buffer).rate(),
                old(self).graph.output_endpoint() is None ==> *output_buffer == *old(output_buffer),
                0 <= blocks <= Self::number_of_blocks(total),
                offset == if blocks * MAXIMUM_NUMBER_OF_FRAMES < total {
                    blocks * MAXIMUM_NUMBER_OF_FRAMES
                } else {
                    total as int
                },
                offset < total ==> blocks < Self::number_of_blocks(total),
                offset == total ==> blocks == Self::number_of_blocks(total),
                graphs.len() == blocks + 1,
                outputs.len() == blocks + 1,
                graphs[0] == old(self).graph,
                outputs[0] == *old(output_buffer),
                graphs[blocks] == self.graph,
                outputs[blocks] == *output_buffer,
                forall|i: int|
                    0 <= i < blocks ==> (#[trigger] graphs[i]).after_process(&graphs[i + 1])
                        && graphs[i].output_after_process(
                        &graphs[i + 1],
                        outputs[i],
                        outputs[i + 1],
                        (i * MAXIMUM_NUMBER_OF_FRAMES) as usize,
                        if total - i * MAXIMUM_NUMBER_OF_FRAMES < MAXIMUM_NUMBER_OF_FRAMES {
                            (total - i * MAXIMUM_NUMBER_OF_FRAMES) as usize
                        } else {
                            MAXIMUM_NUMBER_OF_FRAMES
                        },
                        current_time,
                    ),
            decreases total - offset,
        {
            let left = total - offset;
            let num_frames = if left < self.get_maximum_number_of_frames() {
                left
            } else {
                self.get_maximum_number_of_frames()
            };
            self.graph.process(output_buffer, offset, num_frames, &current_time);
            proof {
                let more_graphs = graphs.push(self.graph);
                let more_outputs = outputs.push(*output_buffer);
                assert forall|i: int| 0 <= i < blocks + 1 implies (
                #[trigger] more_graphs[i]).after_process(&more_graphs[i + 1])
                    && more_graphs[i].output_after_process(
                    &more_graphs[i + 1],
                    more_outputs[i],
                    more_outputs[i + 1],
                    (i * MAXIMUM_NUMBER_OF_FRAMES) as usize,
                    if total - i * MAXIMUM_NUMBER_OF_FRAMES < MAXIMUM_NUMBER_OF_FRAMES {
                        (total - i * MAXIMUM_NUMBER_OF_FRAMES) as usize
                    } else {
                        MAXIMUM_NUMBER_OF_FRAMES
                    },
                    current_time,
                ) by {
                    assert(more_graphs[i] == graphs[i]);
                    assert(more_outputs[i] == outputs[i]);
                    if i < blocks {
                        assert(more_graphs[i + 1] == graphs[i + 1]);
                        assert(more_outputs[i + 1] == outputs[i + 1]);
                    }
                }
                graphs = more_graphs;
                outputs = more_outputs;
                blocks = blocks + 1;
            }
            offset += num_frames;
        }
        assert(Self::is_rendering_of(graphs, outputs, total, current_time));
    }

    /// Does what `command` asks.
    pub fn apply_command(&mut self, command: Command<B>)
        requires
            old(self).is_well_formed(),
        ensures
            final(self).is_well_formed(),
            old(self).after_command(final(self), command),
    {
        match command {
            Command::Start => {
                self.started = true;
            },
            Command::Stop => {
                self.started = false;
            },
            Command::AddDsp(dsp) => {
                self.graph.add_dsp(dsp);
            },
            Command::RemoveDsp(id) => {
                self.graph.remove_dsp(id);
            },
            Command::ParameterValueChange(change_request) => {
                let _ = self.graph.request_parameter_change(change_request);
            },
            Command::AddConnection(connection) => {
                self.graph.add_connection(connection);
            },
            Command::RemoveConnection(connection) => {
                self.graph.remove_connection(connection);
            },
            Command::ConnectToOutput(output_connection) => {
                self.graph.connect_to_output(output_connection);
            },
        }
    }

    /// Takes the commands that wait in the channel, in their order, and does
    /// what each asks, until the channel has none left.
    fn process_commands(&mut self)
        requires
            old(self).is_well_formed(),
        ensures
            final(self).is_well_formed(),
            exists|commands: Seq<Command<B>>| #[trigger]
                old(self).after_commands(final(self), commands),
    {
        let ghost mut commands = Seq::<Command<B>>::empty();
        let ghost mut states = seq![*self];
        let mut budget: usize = usize::MAX;
        while budget > 0
            invariant
                self.is_well_formed(),
                Self::is_run_of(states, commands),
                old(self).same_state(&states[0]),
                self.same_state(&states[commands.len() as int]),
            decreases budget,
        {
            budget -= 1;
            match self.command_rx.recv() {
                Ok(command) => {
                    self.apply_command(command);
                    proof {
                        let more_states = states.push(*self);
                        let more_commands = commands.push(command);
                        assert forall|i: int| 0 <= i < more_commands.len() implies (
                        #[trigger] more_states[i]).after_command(
                            &more_states[i + 1],
                            more_commands[i],
                        ) by {
                            assert(more_states[i] == states[i]);
                            if i < commands.len() {
                                assert(more_states[i + 1] == states[i + 1]);
                            }
                        }
                        states = more_states;
                        commands = more_commands;
                    }
                },
                Err(_) => {
                    break ;
                },
            }
        }
        assert(Self::is_run_of(states, commands));
        assert(old(self).after_commands(self, commands));
    }

    fn get_maximum_number_of_frames(&self) -> (frames: usize)
        ensures
            frames == MAXIMUM_NUMBER_OF_FRAMES,
    {
        MAXIMUM_NUMBER_OF_FRAMES
    }

    fn send_notification(&mut self, notification: Notification)
        ensures
            final(self).started == old(self).started,
            final(self).sample_rate == old(self).sample_rate,
            final(self).sample_position == old(self).sample_position,
            final(self).graph == old(self).graph,
            final(self).position_notification == old(self).position_notification,
    {
        let _ = self.notification_tx.send(notification);
    }

    /// Moves the transport on by `num_samples`; it stays at the last position
    /// that can be counted.
    fn update_position(&mut self, num_samples: usize)
        ensures
            final(self).started == old(self).started,
            final(self).sample_rate == old(self).sample_rate,
            final(self).graph == old(self).graph,
            final(self).position_notification == old(self).position_notification,
            final(self).sample_position == if old(self).sample_position + num_samples
                > usize::MAX {
                usize::MAX
            } else {
                (old(self).sample_position + num_samples) as usize
            },
    {
        self.sample_position = self.sample_position.saturating_add(num_samples);
    }

    /// The transport position as a time.
    pub fn current_time(&self) -> (time: Timestamp)
        ensures
            time == self.transport_time(),
            time.ticks() == samples_to_ticks(self.position() as nat, self.rate() as nat),
    {
        Timestamp::from_samples(self.sample_position, self.sample_rate)
    }

    /// The report that is due once `num_samples` more samples are counted: the
    /// position of the transport as it is now. `None` while the interval
    /// between two reports has not run out.
    pub open spec fn report_due(&self, num_samples: usize) -> Option<Notification> {
        if self.position_notification().elapsed() + num_samples
            >= self.position_notification().interval() {
            Some(Notification::Position(self.transport_time()))
        } else {
            None
        }
    }

    /// Counts `num_samples` towards the next report of the position, and hands
    /// back the report if it is due.
    pub fn position_report(&mut self, num_samples: usize) -> (report: Option<Notification>)
        requires
            old(self).is_well_formed(),
        ensures
            final(self).is_well_formed(),
            report == old(self).report_due(num_samples),
            final(self).position_notification().interval()
                == old(self).position_notification().interval(),
            final(self).position_notification().elapsed()
                == (old(self).position_notification().elapsed()
                    + num_samples) % (old(self).position_notification().interval() as int),
            final(self).is_started() == old(self).is_started(),
            final(self).rate() == old(self).rate(),
            final(self).position() == old(self).position(),
            final(self).graph() == old(self).graph(),
    {
        if self.position_notification.increment(num_samples) {
            Some(Notification::Position(self.current_time()))
        } else {
            None
        }
    }

    /// Counts `num_samples` towards the next report of the position and sends
    /// the report that `position_report` makes, if one is due.
    fn notify_position(&mut self, num_samples: usize)
        requires
            old(self).is_well_formed(),
        ensures
            final(self).is_well_formed(),
            final(self).position_notification.interval()
                == old(self).position_notification.interval(),
            final(self).position_notification.elapsed()
                == (old(self).position_notification.elapsed()
                    + num_samples) % (old(self).position_notification.interval() as int),
            final(self).started == old(self).started,
            final(self).sample_rate == old(self).sample_rate,
            final(self).sample_position == old(self).sample_position,
            final(self).graph == old(self).graph,
    {
        if let Some(report) = self.position_report(num_samples) {
            self.send_notification(report);
        }
    }
}

impl<B: AudioBuffer> AudioProcess<B> for Processor<B> {
    open spec fn wf(&self) -> bool {
        self.is_well_formed()
    }

    /// One callback of the host: `output_buffer` is cleared, the commands that
    /// wait are done, and if the transport runs after them the graph is
    /// rendered into `output_buffer` and the transport moves on by its length.
    /// The buffer stays silent where the transport is stopped or nothing is
    /// connected to the output.
    fn process(&mut self, output_buffer: &mut B)
        ensures
            exists|commands: Seq<Command<B>>, drained: Self|
                #![trigger old(self).after_commands(&drained, commands)]
                old(self).after_commands(&drained, commands) && drained.after_rendering(
                    final(self),
                    old(output_buffer).cleared(),
                    *final(output_buffer),
                ),
            !final(self).is_started() || final(self).graph().output_endpoint() is None
                ==> final(output_buffer).silent(),
    {
        output_buffer.clear();

        self.process_commands();
        let ghost drained = *self;
        let ghost commands = choose|commands: Seq<Command<B>>|
            old(self).after_commands(&drained, commands);

        if !self.started {
            assert(old(self).after_commands(&drained, commands) && drained.after_rendering(
                self,
                old(output_buffer).cleared(),
                *output_buffer,
            ));
            return ;
        }
        let num_frames = output_buffer.num_frames();
        self.process_graph(output_buffer);
        self.update_position(num_frames);
        self.notify_position(num_frames);
        assert(old(self).after_commands(&drained, commands) && drained.after_rendering(
            self,
            old(output_buffer).cleared(),
            *output_buffer,
        ));
    }

    fn get_maximum_number_of_frames(&self) -> (frames: usize)
        ensures
            frames == MAXIMUM_NUMBER_OF_FRAMES,
    {
        MAXIMUM_NUMBER_OF_FRAMES
    }

    fn get_maximum_number_of_channel(&self) -> (channels: usize)
        ensures
            channels == MAXIMUM_NUMBER_OF_CHANNELS,
    {
        MAXIMUM_NUMBER_OF_CHANNELS
    }
}

} // verus!
