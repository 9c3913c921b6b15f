use crate::buffer::audio_buffer::AudioBuffer;
use crate::buffer::sample_location::SampleLocation;
use crate::commands::command::ParameterChangeRequest;
use crate::commands::id::Id;
use crate::graph::buffer_pool::BufferPool;
use crate::graph::connection::Connection;
use crate::graph::dsp::Dsp;
use crate::graph::endpoint::Endpoint;
use crate::graph::endpoint::EndpointType;
use crate::realtime::garbage_collector::GarbageCollectionCommand;
use crate::realtime::graph::edges_without_node;
use crate::realtime::graph::has_edge;
use crate::realtime::graph::lemma_edges_without_missing_node;
use crate::realtime::graph::Graph;
use crate::realtime::topological_sort::is_ready;
use crate::realtime::topological_sort::is_topological_order;
use crate::realtime::topological_sort::TopologicalSort;
use crate::timestamp::Timestamp;
use lockfree::channel::spsc::Receiver;
use lockfree::channel::spsc::Sender;
use vstd::prelude::*;

verus! {

/// How many nodes the graph is sized for.
pub const MAXIMUM_NUMBER_OF_NODES: usize = 512;

/// How many connections the graph is sized for.
pub const MAXIMUM_NUMBER_OF_CONNECTIONS: usize = 512;

/// How many buffers the pool holds.
pub const NUMBER_OF_BUFFERS: usize = 128;

/// The nodes and connections of the engine, and what it takes to render them
/// block by block: the order of the nodes, the pool of buffers that carry one
/// node's output to the next, and the endpoint that is heard.
#[verifier::reject_recursive_types(B)]
pub struct DspGraph<B> {
    graph: Graph<Box<Dsp<B>>, Connection>,
    topological_sort: TopologicalSort,
    output_endpoint: Option<Endpoint>,
    garbage_collection_tx: Sender<GarbageCollectionCommand<B>>,
    graph_needs_sort: bool,
    buffer_pool: BufferPool<B>,
    maximum_number_of_channels: usize,
    maximum_number_of_frames: usize,
}

/// Whether a block of `num_channels` by `num_frames` samples can be exchanged
/// between the buffers of `pool` and the frames of `buffer` from `offset` on.
pub open spec fn block_fits<B: AudioBuffer>(
    pool: &BufferPool<B>,
    buffer: &B,
    offset: usize,
    num_channels: usize,
    num_frames: usize,
) -> bool {
    &&& num_channels <= pool.channels()
    &&& num_frames <= pool.frames()
    &&& num_channels <= buffer.channels()
    &&& offset + num_frames <= buffer.frames()
}

/// Whether nothing but what `rendered` names has changed from `before` to
/// `after`: every node is in its place, under its id and with its parameters,
/// and every node that `rendered` does not name is just as it was. What the
/// nodes of `rendered` rendered is not said here: see `is_block_of`.
pub open spec fn only_rendered_change<B: AudioBuffer>(
    before: Seq<Box<Dsp<B>>>,
    after: Seq<Box<Dsp<B>>>,
    node_ids: Seq<Id>,
    rendered: Seq<Id>,
) -> bool {
    &&& after.len() == before.len()
    &&& forall|i: int|
        0 <= i < before.len() ==> (#[trigger] after[i]).id() == before[i].id()
            && after[i].parameters() == before[i].parameters()
    &&& forall|i: int|
        0 <= i < before.len() && !rendered.contains(node_ids[i]) ==> #[trigger] after[i]
            == before[i]
}

/// How many nodes a pool with `free_buffers` free buffers can render in one
/// block: every node keeps one buffer until the block is over, and needs a
/// second one while it renders.
pub open spec fn num_rendered(num_nodes: nat, free_buffers: nat) -> nat {
    if free_buffers < 2 {
        0
    } else if num_nodes < free_buffers {
        num_nodes
    } else {
        (free_buffers - 1) as nat
    }
}

/// The nodes of `order` that a pool with `free_buffers` free buffers has
/// buffers for: those that come first, `num_rendered` of them. These are the
/// nodes that a block renders (`is_block_of` says what each of them renders);
/// the others stay silent.
pub open spec fn rendered_nodes(order: Seq<Id>, free_buffers: nat) -> Seq<Id> {
    order.subrange(0, num_rendered(order.len(), free_buffers) as int)
}

/// `buffer` with the block that waits in `assignments` under the tag `endpoint`
/// added to its frames from `frame_offset` on; `buffer` as it is where nothing
/// waits under the tag.
pub open spec fn mixed_endpoint<B: AudioBuffer>(
    buffer: B,
    assignments: Map<Endpoint, B>,
    endpoint: Endpoint,
    frame_offset: usize,
    num_channels: usize,
    num_frames: usize,
) -> B {
    if assignments.contains_key(endpoint) {
        buffer.mixed(
            &assignments[endpoint],
            SampleLocation { channel: 0, frame: 0 },
            SampleLocation { channel: 0, frame: frame_offset },
            num_channels,
            num_frames,
        )
    } else {
        buffer
    }
}

/// `buffer` with the blocks added that the sources of the node `id` have
/// rendered: one after the other, in the order of the first `upto` edges, once
/// for every edge that arrives at the node.
pub open spec fn mixed_sources<B: AudioBuffer>(
    buffer: B,
    edges: Seq<(Id, Id, Connection)>,
    id: Id,
    assignments: Map<Endpoint, B>,
    num_channels: usize,
    num_frames: usize,
    upto: int,
) -> B
    decreases upto,
{
    if upto <= 0 {
        buffer
    } else {
        let before = mixed_sources(
            buffer,
            edges,
            id,
            assignments,
            num_channels,
            num_frames,
            upto - 1,
        );
        if edges[upto - 1].1 == id {
            mixed_endpoint(
                before,
                assignments,
                Endpoint::output_of(edges[upto - 1].0),
                0,
                num_channels,
                num_frames,
            )
        } else {
            before
        }
    }
}

/// How many channels of a block are rendered: as many as both the output and
/// the buffers of the pool have.
pub open spec fn block_channels(output_channels: usize, maximum: usize) -> usize {
    if output_channels < maximum {
        output_channels
    } else {
        maximum
    }
}

/// How many frames of a block of `block_frames` frames are rendered to the
/// frames of the output from `frame_offset` on: as many as are asked for, as
/// the buffers of the pool are long, and as the output has from there.
pub open spec fn block_length(
    output_frames: usize,
    frame_offset: usize,
    block_frames: usize,
    maximum: usize,
) -> usize {
    let available = if frame_offset < output_frames {
        (output_frames - frame_offset) as usize
    } else {
        0
    };
    let wanted = if block_frames < maximum {
        block_frames
    } else {
        maximum
    };
    if wanted < available {
        wanted
    } else {
        available
    }
}

/// Whether `rendered` is what the node `id` leaves in a block: what the node
/// of that id renders into the silent buffer `silence_out`, from the sum of
/// what `buffers` holds of its sources, added up on the silent buffer
/// `silence_in`, for `num_frames` frames, at `start_time`, with the node's own
/// parameters. Where no node stands under the id, nothing is rendered and the
/// buffer stays silent.
pub open spec fn is_render_of<B: AudioBuffer>(
    nodes: Seq<Box<Dsp<B>>>,
    node_ids: Seq<Id>,
    edges: Seq<(Id, Id, Connection)>,
    id: Id,
    buffers: Map<Endpoint, B>,
    silence_in: B,
    silence_out: B,
    rendered: B,
    num_channels: usize,
    num_frames: usize,
    start_time: Timestamp,
) -> bool {
    if node_ids.contains(id) {
        let node = nodes[node_ids.index_of(id)];
        node.renders(
            &mixed_sources(
                silence_in,
                edges,
                id,
                buffers,
                num_channels,
                num_frames,
                edges.len() as int,
            ),
            &silence_out,
            &rendered,
            num_frames,
            &start_time,
            &node.parameters(),
        )
    } else {
        rendered == silence_out
    }
}

/// Whether `buffer` is a silent buffer of the given size.
pub open spec fn is_silence<B: AudioBuffer>(
    buffer: B,
    frames: usize,
    channels: usize,
    rate: usize,
) -> bool {
    &&& buffer.silent()
    &&& buffer.frames() == frames
    &&& buffer.channels() == channels
    &&& buffer.rate() == rate
}

/// Whether `buffers` holds what a block leaves in the pool: under the output
/// of every node of `rendered`, and under no other tag, what that node
/// rendered from the sum of what `buffers` holds of its sources. `silence`
/// names, for each of these nodes in their order, the two silent buffers of
/// the pool that it started from: the one its sources were summed on, and the
/// one it rendered into.
pub open spec fn is_block_of<B: AudioBuffer>(
    nodes: Seq<Box<Dsp<B>>>,
    node_ids: Seq<Id>,
    edges: Seq<(Id, Id, Connection)>,
    rendered: Seq<Id>,
    buffers: Map<Endpoint, B>,
    silence: Seq<(B, B)>,
    frames: usize,
    channels: usize,
    rate: usize,
    num_channels: usize,
    num_frames: usize,
    start_time: Timestamp,
) -> bool {
    &&& silence.len() == rendered.len()
    &&& forall|endpoint: Endpoint| #[trigger]
        buffers.contains_key(endpoint) <==> rendered.contains(endpoint.dsp_id)
    &&& forall|k: int|
        0 <= k < rendered.len() ==> {
            &&& is_silence((#[trigger] silence[k]).0, frames, channels, rate)
            &&& is_silence(silence[k].1, frames, channels, rate)
            &&& is_render_of(
                nodes,
                node_ids,
                edges,
                rendered[k],
                buffers,
                silence[k].0,
                silence[k].1,
                buffers[Endpoint::output_of(rendered[k])],
                num_channels,
                num_frames,
                start_time,
            )
        }
}

/// The sum of a node's sources is the same for two sets of buffers that hold
/// the same of every source.
pub proof fn lemma_mixed_sources_same<B: AudioBuffer>(
    buffer: B,
    edges: Seq<(Id, Id, Connection)>,
    id: Id,
    first: Map<Endpoint, B>,
    second: Map<Endpoint, B>,
    num_channels: usize,
    num_frames: usize,
    upto: int,
)
    requires
        upto <= edges.len(),
        forall|j: int|
            0 <= j < upto && (#[trigger] edges[j]).1 == id ==> first.contains_key(
                Endpoint::output_of(edges[j].0),
            ) == second.contains_key(Endpoint::output_of(edges[j].0)) && (first.contains_key(
                Endpoint::output_of(edges[j].0),
            ) ==> first[Endpoint::output_of(edges[j].0)] == second[Endpoint::output_of(
                edges[j].0,
            )]),
    ensures
        mixed_sources(buffer, edges, id, first, num_channels, num_frames, upto) == mixed_sources(
            buffer,
            edges,
            id,
            second,
            num_channels,
            num_frames,
            upto,
        ),
    decreases upto,
{
    if upto > 0 {
        lemma_mixed_sources_same(
            buffer,
            edges,
            id,
            first,
            second,
            num_channels,
            num_frames,
            upto - 1,
        );
        let edge = edges[upto - 1];
    }
}

impl<B: AudioBuffer> DspGraph<B> {
    /// The ids of the nodes, in the order in which they were added.
    pub closed spec fn node_ids(&self) -> Seq<Id> {
        self.graph.node_ids()
    }

    /// The nodes, each at the index of its id in `node_ids`.
    pub closed spec fn nodes(&self) -> Seq<Box<Dsp<B>>> {
        self.graph.nodes()
    }

    /// The connections, each with the node it leaves and the node it arrives at.
    pub closed spec fn edges(&self) -> Seq<(Id, Id, Connection)> {
        self.graph.edges()
    }

    /// The order in which the nodes were rendered last.
    pub closed spec fn order(&self) -> Seq<Id> {
        self.topological_sort.order()
    }

    /// Whether the graph has changed since the order was computed.
    pub closed spec fn needs_sort(&self) -> bool {
        self.graph_needs_sort
    }

    pub closed spec fn output_endpoint(&self) -> Option<Endpoint> {
        self.output_endpoint
    }

    pub closed spec fn pool(&self) -> BufferPool<B> {
        self.buffer_pool
    }

    pub closed spec fn max_frames(&self) -> usize {
        self.maximum_number_of_frames
    }

    pub closed spec fn max_channels(&self) -> usize {
        self.maximum_number_of_channels
    }

    /// Between blocks the graph and the pool are well formed, every buffer of
    /// the pool is free and without a tag, every node stands under its own id,
    /// and the order, unless the graph has changed since, is one in which the
    /// graph can be rendered.
    pub closed spec fn wf(&self) -> bool {
        &&& self.graph.wf()
        &&& self.buffer_pool.wf()
        &&& self.buffer_pool.all_free()
        &&& self.buffer_pool.frames() == self.maximum_number_of_frames
        &&& self.buffer_pool.channels() == self.maximum_number_of_channels
        &&& forall|i: int|
            0 <= i < self.graph.nodes().len() ==> (#[trigger] self.graph.nodes()[i]).id()
                == self.graph.node_ids()[i]
        &&& !self.graph_needs_sort ==> is_topological_order(
            self.graph.node_ids(),
            self.graph.edges(),
            self.topological_sort.order(),
        )
    }

    /// Whether `after` has the output endpoint, the pool and the limits of this
    /// graph.
    pub open spec fn same_setup(&self, after: &Self) -> bool {
        &&& after.output_endpoint() == self.output_endpoint()
        &&& after.pool() == self.pool()
        &&& after.max_frames() == self.max_frames()
        &&& after.max_channels() == self.max_channels()
    }

    /// Whether `after` is this graph with `dsp` added: as a new node at the end,
    /// or in the place of the node that stood under its id.
    pub open spec fn after_add_dsp(&self, after: &Self, dsp: Box<Dsp<B>>) -> bool {
        &&& self.same_setup(after)
        &&& after.needs_sort()
        &&& after.edges() == self.edges()
        &&& !self.node_ids().contains(dsp.id()) ==> after.node_ids() == self.node_ids().push(
            dsp.id(),
        ) && after.nodes() == self.nodes().push(dsp)
        &&& self.node_ids().contains(dsp.id()) ==> after.node_ids() == self.node_ids()
            && after.nodes() == self.nodes().update(self.node_ids().index_of(dsp.id()), dsp)
    }

    /// Whether `after` is this graph without the node `id` and without the
    /// connections that touched it.
    pub open spec fn after_remove_dsp(&self, after: &Self, id: Id) -> bool {
        &&& self.same_setup(after)
        &&& after.needs_sort()
        &&& !self.node_ids().contains(id) ==> after.node_ids() == self.node_ids() && after.nodes()
            == self.nodes() && after.edges() == self.edges()
        &&& self.node_ids().contains(id) ==> {
            let i = self.node_ids().index_of(id);
            &&& after.node_ids() == self.node_ids().remove(i)
            &&& after.nodes() == self.nodes().remove(i)
            &&& after.edges() == edges_without_node(self.edges(), id)
        }
    }

    /// Whether `change_request` names a node of this graph and a parameter of
    /// that node.
    pub open spec fn has_parameter(&self, change_request: ParameterChangeRequest) -> bool {
        self.node_ids().contains(change_request.dsp_id) && self.nodes()[self.node_ids().index_of(
            change_request.dsp_id,
        )].parameters().contains(change_request.parameter_id)
    }

    /// Whether `after` is this graph with the event of `change_request` added
    /// to the parameter that it names, if there is such a parameter, and with
    /// nothing else changed.
    pub open spec fn after_parameter_change(
        &self,
        after: &Self,
        change_request: ParameterChangeRequest,
    ) -> bool {
        &&& self.same_setup(after)
        &&& after.needs_sort() == self.needs_sort()
        &&& after.order() == self.order()
        &&& after.node_ids() == self.node_ids()
        &&& after.edges() == self.edges()
        &&& after.nodes().len() == self.nodes().len()
        &&& forall|j: int|
            0 <= j < self.nodes().len() && self.node_ids()[j] != change_request.dsp_id
                ==> after.nodes()[j] == self.nodes()[j]
        &&& self.node_ids().contains(change_request.dsp_id) ==> {
            let i = self.node_ids().index_of(change_request.dsp_id);
            let before = self.nodes()[i].parameters();
            let changed = after.nodes()[i].parameters();
            &&& !self.has_parameter(change_request) ==> changed@ == before@
            &&& self.has_parameter(change_request) ==> {
                let p = crate::graph::dsp::first_index_of(before@, change_request.parameter_id);
                &&& changed@.len() == before@.len()
                &&& forall|j: int| 0 <= j < before@.len() && j != p ==> changed@[j] == before@[j]
                &&& changed@[p].id() == change_request.parameter_id
                &&& changed@[p].initial_value() == before@[p].initial_value()
                &&& changed@[p].events() == before@[p].events().push(change_request.event)
            }
        }
    }

    /// Whether `after` is this graph with `connection` made: added at the end
    /// where both nodes are there and not connected yet, else with the same
    /// connections between the same nodes.
    pub open spec fn after_add_connection(&self, after: &Self, connection: Connection) -> bool {
        let from = connection.source.dsp_id;
        let to = connection.destination.dsp_id;
        let possible = self.node_ids().contains(from) && self.node_ids().contains(to);
        let connected = has_edge(self.edges(), from, to);
        &&& self.same_setup(after)
        &&& after.needs_sort()
        &&& after.node_ids() == self.node_ids()
        &&& after.nodes() == self.nodes()
        &&& possible && !connected ==> after.edges() == self.edges().push((from, to, connection))
        &&& !possible ==> after.edges() == self.edges()
        &&& connected ==> after.edges().len() == self.edges().len() && forall|i: int|
            0 <= i < self.edges().len() ==> (#[trigger] after.edges()[i]).0 == self.edges()[i].0
                && after.edges()[i].1 == self.edges()[i].1
    }

    /// Whether `after` is this graph without the connection from the source of
    /// `connection` to its destination.
    pub open spec fn after_remove_connection(&self, after: &Self, connection: Connection) -> bool {
        let from = connection.source.dsp_id;
        let to = connection.destination.dsp_id;
        &&& self.same_setup(after)
        &&& after.needs_sort()
        &&& after.node_ids() == self.node_ids()
        &&& after.nodes() == self.nodes()
        &&& !has_edge(after.edges(), from, to)
        &&& !has_edge(self.edges(), from, to) ==> after.edges() == self.edges()
        &&& has_edge(self.edges(), from, to) ==> exists|i: int|
            0 <= i < self.edges().len() && (#[trigger] self.edges()[i]).0 == from
                && self.edges()[i].1 == to && after.edges() == self.edges().remove(i)
    }

    /// Whether `after` is this graph with `output_endpoint` as the endpoint
    /// that is heard.
    pub open spec fn after_connect_to_output(
        &self,
        after: &Self,
        output_endpoint: Endpoint,
    ) -> bool {
        &&& after.output_endpoint() == Some(output_endpoint)
        &&& after.needs_sort() == self.needs_sort()
        &&& after.order() == self.order()
        &&& after.node_ids() == self.node_ids()
        &&& after.nodes() == self.nodes()
        &&& after.edges() == self.edges()
        &&& after.pool() == self.pool()
        &&& after.max_frames() == self.max_frames()
        &&& after.max_channels() == self.max_channels()
    }

    /// Whether `after` is this graph a block later: the same nodes and
    /// connections, output endpoint and limits; the order computed if it was
    /// due, and kept if not; the nodes of the order rendered, as far as the
    /// buffers of the pool go, and every other node as it was; every buffer
    /// back in the pool.
    pub open spec fn after_process(&self, after: &Self) -> bool {
        &&& after.output_endpoint() == self.output_endpoint()
        &&& after.max_frames() == self.max_frames()
        &&& after.max_channels() == self.max_channels()
        &&& after.pool().all_free()
        &&& after.pool().free_buffers().len() == self.pool().free_buffers().len()
        &&& after.node_ids() == self.node_ids()
        &&& after.edges() == self.edges()
        &&& !after.needs_sort()
        &&& is_topological_order(after.node_ids(), after.edges(), after.order())
        &&& !self.needs_sort() ==> after.order() == self.order()
        &&& only_rendered_change(
            self.nodes(),
            after.nodes(),
            after.node_ids(),
            rendered_nodes(after.order(), self.pool().free_buffers().len()),
        )
    }

    /// Whether `buffers` holds what a block of this graph leaves in the pool,
    /// when the nodes are rendered in the order `order`, as far as the buffers
    /// of the pool go, for `num_frames` frames on `num_channels` channels, at
    /// `start_time`: see `is_block_of`.
    pub open spec fn is_block(
        &self,
        order: Seq<Id>,
        buffers: Map<Endpoint, B>,
        silence: Seq<(B, B)>,
        num_channels: usize,
        num_frames: usize,
        start_time: Timestamp,
    ) -> bool {
        is_block_of(
            self.nodes(),
            self.node_ids(),
            self.edges(),
            rendered_nodes(order, self.pool().free_buffers().len()),
            buffers,
            silence,
            self.pool().frames(),
            self.pool().channels(),
            self.pool().rate(),
            num_channels,
            num_frames,
            start_time,
        )
    }

    /// Whether `output_after` is what a block of `block_frames` frames at
    /// `frame_offset`, rendered at `start_time`, leaves of `output_before`,
    /// when `after` is this graph after the block: a buffer of the same size,
    /// with what the node under the output endpoint rendered in the block
    /// added to the frames of the block. Where there is no output endpoint, or
    /// no node was rendered under it, it is `output_before` itself.
    pub open spec fn output_after_process(
        &self,
        after: &Self,
        output_before: B,
        output_after: B,
        frame_offset: usize,
        block_frames: usize,
        start_time: Timestamp,
    ) -> bool {
        let num_channels = block_channels(output_before.channels(), self.max_channels());
        let num_frames = block_length(
            output_before.frames(),
            frame_offset,
            block_frames,
            self.max_frames(),
        );
        let offset = if num_frames == 0 {
            0
        } else {
            frame_offset
        };
        &&& output_after.frames() == output_before.frames()
        &&& output_after.channels() == output_before.channels()
        &&& output_after.rate() == output_before.rate()
        &&& exists|buffers: Map<Endpoint, B>, silence: Seq<(B, B)>| #[trigger]
            self.is_block(after.order(), buffers, silence, num_channels, num_frames, start_time)
                && output_after == match self.output_endpoint() {
                Some(endpoint) => mixed_endpoint(
                    output_before,
                    buffers,
                    endpoint,
                    offset,
                    num_channels,
                    num_frames,
                ),
                None => output_before,
            }
    }

    /// What holds of a well-formed graph between blocks.
    pub proof fn lemma_wf(&self)
        requires
            self.wf(),
        ensures
            self.pool().wf(),
            self.pool().all_free(),
            self.pool().frames() == self.max_frames(),
            self.pool().channels() == self.max_channels(),
            self.node_ids().no_duplicates(),
            self.nodes().len() == self.node_ids().len(),
            forall|i: int|
                0 <= i < self.nodes().len() ==> (#[trigger] self.nodes()[i]).id()
                    == self.node_ids()[i],
            forall|k: int|
                0 <= k < self.edges().len() ==> self.node_ids().contains(
                    (#[trigger] self.edges()[k]).0,
                ) && self.node_ids().contains(self.edges()[k].1),
            !self.needs_sort() ==> is_topological_order(
                self.node_ids(),
                self.edges(),
                self.order(),
            ),
    {
        self.graph.lemma_wf();
    }

    /// An empty graph with its pool of buffers, and the receiving end of the
    /// channel on which it retires nodes: whoever holds that end disposes of
    /// them.
    pub fn new(
        maximum_number_of_frames: usize,
        maximum_number_of_channels: usize,
        sample_rate: usize,
    ) -> (made: (Self, Receiver<GarbageCollectionCommand<B>>))
        ensures
            made.0.wf(),
            made.0.node_ids() == Seq::<Id>::empty(),
            made.0.edges() == Seq::<(Id, Id, Connection)>::empty(),
            made.0.order() == Seq::<Id>::empty(),
            !made.0.needs_sort(),
            made.0.output_endpoint() == None::<Endpoint>,
            made.0.max_frames() == maximum_number_of_frames,
            made.0.max_channels() == maximum_number_of_channels,
            made.0.pool().rate() == sample_rate,
            made.0.pool().free_buffers().len() == NUMBER_OF_BUFFERS,
    {
        let (garbage_collection_tx, garbage_collection_rx) = lockfree::channel::spsc::create();
        let graph = Self {
            graph: Graph::with_capacity(MAXIMUM_NUMBER_OF_NODES, MAXIMUM_NUMBER_OF_CONNECTIONS),
            topological_sort: TopologicalSort::with_capacity(MAXIMUM_NUMBER_OF_NODES),
            graph_needs_sort: false,
            output_endpoint: None,
            garbage_collection_tx,
            buffer_pool: BufferPool::with_capacity(
                NUMBER_OF_BUFFERS,
                maximum_number_of_frames,
                maximum_number_of_channels,
                sample_rate,
            ),
            maximum_number_of_channels,
            maximum_number_of_frames,
        };
        (graph, garbage_collection_rx)
    }

    /// Renders one block. The block is `block_frames` long and goes to the
    /// frames of `output_buffer` from `frame_offset` on; it is cut short where
    /// the pool's buffers or `output_buffer` end, and uses no more channels
    /// than either has.
    ///
    /// Every node of the order renders once, into a buffer of the pool, from
    /// the sum of what its sources rendered; where the pool runs out of
    /// buffers, the nodes that are left stay silent. What the output endpoint
    /// rendered is added to `output_buffer`; where it rendered nothing, or
    /// there is no output endpoint, `output_buffer` is left as it was.
    /// Afterwards every buffer is back in the pool, free and without a tag.
    pub fn process(
        &mut self,
        output_buffer: &mut B,
        frame_offset: usize,
        block_frames: usize,
        start_time: &Timestamp,
    )
        requires
            old(self).wf(),
        ensures
            final(self).wf(),
            old(self).after_process(final(self)),
            old(self).output_after_process(
                final(self),
                *old(output_buffer),
                *final(output_buffer),
                frame_offset,
                block_frames,
                *start_time,
            ),
    {
        let num_channels = if output_buffer.num_channels() < self.maximum_number_of_channels {
            output_buffer.num_channels()
        } else {
            self.maximum_number_of_channels
        };
        let available = if frame_offset < output_buffer.num_frames() {
            output_buffer.num_frames() - frame_offset
        } else {
            0
        };
        let wanted = if block_frames < self.maximum_number_of_frames {
            block_frames
        } else {
            self.maximum_number_of_frames
        };
        let num_frames = if wanted < available {
            wanted
        } else {
            available
        };
        let offset = if num_frames == 0 {
            0
        } else {
            frame_offset
        };

        self.sort_graph();
        proof {
            self.buffer_pool.lemma_buffers_fit();
            self.graph.lemma_wf();
        }
        let ghost sorted = *self;
        self.process_dsps(num_frames, num_channels, start_time);
        let ghost buffers = self.buffer_pool.assignments();
        let ghost silence = choose|silence: Seq<(B, B)>|
            is_block_of(
                sorted.graph.nodes(),
                sorted.graph.node_ids(),
                sorted.graph.edges(),
                rendered_nodes(
                    sorted.topological_sort.order(),
                    sorted.buffer_pool.free_buffers().len(),
                ),
                buffers,
                silence,
                sorted.buffer_pool.frames(),
                sorted.buffer_pool.channels(),
                sorted.buffer_pool.rate(),
                num_channels,
                num_frames,
                *start_time,
            );
        self.write_to_output(output_buffer, offset, num_channels, num_frames);

        proof {
            self.buffer_pool.lemma_buffers_fit();
            assert(old(self).is_block(
                self.topological_sort.order(),
                buffers,
                silence,
                num_channels,
                num_frames,
                *start_time,
            ));
        }
        self.buffer_pool.clear_assignments();
        proof {
            self.buffer_pool.lemma_buffers_fit();
            assert(num_channels == block_channels(
                old(output_buffer).channels(),
                old(self).max_channels(),
            ));
            assert(num_frames == block_length(
                old(output_buffer).frames(),
                frame_offset,
                block_frames,
                old(self).max_frames(),
            ));
            assert(old(self).is_block(
                self.order(),
                buffers,
                silence,
                num_channels,
                num_frames,
                *start_time,
            ) && *output_buffer == match old(self).output_endpoint() {
                Some(endpoint) => mixed_endpoint(
                    *old(output_buffer),
                    buffers,
                    endpoint,
                    offset,
                    num_channels,
                    num_frames,
                ),
                None => *old(output_buffer),
            });
        }
    }

    /// How many buffers of the pool are free: between blocks, all of them.
    pub fn num_free_buffers(&self) -> (count: usize)
        ensures
            count == self.pool().free_buffers().len(),
    {
        self.buffer_pool.num_free()
    }

    /// Whether every buffer of the pool is back in it.
    pub fn all_buffers_are_available(&self) -> (available: bool)
        ensures
            available == (self.pool().num_taken() == 0),
    {
        self.buffer_pool.all_buffers_are_available()
    }

    /// The command that retires the node that `dsp` replaces: the node that
    /// stands under the id of `dsp`. `None` where no node stands there.
    pub open spec fn replaced_by(&self, dsp: Box<Dsp<B>>) -> Option<GarbageCollectionCommand<B>> {
        self.retired_by(dsp.id())
    }

    /// The command that retires the node `id`. `None` where no node stands
    /// under that id.
    pub open spec fn retired_by(&self, id: Id) -> Option<GarbageCollectionCommand<B>> {
        if self.node_ids().contains(id) {
            Some(GarbageCollectionCommand::DisposeDsp(self.nodes()[self.node_ids().index_of(id)]))
        } else {
            None
        }
    }

    /// Puts `dsp` into the graph under its id, and hands back the command that
    /// retires the node that stood there before, if one did. That node keeps
    /// its connections to the new node.
    pub fn put_dsp(&mut self, dsp: Box<Dsp<B>>) -> (retired: Option<GarbageCollectionCommand<B>>)
        requires
            old(self).wf(),
        ensures
            final(self).wf(),
            old(self).after_add_dsp(final(self), dsp),
            retired == old(self).replaced_by(dsp),
    {
        let id = dsp.get_id();
        proof {
            self.graph.lemma_wf();
            if self.graph.node_ids().contains(id) {
                let i = self.graph.node_ids().index_of(id);
                assert(self.graph.node_ids()[i] == id);
            }
        }
        let retired = match self.graph.add_node_with_id(id, dsp) {
            Some(replaced) => Some(GarbageCollectionCommand::DisposeDsp(replaced)),
            None => None,
        };
        self.mark_graph_needs_sort();
        retired
    }

    /// Puts `dsp` into the graph under its id. A node that stood under that id
    /// is replaced, keeps its connections to the new node, and is retired: the
    /// command that `put_dsp` makes for it is sent to whoever disposes of
    /// nodes, and the node is not freed here.
    pub fn add_dsp(&mut self, dsp: Box<Dsp<B>>)
        requires
            old(self).wf(),
        ensures
            final(self).wf(),
            old(self).after_add_dsp(final(self), dsp),
    {
        if let Some(command) = self.put_dsp(dsp) {
            let _ = self.garbage_collection_tx.send(command);
        }
    }

    fn mark_graph_needs_sort(&mut self)
        ensures
            final(self).graph == old(self).graph,
            final(self).topological_sort == old(self).topological_sort,
            final(self).output_endpoint == old(self).output_endpoint,
            final(self).buffer_pool == old(self).buffer_pool,
            final(self).maximum_number_of_channels == old(self).maximum_number_of_channels,
            final(self).maximum_number_of_frames == old(self).maximum_number_of_frames,
            final(self).graph_needs_sort,
    {
        self.graph_needs_sort = true;
    }

    /// Computes the order anew if the graph has changed since it was computed.
    fn sort_graph(&mut self)
        requires
            old(self).wf(),
        ensures
            final(self).wf(),
            !final(self).graph_needs_sort,
            !old(self).graph_needs_sort
                ==> final(self).topological_sort == old(self).topological_sort,
            final(self).graph == old(self).graph,
            final(self).output_endpoint == old(self).output_endpoint,
            final(self).buffer_pool == old(self).buffer_pool,
            final(self).maximum_number_of_channels == old(self).maximum_number_of_channels,
            final(self).maximum_number_of_frames == old(self).maximum_number_of_frames,
    {
        if self.graph_needs_sort {
            self.topological_sort.sort(&self.graph);
            self.graph_needs_sort = false;
        }
    }

    /// Takes the node `id` out of the graph, with its connections, and hands
    /// back the command that retires it. `None` where no node stands under the
    /// id.
    pub fn take_dsp(&mut self, id: Id) -> (retired: Option<GarbageCollectionCommand<B>>)
        requires
            old(self).wf(),
        ensures
            final(self).wf(),
            old(self).after_remove_dsp(final(self), id),
            retired == old(self).retired_by(id),
    {
        let ghost ids = self.graph.node_ids();
        let ghost nodes = self.graph.nodes();
        proof {
            self.graph.lemma_wf();
        }
        let retired = match self.graph.remove_node(id) {
            Some(dsp) => {
                proof {
                    let i = ids.index_of(id);
                    assert(ids.contains(id));
                    assert(0 <= i < ids.len() && ids[i] == id);
                    assert forall|j: int| 0 <= j < self.graph.nodes().len() implies (
                    #[trigger] self.graph.nodes()[j]).id() == self.graph.node_ids()[j] by {
                        let j1 = if j < i {
                            j
                        } else {
                            j + 1
                        };
                        assert(self.graph.nodes()[j] == nodes[j1]);
                        assert(self.graph.node_ids()[j] == ids[j1]);
                    }
                }
                Some(GarbageCollectionCommand::DisposeDsp(dsp))
            },
            None => None,
        };
        self.mark_graph_needs_sort();
        retired
    }

    /// Takes the node `id` out of the graph, with its connections, and retires
    /// it: the command that `take_dsp` makes for it is sent to whoever
    /// disposes of nodes, and the node is not freed here.
    pub fn remove_dsp(&mut self, id: Id)
        requires
            old(self).wf(),
        ensures
            final(self).wf(),
            old(self).after_remove_dsp(final(self), id),
    {
        if let Some(command) = self.take_dsp(id) {
            let _ = self.garbage_collection_tx.send(command);
        }
    }

    /// Adds the event of `change_request` to the parameter that it names. A
    /// request for a node or a parameter that is not there changes nothing.
    pub fn request_parameter_change(&mut self, change_request: ParameterChangeRequest) -> (found:
        bool)
        requires
            old(self).wf(),
        ensures
            final(self).wf(),
            found == old(self).has_parameter(change_request),
            old(self).after_parameter_change(final(self), change_request),
    {
        proof {
            self.graph.lemma_wf();
        }
        match self.graph.index_of_node(change_request.dsp_id) {
            Some(i) => {
                proof {
                    let k = self.graph.node_ids().index_of(change_request.dsp_id);
                    assert(self.graph.node_ids()[k] == change_request.dsp_id);
                    assert(k == i);
                }
                let dsp = self.graph.node_at_mut(i);
                dsp.request_parameter_change(change_request)
            },
            None => false,
        }
    }

    /// Connects the source of `connection` to its destination, so that the
    /// destination gets what the source renders. Connecting the two again
    /// changes nothing; a connection to or from a node that is not there is
    /// not made.
    pub fn add_connection(&mut self, connection: Connection)
        requires
            old(self).wf(),
        ensures
            final(self).wf(),
            old(self).after_add_connection(final(self), connection),
    {
        let _ = self.graph.add_edge(
            connection.source.dsp_id,
            connection.destination.dsp_id,
            connection,
        );
        self.mark_graph_needs_sort();
    }

    /// Takes away the connection from the source of `connection` to its
    /// destination, if there is one.
    pub fn remove_connection(&mut self, connection: Connection)
        requires
            old(self).wf(),
        ensures
            final(self).wf(),
            old(self).after_remove_connection(final(self), connection),
    {
        let _ = self.graph.remove_edge(connection.source.dsp_id, connection.destination.dsp_id);
        self.mark_graph_needs_sort();
    }

    /// Makes `output_endpoint` the one endpoint that is heard.
    pub fn connect_to_output(&mut self, output_endpoint: Endpoint)
        requires
            old(self).wf(),
        ensures
            final(self).wf(),
            old(self).after_connect_to_output(final(self), output_endpoint),
    {
        self.output_endpoint = Some(output_endpoint);
    }

    /// Adds what waits in the pool under the tag `endpoint` to the block of
    /// `output_buffer` that starts at frame `frame_offset`, and lets it wait
    /// there again. Where nothing waits under the tag, nothing is added.
    fn mix_in_endpoint(
        buffer_pool: &mut BufferPool<B>,
        endpoint: Endpoint,
        output_buffer: &mut B,
        frame_offset: usize,
        num_channels: usize,
        num_frames: usize,
    )
        requires
            old(buffer_pool).wf(),
            block_fits(old(buffer_pool), old(output_buffer), frame_offset, num_channels,
                num_frames),
        ensures
            final(buffer_pool).wf(),
            final(buffer_pool).frames() == old(buffer_pool).frames(),
            final(buffer_pool).channels() == old(buffer_pool).channels(),
            final(buffer_pool).rate() == old(buffer_pool).rate(),
            final(buffer_pool).free_buffers() == old(buffer_pool).free_buffers(),
            final(buffer_pool).assignments() == old(buffer_pool).assignments(),
            final(buffer_pool).assigned_buffers().len()
                == old(buffer_pool).assigned_buffers().len(),
            final(buffer_pool).num_taken() == old(buffer_pool).num_taken(),
            final(output_buffer).frames() == old(output_buffer).frames(),
            final(output_buffer).channels() == old(output_buffer).channels(),
            final(output_buffer).rate() == old(output_buffer).rate(),
            *final(output_buffer) == mixed_endpoint(
                *old(output_buffer),
                old(buffer_pool).assignments(),
                endpoint,
                frame_offset,
                num_channels,
                num_frames,
            ),
    {
        match buffer_pool.get_assigned_buffer(endpoint) {
            Some(buffer) => {
                output_buffer.add_from(
                    &buffer,
                    SampleLocation::origin(),
                    SampleLocation::new(0, frame_offset),
                    num_channels,
                    num_frames,
                );
                buffer_pool.return_buffer_with_assignment(buffer, endpoint);
                assert(final(buffer_pool).assignments() =~= old(buffer_pool).assignments());
            },
            None => {},
        }
    }

    /// Adds what the output endpoint rendered to the block of `output_buffer`.
    fn write_to_output(
        &mut self,
        output_buffer: &mut B,
        frame_offset: usize,
        num_channels: usize,
        num_frames: usize,
    )
        requires
            old(self).buffer_pool.wf(),
            block_fits(
                &old(self).buffer_pool,
                old(output_buffer),
                frame_offset,
                num_channels,
                num_frames,
            ),
        ensures
            final(self).buffer_pool.wf(),
            final(self).buffer_pool.frames() == old(self).buffer_pool.frames(),
            final(self).buffer_pool.channels() == old(self).buffer_pool.channels(),
            final(self).buffer_pool.rate() == old(self).buffer_pool.rate(),
            final(self).buffer_pool.free_buffers() == old(self).buffer_pool.free_buffers(),
            final(self).buffer_pool.assignments() == old(self).buffer_pool.assignments(),
            final(self).buffer_pool.assigned_buffers().len()
                == old(self).buffer_pool.assigned_buffers().len(),
            final(self).buffer_pool.num_taken() == old(self).buffer_pool.num_taken(),
            final(self).graph == old(self).graph,
            final(self).topological_sort == old(self).topological_sort,
            final(self).output_endpoint == old(self).output_endpoint,
            final(self).graph_needs_sort == old(self).graph_needs_sort,
            final(self).maximum_number_of_channels == old(self).maximum_number_of_channels,
            final(self).maximum_number_of_frames == old(self).maximum_number_of_frames,
            final(output_buffer).frames() == old(output_buffer).frames(),
            final(output_buffer).channels() == old(output_buffer).channels(),
            final(output_buffer).rate() == old(output_buffer).rate(),
            old(self).output_endpoint is None ==> *final(output_buffer) == *old(output_buffer),
            old(self).output_endpoint matches Some(endpoint) ==> *final(output_buffer)
                == mixed_endpoint(
                *old(output_buffer),
                old(self).buffer_pool.assignments(),
                endpoint,
                frame_offset,
                num_channels,
                num_frames,
            ),
    {
        if let Some(output_endpoint) = self.output_endpoint {
            Self::mix_in_endpoint(
                &mut self.buffer_pool,
                output_endpoint,
                output_buffer,
                frame_offset,
                num_channels,
                num_frames,
            );
        }
    }

    /// Renders the nodes of the order, one after the other, as far as the
    /// buffers of the pool go.
    fn process_dsps(&mut self, num_frames: usize, num_channels: usize, start_time: &Timestamp)
        requires
            old(self).graph.wf(),
            old(self).buffer_pool.wf(),
            old(self).buffer_pool.all_free(),
            is_topological_order(
                old(self).graph.node_ids(),
                old(self).graph.edges(),
                old(self).topological_sort.order(),
            ),
            num_frames <= old(self).buffer_pool.frames(),
            num_channels <= old(self).buffer_pool.channels(),
            forall|i: int|
                0 <= i < old(self).graph.nodes().len()
                    ==> (#[trigger] old(self).graph.nodes()[i]).id()
                        == old(self).graph.node_ids()[i],
        ensures
            final(self).graph.wf(),
            final(self).buffer_pool.wf(),
            final(self).buffer_pool.num_taken() == 0,
            final(self).buffer_pool.frames() == old(self).buffer_pool.frames(),
            final(self).buffer_pool.channels() == old(self).buffer_pool.channels(),
            final(self).buffer_pool.rate() == old(self).buffer_pool.rate(),
            final(self).buffer_pool.free_buffers().len()
                + final(self).buffer_pool.assigned_buffers().len()
                    == old(self).buffer_pool.free_buffers().len(),
            final(self).graph.node_ids() == old(self).graph.node_ids(),
            final(self).graph.edges() == old(self).graph.edges(),
            final(self).graph.nodes().len() == old(self).graph.nodes().len(),
            forall|i: int|
                0 <= i < final(self).graph.nodes().len()
                    ==> (#[trigger] final(self).graph.nodes()[i]).id()
                        == final(self).graph.node_ids()[i],
            only_rendered_change(
                old(self).graph.nodes(),
                final(self).graph.nodes(),
                old(self).graph.node_ids(),
                rendered_nodes(
                    old(self).topological_sort.order(),
                    old(self).buffer_pool.free_buffers().len(),
                ),
            ),
            forall|endpoint: Endpoint| #[trigger]
                final(self).buffer_pool.assignments().contains_key(endpoint) ==> rendered_nodes(
                    old(self).topological_sort.order(),
                    old(self).buffer_pool.free_buffers().len(),
                ).contains(endpoint.dsp_id),
            forall|id: Id| #[trigger]
                rendered_nodes(
                    old(self).topological_sort.order(),
                    old(self).buffer_pool.free_buffers().len(),
                ).contains(id) ==> final(self).buffer_pool.assignments().contains_key(
                    Endpoint::output_of(id),
                ),
            exists|silence: Seq<(B, B)>| #[trigger]
                is_block_of(
                    old(self).graph.nodes(),
                    old(self).graph.node_ids(),
                    old(self).graph.edges(),
                    rendered_nodes(
                        old(self).topological_sort.order(),
                        old(self).buffer_pool.free_buffers().len(),
                    ),
                    final(self).buffer_pool.assignments(),
                    silence,
                    old(self).buffer_pool.frames(),
                    old(self).buffer_pool.channels(),
                    old(self).buffer_pool.rate(),
                    num_channels,
                    num_frames,
                    *start_time,
                ),
            final(self).topological_sort == old(self).topological_sort,
            final(self).output_endpoint == old(self).output_endpoint,
            final(self).graph_needs_sort == old(self).graph_needs_sort,
            final(self).maximum_number_of_channels == old(self).maximum_number_of_channels,
            final(self).maximum_number_of_frames == old(self).maximum_number_of_frames,
    {
        let ghost order = self.topological_sort.order();
        let ghost free_at_start = self.buffer_pool.free_buffers().len();
        let ghost mut silence = Seq::<(B, B)>::empty();
        let mut position: usize = 0;
        proof {
            assert(order.subrange(0, 0).len() == 0);
        }
        while position < self.topological_sort.get_sorted_graph().len()
            invariant
                self.graph.wf(),
                self.buffer_pool.wf(),
                self.buffer_pool.num_taken() == 0,
                self.buffer_pool.frames() == old(self).buffer_pool.frames(),
                self.buffer_pool.channels() == old(self).buffer_pool.channels(),
                self.buffer_pool.rate() == old(self).buffer_pool.rate(),
                free_at_start == old(self).buffer_pool.free_buffers().len(),
                self.buffer_pool.free_buffers().len() + self.buffer_pool.assigned_buffers().len()
                    == free_at_start,
                self.buffer_pool.free_buffers().len() + num_rendered(position as nat, free_at_start)
                    == free_at_start,
                num_frames <= self.buffer_pool.frames(),
                num_channels <= self.buffer_pool.channels(),
                self.graph.node_ids() == old(self).graph.node_ids(),
                self.graph.edges() == old(self).graph.edges(),
                self.graph.nodes().len() == old(self).graph.nodes().len(),
                forall|i: int|
                    0 <= i < self.graph.nodes().len() ==> (#[trigger] self.graph.nodes()[i]).id()
                        == self.graph.node_ids()[i],
                order == self.topological_sort.order(),
                order.no_duplicates(),
                is_topological_order(self.graph.node_ids(), self.graph.edges(), order),
                is_block_of(
                    old(self).graph.nodes(),
                    self.graph.node_ids(),
                    self.graph.edges(),
                    order.subrange(0, num_rendered(position as nat, free_at_start) as int),
                    self.buffer_pool.assignments(),
                    silence,
                    self.buffer_pool.frames(),
                    self.buffer_pool.channels(),
                    self.buffer_pool.rate(),
                    num_channels,
                    num_frames,
                    *start_time,
                ),
                position <= order.len(),
                only_rendered_change(
                    old(self).graph.nodes(),
                    self.graph.nodes(),
                    old(self).graph.node_ids(),
                    order.subrange(0, num_rendered(position as nat, free_at_start) as int),
                ),
                forall|endpoint: Endpoint| #[trigger]
                    self.buffer_pool.assignments().contains_key(endpoint) ==> order.subrange(
                        0,
                        num_rendered(position as nat, free_at_start) as int,
                    ).contains(endpoint.dsp_id),
                forall|id: Id| #[trigger]
                    order.subrange(
                        0,
                        num_rendered(position as nat, free_at_start) as int,
                    ).contains(id) ==> self.buffer_pool.assignments().contains_key(
                        Endpoint::output_of(id),
                    ),
                self.topological_sort == old(self).topological_sort,
                self.output_endpoint == old(self).output_endpoint,
                self.graph_needs_sort == old(self).graph_needs_sort,
                self.maximum_number_of_channels == old(self).maximum_number_of_channels,
                self.maximum_number_of_frames == old(self).maximum_number_of_frames,
            decreases order.len() - position,
        {
            let dsp_id = self.topological_sort.get_sorted_graph()[position];
            let ghost nodes_before = self.graph.nodes();
            let ghost buffers_before = self.buffer_pool.assignments();
            let ghost free_before = self.buffer_pool.free_buffers();
            let ghost done = order.subrange(0, num_rendered(position as nat, free_at_start) as int);
            let ghost done_now = order.subrange(
                0,
                num_rendered((position + 1) as nat, free_at_start) as int,
            );
            proof {
                assert(!self.buffer_pool.assignments().contains_key(Endpoint::output_of(dsp_id)))
                    by {
                    if done.contains(dsp_id) {
                        let j = choose|j: int| 0 <= j < done.len() && done[j] == dsp_id;
                        assert(order[j] == dsp_id);
                    }
                }
            }
            Self::process_dsp(
                &mut self.buffer_pool,
                &mut self.graph,
                dsp_id,
                num_frames,
                num_channels,
                start_time,
            );
            proof {
                assert forall|id: Id| done.contains(id) implies done_now.contains(id) by {
                    let j = choose|j: int| 0 <= j < done.len() && done[j] == id;
                    assert(done_now[j] == id);
                }
                if done_now.len() > done.len() {
                    assert(done_now[position as int] == dsp_id);
                }
                assert forall|id: Id| #[trigger] done_now.contains(id)
                    implies self.buffer_pool.assignments().contains_key(
                    Endpoint::output_of(id),
                ) by {
                    let j = choose|j: int| 0 <= j < done_now.len() && done_now[j] == id;
                    if j < done.len() {
                        assert(done[j] == id);
                        assert(done.contains(id));
                        if Endpoint::output_of(id) == Endpoint::output_of(dsp_id) {
                            assert(id == dsp_id);
                        }
                    }
                }
                assert forall|i: int|
                    0 <= i < nodes_before.len() && !done_now.contains(
                        old(self).graph.node_ids()[i],
                    ) implies #[trigger] self.graph.nodes()[i] == old(self).graph.nodes()[i] by {
                    if done_now.len() > done.len() {
                        assert(!seq![dsp_id].contains(old(self).graph.node_ids()[i])) by {
                            if seq![dsp_id].contains(old(self).graph.node_ids()[i]) {
                                let j = choose|j: int|
                                    0 <= j < seq![dsp_id].len() && seq![dsp_id][j]
                                        == old(self).graph.node_ids()[i];
                                assert(seq![dsp_id][j] == dsp_id);
                            }
                        }
                    }
                    assert(self.graph.nodes()[i] == nodes_before[i]);
                }
            }
            proof {
                let buffers = self.buffer_pool.assignments();
                let edges = self.graph.edges();
                let node_ids = self.graph.node_ids();
                if free_before.len() >= 2 {
                    let more = silence.push(
                        (
                            free_before[free_before.len() - 1].cleared(),
                            free_before[free_before.len() - 2].cleared(),
                        ),
                    );
                    assert(done_now.len() == position + 1 && done.len() == position);
                    assert forall|k: int| 0 <= k < done_now.len() implies {
                        &&& is_silence(
                            (#[trigger] more[k]).0,
                            self.buffer_pool.frames(),
                            self.buffer_pool.channels(),
                            self.buffer_pool.rate(),
                        )
                        &&& is_silence(
                            more[k].1,
                            self.buffer_pool.frames(),
                            self.buffer_pool.channels(),
                            self.buffer_pool.rate(),
                        )
                        &&& is_render_of(
                            old(self).graph.nodes(),
                            node_ids,
                            edges,
                            done_now[k],
                            buffers,
                            more[k].0,
                            more[k].1,
                            buffers[Endpoint::output_of(done_now[k])],
                            num_channels,
                            num_frames,
                            *start_time,
                        )
                    } by {
                        let id = done_now[k];
                        assert(id == order[k]);
                        // every source of this node stands before it in the order,
                        // so none of them is the node that has just rendered
                        assert(is_ready(edges, order.subrange(0, k), order[k]));
                        assert forall|j: int|
                            0 <= j < edges.len() && (#[trigger] edges[j]).1
                                == id implies buffers_before.contains_key(
                            Endpoint::output_of(edges[j].0),
                        ) == buffers.contains_key(Endpoint::output_of(edges[j].0)) && (
                        buffers_before.contains_key(Endpoint::output_of(edges[j].0))
                            ==> buffers_before[Endpoint::output_of(edges[j].0)]
                            == buffers[Endpoint::output_of(edges[j].0)]) by {
                            let source = edges[j].0;
                            assert(order.subrange(0, k).contains(source));
                            let m = choose|m: int|
                                0 <= m < order.subrange(0, k).len() && order.subrange(0, k)[m]
                                    == source;
                            assert(order[m] == source);
                            assert(source != dsp_id);
                        }
                        lemma_mixed_sources_same(
                            more[k].0,
                            edges,
                            id,
                            buffers_before,
                            buffers,
                            num_channels,
                            num_frames,
                            edges.len() as int,
                        );
                        if k < position {
                            assert(more[k] == silence[k]);
                            assert(done[k] == id);
                            assert(id != dsp_id);
                            assert(done.contains(id));
                            assert(buffers_before.contains_key(Endpoint::output_of(id)));
                        } else {
                            assert(id == dsp_id);
                            self.graph.lemma_wf();
                            assert(!done.contains(dsp_id)) by {
                                if done.contains(dsp_id) {
                                    let m = choose|m: int| 0 <= m < done.len() && done[m] == dsp_id;
                                    assert(order[m] == dsp_id);
                                }
                            }
                            if node_ids.contains(id) {
                                let index = node_ids.index_of(id);
                                assert(node_ids[index] == id);
                                assert(nodes_before[index] == old(self).graph.nodes()[index]);
                            }
                        }
                    }
                    silence = more;
                }
            }
            position += 1;
        }
    }

    /// Sums into `destination_buffer` what the sources of the node `dsp_id`
    /// rendered: once for every connection that arrives at the node.
    fn copy_output_from_dependencies(
        buffer_pool: &mut BufferPool<B>,
        graph: &Graph<Box<Dsp<B>>, Connection>,
        dsp_id: Id,
        destination_buffer: &mut B,
        num_channels: usize,
        num_frames: usize,
    )
        requires
            old(buffer_pool).wf(),
            block_fits(old(buffer_pool), old(destination_buffer), 0, num_channels, num_frames),
        ensures
            final(buffer_pool).wf(),
            final(buffer_pool).frames() == old(buffer_pool).frames(),
            final(buffer_pool).channels() == old(buffer_pool).channels(),
            final(buffer_pool).rate() == old(buffer_pool).rate(),
            final(buffer_pool).free_buffers() == old(buffer_pool).free_buffers(),
            final(buffer_pool).assignments() == old(buffer_pool).assignments(),
            final(buffer_pool).assigned_buffers().len()
                == old(buffer_pool).assigned_buffers().len(),
            final(buffer_pool).num_taken() == old(buffer_pool).num_taken(),
            final(destination_buffer).frames() == old(destination_buffer).frames(),
            final(destination_buffer).channels() == old(destination_buffer).channels(),
            final(destination_buffer).rate() == old(destination_buffer).rate(),
            *final(destination_buffer) == mixed_sources(
                *old(destination_buffer),
                graph.edges(),
                dsp_id,
                old(buffer_pool).assignments(),
                num_channels,
                num_frames,
                graph.edges().len() as int,
            ),
    {
        let mut index: usize = 0;
        while index < graph.num_edges()
            invariant
                buffer_pool.wf(),
                buffer_pool.frames() == old(buffer_pool).frames(),
                buffer_pool.channels() == old(buffer_pool).channels(),
                buffer_pool.rate() == old(buffer_pool).rate(),
                buffer_pool.free_buffers() == old(buffer_pool).free_buffers(),
                buffer_pool.assignments() == old(buffer_pool).assignments(),
                buffer_pool.assigned_buffers().len() == old(buffer_pool).assigned_buffers().len(),
                buffer_pool.num_taken() == old(buffer_pool).num_taken(),
                destination_buffer.frames() == old(destination_buffer).frames(),
                destination_buffer.channels() == old(destination_buffer).channels(),
                destination_buffer.rate() == old(destination_buffer).rate(),
                block_fits(buffer_pool, destination_buffer, 0, num_channels, num_frames),
                index <= graph.edges().len(),
                *destination_buffer == mixed_sources(
                    *old(destination_buffer),
                    graph.edges(),
                    dsp_id,
                    old(buffer_pool).assignments(),
                    num_channels,
                    num_frames,
                    index as int,
                ),
            decreases graph.edges().len() - index,
        {
            let ends = graph.edge_at(index);
            if ends.1 == dsp_id {
                let endpoint = Endpoint::new(ends.0, EndpointType::Output);
                Self::mix_in_endpoint(
                    buffer_pool,
                    endpoint,
                    destination_buffer,
                    0,
                    num_channels,
                    num_frames,
                );
            }
            index += 1;
        }
    }

    /// Renders the node `dsp_id`: takes two buffers from the pool, sums into the
    /// one what the node's sources rendered, lets the node render into the
    /// other, and leaves that one in the pool under the tag of the node's
    /// output. Where the pool has no two buffers left, the node stays silent.
    fn process_dsp(
        buffer_pool: &mut BufferPool<B>,
        graph: &mut Graph<Box<Dsp<B>>, Connection>,
        dsp_id: Id,
        num_frames: usize,
        num_channels: usize,
        start_time: &Timestamp,
    )
        requires
            old(buffer_pool).wf(),
            old(graph).wf(),
            num_frames <= old(buffer_pool).frames(),
            num_channels <= old(buffer_pool).channels(),
            forall|i: int|
                0 <= i < old(graph).nodes().len() ==> (#[trigger] old(graph).nodes()[i]).id()
                    == old(graph).node_ids()[i],
        ensures
            final(buffer_pool).wf(),
            final(graph).wf(),
            final(buffer_pool).frames() == old(buffer_pool).frames(),
            final(buffer_pool).channels() == old(buffer_pool).channels(),
            final(buffer_pool).rate() == old(buffer_pool).rate(),
            final(buffer_pool).num_taken() == old(buffer_pool).num_taken(),
            final(buffer_pool).free_buffers().len() + final(buffer_pool).assigned_buffers().len()
                == old(buffer_pool).free_buffers().len()
                    + old(buffer_pool).assigned_buffers().len(),
            old(buffer_pool).free_buffers().len() < 2
                ==> final(buffer_pool).assignments() == old(buffer_pool).assignments(),
            old(buffer_pool).free_buffers().len() >= 2
                ==> final(buffer_pool).assignments().contains_key(Endpoint::output_of(dsp_id))
                    && forall|endpoint: Endpoint|
                endpoint != Endpoint::output_of(dsp_id)
                    ==> (#[trigger] final(buffer_pool).assignments().contains_key(endpoint)
                        == old(buffer_pool).assignments().contains_key(endpoint)),
            final(graph).node_ids() == old(graph).node_ids(),
            final(graph).edges() == old(graph).edges(),
            final(graph).nodes().len() == old(graph).nodes().len(),
            forall|i: int|
                0 <= i < final(graph).nodes().len() ==> (#[trigger] final(graph).nodes()[i]).id()
                    == final(graph).node_ids()[i],
            only_rendered_change(
                old(graph).nodes(),
                final(graph).nodes(),
                old(graph).node_ids(),
                seq![dsp_id],
            ),
            old(buffer_pool).free_buffers().len() < 2
                ==> final(graph).nodes() == old(graph).nodes()
                    && final(buffer_pool).free_buffers().len()
                        == old(buffer_pool).free_buffers().len(),
            old(buffer_pool).free_buffers().len() >= 2
                && !old(buffer_pool).assignments().contains_key(Endpoint::output_of(dsp_id))
                    ==> final(buffer_pool).free_buffers().len()
                        == old(buffer_pool).free_buffers().len() - 1,
            old(buffer_pool).free_buffers().len() >= 2 ==> {
                let free = old(buffer_pool).free_buffers();
                let silence_in = free[free.len() - 1].cleared();
                let silence_out = free[free.len() - 2].cleared();
                &&& silence_in.silent() && old(buffer_pool).fits(silence_in)
                &&& silence_out.silent() && old(buffer_pool).fits(silence_out)
                &&& forall|endpoint: Endpoint|
                    endpoint != Endpoint::output_of(dsp_id)
                        && old(buffer_pool).assignments().contains_key(endpoint)
                            ==> #[trigger] final(buffer_pool).assignments()[endpoint]
                                == old(buffer_pool).assignments()[endpoint]
                &&& is_render_of(
                    old(graph).nodes(),
                    old(graph).node_ids(),
                    old(graph).edges(),
                    dsp_id,
                    old(buffer_pool).assignments(),
                    silence_in,
                    silence_out,
                    final(buffer_pool).assignments()[Endpoint::output_of(dsp_id)],
                    num_channels,
                    num_frames,
                    *start_time,
                )
            },
    {
        let output_endpoint = Endpoint::new(dsp_id, EndpointType::Output);

        let mut node_input_buffer = match buffer_pool.get_unassigned_buffer() {
            Some(buffer) => buffer,
            None => {
                return ;
            },
        };
        let mut node_output_buffer = match buffer_pool.get_unassigned_buffer() {
            Some(buffer) => buffer,
            None => {
                buffer_pool.return_buffer(node_input_buffer);
                assert(final(buffer_pool).free_buffers()
                    == old(buffer_pool).free_buffers().drop_last().push(node_input_buffer));
                return ;
            },
        };

        Self::copy_output_from_dependencies(
            buffer_pool,
            graph,
            dsp_id,
            &mut node_input_buffer,
            num_channels,
            num_frames,
        );

        proof {
            graph.lemma_wf();
        }
        if let Some(index) = graph.index_of_node(dsp_id) {
            let ghost nodes_before = graph.nodes();
            proof {
                let found = graph.node_ids().index_of(dsp_id);
                assert(graph.node_ids()[found] == dsp_id);
                assert(found == index);
            }
            let dsp = graph.node_at_mut(index);
            dsp.process_audio(&node_input_buffer, &mut node_output_buffer, num_frames, start_time);
            proof {
                assert forall|i: int| 0 <= i < graph.nodes().len() implies (
                #[trigger] graph.nodes()[i]).id() == graph.node_ids()[i] by {
                    if i != index {
                        assert(graph.nodes()[i] == nodes_before[i]);
                    }
                }
                assert(seq![dsp_id][0] == dsp_id);
                assert(seq![dsp_id].contains(graph.node_ids()[index as int]));
            }
        }
        buffer_pool.return_buffer(node_input_buffer);
        buffer_pool.return_buffer_with_assignment(node_output_buffer, output_endpoint);
    }
}

/// One more connection into a node adds what its source has rendered, once, to
/// what the node gets from the connections before it: a node with several
/// sources gets the sum of what they rendered.
pub proof fn lemma_one_more_source<B: AudioBuffer>(
    buffer: B,
    edges: Seq<(Id, Id, Connection)>,
    source: Id,
    destination: Id,
    connection: Connection,
    assignments: Map<Endpoint, B>,
    num_channels: usize,
    num_frames: usize,
)
    ensures
        mixed_sources(
            buffer,
            edges.push((source, destination, connection)),
            destination,
            assignments,
            num_channels,
            num_frames,
            edges.len() as int + 1,
        ) == mixed_endpoint(
            mixed_sources(
                buffer,
                edges,
                destination,
                assignments,
                num_channels,
                num_frames,
                edges.len() as int,
            ),
            assignments,
            Endpoint::output_of(source),
            0,
            num_channels,
            num_frames,
        ),
{
    let more = edges.push((source, destination, connection));
    lemma_mixed_sources_of_prefix(
        buffer,
        edges,
        more,
        destination,
        assignments,
        num_channels,
        num_frames,
        edges.len() as int,
    );
}

proof fn lemma_mixed_sources_of_prefix<B: AudioBuffer>(
    buffer: B,
    edges: Seq<(Id, Id, Connection)>,
    more: Seq<(Id, Id, Connection)>,
    id: Id,
    assignments: Map<Endpoint, B>,
    num_channels: usize,
    num_frames: usize,
    upto: int,
)
    requires
        0 <= upto <= edges.len() <= more.len(),
        forall|k: int| 0 <= k < edges.len() ==> edges[k] == more[k],
    ensures
        mixed_sources(buffer, edges, id, assignments, num_channels, num_frames, upto)
            == mixed_sources(buffer, more, id, assignments, num_channels, num_frames, upto),
    decreases upto,
{
    if upto > 0 {
        lemma_mixed_sources_of_prefix(
            buffer,
            edges,
            more,
            id,
            assignments,
            num_channels,
            num_frames,
            upto - 1,
        );
    }
}

/// A node that is added to a graph that had none under its id, and then
/// removed again, leaves the graph as it was: the same nodes, the same
/// connections, the same output endpoint and the same pool. Only the order is
/// due to be computed anew.
pub proof fn lemma_add_then_remove_dsp<B: AudioBuffer>(
    before: &DspGraph<B>,
    added: &DspGraph<B>,
    removed: &DspGraph<B>,
    dsp: Box<Dsp<B>>,
)
    requires
        before.wf(),
        !before.node_ids().contains(dsp.id()),
        before.after_add_dsp(added, dsp),
        added.after_remove_dsp(removed, dsp.id()),
    ensures
        removed.node_ids() == before.node_ids(),
        removed.nodes() == before.nodes(),
        removed.edges() == before.edges(),
        removed.output_endpoint() == before.output_endpoint(),
        removed.pool() == before.pool(),
        removed.needs_sort(),
{
    before.lemma_wf();
    let id = dsp.id();
    let ids = before.node_ids();
    let last = ids.len() as int;
    assert(added.node_ids()[last] == id);
    let found = added.node_ids().index_of(id);
    assert(0 <= found < added.node_ids().len() && added.node_ids()[found] == id);
    if found < last {
        assert(ids[found] == id);
        assert(ids.contains(id));
    }
    assert(found == last);
    assert(ids.push(id).remove(last) == ids);
    assert(before.nodes().push(dsp).remove(last) == before.nodes());
    assert forall|k: int| 0 <= k < before.edges().len() implies (#[trigger] before.edges()[k]).0
        != id && before.edges()[k].1 != id by {
        assert(ids.contains(before.edges()[k].0));
        assert(ids.contains(before.edges()[k].1));
    }
    lemma_edges_without_missing_node(before.edges(), id);
}

} // verus!
