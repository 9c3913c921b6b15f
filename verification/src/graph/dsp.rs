use crate::buffer::audio_buffer::AudioBuffer;
use crate::commands::command::ParameterChangeRequest;
use crate::commands::id::Id;
use crate::parameter::Parameter;
use crate::parameter::ParameterEvent;
use crate::timestamp::Timestamp;
use vstd::prelude::*;

verus! {

/// The index of the first parameter of `parameters` whose id is `id`, or -1 if
/// there is none.
pub open spec fn first_index_of(parameters: Seq<Parameter>, id: Id) -> int
    decreases parameters.len(),
{
    if parameters.len() == 0 {
        -1
    } else {
        let before = first_index_of(parameters.drop_last(), id);
        if before >= 0 {
            before
        } else if parameters.last().id() == id {
            parameters.len() - 1
        } else {
            -1
        }
    }
}

/// What `first_index_of` finds.
pub proof fn lemma_first_index_of(parameters: Seq<Parameter>, id: Id)
    ensures
        -1 <= first_index_of(parameters, id) < parameters.len(),
        first_index_of(parameters, id) >= 0 ==> parameters[first_index_of(parameters, id)].id()
            == id,
        forall|j: int|
            0 <= j < parameters.len() && (first_index_of(parameters, id) < 0 || j
                < first_index_of(parameters, id)) ==> (#[trigger] parameters[j]).id() != id,
    decreases parameters.len(),
{
    if parameters.len() > 0 {
        lemma_first_index_of(parameters.drop_last(), id);
        assert forall|j: int|
            0 <= j < parameters.len() && (first_index_of(parameters, id) < 0 || j
                < first_index_of(parameters, id)) implies (#[trigger] parameters[j]).id()
            != id by {
            if j < parameters.len() - 1 {
                assert(parameters.drop_last()[j] == parameters[j]);
            }
        }
    }
}

/// The parameters of a node, found by their ids.
pub struct DspParameterMap {
    parameters: Vec<Parameter>,
}

impl View for DspParameterMap {
    type V = Seq<Parameter>;

    closed spec fn view(&self) -> Seq<Parameter> {
        self.parameters@
    }
}

impl DspParameterMap {
    /// Whether a parameter with the id `id` is in the map.
    pub open spec fn contains(&self, id: Id) -> bool {
        first_index_of(self@, id) >= 0
    }

    /// The parameter with the id `id`.
    pub open spec fn parameter(&self, id: Id) -> Parameter
        recommends
            self.contains(id),
    {
        self@[first_index_of(self@, id)]
    }

    pub fn new() -> (map: Self)
        ensures
            map@ == Seq::<Parameter>::empty(),
    {
        Self { parameters: Vec::new() }
    }

    /// Where the parameter with the id `id` stands.
    fn find(&self, id: Id) -> (index: Option<usize>)
        ensures
            index is None <==> first_index_of(self@, id) < 0,
            index matches Some(i) ==> i == first_index_of(self@, id) && i < self@.len(),
    {
        let mut i: usize = 0;
        while i < self.parameters.len()
            invariant
                i <= self.parameters@.len(),
                forall|j: int| 0 <= j < i ==> (#[trigger] self.parameters@[j]).id() != id,
            decreases self.parameters@.len() - i,
        {
            if self.parameters[i].get_id() == id {
                proof {
                    lemma_first_index_of(self@, id);
                }
                return Some(i);
            }
            i += 1;
        }
        proof {
            lemma_first_index_of(self@, id);
        }
        None
    }

    /// Puts `parameter` into the map, in the place of the one with the same id
    /// if there is one.
    pub fn insert(&mut self, parameter: Parameter)
        ensures
            old(self).contains(parameter.id()) ==> final(self)@ == old(self)@.update(
                first_index_of(old(self)@, parameter.id()),
                parameter,
            ),
            !old(self).contains(parameter.id()) ==> final(self)@ == old(self)@.push(parameter),
    {
        match self.find(parameter.get_id()) {
            Some(i) => {
                self.parameters.set(i, parameter);
            },
            None => {
                self.parameters.push(parameter);
            },
        }
    }

    /// The parameter with the id `id`, if the map has one.
    pub fn get(&self, id: &Id) -> (parameter: Option<&Parameter>)
        ensures
            parameter is Some <==> self.contains(*id),
            parameter matches Some(p) ==> *p == self.parameter(*id),
    {
        match self.find(*id) {
            Some(i) => Some(&self.parameters[i]),
            None => None,
        }
    }

    /// Appends `event` to the timeline of the parameter with the id `id`. Says
    /// whether there was such a parameter; the map is unchanged if not.
    pub fn add_event(&mut self, id: Id, event: ParameterEvent) -> (found: bool)
        ensures
            found == old(self).contains(id),
            !found ==> final(self)@ == old(self)@,
            found ==> {
                let i = first_index_of(old(self)@, id);
                &&& final(self)@.len() == old(self)@.len()
                &&& forall|j: int|
                    0 <= j < old(self)@.len() && j != i ==> final(self)@[j] == old(self)@[j]
                &&& final(self)@[i].id() == id
                &&& final(self)@[i].initial_value() == old(self)@[i].initial_value()
                &&& final(self)@[i].events() == old(self)@[i].events().push(event)
            },
    {
        match self.find(id) {
            Some(i) => {
                proof {
                    lemma_first_index_of(self@, id);
                }
                self.parameters[i].add_event(event);
                true
            },
            None => false,
        }
    }
}

/// What a node does to audio. The graph hands it the sum of what its sources
/// rendered for the block and a silent buffer to render into.
pub trait DspProcessor<B: AudioBuffer>: Send {
    /// Whether `rendered` is what this processor may leave of `output_buffer`
    /// when it renders the first `num_frames` frames of the block that starts
    /// at `start_time` from `input_buffer`, with `parameters`. This is the
    /// model of `process_audio` that the contracts speak of: an implementation
    /// says here what it renders, as exactly as it can.
    spec fn renders(
        &self,
        input_buffer: &B,
        output_buffer: &B,
        rendered: &B,
        num_frames: usize,
        start_time: &Timestamp,
        parameters: &DspParameterMap,
    ) -> bool;

    /// Renders the first `num_frames` frames of the block that starts at
    /// `start_time` into `output_buffer`.
    fn process_audio(
        &mut self,
        input_buffer: &B,
        output_buffer: &mut B,
        num_frames: usize,
        start_time: &Timestamp,
        parameters: &DspParameterMap,
    )
        requires
            old(output_buffer).silent(),
            num_frames <= old(output_buffer).frames(),
            input_buffer.frames() == old(output_buffer).frames(),
            input_buffer.channels() == old(output_buffer).channels(),
            input_buffer.rate() == old(output_buffer).rate(),
        ensures
            old(self).renders(
                input_buffer,
                old(output_buffer),
                final(output_buffer),
                num_frames,
                start_time,
                parameters,
            ),
            final(output_buffer).frames() == old(output_buffer).frames(),
            final(output_buffer).channels() == old(output_buffer).channels(),
            final(output_buffer).rate() == old(output_buffer).rate(),
    ;
}

/// A node of the graph: a processor with its id and its parameters.
#[verifier::reject_recursive_types(B)]
pub struct Dsp<B> {
    id: Id,
    processor: Box<dyn DspProcessor<B>>,
    parameters: DspParameterMap,
}

impl<B: AudioBuffer> Dsp<B> {
    pub closed spec fn id(&self) -> Id {
        self.id
    }

    pub closed spec fn parameters(&self) -> DspParameterMap {
        self.parameters
    }

    /// Whether `rendered` is what the processor of this node may leave of
    /// `output_buffer` when it renders the first `num_frames` frames of the
    /// block that starts at `start_time` from `input_buffer`, with
    /// `parameters`: what the processor's own `renders` says of them.
    pub closed spec fn renders(
        &self,
        input_buffer: &B,
        output_buffer: &B,
        rendered: &B,
        num_frames: usize,
        start_time: &Timestamp,
        parameters: &DspParameterMap,
    ) -> bool {
        self.processor.renders(
            input_buffer,
            output_buffer,
            rendered,
            num_frames,
            start_time,
            parameters,
        )
    }

    pub fn new(
        id: Id,
        processor: Box<dyn DspProcessor<B>>,
        parameters: DspParameterMap,
    ) -> (dsp: Self)
        ensures
            dsp.id() == id,
            dsp.parameters() == parameters,
    {
        Self { id, processor, parameters }
    }

    pub fn get_id(&self) -> (id: Id)
        ensures
            id == self.id(),
    {
        self.id
    }

    /// Lets the processor render one block: from `input_buffer` into
    /// `output_buffer`, for the time `start_time`, with this node's parameters.
    /// What the processor makes of itself is its own affair; the node keeps
    /// its id and its parameters.
    pub fn process_audio(
        &mut self,
        input_buffer: &B,
        output_buffer: &mut B,
        num_frames: usize,
        start_time: &Timestamp,
    )
        requires
            old(output_buffer).silent(),
            num_frames <= old(output_buffer).frames(),
            input_buffer.frames() == old(output_buffer).frames(),
            input_buffer.channels() == old(output_buffer).channels(),
            input_buffer.rate() == old(output_buffer).rate(),
        ensures
            final(self).id() == old(self).id(),
            final(self).parameters() == old(self).parameters(),
            old(self).renders(
                input_buffer,
                old(output_buffer),
                final(output_buffer),
                num_frames,
                start_time,
                &old(self).parameters(),
            ),
            final(output_buffer).frames() == old(output_buffer).frames(),
            final(output_buffer).channels() == old(output_buffer).channels(),
            final(output_buffer).rate() == old(output_buffer).rate(),
    {
        self.processor.process_audio(
            input_buffer,
            output_buffer,
            num_frames,
            start_time,
            &self.parameters,
        );
    }

    /// Adds the event of `change_request` to the parameter that it names. A
    /// request for a parameter that this node does not have changes nothing.
    pub fn request_parameter_change(&mut self, change_request: ParameterChangeRequest) -> (found:
        bool)
        ensures
            final(self).id() == old(self).id(),
            found == old(self).parameters().contains(change_request.parameter_id),
            !found ==> final(self).parameters()@ == old(self).parameters()@,
            found ==> {
                let i = first_index_of(old(self).parameters()@, change_request.parameter_id);
                let before = old(self).parameters()@;
                let after = final(self).parameters()@;
                &&& after.len() == before.len()
                &&& forall|j: int| 0 <= j < before.len() && j != i ==> after[j] == before[j]
                &&& after[i].id() == change_request.parameter_id
                &&& after[i].initial_value() == before[i].initial_value()
                &&& after[i].events() == before[i].events().push(change_request.event)
            },
    {
        self.parameters.add_event(change_request.parameter_id, change_request.event)
    }
}

} // verus!
