use crate::commands::id::Id;
use crate::graph::connection::Connection;
use crate::graph::dsp::Dsp;
use crate::graph::endpoint::Endpoint;
use crate::parameter::ParameterEvent;
use vstd::prelude::*;

verus! {

/// A request to add `event` to the timeline of one parameter of one node.
#[derive(Clone, Copy, Debug)]
pub struct ParameterChangeRequest {
    pub dsp_id: Id,
    pub parameter_id: Id,
    pub event: ParameterEvent,
}

/// What the control side can ask of the realtime side.
#[verifier::reject_recursive_types(B)]
pub enum Command<B> {
    Start,
    Stop,
    /// Hands a node over to the graph.
    AddDsp(Box<Dsp<B>>),
    /// Takes the node out of the graph; it is retired, not handed back.
    RemoveDsp(Id),
    ParameterValueChange(ParameterChangeRequest),
    AddConnection(Connection),
    RemoveConnection(Connection),
    /// Makes the endpoint the one that is heard, in place of any other.
    ConnectToOutput(Endpoint),
}

} // verus!
