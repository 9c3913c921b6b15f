use crate::commands::id::Id;
use vstd::prelude::*;

verus! {

/// The kinds of endpoint a node has. Nodes are routed by their output only.
#[derive(Clone, Copy, Debug, PartialEq, Eq, Structural)]
pub enum EndpointType {
    Output,
}

/// The unit of routing: one endpoint of one node.
#[derive(Clone, Copy, Debug, PartialEq, Eq, Structural)]
pub struct Endpoint {
    pub dsp_id: Id,
    pub endpoint_type: EndpointType,
}

impl Endpoint {
    pub fn new(dsp_id: Id, endpoint_type: EndpointType) -> (endpoint: Self)
        ensures
            endpoint.dsp_id == dsp_id,
            endpoint.endpoint_type == endpoint_type,
    {
        Self { dsp_id, endpoint_type }
    }

    /// The output of the node `dsp_id`.
    pub open spec fn output_of(dsp_id: Id) -> Endpoint {
        Endpoint { dsp_id, endpoint_type: EndpointType::Output }
    }
}

} // verus!
