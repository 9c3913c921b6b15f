use crate::commands::id::Id;
use crate::graph::endpoint::Endpoint;
use crate::graph::endpoint::EndpointType;
use vstd::prelude::*;

verus! {

/// A directed edge from the output of one node to another node.
#[derive(Clone, Copy, Debug, PartialEq, Eq, Structural)]
pub struct Connection {
    pub source: Endpoint,
    pub destination: Endpoint,
}

impl Connection {
    pub fn new(source_id: Id, destination_id: Id) -> (connection: Self)
        ensures
            connection.source == Endpoint::output_of(source_id),
            connection.destination == Endpoint::output_of(destination_id),
    {
        Self {
            source: Endpoint::new(source_id, EndpointType::Output),
            destination: Endpoint::new(destination_id, EndpointType::Output),
        }
    }
}

} // verus!
