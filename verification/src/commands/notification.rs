use crate::timestamp::Timestamp;
use vstd::prelude::*;

verus! {

/// What the realtime side tells the control side.
#[derive(Clone, Copy, Debug)]
pub enum Notification {
    /// How far the transport has run.
    Position(Timestamp),
}

} // verus!
