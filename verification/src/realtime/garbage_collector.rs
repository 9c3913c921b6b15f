use crate::graph::dsp::Dsp;
use vstd::prelude::*;

verus! {

/// What the realtime side hands over to be disposed of elsewhere: it must not
/// free memory itself.
#[verifier::reject_recursive_types(B)]
pub enum GarbageCollectionCommand<B> {
    DisposeDsp(Box<Dsp<B>>),
}

} // verus!
