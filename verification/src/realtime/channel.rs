use lockfree::channel::mpsc;
use lockfree::channel::spsc;
use lockfree::channel::NoRecv;
use lockfree::channel::RecvErr;
use vstd::prelude::*;

verus! {

/// The sending end of `lockfree`'s single-producer single-consumer channel.
#[verifier::external_type_specification]
#[verifier::external_body]
#[verifier::reject_recursive_types(T)]
pub struct ExSpscSender<T>(spsc::Sender<T>);

/// The receiving end of `lockfree`'s single-producer single-consumer channel.
#[verifier::external_type_specification]
#[verifier::external_body]
#[verifier::reject_recursive_types(T)]
pub struct ExSpscReceiver<T>(spsc::Receiver<T>);

/// The receiving end of `lockfree`'s multi-producer single-consumer channel.
#[verifier::external_type_specification]
#[verifier::external_body]
#[verifier::reject_recursive_types(T)]
pub struct ExMpscReceiver<T>(mpsc::Receiver<T>);

/// Why `recv` of a `lockfree` channel gave no message.
#[verifier::external_type_specification]
#[verifier::external_body]
pub struct ExRecvErr(RecvErr);

/// What `send` of a `lockfree` channel returns when the receiver is gone: the
/// message, in its one public field.
#[verifier::external_type_specification]
#[verifier::reject_recursive_types(T)]
pub struct ExNoRecv<T>(NoRecv<T>);

/// `lockfree::channel::spsc::create`: a new channel, as its two ends. Nothing is
/// claimed of them.
pub assume_specification<T>[ spsc::create::<T> ]() -> (ends: (spsc::Sender<T>, spsc::Receiver<T>));

/// `lockfree::channel::spsc::Sender::send`: queues `message` without waiting.
/// Whether it goes through depends on the other thread; claimed is only that a
/// refused message comes back in the error.
pub assume_specification<T>[ spsc::Sender::<T>::send ](
    sender: &mut spsc::Sender<T>,
    message: T,
) -> (sent: Result<(), NoRecv<T>>)
    ensures
        sent matches Err(refused) ==> refused.message == message,
;

/// `lockfree::channel::spsc::Receiver::recv`: takes the next message if one is
/// there, without waiting. What comes depends on the other thread, so nothing
/// is claimed of it.
pub assume_specification<T>[ spsc::Receiver::<T>::recv ](
    receiver: &mut spsc::Receiver<T>,
) -> (received: Result<T, RecvErr>);

/// `lockfree::channel::mpsc::Receiver::recv`: takes the next message if one is
/// there, without waiting. What comes depends on the other threads, so nothing
/// is claimed of it.
pub assume_specification<T>[ mpsc::Receiver::<T>::recv ](
    receiver: &mut mpsc::Receiver<T>,
) -> (received: Result<T, RecvErr>);

} // verus!
