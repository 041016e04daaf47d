use std::sync::mpsc::{Receiver, Sender, TryRecvError};

use vstd::prelude::*;

use crate::asset::Polled;

verus! {

/// std::sync::mpsc::Sender, carried opaque: the sending half that a load
/// delivers its result through.
#[verifier::external_type_specification]
#[verifier::external_body]
#[verifier::reject_recursive_types(T)]
pub struct ExSender<T>(Sender<T>);

/// std::sync::mpsc::Receiver, carried opaque: the receiving half that a
/// pending entry is polled through.
#[verifier::external_type_specification]
#[verifier::external_body]
#[verifier::reject_recursive_types(T)]
pub struct ExReceiver<T>(Receiver<T>);

/// Relies on std::sync::mpsc::channel, which makes a connected sender and
/// receiver; nothing is stated of them beyond their types.
pub assume_specification<T>[ std::sync::mpsc::channel::<T> ]() -> (Sender<T>, Receiver<T>);

/// Relies on std::sync::mpsc::Receiver::try_recv, which never blocks. What it
/// yields depends on the timing of the sending task, so nothing is stated of
/// the result.
#[verifier::external_body]
pub(crate) fn poll_channel<X>(source: &Receiver<X>) -> (r: Polled<X>) {
    match source.try_recv() {
        Ok(x) => Polled::Ready(x),
        Err(TryRecvError::Empty) => Polled::Waiting,
        Err(TryRecvError::Disconnected) => Polled::Closed,
    }
}

} // verus!
