use crossbeam::channel::{Receiver, Sender};
use vstd::prelude::*;

verus! {

#[verifier::external_type_specification]
#[verifier::external_body]
#[verifier::reject_recursive_types(T)]
pub struct ExSender<T>(Sender<T>);

#[verifier::external_type_specification]
#[verifier::external_body]
#[verifier::reject_recursive_types(T)]
pub struct ExReceiver<T>(Receiver<T>);

/// Relies on crossbeam_channel::unbounded: a fresh channel with no capacity limit,
/// handing back its two ends.
pub assume_specification<T>[ crossbeam::channel::unbounded::<T> ]() -> (Sender<T>, Receiver<T>);

/// Relies on the `Clone` impl of crossbeam_channel::Sender: the clone points
/// at the same shared channel counter as `s`, so it is the same handle.
pub assume_specification<T>[ <Sender<T> as Clone>::clone ](s: &Sender<T>) -> (r: Sender<T>)
    ensures
        r == *s,
;

/// Relies on the `Clone` impl of crossbeam_channel::Receiver: the clone points
/// at the same shared channel as `r`, so it is the same handle.
pub assume_specification<T>[ <Receiver<T> as Clone>::clone ](r: &Receiver<T>) -> (c: Receiver<T>)
    ensures
        c == *r,
;

/// A message pipe with many senders and one listening end.
#[verifier::reject_recursive_types(T)]
pub struct Channel<T> {
    pub sender: Sender<T>,
    pub receiver: Receiver<T>,
}

impl<T> Channel<T> {
    pub fn new() -> Self {
        let (sender, receiver) = crossbeam::channel::unbounded();
        Channel { sender, receiver }
    }

    pub fn get_sender(&self) -> (r: Sender<T>)
        ensures
            r == self.sender,
    {
        self.sender.clone()
    }

    pub fn get_receiver(&self) -> (r: Receiver<T>)
        ensures
            r == self.receiver,
    {
        self.receiver.clone()
    }
}

} // verus!
