use vstd::prelude::*;

use std::sync::mpsc::{Receiver, RecvError, Sender};

verus! {

#[verifier::external_type_specification]
#[verifier::external_body]
#[verifier::reject_recursive_types(T)]
pub struct ExSender<T>(Sender<T>);

#[verifier::external_type_specification]
#[verifier::external_body]
#[verifier::reject_recursive_types(T)]
pub struct ExReceiver<T>(Receiver<T>);

#[verifier::external_type_specification]
#[verifier::external_body]
pub struct ExRecvError(RecvError);

/// Trusted: `Sender::clone` makes another sending side of the same channel, for the derived
/// `Clone` of the senders of this crate; nothing about the channel is modelled, so nothing is
/// promised.
pub assume_specification<T>[ <Sender<T> as Clone>::clone ](sender: &Sender<T>) -> Sender<T>;

/// Trusted: `std::sync::mpsc::channel` makes a new channel and returns its sending and its
/// receiving side; nothing about the channel is modelled, so nothing is promised.
pub assume_specification<T>[ std::sync::mpsc::channel::<T> ]() -> (Sender<T>, Receiver<T>);

/// Sends `message` on a channel; returns whether it was handed to the channel.
///
/// Trusted: calls `std::sync::mpsc::Sender::send`. It fails only when the receiving side
/// has been dropped, which the sender cannot know beforehand, so nothing is promised of
/// the result.
#[verifier::external_body]
pub fn send_message<T>(sender: &Sender<T>, message: T) -> (delivered: bool) {
    sender.send(message).is_ok()
}

} // verus!
