//! The broadcast endpoint: a bounded fan-out channel from tokio, taken on
//! trust at this narrow seam.
//!
//! The channel delivers every sent value to each receiver that subscribed
//! before the send, in send order, and reports to a receiver that fell
//! more than the channel capacity behind how many values it missed.  Those
//! delivery properties are the channel's own; what this library proves is
//! which values are handed to the channel (see the message logs of the
//! registry types).

use tokio::sync::broadcast::{Receiver, Sender};
use vstd::prelude::*;

verus! {

#[verifier::external_type_specification]
#[verifier::external_body]
#[verifier::reject_recursive_types(T)]
pub struct ExSender<T>(Sender<T>);

#[verifier::external_type_specification]
#[verifier::external_body]
#[verifier::reject_recursive_types(T)]
pub struct ExReceiver<T>(Receiver<T>);

/// Relies on `tokio::sync::broadcast::channel`: a fresh broadcast channel
/// that keeps up to `capacity` values per receiver.  The function panics
/// outside `1..=usize::MAX / 2`, so that range is required here.  The
/// receiver created alongside the sender is dropped: subscribers are taken
/// later from the sender.
#[verifier::external_body]
pub fn new_channel<T: Clone>(capacity: usize) -> (r: Sender<T>)
    requires
        1 <= capacity <= usize::MAX / 2,
{
    tokio::sync::broadcast::channel(capacity).0
}

/// Relies on `tokio::sync::broadcast::Sender::send`: hands `value` to the
/// channel for every current receiver.  Returns whether at least one
/// receiver existed; a send to no receivers is no error to this library.
#[verifier::external_body]
pub fn send_message<T>(sender: &Sender<T>, value: T) -> (r: bool) {
    sender.send(value).is_ok()
}

/// Relies on `tokio::sync::broadcast::Sender::subscribe`: a fresh receiver
/// that will see exactly the values sent after this call.
#[verifier::external_body]
pub fn subscribe<T>(sender: &Sender<T>) -> (r: Receiver<T>) {
    sender.subscribe()
}

} // verus!
