//! The outside types that the core carries, and the unbounded channel that
//! feeds one subscriber.
//!
//! Nothing here is proved: each item states what the outside crate does.

use futures_channel::mpsc::{UnboundedReceiver, UnboundedSender};
use serde_json::value::RawValue;
use vstd::prelude::*;

verus! {

/// `serde_json::value::RawValue`: a piece of JSON text kept as it was
/// received. The core never looks inside one; it only moves it from the frame
/// that carried it to the caller that waits for it.
#[verifier::external_type_specification]
#[verifier::external_body]
pub struct ExRawValue(RawValue);

/// `futures_channel::mpsc::UnboundedSender`: the producing end of an
/// unbounded channel. Dropping the last sender closes the channel.
#[verifier::external_type_specification]
#[verifier::external_body]
#[verifier::reject_recursive_types(T)]
pub struct ExUnboundedSender<T>(UnboundedSender<T>);

/// `futures_channel::mpsc::UnboundedReceiver`: the consuming end of an
/// unbounded channel.
#[verifier::external_type_specification]
#[verifier::external_body]
#[verifier::reject_recursive_types(T)]
pub struct ExUnboundedReceiver<T>(UnboundedReceiver<T>);

/// Calls `futures_channel::mpsc::unbounded`, which creates a channel and
/// returns its two ends. Nothing is claimed of them.
#[verifier::external_body]
pub(crate) fn open_channel<T>() -> (ends: (UnboundedSender<T>, UnboundedReceiver<T>)) {
    futures_channel::mpsc::unbounded()
}

/// Calls `UnboundedSender::is_closed`, which tells whether the channel has
/// been closed. The answer depends on what the consumer has done, so nothing
/// is claimed of it.
#[verifier::external_body]
pub(crate) fn is_closed<T>(sender: &UnboundedSender<T>) -> (closed: bool) {
    sender.is_closed()
}

/// Calls `UnboundedSender::unbounded_send`, which appends the message to the
/// channel's queue without blocking, or refuses it when the receiving end has
/// been closed or dropped. Whether it is accepted depends on what the consumer
/// has done, so the contract only claims that a refused message is handed
/// back unchanged. The outside function aborts when the queue already holds
/// more messages than its counter can record, which memory runs out long
/// before.
#[verifier::external_body]
pub(crate) fn forward<T>(sender: &UnboundedSender<T>, message: T) -> (outcome: Result<(), T>)
    ensures
        outcome matches Err(back) ==> back == message,
{
    match sender.unbounded_send(message) {
        Ok(()) => Ok(()),
        Err(refused) => Err(refused.into_inner()),
    }
}

} // verus!
