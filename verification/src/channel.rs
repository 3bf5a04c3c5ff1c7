//! The queues between the world and the sessions.
//!
//! They are tokio's channels. Nothing in them is verified: what this module
//! states about them is taken from tokio's source and believed by the proofs
//! that build on it.

use vstd::prelude::*;

verus! {

/// The sending half of tokio's bounded queue.
#[verifier::external_type_specification]
#[verifier::external_body]
#[verifier::reject_recursive_types(T)]
pub struct ExSender<T>(tokio::sync::mpsc::Sender<T>);

/// The receiving half of tokio's bounded queue.
#[verifier::external_type_specification]
#[verifier::external_body]
#[verifier::reject_recursive_types(T)]
pub struct ExReceiver<T>(tokio::sync::mpsc::Receiver<T>);

/// The sending half of tokio's queue for a single value.
#[verifier::external_type_specification]
#[verifier::external_body]
#[verifier::reject_recursive_types(T)]
pub struct ExReplySender<T>(tokio::sync::oneshot::Sender<T>);

/// An immutable byte buffer of the bytes crate.
#[verifier::external_type_specification]
#[verifier::external_body]
pub struct ExBytes(bytes::Bytes);

/// Every payload that has been put into a player's outbox through this
/// sending half, oldest first. What the receiving half has taken out again
/// still counts: this is a record of what was accepted, not of what waits.
/// The world keeps the only sending half of each outbox and never clones
/// it, and it offers payloads through a unique reference, so the record
/// changes only where a contract says so.
pub uninterp spec fn outbox_log(tx: tokio::sync::mpsc::Sender<bytes::Bytes>) -> Seq<Seq<u8>>;

/// What a look into a queue found.
pub enum Polled<T> {
    /// The oldest value that was waiting.
    Ready(T),
    /// Nothing is waiting, but a sender is still there.
    Empty,
    /// Nothing is waiting and every sender is gone.
    Closed,
}

/// Calls `tokio::sync::mpsc::channel` for a queue of byte buffers. Believed:
/// the queue is new, so nothing has been put into it. The call panics for a
/// capacity of zero or above an eighth of `usize::MAX`, which the
/// precondition leaves out.
#[verifier::external_body]
pub(crate) fn open_outbox(capacity: usize) -> (ends: (
    tokio::sync::mpsc::Sender<bytes::Bytes>,
    tokio::sync::mpsc::Receiver<bytes::Bytes>,
))
    requires
        0 < capacity <= usize::MAX / 8,
    ensures
        outbox_log(ends.0) == Seq::<Seq<u8>>::empty(),
{
    tokio::sync::mpsc::channel(capacity)
}

/// Calls `Sender::try_send` with the payload as a `bytes::Bytes`. Believed:
/// the call returns at once; when it reports success the payload has been
/// put into the queue behind all earlier ones, and when it reports a full or
/// closed queue nothing has been put into it.
#[verifier::external_body]
pub(crate) fn outbox_offer(
    tx: &mut tokio::sync::mpsc::Sender<bytes::Bytes>,
    payload: Vec<u8>,
) -> (taken: bool)
    ensures
        outbox_log(*final(tx)) == if taken {
            outbox_log(*old(tx)).push(payload@)
        } else {
            outbox_log(*old(tx))
        },
{
    tx.try_send(bytes::Bytes::from(payload)).is_ok()
}

/// Calls `Receiver::try_recv`. Nothing is claimed of what it finds: that is
/// up to the senders.
#[verifier::external_body]
pub(crate) fn poll<T>(rx: &mut tokio::sync::mpsc::Receiver<T>) -> Polled<T> {
    match rx.try_recv() {
        Ok(value) => Polled::Ready(value),
        Err(tokio::sync::mpsc::error::TryRecvError::Empty) => Polled::Empty,
        Err(tokio::sync::mpsc::error::TryRecvError::Disconnected) => Polled::Closed,
    }
}

/// Calls `Receiver::len`: how many values wait in the queue. Nothing is
/// claimed of the number: senders may add to it at any moment.
#[verifier::external_body]
pub(crate) fn waiting<T>(rx: &tokio::sync::mpsc::Receiver<T>) -> usize {
    rx.len()
}

/// Calls `oneshot::Sender::send` and tells whether the receiver was still
/// there to take the value. Nothing is claimed of that: it is up to the
/// receiver.
#[verifier::external_body]
pub(crate) fn reply_with<T>(reply: tokio::sync::oneshot::Sender<T>, value: T) -> bool {
    reply.send(value).is_ok()
}

} // verus!
