//! The queues of `tokio` that join a session to the router.

use crate::event::WsMessage;
use tokio::sync::{mpsc, oneshot};
use vstd::prelude::*;

verus! {

/// The sending end of a bounded queue.
#[verifier::external_type_specification]
#[verifier::external_body]
#[verifier::reject_recursive_types(T)]
pub struct ExQueueSender<T>(mpsc::Sender<T>);

/// The receiving end of a bounded queue.
#[verifier::external_type_specification]
#[verifier::external_body]
#[verifier::reject_recursive_types(T)]
pub struct ExQueueReceiver<T>(mpsc::Receiver<T>);

/// The end of a one-shot channel that answers.
#[verifier::external_type_specification]
#[verifier::external_body]
#[verifier::reject_recursive_types(T)]
pub struct ExAckSender<T>(oneshot::Sender<T>);

/// The end of a one-shot channel that waits for the answer.
#[verifier::external_type_specification]
#[verifier::external_body]
#[verifier::reject_recursive_types(T)]
pub struct ExAckReceiver<T>(oneshot::Receiver<T>);

/// What a waiting end of a one-shot channel gets when the answering end is dropped unused.
#[verifier::external_type_specification]
#[verifier::external_body]
pub struct ExAckDropped(oneshot::error::RecvError);

/// How a queue answers a message that is put to it without waiting.
#[derive(Debug, Clone, Copy, PartialEq, Eq, Structural)]
pub enum Delivery {
    /// The message is in the queue.
    Delivered,
    /// The queue was full; the message is lost.
    Dropped,
    /// The receiving end is gone; no message can ever arrive again.
    Closed,
}

/// How many messages the queue behind `sender` can hold at a time.
pub uninterp spec fn queue_limit(sender: mpsc::Sender<WsMessage>) -> nat;

/// Whether what is put into `sender` comes out of `receiver`.
pub uninterp spec fn feeds(
    sender: mpsc::Sender<WsMessage>,
    receiver: mpsc::Receiver<WsMessage>,
) -> bool;

/// What was put through the handle `sender` so far, in order, and what was answered.
pub uninterp spec fn sent(sender: mpsc::Sender<WsMessage>) -> Seq<(WsMessage, Delivery)>;

/// How many further handles to its queue were made from the handle `sender` so far.
pub uninterp spec fn copies(sender: mpsc::Sender<WsMessage>) -> nat;

/// Whether `receiver` waits for what `sender` answers.
pub uninterp spec fn answers_to(sender: oneshot::Sender<()>, receiver: oneshot::Receiver<()>) -> bool;

/// Both are handles to a queue with the same limit and the same receiving end.
pub open spec fn same_queue(
    one: mpsc::Sender<WsMessage>,
    other: mpsc::Sender<WsMessage>,
) -> bool {
    &&& queue_limit(one) == queue_limit(other)
    &&& forall|receiver: mpsc::Receiver<WsMessage>|
        #![trigger feeds(one, receiver)]
        #![trigger feeds(other, receiver)]
        feeds(one, receiver) == feeds(other, receiver)
}

/// `after` is the handle `before` once `event` was put through it, was answered with `answer`,
/// and nothing else was done with it.
pub open spec fn put_once(
    before: mpsc::Sender<WsMessage>,
    event: WsMessage,
    answer: Delivery,
    after: mpsc::Sender<WsMessage>,
) -> bool {
    &&& same_queue(after, before)
    &&& sent(after) == sent(before).push((event, answer))
    &&& copies(after) == copies(before)
}

/// `tokio::sync::mpsc::channel`: the two ends of a new queue that holds `limit` messages.
/// Nothing was put through the sending end yet. It panics when the limit is zero or above an
/// eighth of the largest `usize`.
#[verifier::external_body]
pub(crate) fn new_queue(limit: usize) -> (ends: (
    mpsc::Sender<WsMessage>,
    mpsc::Receiver<WsMessage>,
))
    requires
        0 < limit <= usize::MAX / 8,
    ensures
        queue_limit(ends.0) == limit,
        feeds(ends.0, ends.1),
        sent(ends.0) == Seq::<(WsMessage, Delivery)>::empty(),
        copies(ends.0) == 0,
{
    mpsc::channel(limit)
}

/// `tokio::sync::mpsc::Sender::clone`: one more handle to the same queue. Nothing was put
/// through the new handle yet. The handle it is made from keeps the record of what was put
/// through it, and counts the new one.
#[verifier::external_body]
pub(crate) fn another_handle(sender: &mut mpsc::Sender<WsMessage>) -> (copy: mpsc::Sender<
    WsMessage,
>)
    ensures
        same_queue(copy, *old(sender)),
        sent(copy) == Seq::<(WsMessage, Delivery)>::empty(),
        copies(copy) == 0,
        same_queue(*final(sender), *old(sender)),
        sent(*final(sender)) == sent(*old(sender)),
        copies(*final(sender)) == copies(*old(sender)) + 1,
{
    sender.clone()
}

/// `tokio::sync::oneshot::channel`: the two ends of a new one-shot channel.
#[verifier::external_body]
pub(crate) fn new_ack() -> (ends: (oneshot::Sender<()>, oneshot::Receiver<()>))
    ensures
        answers_to(ends.0, ends.1),
{
    oneshot::channel()
}

/// `tokio::sync::mpsc::Sender::try_send`: puts `event` to the queue once, without waiting. The
/// handle is taken for itself, so that what is put through it is on its record. Which answer
/// comes depends on how full the queue is and whether its receiving end still lives, so nothing
/// is claimed of it but that it is the answer to this event. Left unsaid is that a queue drops a
/// message just when as many as its limit wait in it: how many wait at the moment of the call
/// rests on the receiving end, which takes messages out at any time.
#[verifier::external_body]
pub(crate) fn put(sender: &mut mpsc::Sender<WsMessage>, event: WsMessage) -> (answer: Delivery)
    ensures
        put_once(*old(sender), event, answer, *final(sender)),
{
    match sender.try_send(event) {
        Ok(()) => Delivery::Delivered,
        Err(mpsc::error::TrySendError::Full(_)) => Delivery::Dropped,
        Err(mpsc::error::TrySendError::Closed(_)) => Delivery::Closed,
    }
}

} // verus!
