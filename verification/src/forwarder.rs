//! The forwarder of a session: from its queue to its client.

use crate::event::WsMessage;
use vstd::prelude::*;

verus! {

/// What can happen to a forwarder.
pub enum ForwarderEvent {
    /// A message came out of the queue.
    Message(WsMessage),
    /// No message will ever come out of the queue again.
    QueueClosed,
    /// The client took the message.
    Sent,
    /// The client did not take the message.
    SendFailed,
}

/// What a forwarder wants done.
pub enum ForwarderAction {
    /// Wait for a message from the queue.
    Receive,
    /// Send the message to the client and report how that went.
    Send(WsMessage),
    /// End the session (see [`crate::arifa::Arifa::end_session`]) and leave.
    Stop,
}

/// What a forwarder does next: it passes a message on, waits for another once the client has
/// taken it, and leaves when the queue is closed or the client takes no more.
pub open spec fn next_action(event: ForwarderEvent) -> ForwarderAction {
    match event {
        ForwarderEvent::Message(message) => ForwarderAction::Send(message),
        ForwarderEvent::Sent => ForwarderAction::Receive,
        ForwarderEvent::QueueClosed | ForwarderEvent::SendFailed => ForwarderAction::Stop,
    }
}

/// Says what a forwarder does next. It goes on as long as its queue is open and its client takes
/// the messages.
pub fn forward(event: ForwarderEvent) -> (action: ForwarderAction)
    ensures
        action == next_action(event),
{
    match event {
        ForwarderEvent::Message(message) => ForwarderAction::Send(message),
        ForwarderEvent::Sent => ForwarderAction::Receive,
        ForwarderEvent::QueueClosed | ForwarderEvent::SendFailed => ForwarderAction::Stop,
    }
}

/// An event and the action it led to.
pub struct ForwardRecord {
    pub event: ForwarderEvent,
    pub action: ForwarderAction,
}

/// Whether `event` is what doing `action` can come to: waiting for a message gives one or finds
/// the queue closed, sending is reported on, and nothing follows once the forwarder has left.
pub open spec fn comes_of(action: ForwarderAction, event: ForwarderEvent) -> bool {
    match action {
        ForwarderAction::Receive => event is Message || event is QueueClosed,
        ForwarderAction::Send(_) => event is Sent || event is SendFailed,
        ForwarderAction::Stop => false,
    }
}

/// What a forwarder goes through from its start, where it waits for a message: each action is
/// the one that [`forward`] gives, and each event comes of the action before.
pub open spec fn forwards(run: Seq<ForwardRecord>) -> bool {
    &&& forall|i: int| 0 <= i < run.len() ==> (#[trigger] run[i]).action == next_action(run[i].event)
    &&& forall|i: int|
        0 <= i < run.len() ==> comes_of(
            if i == 0 {
                ForwarderAction::Receive
            } else {
                run[i - 1].action
            },
            (#[trigger] run[i]).event,
        )
}

/// The messages that came out of the queue, in order.
pub open spec fn received_by(run: Seq<ForwardRecord>) -> Seq<WsMessage>
    decreases run.len(),
{
    if run.len() == 0 {
        Seq::empty()
    } else {
        match run.last().event {
            ForwarderEvent::Message(message) => received_by(run.drop_last()).push(message),
            _ => received_by(run.drop_last()),
        }
    }
}

/// The messages that were sent to the client, in order.
pub open spec fn sent_by(run: Seq<ForwardRecord>) -> Seq<WsMessage>
    decreases run.len(),
{
    if run.len() == 0 {
        Seq::empty()
    } else {
        match run.last().action {
            ForwarderAction::Send(message) => sent_by(run.drop_last()).push(message),
            _ => sent_by(run.drop_last()),
        }
    }
}

/// The messages that the client took, in order: each report that a message was taken is about
/// the message sent just before.
pub open spec fn taken_by(run: Seq<ForwardRecord>) -> Seq<WsMessage>
    decreases run.len(),
{
    if run.len() == 0 {
        Seq::empty()
    } else if run.last().event is Sent && run.len() > 1 {
        match run[run.len() - 2].action {
            ForwarderAction::Send(message) => taken_by(run.drop_last()).push(message),
            _ => taken_by(run.drop_last()),
        }
    } else {
        taken_by(run.drop_last())
    }
}

proof fn lemma_forwards_without_last(run: Seq<ForwardRecord>)
    requires
        forwards(run),
        run.len() > 0,
    ensures
        forwards(run.drop_last()),
{
    let fewer = run.drop_last();
    assert forall|i: int| 0 <= i < fewer.len() implies comes_of(
        if i == 0 {
            ForwarderAction::Receive
        } else {
            fewer[i - 1].action
        },
        (#[trigger] fewer[i]).event,
    ) by {
        assert(run[i] == fewer[i]);
    }
    assert forall|i: int| 0 <= i < fewer.len() implies (#[trigger] fewer[i]).action == next_action(
        fewer[i].event,
    ) by {
        assert(run[i] == fewer[i]);
    }
}

/// A forwarder sends every message that it receives once, in the order in which they come, and
/// sends nothing else.
pub proof fn law_forwarder_sends_what_it_receives(run: Seq<ForwardRecord>)
    requires
        forwards(run),
    ensures
        sent_by(run) == received_by(run),
    decreases run.len(),
{
    if run.len() > 0 {
        lemma_forwards_without_last(run);
        law_forwarder_sends_what_it_receives(run.drop_last());
        assert(run[run.len() - 1].action == next_action(run[run.len() - 1].event));
    }
}

/// The client takes the messages in the order in which they are sent, and misses none but the
/// last: that one is not taken as long as nothing is reported on it, or if sending it failed.
pub proof fn law_client_takes_what_is_sent(run: Seq<ForwardRecord>)
    requires
        forwards(run),
    ensures
        run.len() > 0 && (run.last().event is Message || run.last().event is SendFailed) ==> {
            &&& sent_by(run).len() > 0
            &&& taken_by(run) == sent_by(run).drop_last()
        },
        run.len() == 0 || run.last().event is Sent || run.last().event is QueueClosed ==> taken_by(
            run,
        ) == sent_by(run),
    decreases run.len(),
{
    if run.len() > 0 {
        let n = run.len() - 1;
        let fewer = run.drop_last();
        lemma_forwards_without_last(run);
        law_client_takes_what_is_sent(fewer);
        assert(run[n].action == next_action(run[n].event));
        if n > 0 {
            assert(fewer.last() == run[n - 1]);
            assert(run[n - 1].action == next_action(run[n - 1].event));
            if run[n].event is Sent {
                assert(taken_by(run) =~= sent_by(run));
            }
        }
        assert(comes_of(
            if n == 0 {
                ForwarderAction::Receive
            } else {
                run[n - 1].action
            },
            run[n].event,
        ));
        if run[n].event is Message {
            assert(sent_by(run).drop_last() =~= sent_by(fewer));
        }
    }
}

/// A forwarder passes on every message as it is, waits for the next one once a message is taken,
/// and leaves just when its queue is closed or sending failed.
pub proof fn law_forwarder_leaves_only_at_the_end(event: ForwarderEvent, action: ForwarderAction)
    requires
        call_ensures(forward, (event,), action),
    ensures
        event matches ForwarderEvent::Message(message) ==> action == ForwarderAction::Send(message),
        event is Sent ==> action is Receive,
        action is Stop <==> event is QueueClosed || event is SendFailed,
        action == next_action(event),
{
}

/// Once a message could not be sent, or the queue is closed, the forwarder leaves: nothing
/// happens after that, and in particular nothing is sent.
pub proof fn law_forwarder_leaves_for_good(run: Seq<ForwardRecord>, at: int)
    requires
        forwards(run),
        0 <= at < run.len(),
        run[at].event is SendFailed || run[at].event is QueueClosed || run[at].action is Stop,
    ensures
        run[at].action is Stop,
        at == run.len() - 1,
        forall|later: int| at < later < run.len() ==> !((#[trigger] run[later]).action is Send),
{
    assert(run[at].action == next_action(run[at].event));
    if at < run.len() - 1 {
        assert(comes_of(run[at].action, run[at + 1].event));
    }
}

} // verus!
