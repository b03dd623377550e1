//! What holds of a router over time.

use crate::arifa::{joins, leaves, SESSION_CHANNEL_CAPACITY};
use crate::event::WsMessage;
use crate::metrics::{count_plus, law_recording_adds, lemma_count_plus_twice, MetricsSnapshot};
use crate::queue::{copies, feeds, put_once, queue_limit, sent, Delivery};
use crate::router::{
    next_backoff, PhaseView, RouterAction, RouterCommand, RouterEvent, RouterView,
    RECONNECT_INITIAL_BACKOFF_MS, RECONNECT_MAX_BACKOFF_MS,
};
use crate::routing_table::{
    is_on, law_an_answer_counts_one, law_each_session_is_put_the_event_once, lemma_last_session, lists_channels, tally,
    Routes, Served,
};
use tokio::sync::{mpsc, oneshot};
use vstd::arithmetic::power2::pow2;
use vstd::prelude::*;

verus! {

/// An event, the answers of the sessions it reached, and the action it led to.
pub struct StepRecord {
    pub event: RouterEvent,
    pub served: Served,
    pub action: RouterAction,
}

/// The states of a router that starts in the first of them and goes through `steps`.
pub open spec fn runs(states: Seq<RouterView>, steps: Seq<StepRecord>) -> bool {
    &&& states.len() == steps.len() + 1
    &&& forall|i: int|
        0 <= i < steps.len() ==> (#[trigger] states[i]).steps(
            steps[i].event,
            steps[i].served,
            states[i + 1],
            steps[i].action,
        )
}

/// The channels that the present connection was asked for and not released from, once
/// `action` is done.
pub open spec fn asked_after(asked: Set<Seq<char>>, action: RouterAction) -> Set<Seq<char>> {
    match action {
        RouterAction::Connect | RouterAction::ConnectAfter(_) | RouterAction::Stop => Set::empty(),
        RouterAction::Resubscribe(channels) => asked.union(
            Set::new(
                |channel: Seq<char>|
                    exists|i: int|
                        0 <= i < channels@.len() && (#[trigger] channels@[i])@ == channel,
            ),
        ),
        RouterAction::SubscribeChannel(channel) => asked.insert(channel@),
        RouterAction::UnsubscribeChannel(channel) => asked.remove(channel@),
        RouterAction::Listen | RouterAction::Acknowledge(_) => asked,
    }
}

/// The channels that the present connection was asked for in the course of `steps`.
pub open spec fn asked_by(steps: Seq<StepRecord>) -> Set<Seq<char>>
    decreases steps.len(),
{
    if steps.len() == 0 {
        Set::empty()
    } else {
        asked_after(asked_by(steps.drop_last()), steps.last().action)
    }
}

/// While there is a connection, it was asked for every channel that has a session.
pub open spec fn covered(state: RouterView, asked: Set<Seq<char>>) -> bool {
    state.phase is Listening || state.phase is Subscribing ==> forall|channel: Seq<char>|
        #[trigger]
        state.routes.contains_key(channel) ==> asked.contains(channel)
}

/// Every step leads from a sound state to a sound state.
pub proof fn law_steps_keep_sound(
    before: RouterView,
    event: RouterEvent,
    served: Served,
    after: RouterView,
    action: RouterAction,
)
    requires
        before.sound(),
        before.steps(event, served, after, action),
    ensures
        after.sound(),
{
    if let RouterEvent::Command(RouterCommand::Subscribe { channel, session_id, sender, ack }) =
        event {
        if before.expects(event) {
            assert(after.routes[channel@].contains_key(session_id@));
        }
    }
}

/// Every step keeps the connection asked for every channel that has a session.
pub proof fn law_steps_keep_covered(
    before: RouterView,
    event: RouterEvent,
    served: Served,
    after: RouterView,
    action: RouterAction,
    asked: Set<Seq<char>>,
)
    requires
        before.sound(),
        covered(before, asked),
        before.steps(event, served, after, action),
    ensures
        covered(after, asked_after(asked, action)),
{
    if before.expects(event) {
        match event {
            RouterEvent::Connected => {
                let channels = action->Resubscribe_0;
                assert forall|channel: Seq<char>| #[trigger]
                    after.routes.contains_key(channel) implies asked_after(
                    asked,
                    action,
                ).contains(channel) by {
                    assert(lists_channels(channels@, before.routes));
                }
            },
            RouterEvent::Command(RouterCommand::Unsubscribe { channel, session_id }) => {
                if before.routes.contains_key(channel@) {
                    lemma_last_session(before.routes[channel@], session_id@);
                }
            },
            _ => {},
        }
    }
}

/// Whatever happens to a router, connections lost and opened again included: as long as it
/// has a connection, that connection was asked for every channel that has a session.
pub proof fn law_every_channel_is_asked_for(
    node_id: Seq<char>,
    states: Seq<RouterView>,
    steps: Seq<StepRecord>,
)
    requires
        runs(states, steps),
        states[0] == RouterView::initial(node_id),
    ensures
        states.last().sound(),
        covered(states.last(), asked_by(steps)),
    decreases steps.len(),
{
    if steps.len() > 0 {
        let n = steps.len() - 1;
        lemma_run_without_last(states, steps);
        law_every_channel_is_asked_for(node_id, states.drop_last(), steps.drop_last());
        let last = steps[n];
        assert(states[n].steps(last.event, last.served, states[n + 1], last.action));
        law_steps_keep_sound(states[n], last.event, last.served, states[n + 1], last.action);
        law_steps_keep_covered(
            states[n],
            last.event,
            last.served,
            states[n + 1],
            last.action,
            asked_by(steps.drop_last()),
        );
    }
}

/// There is nothing to be asked for without a connection; with one, the channels that it was
/// asked for are those that have a session.
pub open spec fn exactly_covered(state: RouterView, asked: Set<Seq<char>>) -> bool {
    match state.phase {
        PhaseView::Connecting => asked == Set::<Seq<char>>::empty(),
        PhaseView::Listening | PhaseView::Subscribing { .. } => forall|channel: Seq<char>|
            asked.contains(channel) <==> #[trigger] state.routes.contains_key(channel),
        PhaseView::Stopped => true,
    }
}

/// A step keeps the connection asked for no channel but those that have a session, unless it
/// is a message that finds the last queue of its channel closed.
pub proof fn law_steps_keep_exactly_covered(
    before: RouterView,
    event: RouterEvent,
    served: Served,
    after: RouterView,
    action: RouterAction,
    asked: Set<Seq<char>>,
)
    requires
        before.sound(),
        exactly_covered(before, asked),
        before.steps(event, served, after, action),
        event is Message ==> after.routes.dom() == before.routes.dom(),
    ensures
        exactly_covered(after, asked_after(asked, action)),
{
    let asked_then = asked_after(asked, action);
    if before.expects(event) {
        match event {
            RouterEvent::Connected => {
                let channels = action->Resubscribe_0;
                assert(lists_channels(channels@, before.routes));
            },
            RouterEvent::Command(RouterCommand::Unsubscribe { channel, session_id }) => {
                if before.routes.contains_key(channel@) {
                    lemma_last_session(before.routes[channel@], session_id@);
                }
            },
            RouterEvent::Message { channel, message } => {
                assert forall|name: Seq<char>|
                    asked_then.contains(name) <==> #[trigger] after.routes.contains_key(name) by {
                    assert(after.routes.dom().contains(name) == before.routes.dom().contains(name));
                    assert(asked.contains(name) <==> before.routes.contains_key(name));
                }
            },
            _ => {},
        }
    }
}

/// From the start of a router on, as long as no message finds the last queue of its channel
/// closed: the channels that the connection was asked for are those that have a session.
pub proof fn law_no_other_channel_is_asked_for(
    node_id: Seq<char>,
    states: Seq<RouterView>,
    steps: Seq<StepRecord>,
)
    requires
        runs(states, steps),
        states[0] == RouterView::initial(node_id),
        forall|i: int|
            0 <= i < steps.len() ==> ((#[trigger] steps[i]).event is Message ==> states[i
                + 1].routes.dom() == states[i].routes.dom()),
    ensures
        exactly_covered(states.last(), asked_by(steps)),
    decreases steps.len(),
{
    if steps.len() > 0 {
        let n = steps.len() - 1;
        lemma_run_without_last(states, steps);
        assert forall|i: int|
            0 <= i < n && (#[trigger] steps.drop_last()[i]).event is Message implies states.drop_last()[i
            + 1].routes.dom() == states.drop_last()[i].routes.dom() by {
            assert(steps[i] == steps.drop_last()[i]);
        }
        law_no_other_channel_is_asked_for(node_id, states.drop_last(), steps.drop_last());
        law_every_channel_is_asked_for(node_id, states.drop_last(), steps.drop_last());
        let last = steps[n];
        assert(states[n].steps(last.event, last.served, states[n + 1], last.action));
        law_steps_keep_exactly_covered(
            states[n],
            last.event,
            last.served,
            states[n + 1],
            last.action,
            asked_by(steps.drop_last()),
        );
    }
}

/// A run without its last step is a run.
proof fn lemma_run_without_last(states: Seq<RouterView>, steps: Seq<StepRecord>)
    requires
        runs(states, steps),
        steps.len() > 0,
    ensures
        runs(states.drop_last(), steps.drop_last()),
{
    let n = steps.len() - 1;
    assert forall|i: int| 0 <= i < n implies (#[trigger] states.drop_last()[i]).steps(
        steps.drop_last()[i].event,
        steps.drop_last()[i].served,
        states.drop_last()[i + 1],
        steps.drop_last()[i].action,
    ) by {
        assert(states[i].steps(
            steps[i].event,
            steps[i].served,
            states[i + 1],
            steps[i].action,
        ));
    }
}

/// Losing a connection, failing to open one, opening one and being refused a channel leave
/// the sessions on their channels.
pub proof fn law_reconnecting_keeps_the_sessions(
    before: RouterView,
    event: RouterEvent,
    served: Served,
    after: RouterView,
    action: RouterAction,
)
    requires
        before.steps(event, served, after, action),
        !(event is Command),
        !(event is Message),
    ensures
        after.routes == before.routes,
{
}

/// A channel that the connection refused is asked for again on the next connection.
pub proof fn law_refused_channel_is_asked_for_again(
    before: RouterView,
    channel: Seq<char>,
    session: Seq<char>,
    between: RouterView,
    after: RouterView,
    first: StepRecord,
    second: StepRecord,
)
    requires
        before.sound(),
        before.phase matches PhaseView::Subscribing { channel: waiting, session: who, ack }
            && waiting == channel && who == session,
        first.event is ChannelRefused,
        before.steps(first.event, first.served, between, first.action),
        second.event is Connected,
        between.steps(second.event, second.served, after, second.action),
    ensures
        first.action is Connect,
        after.routes[channel].contains_key(session),
        exists|i: int|
            0 <= i < second.action->Resubscribe_0@.len() && (
            #[trigger] second.action->Resubscribe_0@[i])@ == channel,
{
    let channels = second.action->Resubscribe_0;
    assert(lists_channels(channels@, between.routes));
    assert(between.routes.contains_key(channel));
}

/// A handle that asked for a subscription is answered only once its session is registered
/// on the channel; if the session is the first there, only once the connection has accepted
/// the channel.
pub proof fn law_answered_handle_is_registered(
    before: RouterView,
    event: RouterEvent,
    served: Served,
    after: RouterView,
    action: RouterAction,
)
    requires
        before.sound(),
        before.steps(event, served, after, action),
        action is Acknowledge,
    ensures
        match event {
            RouterEvent::Command(
                RouterCommand::Subscribe { channel, session_id, sender, ack },
            ) => {
                &&& action == RouterAction::Acknowledge(ack)
                &&& before.routes.contains_key(channel@)
                &&& after.routes[channel@].contains_key(session_id@)
                &&& after.routes[channel@][session_id@] == sender
            },
            RouterEvent::ChannelSubscribed => {
                &&& before.phase matches PhaseView::Subscribing { channel, session, ack }
                &&& action == RouterAction::Acknowledge(ack)
                &&& after.routes.contains_key(channel)
                &&& after.routes[channel].contains_key(session)
            },
            _ => false,
        },
{
}

/// Once a command of a subscription is carried out, what is put to the session on that channel
/// comes out where the subscription says, through a queue of bounded length, and nothing was put
/// to it there yet.
pub proof fn law_subscription_is_fed(
    before: RouterView,
    command: RouterCommand,
    channel: Seq<char>,
    session_id: Seq<char>,
    messages: mpsc::Receiver<WsMessage>,
    answered: oneshot::Receiver<()>,
    served: Served,
    after: RouterView,
    action: RouterAction,
)
    requires
        before.phase is Listening,
        joins(command, channel, session_id, messages, answered),
        before.steps(RouterEvent::Command(command), served, after, action),
    ensures
        after.routes.contains_key(channel),
        after.routes[channel].contains_key(session_id),
        feeds(after.routes[channel][session_id], messages),
        queue_limit(after.routes[channel][session_id]) == SESSION_CHANNEL_CAPACITY,
        sent(after.routes[channel][session_id]) == Seq::<(WsMessage, Delivery)>::empty(),
{
}

/// Once a command of a teardown is carried out, the session is off that channel, and a
/// channel that it was the last on is released.
pub proof fn law_torn_down_session_is_gone(
    before: RouterView,
    command: RouterCommand,
    channel: Seq<char>,
    session_id: Seq<char>,
    served: Served,
    after: RouterView,
    action: RouterAction,
)
    requires
        before.phase is Listening,
        leaves(command, channel, session_id),
        before.steps(RouterEvent::Command(command), served, after, action),
    ensures
        !(after.routes.contains_key(channel) && after.routes[channel].contains_key(session_id)),
        before.routes.contains_key(channel) && !after.routes.contains_key(channel) <==> action
            is UnsubscribeChannel,
        action matches RouterAction::UnsubscribeChannel(name) ==> name@ == channel,
{
    if before.routes.contains_key(channel) {
        lemma_last_session(before.routes[channel], session_id);
    }
}

/// What a step counts is an addition of what it counts on fresh counters.
pub proof fn law_step_counts_by_adding(
    before: RouterView,
    event: RouterEvent,
    served: Served,
    counts: MetricsSnapshot,
)
    ensures
        before.counted(event, served, counts) == counts.plus(
            before.counted(event, served, MetricsSnapshot::zero()),
        ),
{
    law_recording_adds(
        counts,
        tally(served.answers, Delivery::Delivered),
        tally(served.answers, Delivery::Dropped),
        0,
    );
}

/// `message` was put one time to the queue of `session`, which was on `channel`, and nothing
/// else was. The session is still there unless its queue answered that it is closed.
pub open spec fn reached_once(
    before: Routes,
    after: Routes,
    channel: Seq<char>,
    message: WsMessage,
    session: Seq<char>,
    answer: Delivery,
) -> bool {
    &&& is_on(after, channel, session) <==> answer != Delivery::Closed
    &&& is_on(after, channel, session) ==> put_once(
        before[channel][session],
        message,
        answer,
        after[channel][session],
    )
}

/// A session on a channel has every message that the node delivers there put to its queue, one
/// time. It loses its place only if that queue is closed. No other channel is touched.
pub proof fn law_session_is_served(
    before: RouterView,
    channel: String,
    message: WsMessage,
    session: Seq<char>,
    served: Served,
    after: RouterView,
    action: RouterAction,
)
    requires
        before.phase is Listening,
        message.is_for(before.node_id),
        is_on(before.routes, channel@, session),
        before.steps(
            RouterEvent::Message { channel, message: Some(message) },
            served,
            after,
            action,
        ),
    ensures
        served.sessions.contains(session),
        reached_once(
            before.routes,
            after.routes,
            channel@,
            message,
            session,
            served.answers[served.sessions.index_of(session)],
        ),
        forall|other: Seq<char>|
            other != channel@ ==> #[trigger] after.routes.get(other) == before.routes.get(other),
{
    let event = RouterEvent::Message { channel, message: Some(message) };
    assert(before.serves(event, served));
    law_each_session_is_put_the_event_once(before.routes, channel@, message, served, session);
}

/// A session whose queue is full loses the message and stays on its channel; it adds one to the
/// dropped messages. Every other session on the channel has the message put to its own queue all
/// the same.
pub proof fn law_full_queue_costs_only_its_session(
    before: RouterView,
    channel: String,
    message: WsMessage,
    session: Seq<char>,
    served: Served,
    after: RouterView,
    action: RouterAction,
)
    requires
        before.phase is Listening,
        message.is_for(before.node_id),
        is_on(before.routes, channel@, session),
        before.steps(
            RouterEvent::Message { channel, message: Some(message) },
            served,
            after,
            action,
        ),
        served.answers[served.sessions.index_of(session)] == Delivery::Dropped,
    ensures
        is_on(after.routes, channel@, session),
        put_once(
            before.routes[channel@][session],
            message,
            Delivery::Dropped,
            after.routes[channel@][session],
        ),
        tally(served.answers, Delivery::Dropped) == tally(
            served.answers.update(served.sessions.index_of(session), Delivery::Closed),
            Delivery::Dropped,
        ) + 1,
        forall|other: Seq<char>| #[trigger]
            is_on(before.routes, channel@, other) ==> reached_once(
                before.routes,
                after.routes,
                channel@,
                message,
                other,
                served.answers[served.sessions.index_of(other)],
            ),
{
    assert forall|other: Seq<char>| #[trigger]
        is_on(before.routes, channel@, other) implies reached_once(
        before.routes,
        after.routes,
        channel@,
        message,
        other,
        served.answers[served.sessions.index_of(other)],
    ) by {
        law_session_is_served(before, channel, message, other, served, after, action);
    }
    law_session_is_served(before, channel, message, session, served, after, action);
    assert(served.sessions.contains(session));
    law_an_answer_counts_one(
        served.answers,
        served.sessions.index_of(session),
        Delivery::Closed,
    );
}

/// Through every handle of `before`, nothing was put on the way to `after`, and no further
/// handle was made from it.
pub open spec fn nothing_put(before: Routes, after: Routes) -> bool {
    forall|channel: Seq<char>, session: Seq<char>| #[trigger]
        is_on(before, channel, session) ==> {
            &&& is_on(after, channel, session)
            &&& sent(after[channel][session]) == sent(before[channel][session])
            &&& copies(after[channel][session]) == copies(before[channel][session])
        }
}

/// A message that names another node changes nothing here: it is put to no session, takes out
/// none, and counts nothing.
pub proof fn law_message_for_another_node_is_ignored(
    before: RouterView,
    channel: String,
    message: WsMessage,
    served: Served,
    after: RouterView,
    action: RouterAction,
    counts: MetricsSnapshot,
)
    requires
        !message.is_for(before.node_id),
        before.steps(
            RouterEvent::Message { channel, message: Some(message) },
            served,
            after,
            action,
        ),
    ensures
        after == before,
        nothing_put(before.routes, after.routes),
        served == Served::nobody(),
        before.counted(
            RouterEvent::Message { channel, message: Some(message) },
            served,
            counts,
        ) == counts,
{
}

/// A message that cannot be read changes nothing: nothing is put to any session, none is taken
/// out, and nothing is counted.
pub proof fn law_unreadable_message_is_ignored(
    before: RouterView,
    channel: String,
    served: Served,
    after: RouterView,
    action: RouterAction,
    counts: MetricsSnapshot,
)
    requires
        before.steps(RouterEvent::Message { channel, message: None }, served, after, action),
    ensures
        after == before,
        nothing_put(before.routes, after.routes),
        served == Served::nobody(),
        before.counted(RouterEvent::Message { channel, message: None }, served, counts) == counts,
{
}

/// A message on a channel, as it comes to several nodes that listen. Every session on the
/// channel at a node that the message is for has it put to its queue one time, and nothing is
/// put to any other session. If the message names no node, it is for every node; if it names
/// one, it is for no other, wherever it was published.
pub proof fn law_message_over_nodes(
    nodes: Seq<RouterView>,
    channel: String,
    message: WsMessage,
    served: Seq<Served>,
    after: Seq<RouterView>,
    actions: Seq<RouterAction>,
)
    requires
        served.len() == nodes.len(),
        after.len() == nodes.len(),
        actions.len() == nodes.len(),
        forall|k: int|
            0 <= k < nodes.len() ==> (#[trigger] nodes[k]).phase is Listening && nodes[k].steps(
                RouterEvent::Message { channel, message: Some(message) },
                served[k],
                after[k],
                actions[k],
            ),
        forall|j: int, k: int|
            0 <= j < k < nodes.len() ==> (#[trigger] nodes[j]).node_id != (
            #[trigger] nodes[k]).node_id,
    ensures
        forall|k: int, session: Seq<char>|
            0 <= k < nodes.len() && message.is_for(nodes[k].node_id) && #[trigger] is_on(
                nodes[k].routes,
                channel@,
                session,
            ) ==> reached_once(
                nodes[k].routes,
                after[k].routes,
                channel@,
                message,
                session,
                served[k].answers[served[k].sessions.index_of(session)],
            ),
        forall|k: int, other: Seq<char>|
            0 <= k < nodes.len() && other != channel@ ==> #[trigger] after[k].routes.get(other)
                == nodes[k].routes.get(other),
        forall|k: int|
            0 <= k < nodes.len() && !message.is_for((#[trigger] nodes[k]).node_id) ==> after[k]
                == nodes[k],
        forall|k: int|
            0 <= k < nodes.len() && message.node_id is None ==> message.is_for(
                (#[trigger] nodes[k]).node_id,
            ),
        forall|j: int, k: int|
            0 <= j < nodes.len() && 0 <= k < nodes.len() && message.node_id is Some
                && message.is_for((#[trigger] nodes[j]).node_id) && message.is_for(
                (#[trigger] nodes[k]).node_id,
            ) ==> j == k,
{
    assert forall|k: int, session: Seq<char>|
        0 <= k < nodes.len() && message.is_for(nodes[k].node_id) && #[trigger] is_on(
            nodes[k].routes,
            channel@,
            session,
        ) implies reached_once(
        nodes[k].routes,
        after[k].routes,
        channel@,
        message,
        session,
        served[k].answers[served[k].sessions.index_of(session)],
    ) by {
        law_session_is_served(
            nodes[k],
            channel,
            message,
            session,
            served[k],
            after[k],
            actions[k],
        );
    }
    assert forall|k: int, other: Seq<char>|
        0 <= k < nodes.len() && other != channel@ implies #[trigger] after[k].routes.get(other)
        == nodes[k].routes.get(other) by {
        assert(nodes[k].phase is Listening);
    }
}

/// What a step puts to the queue of `session` on `channel`, and the answer: one entry if the
/// step delivers a message on that channel, none otherwise.
pub open spec fn put_by_step(
    before: RouterView,
    step: StepRecord,
    channel: Seq<char>,
    session: Seq<char>,
) -> Seq<(WsMessage, Delivery)> {
    if before.delivers(step.event) && step.event->channel@ == channel {
        seq![
            (
                step.event->message->0,
                step.served.answers[step.served.sessions.index_of(session)],
            ),
        ]
    } else {
        Seq::empty()
    }
}

/// What a run puts to the queue of `session` on `channel`, in order, and the answers.
pub open spec fn put_by_run(
    states: Seq<RouterView>,
    steps: Seq<StepRecord>,
    channel: Seq<char>,
    session: Seq<char>,
) -> Seq<(WsMessage, Delivery)>
    decreases steps.len(),
{
    if steps.len() == 0 {
        Seq::empty()
    } else {
        put_by_run(states.drop_last(), steps.drop_last(), channel, session) + put_by_step(
            states[steps.len() - 1],
            steps.last(),
            channel,
            session,
        )
    }
}

/// Whether the event subscribes `session` on `channel`.
pub open spec fn resubscribes(event: RouterEvent, channel: Seq<char>, session: Seq<char>) -> bool {
    event matches RouterEvent::Command(
        RouterCommand::Subscribe { channel: name, session_id, sender, ack },
    ) && name@ == channel && session_id@ == session
}

/// As long as a session stays on a channel, what is put to its queue there is the messages that
/// the node delivers on that channel, each one time and in the order in which they come, and
/// nothing else.
pub proof fn law_queue_gets_each_message_once(
    states: Seq<RouterView>,
    steps: Seq<StepRecord>,
    channel: Seq<char>,
    session: Seq<char>,
)
    requires
        runs(states, steps),
        forall|i: int|
            0 <= i < states.len() ==> is_on((#[trigger] states[i]).routes, channel, session),
        forall|i: int|
            0 <= i < steps.len() ==> !resubscribes((#[trigger] steps[i]).event, channel, session),
    ensures
        sent(states.last().routes[channel][session]) == sent(states[0].routes[channel][session])
            + put_by_run(states, steps, channel, session),
    decreases steps.len(),
{
    if steps.len() > 0 {
        let n = steps.len() - 1;
        let fewer = states.drop_last();
        lemma_run_without_last(states, steps);
        assert forall|i: int| 0 <= i < fewer.len() implies is_on(
            (#[trigger] fewer[i]).routes,
            channel,
            session,
        ) by {
            assert(states[i] == fewer[i]);
        }
        assert forall|i: int| 0 <= i < n implies !resubscribes(
            (#[trigger] steps.drop_last()[i]).event,
            channel,
            session,
        ) by {
            assert(steps[i] == steps.drop_last()[i]);
        }
        law_queue_gets_each_message_once(fewer, steps.drop_last(), channel, session);
        let last = steps[n];
        assert(states[n].steps(last.event, last.served, states[n + 1], last.action));
        assert(is_on(states[n].routes, channel, session));
        assert(is_on(states[n + 1].routes, channel, session));
        lemma_step_puts(states[n], last, states[n + 1], channel, session);
        assert(sent(states.last().routes[channel][session]) =~= sent(
            states[0].routes[channel][session],
        ) + put_by_run(states, steps, channel, session));
    } else {
        assert(states.last() == states[0]);
        assert(sent(states[0].routes[channel][session]) =~= sent(
            states[0].routes[channel][session],
        ) + put_by_run(states, steps, channel, session));
    }
}

proof fn lemma_step_puts(
    before: RouterView,
    step: StepRecord,
    after: RouterView,
    channel: Seq<char>,
    session: Seq<char>,
)
    requires
        before.steps(step.event, step.served, after, step.action),
        is_on(before.routes, channel, session),
        is_on(after.routes, channel, session),
        !resubscribes(step.event, channel, session),
    ensures
        sent(after.routes[channel][session]) == sent(before.routes[channel][session]) + put_by_step(
            before,
            step,
            channel,
            session,
        ),
{
    if before.delivers(step.event) && step.event->channel@ == channel {
        law_each_session_is_put_the_event_once(
            before.routes,
            channel,
            step.event->message->0,
            step.served,
            session,
        );
    } else {
        assert(after.routes[channel][session] == before.routes[channel][session]);
    }
    assert(sent(after.routes[channel][session]) =~= sent(before.routes[channel][session])
        + put_by_step(before, step, channel, session));
}

/// The counters after a run that started with `counts`.
pub open spec fn counted_by_run(
    states: Seq<RouterView>,
    steps: Seq<StepRecord>,
    counts: MetricsSnapshot,
) -> MetricsSnapshot
    decreases steps.len(),
{
    if steps.len() == 0 {
        counts
    } else {
        states[steps.len() - 1].counted(
            steps.last().event,
            steps.last().served,
            counted_by_run(states.drop_last(), steps.drop_last(), counts),
        )
    }
}

/// How often a queue gave `answer` in the course of `steps`.
pub open spec fn answered(steps: Seq<StepRecord>, answer: Delivery) -> nat
    decreases steps.len(),
{
    if steps.len() == 0 {
        0
    } else {
        answered(steps.drop_last(), answer) + tally(steps.last().served.answers, answer)
    }
}

/// How often a connection was given up in the course of a run: its stream ended, or it refused
/// a channel. An attempt to connect that fails is no such case.
pub open spec fn given_up(states: Seq<RouterView>, steps: Seq<StepRecord>) -> nat
    decreases steps.len(),
{
    if steps.len() == 0 {
        0
    } else {
        let last = steps.last().event;
        given_up(states.drop_last(), steps.drop_last()) + if states[steps.len() - 1].expects(last)
            && (last is StreamEnded || last is ChannelRefused) {
            1nat
        } else {
            0nat
        }
    }
}

/// Over a run, the routed messages are those that a queue took, the dropped ones those that a
/// full queue refused, and the reconnects are the connections given up; a closed queue counts
/// as neither. The other counters stay.
pub proof fn law_counters_over_a_run(
    states: Seq<RouterView>,
    steps: Seq<StepRecord>,
    counts: MetricsSnapshot,
)
    requires
        runs(states, steps),
    ensures
        counted_by_run(states, steps, counts) == (MetricsSnapshot {
            messages_routed: count_plus(
                counts.messages_routed,
                answered(steps, Delivery::Delivered),
            ),
            messages_dropped: count_plus(
                counts.messages_dropped,
                answered(steps, Delivery::Dropped),
            ),
            redis_reconnects: count_plus(counts.redis_reconnects, given_up(states, steps)),
            ..counts
        }),
    decreases steps.len(),
{
    if steps.len() > 0 {
        let n = steps.len() - 1;
        let fewer = steps.drop_last();
        let last = steps.last();
        lemma_run_without_last(states, steps);
        law_counters_over_a_run(states.drop_last(), fewer, counts);
        assert(states[n].steps(last.event, last.served, states[n + 1], last.action));
        let delivered = tally(last.served.answers, Delivery::Delivered);
        let dropped = tally(last.served.answers, Delivery::Dropped);
        if !states[n].delivers(last.event) {
            assert(delivered == 0 && dropped == 0);
        }
        lemma_count_plus_twice(
            counts.messages_routed,
            answered(fewer, Delivery::Delivered),
            delivered,
        );
        lemma_count_plus_twice(
            counts.messages_dropped,
            answered(fewer, Delivery::Dropped),
            dropped,
        );
        lemma_count_plus_twice(counts.redis_reconnects, given_up(states.drop_last(), fewer), 1);
    }
}

/// A message that names no node is delivered by every node that listens.
pub proof fn law_message_without_node_is_for_every_node(
    state: RouterView,
    channel: String,
    message: WsMessage,
)
    requires
        message.node_id is None,
        state.phase is Listening,
    ensures
        state.delivers(RouterEvent::Message { channel, message: Some(message) }),
{
}

/// A message that names a node is delivered by that node and by no other.
pub proof fn law_message_with_node_is_for_that_node(
    state: RouterView,
    channel: String,
    message: WsMessage,
)
    requires
        message.node_id is Some,
        state.phase is Listening,
    ensures
        state.delivers(RouterEvent::Message { channel, message: Some(message) })
            <==> message.node_id->0@ == state.node_id,
{
}

/// A request to shut down ends a router that waits for a connection or for an event, and a
/// router that has ended stays so, whatever it is told.
pub proof fn law_stopped_for_good(
    before: RouterView,
    event: RouterEvent,
    served: Served,
    after: RouterView,
    action: RouterAction,
)
    requires
        before.steps(event, served, after, action),
    ensures
        event is ShutdownRequested && !(before.phase is Subscribing) ==> after.phase is Stopped
            && action is Stop,
        before.phase is Stopped ==> after == before && action is Stop,
{
}

/// The wait before the attempt to connect that follows `failures` failures in a row.
pub open spec fn backoff_after(failures: nat) -> u64
    decreases failures,
{
    if failures == 0 {
        RECONNECT_INITIAL_BACKOFF_MS
    } else {
        next_backoff(backoff_after((failures - 1) as nat))
    }
}

/// The wait doubles with each failure until it reaches the longest wait, and stays there.
pub proof fn law_backoff_doubles_up_to_the_longest(failures: nat)
    ensures
        RECONNECT_INITIAL_BACKOFF_MS * pow2(failures) <= RECONNECT_MAX_BACKOFF_MS ==> backoff_after(
            failures,
        ) == RECONNECT_INITIAL_BACKOFF_MS * pow2(failures),
        RECONNECT_INITIAL_BACKOFF_MS * pow2(failures) > RECONNECT_MAX_BACKOFF_MS ==> backoff_after(
            failures,
        ) == RECONNECT_MAX_BACKOFF_MS,
    decreases failures,
{
    if failures == 0 {
        vstd::arithmetic::power2::lemma2_to64();
    } else {
        let earlier = (failures - 1) as nat;
        law_backoff_doubles_up_to_the_longest(earlier);
        vstd::arithmetic::power2::lemma_pow2_unfold(failures);
    }
}

/// A router that cannot connect waits before each attempt as [`backoff_after`] says.
pub proof fn law_failures_in_a_row(states: Seq<RouterView>, steps: Seq<StepRecord>, at: int)
    requires
        runs(states, steps),
        states[0].phase is Connecting,
        states[0].backoff_ms == RECONNECT_INITIAL_BACKOFF_MS,
        forall|i: int| 0 <= i < steps.len() ==> (#[trigger] steps[i]).event is ConnectFailed,
        0 <= at < steps.len(),
    ensures
        states[at].phase is Connecting,
        states[at].backoff_ms == backoff_after(at as nat),
        steps[at].action == RouterAction::ConnectAfter(backoff_after(at as nat)),
    decreases at,
{
    assert(states[at].steps(
        steps[at].event,
        steps[at].served,
        states[at + 1],
        steps[at].action,
    ));
    assert(steps[at].event is ConnectFailed);
    if at > 0 {
        law_failures_in_a_row(states, steps, at - 1);
        assert(states[at - 1].steps(
            steps[at - 1].event,
            steps[at - 1].served,
            states[at],
            steps[at - 1].action,
        ));
        assert(steps[at - 1].event is ConnectFailed);
    }
}

/// A connection that opens makes the next wait the shortest again.
pub proof fn law_connection_resets_the_backoff(
    before: RouterView,
    served: Served,
    after: RouterView,
    action: RouterAction,
)
    requires
        before.phase is Connecting,
        before.steps(RouterEvent::Connected, served, after, action),
    ensures
        after.backoff_ms == RECONNECT_INITIAL_BACKOFF_MS,
        after.phase is Listening,
{
}

} // verus!
