//! What a router does on each event, in terms of its sessions, its connection and its counters.

use crate::event::WsMessage;
use crate::metrics::{Metrics, MetricsSnapshot};
use crate::queue::{feeds, queue_limit, Delivery};
use crate::router::{PhaseView, Router, RouterAction, RouterCommand, RouterEvent, RouterView};
use crate::router_laws::{law_steps_keep_sound, runs, StepRecord};
use crate::routing_laws::{
    each_reached_once, lemma_served, lemma_with_session, lemma_without_session, on_with,
    one_answer_each, one_more_entry, others_untouched, positions, there,
};
use crate::routing_table::{lists_channels, Routes, Served};
use tokio::sync::{mpsc, oneshot};
use vstd::prelude::*;

verus! {

/// A new router has the name it was given and no session; it is to connect, and the first wait
/// is 200 milliseconds.
pub proof fn law_new_router(node_id: String, router: Router)
    requires
        call_ensures(Router::new, (node_id,), router),
    ensures
        router@.node_id == node_id@,
        forall|channel: Seq<char>| !#[trigger] router@.routes.contains_key(channel),
        router@.phase is Connecting,
        router@.backoff_ms == 200,
        router@.sound(),
{
    router.law_sound();
}

/// Whatever a router is told, it takes one step, from its state to its next state, and adds to
/// the counters what that step counts.
pub proof fn law_every_call_is_a_step(event: RouterEvent, action: RouterAction)
    ensures
        forall|router: &mut Router, metrics: &mut Metrics| #[trigger]
            call_ensures(Router::step, (router, event, metrics), action) ==> {
                &&& final(router)@.sound()
                &&& exists|served: Served| #[trigger]
                    router@.steps(event, served, final(router)@, action) && final(metrics)@
                        == router@.counted(event, served, metrics@)
            },
{
    assert forall|router: &mut Router, metrics: &mut Metrics| #[trigger]
        call_ensures(Router::step, (router, event, metrics), action) implies (
    final(router)@.sound()) by {
        (*final(router)).law_sound();
    }
}

/// A router never changes the name of its node.
pub proof fn law_node_keeps_its_name(
    before: RouterView,
    event: RouterEvent,
    served: Served,
    after: RouterView,
    action: RouterAction,
)
    requires
        before.steps(event, served, after, action),
    ensures
        after.node_id == before.node_id,
{
}

/// In every state of a run the node has the name that it had at the start.
pub proof fn law_node_keeps_its_name_over_a_run(
    states: Seq<RouterView>,
    steps: Seq<StepRecord>,
    at: int,
)
    requires
        runs(states, steps),
        0 <= at < states.len(),
    ensures
        states[at].node_id == states[0].node_id,
    decreases at,
{
    if at > 0 {
        law_node_keeps_its_name_over_a_run(states, steps, at - 1);
        let step = steps[at - 1];
        assert(states[at - 1].steps(step.event, step.served, states[at], step.action));
        law_node_keeps_its_name(
            states[at - 1],
            step.event,
            step.served,
            states[at],
            step.action,
        );
    }
}

/// A router leaves only when it is told to shut down or when no handle is left: until then,
/// whatever happens, it goes on. Once it has left it stays so.
pub proof fn law_router_leaves_only_when_told(
    before: RouterView,
    event: RouterEvent,
    served: Served,
    after: RouterView,
    action: RouterAction,
)
    requires
        before.steps(event, served, after, action),
    ensures
        action is Stop <==> after.phase is Stopped,
        after.phase is Stopped <==> {
            ||| before.phase is Stopped
            ||| event is ShutdownRequested && (before.phase is Connecting
                || before.phase is Listening)
            ||| event is CommandsClosed && before.phase is Listening
        },
{
}

/// Being told to leave takes out no session and counts nothing.
pub proof fn law_leaving_counts_nothing(
    before: RouterView,
    event: RouterEvent,
    served: Served,
    after: RouterView,
    action: RouterAction,
    counts: MetricsSnapshot,
)
    requires
        event is ShutdownRequested || event is CommandsClosed,
        before.steps(event, served, after, action),
    ensures
        after.routes == before.routes,
        after.backoff_ms == before.backoff_ms,
        before.counted(event, served, counts) == counts,
{
}

/// Over a run without a request to shut down and with a handle left, the router never leaves.
pub proof fn law_router_never_gives_up(states: Seq<RouterView>, steps: Seq<StepRecord>, at: int)
    requires
        runs(states, steps),
        !(states[0].phase is Stopped),
        forall|i: int|
            0 <= i < steps.len() ==> !((#[trigger] steps[i]).event is ShutdownRequested) && !(
            steps[i].event is CommandsClosed),
        0 <= at < states.len(),
    ensures
        !(states[at].phase is Stopped),
        at < steps.len() ==> !(steps[at].action is Stop),
    decreases at,
{
    if at > 0 {
        law_router_never_gives_up(states, steps, at - 1);
        let step = steps[at - 1];
        assert(states[at - 1].steps(step.event, step.served, states[at], step.action));
        law_router_leaves_only_when_told(
            states[at - 1],
            step.event,
            step.served,
            states[at],
            step.action,
        );
    }
    if at < steps.len() {
        let step = steps[at];
        assert(states[at].steps(step.event, step.served, states[at + 1], step.action));
        law_router_leaves_only_when_told(
            states[at],
            step.event,
            step.served,
            states[at + 1],
            step.action,
        );
    }
}

/// A connection that is lost is replaced, whatever sessions there are: after 200 milliseconds a
/// new one is opened. All sessions keep their place, and one reconnect is counted.
pub proof fn law_lost_connection_is_replaced(
    before: RouterView,
    served: Served,
    after: RouterView,
    action: RouterAction,
    counts: MetricsSnapshot,
)
    requires
        before.sound(),
        before.phase is Listening,
        before.steps(RouterEvent::StreamEnded, served, after, action),
    ensures
        action == RouterAction::ConnectAfter(200),
        after.phase is Connecting,
        after.backoff_ms == 400,
        after.routes == before.routes,
        before.counted(RouterEvent::StreamEnded, served, counts) == (MetricsSnapshot {
            redis_reconnects: ((counts.redis_reconnects + 1) % 0x1_0000_0000_0000_0000) as u64,
            ..counts
        }),
{
}

/// An attempt to connect that fails is repeated after the wait that is due; the next wait is
/// twice as long, up to 30 seconds. All sessions keep their place, and nothing is counted.
pub proof fn law_failed_attempt_is_repeated(
    before: RouterView,
    served: Served,
    after: RouterView,
    action: RouterAction,
    counts: MetricsSnapshot,
)
    requires
        before.phase is Connecting,
        before.steps(RouterEvent::ConnectFailed, served, after, action),
    ensures
        action == RouterAction::ConnectAfter(before.backoff_ms),
        after.phase is Connecting,
        after.backoff_ms == if 2 * before.backoff_ms <= 30_000 {
            2 * before.backoff_ms
        } else {
            30_000
        },
        after.routes == before.routes,
        before.counted(RouterEvent::ConnectFailed, served, counts) == counts,
{
}

/// A new connection is subscribed to every channel that has a session, to each once, and to no
/// other. The router then listens, and the next wait is 200 milliseconds again.
pub proof fn law_new_connection_takes_up_every_channel(
    before: RouterView,
    served: Served,
    after: RouterView,
    action: RouterAction,
    counts: MetricsSnapshot,
)
    requires
        before.phase is Connecting,
        before.steps(RouterEvent::Connected, served, after, action),
    ensures
        action is Resubscribe,
        forall|i: int|
            0 <= i < action->Resubscribe_0@.len() ==> before.routes.contains_key(
                (#[trigger] action->Resubscribe_0@[i])@,
            ),
        forall|channel: Seq<char>| #[trigger]
            before.routes.contains_key(channel) ==> exists|i: int|
                0 <= i < action->Resubscribe_0@.len() && (
                #[trigger] action->Resubscribe_0@[i])@ == channel,
        forall|i: int, j: int|
            0 <= i < j < action->Resubscribe_0@.len() ==> (
            #[trigger] action->Resubscribe_0@[i])@ != (#[trigger] action->Resubscribe_0@[j])@,
        after.phase is Listening,
        after.backoff_ms == 200,
        after.routes == before.routes,
        before.counted(RouterEvent::Connected, served, counts) == counts,
{
    assert(lists_channels(action->Resubscribe_0@, before.routes));
}

/// A connection that refuses a channel is given up for a new one at once. All sessions keep
/// their place, the one that waits included, and one reconnect is counted.
pub proof fn law_refused_channel_is_a_reconnect(
    before: RouterView,
    served: Served,
    after: RouterView,
    action: RouterAction,
    counts: MetricsSnapshot,
)
    requires
        before.phase is Subscribing,
        before.steps(RouterEvent::ChannelRefused, served, after, action),
    ensures
        action is Connect,
        after.phase is Connecting,
        after.backoff_ms == before.backoff_ms,
        after.routes == before.routes,
        before.counted(RouterEvent::ChannelRefused, served, counts) == (MetricsSnapshot {
            redis_reconnects: ((counts.redis_reconnects + 1) % 0x1_0000_0000_0000_0000) as u64,
            ..counts
        }),
{
}

/// A channel that the connection accepts is answered to the handle that asked for it.
pub proof fn law_accepted_channel_is_answered(
    before: RouterView,
    served: Served,
    after: RouterView,
    action: RouterAction,
    counts: MetricsSnapshot,
)
    requires
        before.phase is Subscribing,
        before.steps(RouterEvent::ChannelSubscribed, served, after, action),
    ensures
        before.phase matches PhaseView::Subscribing { channel, session, ack } ==> action
            == RouterAction::Acknowledge(ack),
        after.phase is Listening,
        after.backoff_ms == before.backoff_ms,
        after.routes == before.routes,
        before.counted(RouterEvent::ChannelSubscribed, served, counts) == counts,
{
}

/// A command to subscribe puts the session on the channel with its queue and touches nobody
/// else. If the channel has sessions already, the handle is answered; otherwise the connection
/// is asked for the channel, and the answer waits for that.
pub proof fn law_subscribing_touches_nobody_else(
    before: RouterView,
    channel: String,
    session_id: String,
    sender: mpsc::Sender<WsMessage>,
    ack: oneshot::Sender<()>,
    served: Served,
    after: RouterView,
    action: RouterAction,
    counts: MetricsSnapshot,
)
    requires
        before.phase is Listening,
        before.steps(
            RouterEvent::Command(RouterCommand::Subscribe { channel, session_id, sender, ack }),
            served,
            after,
            action,
        ),
    ensures
        on_with(after.routes, channel@, session_id@, sender),
        others_untouched(before.routes, after.routes, channel@, session_id@),
        before.routes.contains_key(channel@) ==> {
            &&& action == RouterAction::Acknowledge(ack)
            &&& after.phase is Listening
        },
        !before.routes.contains_key(channel@) ==> {
            &&& action matches RouterAction::SubscribeChannel(name) && name@ == channel@
            &&& after.phase == (PhaseView::Subscribing {
                channel: channel@,
                session: session_id@,
                ack,
            })
        },
        after.backoff_ms == before.backoff_ms,
        before.counted(
            RouterEvent::Command(RouterCommand::Subscribe { channel, session_id, sender, ack }),
            served,
            counts,
        ) == counts,
{
    lemma_with_session(before.routes, channel@, session_id@, sender);
}

/// A command to unsubscribe takes the session off the channel and touches nobody else. The
/// connection is released from the channel just when it was in use and no other session was on
/// it.
pub proof fn law_unsubscribing_touches_nobody_else(
    before: RouterView,
    channel: String,
    session_id: String,
    served: Served,
    after: RouterView,
    action: RouterAction,
    counts: MetricsSnapshot,
)
    requires
        before.phase is Listening,
        before.steps(
            RouterEvent::Command(RouterCommand::Unsubscribe { channel, session_id }),
            served,
            after,
            action,
        ),
    ensures
        !there(after.routes, channel@, session_id@),
        others_untouched(before.routes, after.routes, channel@, session_id@),
        action is UnsubscribeChannel || action is Listen,
        action matches RouterAction::UnsubscribeChannel(name) ==> name@ == channel@,
        action is UnsubscribeChannel <==> before.routes.contains_key(channel@) && !(exists|
            other: Seq<char>,
        |
            other != session_id@ && #[trigger] before.routes[channel@].contains_key(other)),
        action is UnsubscribeChannel <==> before.routes.contains_key(channel@)
            && !after.routes.contains_key(channel@),
        after.phase is Listening,
        after.backoff_ms == before.backoff_ms,
        before.counted(
            RouterEvent::Command(RouterCommand::Unsubscribe { channel, session_id }),
            served,
            counts,
        ) == counts,
{
    lemma_without_session(before.routes, channel@, session_id@);
}

/// A message that names no node, or this one, is put to every session on its channel one time,
/// and to nobody else. As many as took it count as routed, and as many as were full as dropped.
pub proof fn law_message_for_this_node_reaches_its_sessions(
    before: RouterView,
    channel: String,
    message: WsMessage,
    served: Served,
    after: RouterView,
    action: RouterAction,
    counts: MetricsSnapshot,
)
    requires
        before.phase is Listening,
        message.node_id is None || message.node_id->0@ == before.node_id,
        before.steps(
            RouterEvent::Message { channel, message: Some(message) },
            served,
            after,
            action,
        ),
    ensures
        one_answer_each(before.routes, channel@, served.sessions, served.answers),
        each_reached_once(
            before.routes,
            after.routes,
            channel@,
            message,
            served.sessions,
            served.answers,
        ),
        before.counted(
            RouterEvent::Message { channel, message: Some(message) },
            served,
            counts,
        ) == (MetricsSnapshot {
            messages_routed: ((counts.messages_routed + positions(
                served.answers,
                Delivery::Delivered,
            ).len()) % 0x1_0000_0000_0000_0000) as u64,
            messages_dropped: ((counts.messages_dropped + positions(
                served.answers,
                Delivery::Dropped,
            ).len()) % 0x1_0000_0000_0000_0000) as u64,
            ..counts
        }),
        action is Listen,
        after.phase is Listening,
        after.backoff_ms == before.backoff_ms,
{
    lemma_served(before.routes, channel@, message, served);
}

/// A message that names another node, or that cannot be read, changes nothing and counts
/// nothing; the router goes on listening.
pub proof fn law_message_not_for_this_node_changes_nothing(
    before: RouterView,
    channel: String,
    message: Option<WsMessage>,
    served: Served,
    after: RouterView,
    action: RouterAction,
    counts: MetricsSnapshot,
)
    requires
        before.phase is Listening,
        message is None || (message->0.node_id is Some && message->0.node_id->0@
            != before.node_id),
        before.steps(RouterEvent::Message { channel, message }, served, after, action),
    ensures
        after == before,
        action is Listen,
        served.sessions.len() == 0,
        before.counted(RouterEvent::Message { channel, message }, served, counts) == counts,
{
}

/// An event that comes when the router does not wait for it changes nothing and counts nothing,
/// and the router asks again for what it waits for.
pub proof fn law_event_out_of_turn_changes_nothing(
    before: RouterView,
    event: RouterEvent,
    served: Served,
    after: RouterView,
    action: RouterAction,
    counts: MetricsSnapshot,
)
    requires
        before.steps(event, served, after, action),
        match before.phase {
            PhaseView::Connecting => !(event is ConnectFailed) && !(event is Connected) && !(
            event is ShutdownRequested),
            PhaseView::Listening => event is ConnectFailed || event is Connected
                || event is ChannelSubscribed || event is ChannelRefused,
            PhaseView::Subscribing { .. } => !(event is ChannelSubscribed) && !(
            event is ChannelRefused),
            PhaseView::Stopped => true,
        },
    ensures
        after == before,
        before.counted(event, served, counts) == counts,
        match before.phase {
            PhaseView::Connecting => action is Connect,
            PhaseView::Listening => action is Listen,
            PhaseView::Subscribing { channel, .. } => action matches
                RouterAction::SubscribeChannel(name) && name@ == channel,
            PhaseView::Stopped => action is Stop,
        },
{
}

/// A router counts messages and reconnects, and neither sessions nor heartbeats.
pub proof fn law_router_counts_no_sessions(
    before: RouterView,
    event: RouterEvent,
    served: Served,
    counts: MetricsSnapshot,
)
    ensures
        before.counted(event, served, counts).sessions_active == counts.sessions_active,
        before.counted(event, served, counts).heartbeat_evictions == counts.heartbeat_evictions,
{
}

/// Whether the step makes `session` leave `channel`: it unsubscribes from it, or its queue
/// there answers to a message that it is closed.
pub open spec fn makes_leave(step: StepRecord, channel: Seq<char>, session: Seq<char>) -> bool {
    match step.event {
        RouterEvent::Command(
            RouterCommand::Unsubscribe { channel: name, session_id },
        ) => name@ == channel && session_id@ == session,
        RouterEvent::Message { channel: name, .. } => name@ == channel && exists|i: int|
            0 <= i < step.served.sessions.len() && #[trigger] step.served.sessions[i] == session
                && step.served.answers[i] == Delivery::Closed,
        _ => false,
    }
}

/// Whether the step subscribes `session` to `channel`.
pub open spec fn makes_join(step: StepRecord, channel: Seq<char>, session: Seq<char>) -> bool {
    match step.event {
        RouterEvent::Command(
            RouterCommand::Subscribe { channel: name, session_id, .. },
        ) => name@ == channel && session_id@ == session,
        _ => false,
    }
}

/// A step leaves a session on its channel, with its queue, unless the step is about that
/// session; and only a step that subscribes it puts it there.
pub proof fn law_step_leaves_others_alone(
    before: RouterView,
    step: StepRecord,
    after: RouterView,
    channel: Seq<char>,
    session: Seq<char>,
)
    requires
        before.steps(step.event, step.served, after, step.action),
    ensures
        there(before.routes, channel, session) && !makes_leave(step, channel, session) ==> there(
            after.routes,
            channel,
            session,
        ),
        there(before.routes, channel, session) && there(after.routes, channel, session)
            && !makes_join(step, channel, session) ==> {
            &&& queue_limit(after.routes[channel][session]) == queue_limit(
                before.routes[channel][session],
            )
            &&& forall|receiver: mpsc::Receiver<WsMessage>|
                feeds(before.routes[channel][session], receiver) ==> #[trigger] feeds(
                    after.routes[channel][session],
                    receiver,
                )
        },
        !there(before.routes, channel, session) && !makes_join(step, channel, session) ==> !there(
            after.routes,
            channel,
            session,
        ),
{
    let zero = MetricsSnapshot::zero();
    if before.phase is Listening {
        match step.event {
            RouterEvent::Command(
                RouterCommand::Subscribe { channel: name, session_id, sender, ack },
            ) => {
                law_subscribing_touches_nobody_else(
                    before,
                    name,
                    session_id,
                    sender,
                    ack,
                    step.served,
                    after,
                    step.action,
                    zero,
                );
                if !(name@ == channel && session_id@ == session) {
                    lemma_untouched(
                        before.routes,
                        after.routes,
                        name@,
                        session_id@,
                        channel,
                        session,
                    );
                }
            },
            RouterEvent::Command(RouterCommand::Unsubscribe { channel: name, session_id }) => {
                law_unsubscribing_touches_nobody_else(
                    before,
                    name,
                    session_id,
                    step.served,
                    after,
                    step.action,
                    zero,
                );
                if !(name@ == channel && session_id@ == session) {
                    lemma_untouched(
                        before.routes,
                        after.routes,
                        name@,
                        session_id@,
                        channel,
                        session,
                    );
                }
            },
            RouterEvent::Message { channel: name, message } => {
                if message is Some && (message->0.node_id is None || message->0.node_id->0@
                    == before.node_id) {
                    law_message_for_this_node_reaches_its_sessions(
                        before,
                        name,
                        message->0,
                        step.served,
                        after,
                        step.action,
                        zero,
                    );
                    if name@ == channel {
                        if there(before.routes, channel, session) {
                            let sessions = step.served.sessions;
                            assert(sessions.contains(session));
                            let i = choose|i: int|
                                0 <= i < sessions.len() && sessions[i] == session;
                            assert(sessions[i] == session);
                        }
                        if there(after.routes, channel, session) {
                            assert(after.routes[channel].contains_key(session));
                        }
                    } else {
                        assert(after.routes.contains_key(channel) == before.routes.contains_key(
                            channel,
                        ));
                        assert(before.routes.contains_key(channel) ==> after.routes[channel]
                            == before.routes[channel]);
                    }
                } else {
                    law_message_not_for_this_node_changes_nothing(
                        before,
                        name,
                        message,
                        step.served,
                        after,
                        step.action,
                        zero,
                    );
                }
            },
            _ => {},
        }
    }
}

proof fn lemma_untouched(
    before: Routes,
    after: Routes,
    channel: Seq<char>,
    session: Seq<char>,
    c: Seq<char>,
    s: Seq<char>,
)
    requires
        others_untouched(before, after, channel, session),
        !(c == channel && s == session),
    ensures
        there(after, c, s) == there(before, c, s),
        there(before, c, s) ==> after[c][s] == before[c][s],
{
    if there(before, c, s) {
        assert(before[c].contains_key(s));
    }
    if there(after, c, s) {
        assert(after[c].contains_key(s));
    }
}

/// A session that is on a channel stays there, with its queue, through whatever happens, the
/// coming and going of other sessions and of connections included, until it unsubscribes or its
/// own queue is found closed.
pub proof fn law_session_stays_until_it_leaves(
    states: Seq<RouterView>,
    steps: Seq<StepRecord>,
    channel: Seq<char>,
    session: Seq<char>,
    at: int,
)
    requires
        runs(states, steps),
        there(states[0].routes, channel, session),
        forall|i: int|
            0 <= i < steps.len() ==> !makes_leave(#[trigger] steps[i], channel, session),
        0 <= at < states.len(),
    ensures
        there(states[at].routes, channel, session),
        (forall|i: int| 0 <= i < at ==> !makes_join(#[trigger] steps[i], channel, session)) ==> {
            forall|receiver: mpsc::Receiver<WsMessage>|
                feeds(states[0].routes[channel][session], receiver) ==> #[trigger] feeds(
                    states[at].routes[channel][session],
                    receiver,
                )
        },
    decreases at,
{
    if at > 0 {
        law_session_stays_until_it_leaves(states, steps, channel, session, at - 1);
        let step = steps[at - 1];
        assert(states[at - 1].steps(step.event, step.served, states[at], step.action));
        assert(!makes_leave(steps[at - 1], channel, session));
        law_step_leaves_others_alone(states[at - 1], step, states[at], channel, session);
        if forall|i: int| 0 <= i < at ==> !makes_join(#[trigger] steps[i], channel, session) {
            assert(!makes_join(steps[at - 1], channel, session));
        }
    }
}

/// Nobody is on a channel who did not subscribe to it.
pub proof fn law_only_subscribed_sessions_are_there(
    states: Seq<RouterView>,
    steps: Seq<StepRecord>,
    channel: Seq<char>,
    session: Seq<char>,
    at: int,
)
    requires
        runs(states, steps),
        !there(states[0].routes, channel, session),
        0 <= at < states.len(),
        there(states[at].routes, channel, session),
    ensures
        exists|i: int| 0 <= i < at && makes_join(#[trigger] steps[i], channel, session),
    decreases at,
{
    if at > 0 {
        let step = steps[at - 1];
        assert(states[at - 1].steps(step.event, step.served, states[at], step.action));
        law_step_leaves_others_alone(states[at - 1], step, states[at], channel, session);
        if there(states[at - 1].routes, channel, session) {
            law_only_subscribed_sessions_are_there(states, steps, channel, session, at - 1);
        } else {
            assert(makes_join(steps[at - 1], channel, session));
        }
    }
}

/// Whenever a router listens, however often its connection was lost before, a message that
/// names its node, by the name it was started with, or that names none is put one time to the
/// queue of every session on its channel.
pub proof fn law_message_is_delivered_after_any_history(
    node_id: Seq<char>,
    states: Seq<RouterView>,
    steps: Seq<StepRecord>,
    channel: String,
    message: WsMessage,
    session: Seq<char>,
    at: int,
)
    requires
        runs(states, steps),
        states[0].node_id == node_id,
        0 <= at < steps.len(),
        states[at].phase is Listening,
        steps[at].event == (RouterEvent::Message { channel, message: Some(message) }),
        message.node_id is None || message.node_id->0@ == node_id,
        there(states[at].routes, channel@, session),
    ensures
        exists|i: int|
            {
                &&& 0 <= i < steps[at].served.answers.len()
                &&& #[trigger] steps[at].served.sessions[i] == session
                &&& steps[at].served.answers[i] == Delivery::Closed ==> !there(
                    states[at + 1].routes,
                    channel@,
                    session,
                )
                &&& steps[at].served.answers[i] != Delivery::Closed ==> {
                    &&& there(states[at + 1].routes, channel@, session)
                    &&& one_more_entry(
                        states[at].routes[channel@][session],
                        message,
                        steps[at].served.answers[i],
                        states[at + 1].routes[channel@][session],
                    )
                }
            },
{
    let step = steps[at];
    law_node_keeps_its_name_over_a_run(states, steps, at);
    assert(states[at].steps(step.event, step.served, states[at + 1], step.action));
    law_message_for_this_node_reaches_its_sessions(
        states[at],
        channel,
        message,
        step.served,
        states[at + 1],
        step.action,
        MetricsSnapshot::zero(),
    );
    let sessions = step.served.sessions;
    assert(states[at].routes[channel@].contains_key(session));
    assert(sessions.contains(session));
    let i = choose|i: int| 0 <= i < sessions.len() && sessions[i] == session;
    assert(steps[at].served.sessions[i] == session);
}

/// After a lost connection the router is on its way back: it waits 200 milliseconds, then twice
/// as long after each attempt that fails, up to 30 seconds, and with the first attempt that
/// succeeds it subscribes to every channel in use.
pub proof fn law_lost_connection_comes_back(
    states: Seq<RouterView>,
    steps: Seq<StepRecord>,
    channel: Seq<char>,
)
    requires
        runs(states, steps),
        steps.len() >= 2,
        states[0].sound(),
        states[0].phase is Listening,
        states[0].routes.contains_key(channel),
        steps[0].event is StreamEnded,
        forall|i: int|
            0 < i < steps.len() - 1 ==> (#[trigger] steps[i]).event is ConnectFailed,
        steps.last().event is Connected,
    ensures
        steps[0].action == RouterAction::ConnectAfter(200),
        forall|i: int|
            0 < i < steps.len() - 1 ==> (#[trigger] steps[i]).action is ConnectAfter
                && steps[i].action->ConnectAfter_0 <= 30_000,
        steps.last().action is Resubscribe,
        exists|i: int|
            0 <= i < steps.last().action->Resubscribe_0@.len() && (
            #[trigger] steps.last().action->Resubscribe_0@[i])@ == channel,
        states.last().phase is Listening,
        states.last().routes == states[0].routes,
{
    let n = steps.len() - 1;
    let zero = MetricsSnapshot::zero();
    assert(states[0].steps(steps[0].event, steps[0].served, states[1], steps[0].action));
    assert(steps[0].event == RouterEvent::StreamEnded);
    law_lost_connection_is_replaced(
        states[0],
        steps[0].served,
        states[1],
        steps[0].action,
        zero,
    );
    law_steps_keep_sound(
        states[0],
        steps[0].event,
        steps[0].served,
        states[1],
        steps[0].action,
    );
    lemma_attempts_go_on(states, steps, n);
    assert forall|i: int| 0 < i < n implies (#[trigger] steps[i]).action is ConnectAfter
        && steps[i].action->ConnectAfter_0 <= 30_000 by {
        lemma_attempts_go_on(states, steps, i);
        assert(states[i].steps(
            steps[i].event,
            steps[i].served,
            states[i + 1],
            steps[i].action,
        ));
        assert(steps[i].event == RouterEvent::ConnectFailed);
        law_failed_attempt_is_repeated(
            states[i],
            steps[i].served,
            states[i + 1],
            steps[i].action,
            zero,
        );
    }
    let last = steps[n];
    assert(states[n].steps(last.event, last.served, states[n + 1], last.action));
    assert(last.event == RouterEvent::Connected);
    law_new_connection_takes_up_every_channel(
        states[n],
        last.served,
        states[n + 1],
        last.action,
        zero,
    );
    assert(states[n].routes.contains_key(channel));
}

proof fn lemma_attempts_go_on(states: Seq<RouterView>, steps: Seq<StepRecord>, at: int)
    requires
        runs(states, steps),
        1 <= at < steps.len(),
        states[1].phase is Connecting,
        states[1].sound(),
        states[1].routes == states[0].routes,
        forall|i: int|
            0 < i < steps.len() - 1 ==> (#[trigger] steps[i]).event is ConnectFailed,
    ensures
        states[at].phase is Connecting,
        states[at].sound(),
        states[at].routes == states[0].routes,
    decreases at,
{
    if at > 1 {
        lemma_attempts_go_on(states, steps, at - 1);
        let step = steps[at - 1];
        assert(states[at - 1].steps(step.event, step.served, states[at], step.action));
        assert(step.event == RouterEvent::ConnectFailed);
        law_failed_attempt_is_repeated(
            states[at - 1],
            step.served,
            states[at],
            step.action,
            MetricsSnapshot::zero(),
        );
        law_steps_keep_sound(
            states[at - 1],
            step.event,
            step.served,
            states[at],
            step.action,
        );
    }
}

} // verus!
