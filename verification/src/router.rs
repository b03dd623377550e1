//! What the router does next.
//!
//! One router per node owns the shared publish/subscribe connection. It is told what happened,
//! one event at a time, and says what to do.

use crate::event::WsMessage;
use crate::metrics::Metrics;
#[allow(unused_imports)]
use crate::metrics::MetricsSnapshot;
#[allow(unused_imports)]
use crate::queue::Delivery;
#[allow(unused_imports)]
use crate::routing_table::{
    after_serving, is_last_session, is_on, lists_channels, no_idle_channel, serves, tally,
    with_session, without_session, Routes, Served,
};
use crate::routing_table::RoutingTable;
use tokio::sync::{mpsc, oneshot};
use vstd::prelude::*;

verus! {

/// How long to wait, in milliseconds, before the first attempt to connect again.
pub const RECONNECT_INITIAL_BACKOFF_MS: u64 = 200;

/// The longest wait, in milliseconds, between two attempts to connect.
pub const RECONNECT_MAX_BACKOFF_MS: u64 = 30_000;

/// What a handle asks of the router.
pub enum RouterCommand {
    /// Put the session on the channel and answer `ack` once that is done.
    Subscribe {
        channel: String,
        session_id: String,
        sender: mpsc::Sender<WsMessage>,
        ack: oneshot::Sender<()>,
    },
    /// Take the session off the channel.
    Unsubscribe { channel: String, session_id: String },
}

/// What can happen to the router.
pub enum RouterEvent {
    /// No connection could be opened.
    ConnectFailed,
    /// A fresh connection is open; it is subscribed to nothing yet.
    Connected,
    /// The node is shutting down.
    ShutdownRequested,
    /// No handle is left that could send a command.
    CommandsClosed,
    /// A handle sent a command.
    Command(RouterCommand),
    /// The connection accepted the channel that was last asked for.
    ChannelSubscribed,
    /// The connection did not accept the channel that was last asked for.
    ChannelRefused,
    /// The connection delivers no more messages.
    StreamEnded,
    /// A message arrived on a channel; `None` if it could not be read.
    Message { channel: String, message: Option<WsMessage> },
}

/// What the router wants done.
pub enum RouterAction {
    /// Give up the connection, if any, and open a new one.
    Connect,
    /// Give up the connection, if any; wait this many milliseconds; open a new one.
    ConnectAfter(u64),
    /// Subscribe the fresh connection to each of these channels, then wait for an event.
    Resubscribe(Vec<String>),
    /// Wait for an event.
    Listen,
    /// Subscribe the connection to the channel and report how that went.
    SubscribeChannel(String),
    /// Unsubscribe the connection from the channel, then wait for an event.
    UnsubscribeChannel(String),
    /// Answer the handle that asked for a subscription, then wait for an event.
    Acknowledge(oneshot::Sender<()>),
    /// Leave.
    Stop,
}

/// Where the router stands.
enum Phase {
    Connecting,
    Listening,
    Subscribing { channel: String, session_id: String, ack: oneshot::Sender<()> },
    Stopped,
}

/// Where the router stands.
pub enum PhaseView {
    /// It waits for a connection.
    Connecting,
    /// It waits for a command or a message.
    Listening,
    /// It waits for the connection to accept the channel that the session is the first on.
    Subscribing { channel: Seq<char>, session: Seq<char>, ack: oneshot::Sender<()> },
    /// It is done.
    Stopped,
}

/// The state of a router.
pub struct RouterView {
    pub node_id: Seq<char>,
    pub routes: Routes,
    pub backoff_ms: u64,
    pub phase: PhaseView,
}

/// The wait that follows a wait of `backoff_ms`: twice as long, up to the longest.
pub open spec fn next_backoff(backoff_ms: u64) -> u64 {
    if 2 * backoff_ms <= RECONNECT_MAX_BACKOFF_MS {
        (2 * backoff_ms) as u64
    } else {
        RECONNECT_MAX_BACKOFF_MS
    }
}

impl RouterView {
    /// A router at its start: no session, no connection.
    pub open spec fn initial(node_id: Seq<char>) -> Self {
        RouterView {
            node_id,
            routes: Map::empty(),
            backoff_ms: RECONNECT_INITIAL_BACKOFF_MS,
            phase: PhaseView::Connecting,
        }
    }

    /// What every state of a router satisfies: no channel without a session; a wait between
    /// the shortest and the longest, which is the shortest while there is a connection; and a
    /// session that waits for its channel is registered.
    pub open spec fn sound(self) -> bool {
        &&& no_idle_channel(self.routes)
        &&& RECONNECT_INITIAL_BACKOFF_MS <= self.backoff_ms <= RECONNECT_MAX_BACKOFF_MS
        &&& self.phase is Listening || self.phase is Subscribing ==> self.backoff_ms
            == RECONNECT_INITIAL_BACKOFF_MS
        &&& self.phase matches PhaseView::Subscribing { channel, session, ack } ==> is_on(
            self.routes,
            channel,
            session,
        )
    }

    /// Whether the event is one that the router waits for where it stands. An event that
    /// comes at another time changes nothing.
    pub open spec fn expects(self, event: RouterEvent) -> bool {
        match event {
            RouterEvent::ConnectFailed | RouterEvent::Connected => self.phase is Connecting,
            RouterEvent::ShutdownRequested => self.phase is Connecting || self.phase is Listening,
            RouterEvent::ChannelSubscribed
            | RouterEvent::ChannelRefused => self.phase is Subscribing,
            RouterEvent::CommandsClosed
            | RouterEvent::Command(_)
            | RouterEvent::StreamEnded
            | RouterEvent::Message { .. } => self.phase is Listening,
        }
    }

    /// Whether the event is a message that this node delivers.
    pub open spec fn delivers(self, event: RouterEvent) -> bool {
        &&& self.expects(event)
        &&& event matches RouterEvent::Message { channel, message: Some(message) }
            && message.is_for(self.node_id)
    }

    /// Whether `served` tells what the event puts to the queues of the sessions: a message that
    /// this node delivers goes to every session on its channel, once; otherwise nothing goes to
    /// anybody.
    pub open spec fn serves(self, event: RouterEvent, served: Served) -> bool {
        if self.delivers(event) {
            serves(self.routes, event->channel@, event->message->0, served)
        } else {
            served == Served::nobody()
        }
    }

    /// The state after the event.
    pub open spec fn next(self, event: RouterEvent, served: Served) -> Self {
        if !self.expects(event) {
            self
        } else {
            match event {
                RouterEvent::ConnectFailed => RouterView {
                    backoff_ms: next_backoff(self.backoff_ms),
                    ..self
                },
                RouterEvent::Connected => RouterView {
                    backoff_ms: RECONNECT_INITIAL_BACKOFF_MS,
                    phase: PhaseView::Listening,
                    ..self
                },
                RouterEvent::ShutdownRequested | RouterEvent::CommandsClosed => RouterView {
                    phase: PhaseView::Stopped,
                    ..self
                },
                RouterEvent::Command(
                    RouterCommand::Subscribe { channel, session_id, sender, ack },
                ) => RouterView {
                    routes: with_session(self.routes, channel@, session_id@, sender),
                    phase: if self.routes.contains_key(channel@) {
                        PhaseView::Listening
                    } else {
                        PhaseView::Subscribing { channel: channel@, session: session_id@, ack }
                    },
                    ..self
                },
                RouterEvent::Command(
                    RouterCommand::Unsubscribe { channel, session_id },
                ) => RouterView {
                    routes: without_session(self.routes, channel@, session_id@),
                    ..self
                },
                RouterEvent::ChannelSubscribed => RouterView {
                    phase: PhaseView::Listening,
                    ..self
                },
                RouterEvent::ChannelRefused => RouterView {
                    phase: PhaseView::Connecting,
                    ..self
                },
                RouterEvent::StreamEnded => RouterView {
                    backoff_ms: next_backoff(self.backoff_ms),
                    phase: PhaseView::Connecting,
                    ..self
                },
                RouterEvent::Message { channel, message } => if self.delivers(event) {
                    RouterView {
                        routes: after_serving(self.routes, channel@, served),
                        ..self
                    }
                } else {
                    self
                },
            }
        }
    }

    /// What the event adds to the counters: a connection given up counts as a reconnect, and
    /// a message that this node delivers counts by the answers it got.
    pub open spec fn counted(
        self,
        event: RouterEvent,
        served: Served,
        counts: MetricsSnapshot,
    ) -> MetricsSnapshot {
        if self.expects(event) && (event is ChannelRefused || event is StreamEnded) {
            counts.after_reconnect()
        } else if self.delivers(event) {
            counts.after_routed(
                tally(served.answers, Delivery::Delivered),
                tally(served.answers, Delivery::Dropped),
            )
        } else {
            counts
        }
    }

    /// Whether `action` is what the event calls for.
    pub open spec fn calls_for(self, event: RouterEvent, action: RouterAction) -> bool {
        if !self.expects(event) {
            match self.phase {
                PhaseView::Connecting => action is Connect,
                PhaseView::Listening => action is Listen,
                PhaseView::Subscribing { channel, session, ack } => action matches
                    RouterAction::SubscribeChannel(name) && name@ == channel,
                PhaseView::Stopped => action is Stop,
            }
        } else {
            match event {
                RouterEvent::ConnectFailed | RouterEvent::StreamEnded => action
                    == RouterAction::ConnectAfter(self.backoff_ms),
                RouterEvent::Connected => action matches RouterAction::Resubscribe(channels)
                    && lists_channels(channels@, self.routes),
                RouterEvent::ShutdownRequested | RouterEvent::CommandsClosed => action is Stop,
                RouterEvent::Command(
                    RouterCommand::Subscribe { channel, session_id, sender, ack },
                ) => if self.routes.contains_key(channel@) {
                    action == RouterAction::Acknowledge(ack)
                } else {
                    action matches RouterAction::SubscribeChannel(name) && name@ == channel@
                },
                RouterEvent::Command(
                    RouterCommand::Unsubscribe { channel, session_id },
                ) => if is_last_session(self.routes, channel@, session_id@) {
                    action matches RouterAction::UnsubscribeChannel(name) && name@ == channel@
                } else {
                    action is Listen
                },
                RouterEvent::ChannelSubscribed => action == RouterAction::Acknowledge(
                    self.phase->ack,
                ),
                RouterEvent::ChannelRefused => action is Connect,
                RouterEvent::Message { .. } => action is Listen,
            }
        }
    }

    /// One step: from this state, on `event`, with the answers in `served`, to `after`, with
    /// `action` to be done.
    pub open spec fn steps(
        self,
        event: RouterEvent,
        served: Served,
        after: RouterView,
        action: RouterAction,
    ) -> bool {
        &&& self.serves(event, served)
        &&& after == self.next(event, served)
        &&& self.calls_for(event, action)
    }
}

/// The router of a node.
pub struct Router {
    node_id: String,
    table: RoutingTable,
    backoff_ms: u64,
    phase: Phase,
}

impl Phase {
    spec fn as_view(self) -> PhaseView {
        match self {
            Phase::Connecting => PhaseView::Connecting,
            Phase::Listening => PhaseView::Listening,
            Phase::Subscribing { channel, session_id, ack } => PhaseView::Subscribing {
                channel: channel@,
                session: session_id@,
                ack,
            },
            Phase::Stopped => PhaseView::Stopped,
        }
    }
}

impl View for Router {
    type V = RouterView;

    closed spec fn view(&self) -> RouterView {
        RouterView {
            node_id: self.node_id@,
            routes: self.table@,
            backoff_ms: self.backoff_ms,
            phase: self.phase.as_view(),
        }
    }
}

impl Router {
    /// The table is in order and the state is sound.
    pub closed spec fn wf(self) -> bool {
        &&& self.table.wf()
        &&& self@.sound()
    }

    /// Every state that a router can be in is sound.
    pub proof fn law_sound(self)
        requires
            self.wf(),
        ensures
            self@.sound(),
    {
    }

    /// The router of the node called `node_id`. The first thing to do is to connect.
    pub fn new(node_id: String) -> (router: Self)
        ensures
            router.wf(),
            router@ == RouterView::initial(node_id@),
    {
        Router {
            node_id,
            table: RoutingTable::new(),
            backoff_ms: RECONNECT_INITIAL_BACKOFF_MS,
            phase: Phase::Connecting,
        }
    }

    /// Takes in an event, counts what is to be counted, and says what to do.
    pub fn step(&mut self, event: RouterEvent, metrics: &mut Metrics) -> (action: RouterAction)
        requires
            old(self).wf(),
        ensures
            final(self).wf(),
            exists|served: Served| #[trigger]
                old(self)@.steps(event, served, final(self)@, action) && final(metrics)@
                    == old(self)@.counted(event, served, old(metrics)@),
    {
        let ghost none = Served::nobody();
        let ghost before = self@;
        let ghost told = event;
        match event {
            RouterEvent::Message { channel, message } => {
                let action = self.standing();
                if let Phase::Listening = self.phase {
                    if let Some(message) = message {
                        if message.targets(&self.node_id) {
                            self.deliver(channel, message, metrics);
                            proof {
                                let served = choose|served: Served| #[trigger]
                                    before.serves(told, served) && self@ == before.next(
                                        told,
                                        served,
                                    ) && metrics@ == before.counted(told, served, old(metrics)@);
                                assert(before.steps(told, served, self@, action));
                            }
                            return action;
                        }
                    }
                }
                assert(before.steps(told, none, self@, action));
                action
            },
            RouterEvent::Command(command) => {
                let action = if let Phase::Listening = self.phase {
                    self.obey(command)
                } else {
                    self.standing()
                };
                assert(before.steps(told, none, self@, action));
                action
            },
            RouterEvent::ConnectFailed => {
                let action = if let Phase::Connecting = self.phase {
                    RouterAction::ConnectAfter(self.backoff())
                } else {
                    self.standing()
                };
                assert(before.steps(told, none, self@, action));
                action
            },
            RouterEvent::Connected => {
                let action = if let Phase::Connecting = self.phase {
                    self.backoff_ms = RECONNECT_INITIAL_BACKOFF_MS;
                    self.phase = Phase::Listening;
                    RouterAction::Resubscribe(self.table.channels())
                } else {
                    self.standing()
                };
                assert(before.steps(told, none, self@, action));
                action
            },
            RouterEvent::ChannelSubscribed => {
                let mut phase = Phase::Listening;
                core::mem::swap(&mut phase, &mut self.phase);
                let action = match phase {
                    Phase::Subscribing { channel: _, session_id: _, ack } => {
                        RouterAction::Acknowledge(ack)
                    },
                    other => {
                        self.phase = other;
                        self.standing()
                    },
                };
                assert(before.steps(told, none, self@, action));
                action
            },
            RouterEvent::ChannelRefused => {
                if let Phase::Subscribing { .. } = self.phase {
                    self.phase = Phase::Connecting;
                    metrics.record_reconnect();
                }
                let action = self.standing();
                assert(before.steps(told, none, self@, action));
                action
            },
            RouterEvent::StreamEnded => {
                let action = if let Phase::Listening = self.phase {
                    self.phase = Phase::Connecting;
                    metrics.record_reconnect();
                    RouterAction::ConnectAfter(self.backoff())
                } else {
                    self.standing()
                };
                assert(before.steps(told, none, self@, action));
                action
            },
            RouterEvent::ShutdownRequested => {
                match self.phase {
                    Phase::Connecting | Phase::Listening => {
                        self.phase = Phase::Stopped;
                    },
                    _ => {},
                }
                let action = self.standing();
                assert(before.steps(told, none, self@, action));
                action
            },
            RouterEvent::CommandsClosed => {
                if let Phase::Listening = self.phase {
                    self.phase = Phase::Stopped;
                }
                let action = self.standing();
                assert(before.steps(told, none, self@, action));
                action
            },
        }
    }

    /// What the router waits for where it stands.
    fn standing(&self) -> (action: RouterAction)
        ensures
            match self@.phase {
                PhaseView::Connecting => action is Connect,
                PhaseView::Listening => action is Listen,
                PhaseView::Subscribing { channel, session, ack } => action matches
                    RouterAction::SubscribeChannel(name) && name@ == channel,
                PhaseView::Stopped => action is Stop,
            },
    {
        match &self.phase {
            Phase::Connecting => RouterAction::Connect,
            Phase::Listening => RouterAction::Listen,
            Phase::Subscribing { channel, session_id: _, ack: _ } => {
                RouterAction::SubscribeChannel(channel.clone())
            },
            Phase::Stopped => RouterAction::Stop,
        }
    }

    /// Carries out a command.
    fn obey(&mut self, command: RouterCommand) -> (action: RouterAction)
        requires
            old(self).wf(),
            old(self)@.phase is Listening,
        ensures
            final(self).wf(),
            forall|served: Served|
                final(self)@ == #[trigger] old(self)@.next(RouterEvent::Command(command), served),
            old(self)@.calls_for(RouterEvent::Command(command), action),
    {
        match command {
            RouterCommand::Subscribe { channel, session_id, sender, ack } => {
                let is_new = self.table.subscribe(
                    channel.as_str(),
                    session_id.as_str(),
                    sender,
                );
                proof {
                    self.table.law_no_idle_channel();
                }
                if is_new {
                    let name = channel.clone();
                    self.phase = Phase::Subscribing { channel, session_id, ack };
                    RouterAction::SubscribeChannel(name)
                } else {
                    RouterAction::Acknowledge(ack)
                }
            },
            RouterCommand::Unsubscribe { channel, session_id } => {
                let was_last = self.table.unsubscribe(channel.as_str(), session_id.as_str());
                proof {
                    self.table.law_no_idle_channel();
                }
                if was_last {
                    RouterAction::UnsubscribeChannel(channel)
                } else {
                    RouterAction::Listen
                }
            },
        }
    }

    /// Delivers a message to the sessions on its channel and counts the outcome.
    fn deliver(&mut self, channel: String, message: WsMessage, metrics: &mut Metrics)
        requires
            old(self).wf(),
            old(self)@.phase is Listening,
            message.is_for(old(self)@.node_id),
        ensures
            final(self).wf(),
            ({
                let event = RouterEvent::Message { channel, message: Some(message) };
                exists|served: Served| #[trigger]
                    old(self)@.serves(event, served) && final(self)@ == old(self)@.next(
                        event,
                        served,
                    ) && final(metrics)@ == old(self)@.counted(event, served, old(metrics)@)
            }),
    {
        let ghost routes = self.table@;
        let counts = self.table.route(channel.as_str(), message);
        metrics.record_routed(counts.0 as u64, counts.1 as u64);
        proof {
            self.table.law_no_idle_channel();
            let event = RouterEvent::Message { channel, message: Some(message) };
            let served = choose|served: Served|
                {
                    &&& #[trigger] serves(routes, channel@, message, served)
                    &&& self.table@ == after_serving(routes, channel@, served)
                    &&& counts.0 == tally(served.answers, Delivery::Delivered)
                    &&& counts.1 == tally(served.answers, Delivery::Dropped)
                };
            assert(old(self)@.serves(event, served));
        }
    }

    /// The wait that is due now; the next one will be longer.
    fn backoff(&mut self) -> (wait_ms: u64)
        requires
            old(self)@.backoff_ms <= RECONNECT_MAX_BACKOFF_MS,
        ensures
            wait_ms == old(self).backoff_ms,
            *final(self) == (Router { backoff_ms: next_backoff(old(self).backoff_ms), ..*old(self) }),
    {
        let wait_ms: u64 = self.backoff_ms;
        let doubled: u64 = wait_ms * 2;
        self.backoff_ms = if doubled <= RECONNECT_MAX_BACKOFF_MS {
            doubled
        } else {
            RECONNECT_MAX_BACKOFF_MS
        };
        wait_ms
    }
}

} // verus!
