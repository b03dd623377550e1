//! What the handle of a node decides.

use crate::event::WsMessage;
use crate::metrics::Metrics;
#[allow(unused_imports)]
use crate::metrics::{law_recording_adds, MetricsSnapshot};
use crate::name_map::NameMap;
use crate::presence::{
    online_commands, online_users_query, user_node_query, user_sessions_query, OnlineRemoval,
};
#[allow(unused_imports)]
use crate::presence::{
    add_commands, user_node_key, user_sessions_key, views, RemovalView, ONLINE_USERS_KEY,
};
use crate::queue::{another_handle, new_ack, new_queue};
#[allow(unused_imports)]
use crate::queue::{answers_to, feeds, queue_limit, sent, Delivery};
use crate::router::RouterCommand;
use crate::store::{StoreCommand, StoreReply};
#[allow(unused_imports)]
use crate::store::{StoreCommandView, StoreReplyView};
use tokio::sync::{mpsc, oneshot};
use vstd::prelude::*;

verus! {

/// How many messages a session can have queued before new ones are dropped for it.
pub const SESSION_CHANNEL_CAPACITY: usize = 256;

/// Whether `c` is a lower-case hexadecimal digit.
pub open spec fn is_lower_hex(c: char) -> bool {
    '0' <= c <= '9' || 'a' <= c <= 'f'
}

/// Whether `id` has the shape of the id of a session: five groups of lower-case hexadecimal
/// digits with hyphens between them, the third beginning with the version, which is 4, and
/// the fourth with the variant.
pub open spec fn is_session_id(id: Seq<char>) -> bool {
    &&& id.len() == 36
    &&& forall|i: int|
        0 <= i < 36 ==> if i == 8 || i == 13 || i == 18 || i == 23 {
            #[trigger] id[i] == '-'
        } else {
            is_lower_hex(id[i])
        }
    &&& id[14] == '4'
    &&& id[19] == '8' || id[19] == '9' || id[19] == 'a' || id[19] == 'b'
}

/// `uuid::Uuid::new_v4` and the text that `to_string` makes of it: a random id in the
/// hyphenated lower-case form. Which id it is, is left to chance, and so that two ids differ is
/// left unsaid.
#[verifier::external_body]
fn new_session_id() -> (id: String)
    ensures
        is_session_id(id@),
{
    uuid::Uuid::new_v4().to_string()
}

/// What a new session needs to be set up.
pub struct Subscription {
    /// The id of the session.
    pub session_id: String,
    /// What to ask of the router, one channel at a time.
    pub commands: Vec<RouterCommand>,
    /// Where to wait for the answer to each command before the next one is sent.
    pub acks: Vec<oneshot::Receiver<()>>,
    /// Where the messages for the session arrive.
    pub messages: mpsc::Receiver<WsMessage>,
    /// What marks the session online.
    pub online: Vec<StoreCommand>,
}

/// The state of a handle: the name of its node and the sessions that run there.
pub struct ArifaView<H> {
    pub node_id: Seq<char>,
    pub sessions: Map<Seq<char>, H>,
}

impl<H> ArifaView<H> {
    /// The state once a session runs.
    pub open spec fn registered(self, session_id: Seq<char>, handle: H) -> Self {
        ArifaView { sessions: self.sessions.insert(session_id, handle), ..self }
    }

    /// The state once a session is torn down.
    pub open spec fn unregistered(self, session_id: Seq<char>) -> Self {
        ArifaView { sessions: self.sessions.remove(session_id), ..self }
    }

    /// The state once every session is torn down.
    pub open spec fn emptied(self) -> Self {
        ArifaView { sessions: Map::empty(), ..self }
    }

    /// What tearing down a session makes of the counters: one active session less, if the
    /// session was known.
    pub open spec fn counted_out(
        self,
        session_id: Seq<char>,
        counts: MetricsSnapshot,
    ) -> MetricsSnapshot {
        if self.sessions.contains_key(session_id) {
            counts.after_session_ended()
        } else {
            counts
        }
    }

    /// The count of active sessions is the number of sessions that run here.
    pub open spec fn is_counted(self, counts: MetricsSnapshot) -> bool {
        &&& self.sessions.dom().finite()
        &&& counts.sessions_active == self.sessions.len() as int % 0x1_0000_0000_0000_0000
    }

    /// The state after a change.
    pub open spec fn changed(self, change: SessionChange<H>) -> Self {
        match change {
            SessionChange::Started { session_id, handle } => self.registered(session_id, handle),
            SessionChange::Ended { session_id } => self.unregistered(session_id),
            SessionChange::ShutDown => self.emptied(),
        }
    }

    /// What a change makes of the counters.
    pub open spec fn counted(
        self,
        change: SessionChange<H>,
        counts: MetricsSnapshot,
    ) -> MetricsSnapshot {
        match change {
            SessionChange::Started { .. } => counts.after_session_started(),
            SessionChange::Ended { session_id } => self.counted_out(session_id, counts),
            SessionChange::ShutDown => counts.after_sessions_ended(self.sessions.len()),
        }
    }
}

/// What can happen to the sessions of a node.
pub enum SessionChange<H> {
    /// [`Arifa::start_session`].
    Started { session_id: Seq<char>, handle: H },
    /// [`Arifa::end_session`] or [`Arifa::unsubscribe`].
    Ended { session_id: Seq<char> },
    /// [`Arifa::shutdown`].
    ShutDown,
}

/// Core of the realtime engine of one node.
///
/// It knows the sessions that run here, each with a handle `H` by which it can be ended, and
/// says what to send to the router and to the store.
pub struct Arifa<H> {
    node_id: String,
    sessions: NameMap<H>,
}

impl<H> View for Arifa<H> {
    type V = ArifaView<H>;

    closed spec fn view(&self) -> ArifaView<H> {
        ArifaView { node_id: self.node_id@, sessions: self.sessions@ }
    }
}

impl<H> Arifa<H> {
    /// The registry of sessions is in order.
    pub closed spec fn wf(self) -> bool {
        self.sessions.wf()
    }

    /// The order in which `shutdown` hands out the sessions.
    pub closed spec fn session_order(self) -> Seq<Seq<char>> {
        self.sessions.names().reverse()
    }

    /// The order names every session once, and no other.
    pub proof fn law_session_order(self)
        requires
            self.wf(),
        ensures
            self.session_order().no_duplicates(),
            forall|session_id: Seq<char>| #[trigger]
                self.session_order().contains(session_id) <==> self@.sessions.contains_key(
                    session_id,
                ),
            self@.sessions.dom().finite(),
            self.session_order().len() == self@.sessions.len(),
    {
        self.sessions.lemma_names();
        let names = self.sessions.names();
        let order = names.reverse();
        assert forall|session_id: Seq<char>| #[trigger]
            order.contains(session_id) <==> self@.sessions.contains_key(session_id) by {
            if names.contains(session_id) {
                let i = choose|i: int| 0 <= i < names.len() && names[i] == session_id;
                assert(order[names.len() - 1 - i] == session_id);
            }
            if order.contains(session_id) {
                let i = choose|i: int| 0 <= i < order.len() && order[i] == session_id;
                assert(names[names.len() - 1 - i] == session_id);
            }
        }
    }

    /// A node without sessions.
    pub fn new(node_id: String) -> (arifa: Self)
        ensures
            arifa.wf(),
            arifa@ == (ArifaView { node_id: node_id@, sessions: Map::<Seq<char>, H>::empty() }),
    {
        Arifa { node_id, sessions: NameMap::new() }
    }

    /// The name of the node.
    pub fn node_id(&self) -> (node_id: &str)
        ensures
            node_id@ == self@.node_id,
    {
        self.node_id.as_str()
    }

    /// Prepares a session on one or more channels: an id for it, drawn at random, and what
    /// [`Arifa::subscribe_as`] makes of that id.
    pub fn subscribe(&self, channels: &Vec<String>, user_id: &str) -> (subscription: Subscription)
        ensures
            is_session_id(subscription.session_id@),
            self.subscribes(subscription, channels@, user_id@),
    {
        self.subscribe_as(new_session_id(), channels, user_id)
    }

    /// Prepares a session on one or more channels under the given id: a bounded queue for its
    /// messages, a command per channel, and what marks it online.
    pub fn subscribe_as(&self, session_id: String, channels: &Vec<String>, user_id: &str) -> (
    subscription: Subscription)
        ensures
            subscription.session_id@ == session_id@,
            self.subscribes(subscription, channels@, user_id@),
    {
        let (mut sender, messages) = new_queue(SESSION_CHANNEL_CAPACITY);
        let mut commands: Vec<RouterCommand> = Vec::new();
        let mut acks: Vec<oneshot::Receiver<()>> = Vec::new();
        for at in 0..channels.len()
            invariant
                commands@.len() == at,
                acks@.len() == at,
                feeds(sender, messages),
                queue_limit(sender) == SESSION_CHANNEL_CAPACITY,
                forall|i: int|
                    0 <= i < at ==> joins(
                        #[trigger] commands@[i],
                        channels@[i]@,
                        session_id@,
                        messages,
                        acks@[i],
                    ),
        {
            let (ack, answered) = new_ack();
            commands.push(
                RouterCommand::Subscribe {
                    channel: channels[at].clone(),
                    session_id: session_id.clone(),
                    sender: another_handle(&mut sender),
                    ack,
                },
            );
            acks.push(answered);
        }
        let online = self.add_online_user(session_id.as_str(), user_id);
        Subscription { session_id, commands, acks, messages, online }
    }

    /// `subscription` has a command for each of `channels`, in order, that leads to its queue,
    /// where to wait for the answer to each, and what marks its session online for the user.
    pub open spec fn subscribes(
        self,
        subscription: Subscription,
        channels: Seq<String>,
        user_id: Seq<char>,
    ) -> bool {
        &&& subscription.commands@.len() == channels.len()
        &&& subscription.acks@.len() == channels.len()
        &&& forall|i: int|
            0 <= i < channels.len() ==> joins(
                #[trigger] subscription.commands@[i],
                channels[i]@,
                subscription.session_id@,
                subscription.messages,
                subscription.acks@[i],
            )
        &&& views(subscription.online@) == add_commands(
            self@.node_id,
            subscription.session_id@,
            user_id,
        )
    }

    /// Remembers a session that runs and counts one more active session; hands back the handle
    /// that was known under its id.
    pub fn start_session(&mut self, session_id: &str, handle: H, metrics: &mut Metrics) -> (before:
        Option<H>)
        requires
            old(self).wf(),
        ensures
            final(self).wf(),
            final(self)@ == old(self)@.registered(session_id@, handle),
            final(metrics)@ == old(metrics)@.after_session_started(),
            before == old(self)@.sessions.get(session_id@),
    {
        metrics.session_started();
        self.sessions.insert(session_id.to_owned(), handle)
    }

    /// Forgets a session that is over, and counts one active session less, if the session is
    /// known; hands out its handle. This is the one place where a session ends, whether by
    /// itself or because it is torn down, so that it is counted out once.
    pub fn end_session(&mut self, session_id: &str, metrics: &mut Metrics) -> (handle: Option<H>)
        requires
            old(self).wf(),
        ensures
            final(self).wf(),
            final(self)@ == old(self)@.unregistered(session_id@),
            final(metrics)@ == old(self)@.counted_out(session_id@, old(metrics)@),
            handle == old(self)@.sessions.get(session_id@),
    {
        let handle = self.sessions.remove(session_id);
        if handle.is_some() {
            metrics.session_ended();
        }
        handle
    }

    /// Tears down a session: what to ask of the router for each channel, and the handle of
    /// the session, to be ended, if the session is known; it is then forgotten and counted
    /// as one active session less.
    pub fn unsubscribe(
        &mut self,
        session_id: &str,
        channels: &Vec<String>,
        metrics: &mut Metrics,
    ) -> (teardown: (Vec<RouterCommand>, Option<H>))
        requires
            old(self).wf(),
        ensures
            final(self).wf(),
            final(self)@ == old(self)@.unregistered(session_id@),
            final(metrics)@ == old(self)@.counted_out(session_id@, old(metrics)@),
            teardown.1 == old(self)@.sessions.get(session_id@),
            teardown.0@.len() == channels@.len(),
            forall|i: int|
                0 <= i < channels@.len() ==> leaves(
                    #[trigger] teardown.0@[i],
                    channels@[i]@,
                    session_id@,
                ),
    {
        let mut commands: Vec<RouterCommand> = Vec::new();
        for at in 0..channels.len()
            invariant
                commands@.len() == at,
                forall|i: int|
                    0 <= i < at ==> leaves(
                        #[trigger] commands@[i],
                        channels@[i]@,
                        session_id@,
                    ),
        {
            commands.push(
                RouterCommand::Unsubscribe {
                    channel: channels[at].clone(),
                    session_id: session_id.to_owned(),
                },
            );
        }
        let handle = self.end_session(session_id, metrics);
        (commands, handle)
    }

    /// Forgets every session, counts each as one active session less, and hands out their
    /// handles, to be ended.
    pub fn shutdown(&mut self, metrics: &mut Metrics) -> (handles: Vec<H>)
        requires
            old(self).wf(),
        ensures
            final(self).wf(),
            final(self)@ == old(self)@.emptied(),
            final(metrics)@ == old(metrics)@.after_sessions_ended(old(self)@.sessions.len()),
            handles@ == old(self).session_order().map_values(
                |session_id: Seq<char>| old(self)@.sessions[session_id],
            ),
    {
        proof {
            self.law_session_order();
        }
        let handles = self.sessions.drain();
        metrics.sessions_ended(handles.len());
        handles
    }

    /// Sends the text of a message to a channel.
    pub fn publish(&self, channel: &str, payload: String) -> (command: StoreCommand)
        ensures
            command@ == (StoreCommandView::Publish { channel: channel@, payload: payload@ }),
    {
        StoreCommand::Publish { channel: channel.to_owned(), payload }
    }

    /// Marks a session of a user online at this node: the commands to send, in order.
    pub fn add_online_user(&self, session_id: &str, user_id: &str) -> (commands: Vec<StoreCommand>)
        ensures
            views(commands@) == add_commands(self@.node_id, session_id@, user_id@),
    {
        online_commands(self.node_id.as_str(), session_id, user_id)
    }

    /// Removes a session from those that are online and from those of its user.
    pub fn remove_online_user(&self, session_id: &str) -> (removal: OnlineRemoval)
        ensures
            removal@ == RemovalView::initial(session_id@),
    {
        OnlineRemoval::new(session_id)
    }

    /// Asks for the node of a user; the text that comes back is its name.
    pub fn get_user_node_id(&self, user_id: &str) -> (command: StoreCommand)
        ensures
            command@ == (StoreCommandView::Get { key: user_node_key(user_id@) }),
    {
        user_node_query(user_id)
    }

    /// Asks for the number of sessions of a user; see [`Arifa::is_online`].
    pub fn is_user_online(&self, user_id: &str) -> (command: StoreCommand)
        ensures
            command@ == (StoreCommandView::SCard { key: user_sessions_key(user_id@) }),
    {
        user_sessions_query(user_id)
    }

    /// Whether the reply to [`Arifa::is_user_online`] says that the user is online.
    pub fn is_online(&self, reply: &StoreReply) -> (online: bool)
        ensures
            online == (reply@ matches StoreReplyView::Count(count) && count > 0),
    {
        reply.count() > 0
    }

    /// Asks for the number of sessions that are online.
    pub fn online_users(&self) -> (command: StoreCommand)
        ensures
            command@ == (StoreCommandView::SCard { key: ONLINE_USERS_KEY@ }),
    {
        online_users_query()
    }
}

/// `command` puts the session on the channel, with a handle of its own, through which nothing
/// was put yet, to a queue that holds [`SESSION_CHANNEL_CAPACITY`] messages and ends in
/// `messages`, and answers to `answered`.
pub open spec fn joins(
    command: RouterCommand,
    channel: Seq<char>,
    session_id: Seq<char>,
    messages: mpsc::Receiver<WsMessage>,
    answered: oneshot::Receiver<()>,
) -> bool {
    &&& command matches RouterCommand::Subscribe { channel: name, session_id: id, sender, ack }
    &&& name@ == channel
    &&& id@ == session_id
    &&& feeds(sender, messages)
    &&& queue_limit(sender) == SESSION_CHANNEL_CAPACITY
    &&& sent(sender) == Seq::<(WsMessage, Delivery)>::empty()
    &&& answers_to(ack, answered)
}

/// `command` takes the session off the channel.
pub open spec fn leaves(
    command: RouterCommand,
    channel: Seq<char>,
    session_id: Seq<char>,
) -> bool {
    &&& command matches RouterCommand::Unsubscribe { channel: name, session_id: id }
    &&& name@ == channel
    &&& id@ == session_id
}

/// A session that starts and ends leaves the handle and the counters as they were.
pub proof fn law_ending_undoes_starting<H>(
    state: ArifaView<H>,
    session_id: Seq<char>,
    handle: H,
    counts: MetricsSnapshot,
)
    requires
        !state.sessions.contains_key(session_id),
    ensures
        state.registered(session_id, handle).unregistered(session_id) == state,
        state.registered(session_id, handle).counted_out(
            session_id,
            counts.after_session_started(),
        ) == counts,
{
    assert(state.sessions.insert(session_id, handle).remove(session_id) =~= state.sessions);
}

/// Ending a session a second time counts nothing and changes nothing: a session that ended by
/// itself is not counted out again when it is torn down.
pub proof fn law_ending_again_counts_nothing<H>(
    state: ArifaView<H>,
    session_id: Seq<char>,
    counts: MetricsSnapshot,
)
    ensures
        state.unregistered(session_id).counted_out(session_id, counts) == counts,
        state.unregistered(session_id).unregistered(session_id) == state.unregistered(session_id),
        state.unregistered(session_id).sessions.get(session_id) is None,
{
    assert(state.sessions.remove(session_id).remove(session_id) =~= state.sessions.remove(
        session_id,
    ));
}

/// What ending a session, or every session, counts is an addition of what it counts on fresh
/// counters.
pub proof fn law_change_counts_by_adding<H>(
    state: ArifaView<H>,
    change: SessionChange<H>,
    counts: MetricsSnapshot,
)
    ensures
        state.counted(change, counts) == counts.plus(
            state.counted(change, MetricsSnapshot::zero()),
        ),
{
    law_recording_adds(counts, 0, 0, state.sessions.len());
}

/// Every change keeps the count of active sessions equal to the number of sessions that run,
/// if a session that starts has an id of its own.
pub proof fn law_changes_keep_sessions_counted<H>(
    state: ArifaView<H>,
    change: SessionChange<H>,
    counts: MetricsSnapshot,
)
    requires
        state.is_counted(counts),
        change matches SessionChange::Started { session_id, handle }
            ==> !state.sessions.contains_key(session_id),
    ensures
        state.changed(change).is_counted(state.counted(change, counts)),
{
    let range: int = 0x1_0000_0000_0000_0000;
    let running = state.sessions.len() as int;
    match change {
        SessionChange::Started { session_id, handle } => {
            assert(state.changed(change).sessions.dom() =~= state.sessions.dom().insert(
                session_id,
            ));
            vstd::arithmetic::div_mod::lemma_add_mod_noop_right(1, running, range);
        },
        SessionChange::Ended { session_id } => {
            assert(state.changed(change).sessions.dom() =~= state.sessions.dom().remove(
                session_id,
            ));
            if state.sessions.contains_key(session_id) {
                vstd::arithmetic::div_mod::lemma_add_mod_noop_right(-1, running, range);
            }
        },
        SessionChange::ShutDown => {
            assert(state.changed(change).sessions.dom() =~= Set::empty());
            vstd::arithmetic::div_mod::lemma_add_mod_noop_right(-running, running, range);
        },
    }
}

/// The state after `changes`, one after the other.
pub open spec fn changed_by<H>(state: ArifaView<H>, changes: Seq<SessionChange<H>>) -> ArifaView<H>
    decreases changes.len(),
{
    if changes.len() == 0 {
        state
    } else {
        changed_by(state, changes.drop_last()).changed(changes.last())
    }
}

/// What `changes`, one after the other, make of the counters.
pub open spec fn counted_by<H>(
    state: ArifaView<H>,
    changes: Seq<SessionChange<H>>,
    counts: MetricsSnapshot,
) -> MetricsSnapshot
    decreases changes.len(),
{
    if changes.len() == 0 {
        counts
    } else {
        changed_by(state, changes.drop_last()).counted(
            changes.last(),
            counted_by(state, changes.drop_last(), counts),
        )
    }
}

/// Whatever happens to the sessions of a node, in whatever order, forwarders that end by
/// themselves included: the count of active sessions is the number of sessions that run.
/// Each session that starts has an id that no running session has.
pub proof fn law_active_sessions_are_those_that_run<H>(
    node_id: Seq<char>,
    changes: Seq<SessionChange<H>>,
)
    requires
        forall|i: int|
            0 <= i < changes.len() ==> ((#[trigger] changes[i]) matches SessionChange::Started {
                session_id,
                handle,
            } ==> !changed_by(
                ArifaView { node_id, sessions: Map::empty() },
                changes.take(i),
            ).sessions.contains_key(session_id)),
    ensures
        changed_by(ArifaView { node_id, sessions: Map::empty() }, changes).is_counted(
            counted_by(
                ArifaView { node_id, sessions: Map::<Seq<char>, H>::empty() },
                changes,
                MetricsSnapshot::zero(),
            ),
        ),
    decreases changes.len(),
{
    let start = ArifaView { node_id, sessions: Map::<Seq<char>, H>::empty() };
    if changes.len() > 0 {
        let fewer = changes.drop_last();
        assert forall|i: int| 0 <= i < fewer.len() implies ((#[trigger] fewer[i]) matches
            SessionChange::Started { session_id, handle } ==> !changed_by(
            start,
            fewer.take(i),
        ).sessions.contains_key(session_id)) by {
            assert(changes[i] == fewer[i]);
            assert(fewer.take(i) =~= changes.take(i));
        }
        law_active_sessions_are_those_that_run(node_id, fewer);
        assert(changes.take(changes.len() - 1) =~= fewer);
        assert(changes[changes.len() - 1] == changes.last());
        law_changes_keep_sessions_counted(
            changed_by(start, fewer),
            changes.last(),
            counted_by(start, fewer, MetricsSnapshot::zero()),
        );
    } else {
        assert(start.sessions.dom() =~= Set::empty());
    }
}

} // verus!
