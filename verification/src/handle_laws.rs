//! What the operations of a handle come to.

use crate::arifa::{Arifa, Subscription};
use crate::event::WsMessage;
use crate::metrics::{Metrics, MetricsSnapshot};
use crate::presence::{views, OnlineRemoval, RemovalView};
use crate::presence_laws::{
    added, consistent, law_add_online_user, law_adding_on_any_store, law_keys_are_spelled_out,
    law_user_is_online_with_a_session, marked_online, node_of, online, sessions_of, user_of,
};
use crate::queue::{answers_to, feeds, queue_limit, sent, Delivery};
use crate::router::RouterCommand;
use crate::store::{
    accepts_all, members_at, performed_all, reply_to, Store, StoreCommand, StoreCommandView,
    StoreReply, StoreReplyView,
};
use vstd::prelude::*;

verus! {

/// A new handle has the name it was given and no session.
pub proof fn law_new_handle<H>(node_id: String, handle: Arifa<H>)
    requires
        call_ensures(Arifa::<H>::new, (node_id,), handle),
    ensures
        handle.wf(),
        handle@.node_id == node_id@,
        forall|session_id: Seq<char>| !#[trigger] handle@.sessions.contains_key(session_id),
{
}

/// A handle tells the name of its node.
pub proof fn law_handle_tells_its_name<H>(handle: &Arifa<H>, name: &str)
    requires
        call_ensures(Arifa::<H>::node_id, (handle,), name),
    ensures
        name@ == handle@.node_id,
{
}

/// There is a command for each channel, in order, that subscribes the session to that channel
/// through a fresh handle to a queue of 256 messages, the same for all, which ends where the
/// messages of the session arrive; and the answer to each command comes where it is waited for.
pub open spec fn leads_to_its_session(
    subscription: Subscription,
    session_id: Seq<char>,
    channels: Seq<String>,
) -> bool {
    &&& subscription.session_id@ == session_id
    &&& subscription.commands@.len() == channels.len()
    &&& subscription.acks@.len() == channels.len()
    &&& forall|i: int|
        0 <= i < channels.len() ==> ((#[trigger] subscription.commands@[i]) matches
            RouterCommand::Subscribe { channel, session_id: id, sender, ack } && {
            &&& channel@ == channels[i]@
            &&& id@ == session_id
            &&& feeds(sender, subscription.messages)
            &&& queue_limit(sender) == 256
            &&& sent(sender) == Seq::<(WsMessage, Delivery)>::empty()
            &&& answers_to(ack, subscription.acks@[i])
        })
}

/// A subscription leads to its session, and under whatever store it meets, carrying out what
/// marks the session online marks it online for that user at the node of the handle.
pub proof fn law_subscription_is_of_its_node<H>(
    node: &Arifa<H>,
    session_id: String,
    channels: &Vec<String>,
    user_id: &str,
    subscription: Subscription,
    store: Store,
)
    requires
        call_ensures(
            Arifa::<H>::subscribe_as,
            (node, session_id, channels, user_id),
            subscription,
        ),
    ensures
        leads_to_its_session(subscription, session_id@, channels@),
        marked_online(
            store,
            performed_all(store, views(subscription.online@)),
            node@.node_id,
            session_id@,
            user_id@,
        ),
{
    law_adding_on_any_store(store, node@.node_id, session_id@, user_id@);
}

/// The same holds of a subscription under an id that is drawn. The id has 36 characters, with
/// hyphens in their places, and says that it is of version 4.
pub proof fn law_drawn_subscription_is_of_its_node<H>(
    node: &Arifa<H>,
    channels: &Vec<String>,
    user_id: &str,
    subscription: Subscription,
    store: Store,
)
    requires
        call_ensures(Arifa::<H>::subscribe, (node, channels, user_id), subscription),
    ensures
        subscription.session_id@.len() == 36,
        subscription.session_id@[8] == '-',
        subscription.session_id@[13] == '-',
        subscription.session_id@[14] == '4',
        subscription.session_id@[18] == '-',
        subscription.session_id@[23] == '-',
        leads_to_its_session(subscription, subscription.session_id@, channels@),
        marked_online(
            store,
            performed_all(store, views(subscription.online@)),
            node@.node_id,
            subscription.session_id@,
            user_id@,
        ),
{
    law_adding_on_any_store(store, node@.node_id, subscription.session_id@, user_id@);
}

/// Once the store has carried out what marks a new session online, the user is found at the
/// node of the handle, the session is online and is that user's, and the keys agree.
pub proof fn law_subscribed_user_is_found<H>(
    node: &Arifa<H>,
    session_id: String,
    channels: &Vec<String>,
    user_id: &str,
    subscription: Subscription,
    store: Store,
)
    requires
        call_ensures(
            Arifa::<H>::subscribe_as,
            (node, session_id, channels, user_id),
            subscription,
        ),
        consistent(store),
        user_of(store, session_id@) is None,
    ensures
        accepts_all(store, views(subscription.online@)),
        ({
            let after = performed_all(store, views(subscription.online@));
            &&& consistent(after)
            &&& node_of(after, user_id@) == Some(node@.node_id)
            &&& user_of(after, session_id@) == Some(user_id@)
            &&& online(after).contains(session_id@)
            &&& sessions_of(after, user_id@).contains(session_id@)
        }),
{
    law_add_online_user(store, node@.node_id, session_id@, user_id@);
    assert(views(subscription.online@) == crate::presence::add_commands(
        node@.node_id,
        session_id@,
        user_id@,
    ));
}

/// What one handle marks online, every handle finds: asked for the node of the user, the store
/// names the node of the handle that marked the session; asked whether the user is online, it
/// says so; and the number of online sessions is that of the members of the online set.
pub proof fn law_marked_user_is_found_by_every_handle<H>(
    node: &Arifa<H>,
    session_id: &str,
    user_id: &str,
    commands: Vec<StoreCommand>,
    store: Store,
    asking: &Arifa<H>,
    node_query: StoreCommand,
    sessions_query: StoreCommand,
    sessions_reply: &StoreReply,
    found: bool,
    online_query: StoreCommand,
)
    requires
        call_ensures(Arifa::<H>::add_online_user, (node, session_id, user_id), commands),
        call_ensures(Arifa::<H>::get_user_node_id, (asking, user_id), node_query),
        call_ensures(Arifa::<H>::is_user_online, (asking, user_id), sessions_query),
        call_ensures(Arifa::<H>::is_online, (asking, sessions_reply), found),
        call_ensures(Arifa::<H>::online_users, (asking,), online_query),
        consistent(store),
        user_of(store, session_id@) is None,
        sessions_reply@ == reply_to(performed_all(store, views(commands@)), sessions_query@),
    ensures
        marked_online(
            store,
            performed_all(store, views(commands@)),
            node@.node_id,
            session_id@,
            user_id@,
        ),
        reply_to(performed_all(store, views(commands@)), node_query@) == StoreReplyView::Text(
            Some(node@.node_id),
        ),
        found,
        reply_to(store, online_query@) == StoreReplyView::Count(
            members_at(store, "arifa:online_users"@).len(),
        ),
        reply_to(performed_all(store, views(commands@)), online_query@) == StoreReplyView::Count(
            members_at(store, "arifa:online_users"@).len() + 1,
        ),
{
    law_adding_on_any_store(store, node@.node_id, session_id@, user_id@);
    law_add_online_user(store, node@.node_id, session_id@, user_id@);
    law_keys_are_spelled_out(user_id@);
    let after = added(store, node@.node_id, session_id@, user_id@);
    assert(performed_all(store, views(commands@)) == after);
    law_user_is_online_with_a_session(after, user_id@);
    assert(online(after).contains(session_id@) && user_of(after, session_id@) == Some(user_id@));
    assert(!online(store).contains(session_id@));
}

/// A user is said to be online just when a session of the user is.
pub proof fn law_user_is_online_just_with_a_session<H>(
    asking: &Arifa<H>,
    user_id: &str,
    query: StoreCommand,
    reply: &StoreReply,
    found: bool,
    store: Store,
)
    requires
        call_ensures(Arifa::<H>::is_user_online, (asking, user_id), query),
        call_ensures(Arifa::<H>::is_online, (asking, reply), found),
        consistent(store),
        reply@ == reply_to(store, query@),
    ensures
        found <==> exists|session: Seq<char>|
            #![trigger user_of(store, session)]
            online(store).contains(session) && user_of(store, session) == Some(user_id@),
{
    law_user_is_online_with_a_session(store, user_id@);
}

/// A number of sessions above zero, and nothing else, says that the user is online.
pub proof fn law_a_session_makes_a_user_online<H>(
    asking: &Arifa<H>,
    reply: &StoreReply,
    found: bool,
)
    requires
        call_ensures(Arifa::<H>::is_online, (asking, reply), found),
    ensures
        found <==> (*reply matches StoreReply::Count(count) && count > 0),
{
}

/// A removal begins at its start, and each call goes on from the reply to the command before.
pub proof fn law_removal_goes_step_by_step<H>(
    node: &Arifa<H>,
    session_id: &str,
    removal: OnlineRemoval,
    reply: StoreReply,
    command: Option<StoreCommand>,
)
    ensures
        call_ensures(Arifa::<H>::remove_online_user, (node, session_id), removal) ==> removal@
            == RemovalView::initial(session_id@),
        forall|removal: &mut OnlineRemoval| #[trigger]
            call_ensures(OnlineRemoval::next, (removal, reply), command) ==> {
                &&& final(removal)@ == removal@.after(reply@)
                &&& command is Some <==> removal@.command(reply@) is Some
                &&& command matches Some(command) ==> removal@.command(reply@) == Some(command@)
            },
{
}

/// Publishing sends the text, as it is, to the channel.
pub proof fn law_publishing_sends_the_text<H>(
    node: &Arifa<H>,
    channel: &str,
    payload: String,
    command: StoreCommand,
)
    requires
        call_ensures(Arifa::<H>::publish, (node, channel, payload), command),
    ensures
        command matches StoreCommand::Publish { channel: name, payload: text } && name@ == channel@
            && text@ == payload@,
{
}

/// Every session but `session_id` is known before and after alike, with the same handle.
pub open spec fn other_sessions_untouched<H>(
    before: Map<Seq<char>, H>,
    after: Map<Seq<char>, H>,
    session_id: Seq<char>,
) -> bool {
    &&& forall|other: Seq<char>|
        other != session_id ==> #[trigger] after.contains_key(other) == before.contains_key(other)
    &&& forall|other: Seq<char>|
        other != session_id && before.contains_key(other) ==> #[trigger] after[other]
            == before[other]
}

/// A session that starts is known by its id and counts as one active session more. No other
/// session is touched.
pub proof fn law_starting_touches_nobody_else<H>(
    session_id: &str,
    handle: H,
    replaced: Option<H>,
)
    ensures
        forall|node: &mut Arifa<H>, metrics: &mut Metrics| #[trigger]
            call_ensures(
                Arifa::<H>::start_session,
                (node, session_id, handle, metrics),
                replaced,
            ) ==> {
                &&& final(node)@.node_id == node@.node_id
                &&& final(node)@.sessions.contains_key(session_id@)
                &&& final(node)@.sessions[session_id@] == handle
                &&& other_sessions_untouched(
                    node@.sessions,
                    final(node)@.sessions,
                    session_id@,
                )
                &&& replaced is Some <==> node@.sessions.contains_key(session_id@)
                &&& replaced is Some ==> replaced->0 == node@.sessions[session_id@]
                &&& final(metrics)@ == (MetricsSnapshot {
                    sessions_active: ((metrics@.sessions_active + 1)
                        % 0x1_0000_0000_0000_0000) as u64,
                    ..metrics@
                })
            },
{
}

/// A session that ends is forgotten, and counts as one active session less if it was known. No
/// other session is touched.
pub open spec fn ended<H>(
    before: Map<Seq<char>, H>,
    after: Map<Seq<char>, H>,
    session_id: Seq<char>,
    handle: Option<H>,
    counts: MetricsSnapshot,
    counts_after: MetricsSnapshot,
) -> bool {
    &&& !after.contains_key(session_id)
    &&& other_sessions_untouched(before, after, session_id)
    &&& handle is Some <==> before.contains_key(session_id)
    &&& handle is Some ==> handle->0 == before[session_id]
    &&& before.contains_key(session_id) ==> counts_after == (MetricsSnapshot {
        sessions_active: ((counts.sessions_active - 1) % 0x1_0000_0000_0000_0000) as u64,
        ..counts
    })
    &&& !before.contains_key(session_id) ==> counts_after == counts
}

/// Ending a session ends that one, once.
pub proof fn law_ending_touches_nobody_else<H>(session_id: &str, handle: Option<H>)
    ensures
        forall|node: &mut Arifa<H>, metrics: &mut Metrics| #[trigger]
            call_ensures(Arifa::<H>::end_session, (node, session_id, metrics), handle) ==> {
                &&& final(node)@.node_id == node@.node_id
                &&& ended(
                    node@.sessions,
                    final(node)@.sessions,
                    session_id@,
                    handle,
                    metrics@,
                    final(metrics)@,
                )
            },
{
}

/// Tearing down a session ends that one, once, and asks the router to take it off each of its
/// channels, in order.
pub proof fn law_teardown_names_every_channel<H>(
    session_id: &str,
    channels: &Vec<String>,
    teardown: (Vec<RouterCommand>, Option<H>),
)
    ensures
        forall|node: &mut Arifa<H>, metrics: &mut Metrics| #[trigger]
            call_ensures(
                Arifa::<H>::unsubscribe,
                (node, session_id, channels, metrics),
                teardown,
            ) ==> {
                &&& final(node)@.node_id == node@.node_id
                &&& ended(
                    node@.sessions,
                    final(node)@.sessions,
                    session_id@,
                    teardown.1,
                    metrics@,
                    final(metrics)@,
                )
                &&& takes_off_each(teardown.0@, session_id@, channels@)
            },
{
}

/// There is a command for each channel, in order, that takes the session off it.
pub open spec fn takes_off_each(
    commands: Seq<RouterCommand>,
    session_id: Seq<char>,
    channels: Seq<String>,
) -> bool {
    &&& commands.len() == channels.len()
    &&& forall|i: int|
        0 <= i < channels.len() ==> ((#[trigger] commands[i]) matches
            RouterCommand::Unsubscribe { channel, session_id: id } && channel@ == channels[i]@
            && id@ == session_id)
}

/// Shutting down hands out the handle of every session, forgets them all, and counts out as
/// many active sessions as there were; the other counters stay.
pub proof fn law_shutdown_ends_every_session<H>(handles: Vec<H>)
    ensures
        forall|node: &mut Arifa<H>, metrics: &mut Metrics| #[trigger]
            call_ensures(Arifa::<H>::shutdown, (node, metrics), handles) && node.wf() ==> {
                &&& final(node)@.node_id == node@.node_id
                &&& forall|session_id: Seq<char>|
                    !#[trigger] final(node)@.sessions.contains_key(session_id)
                &&& handles@.len() == node@.sessions.dom().len()
                &&& hands_out_all(node@.sessions, handles@)
                &&& final(metrics)@ == (MetricsSnapshot {
                    sessions_active: ((metrics@.sessions_active - node@.sessions.dom().len())
                        % 0x1_0000_0000_0000_0000) as u64,
                    ..metrics@
                })
            },
{
    assert forall|node: &mut Arifa<H>, metrics: &mut Metrics| #[trigger]
        call_ensures(Arifa::<H>::shutdown, (node, metrics), handles) && node.wf() implies {
        &&& handles@.len() == node@.sessions.dom().len()
        &&& hands_out_all(node@.sessions, handles@)
    } by {
        node.law_session_order();
        let order = node.session_order();
        assert forall|session_id: Seq<char>| #[trigger]
            node@.sessions.contains_key(session_id) implies exists|i: int|
            0 <= i < handles@.len() && #[trigger] handles@[i] == node@.sessions[session_id] by {
            assert(order.contains(session_id));
            let i = choose|i: int| 0 <= i < order.len() && order[i] == session_id;
            assert(handles@[i] == node@.sessions[session_id]);
        }
    }
}

/// The handle of every session is among `handles`.
pub open spec fn hands_out_all<H>(sessions: Map<Seq<char>, H>, handles: Seq<H>) -> bool {
    forall|session_id: Seq<char>| #[trigger]
        sessions.contains_key(session_id) ==> exists|i: int|
            0 <= i < handles.len() && #[trigger] handles[i] == sessions[session_id]
}

} // verus!
