//! Which sessions want which channels.

use crate::event::WsMessage;
use crate::name_map::NameMap;
use crate::queue::{put, Delivery};
#[allow(unused_imports)]
use crate::queue::put_once;
use tokio::sync::mpsc;
use vstd::prelude::*;

verus! {

/// Channel, then session, then the queue of that session.
pub type Routes = Map<Seq<char>, Map<Seq<char>, mpsc::Sender<WsMessage>>>;

/// The routes once `session` is on `channel` with the queue `sender`.
pub open spec fn with_session(
    routes: Routes,
    channel: Seq<char>,
    session: Seq<char>,
    sender: mpsc::Sender<WsMessage>,
) -> Routes {
    let sessions = if routes.contains_key(channel) {
        routes[channel]
    } else {
        Map::empty()
    };
    routes.insert(channel, sessions.insert(session, sender))
}

/// The routes with only `sessions` left on `channel`; a channel without sessions is gone.
pub open spec fn with_channel(
    routes: Routes,
    channel: Seq<char>,
    sessions: Map<Seq<char>, mpsc::Sender<WsMessage>>,
) -> Routes {
    if sessions == Map::<Seq<char>, mpsc::Sender<WsMessage>>::empty() {
        routes.remove(channel)
    } else {
        routes.insert(channel, sessions)
    }
}

/// The routes once `session` is off `channel`.
pub open spec fn without_session(
    routes: Routes,
    channel: Seq<char>,
    session: Seq<char>,
) -> Routes {
    if routes.contains_key(channel) {
        with_channel(routes, channel, routes[channel].remove(session))
    } else {
        routes
    }
}

/// Whether no session but `session` is on `channel`, and the channel is in use.
pub open spec fn is_last_session(
    routes: Routes,
    channel: Seq<char>,
    session: Seq<char>,
) -> bool {
    &&& routes.contains_key(channel)
    &&& forall|other: Seq<char>| #[trigger]
        routes[channel].contains_key(other) ==> other == session
}

/// How often `answer` occurs in `answers`.
pub open spec fn tally(answers: Seq<Delivery>, answer: Delivery) -> nat
    decreases answers.len(),
{
    if answers.len() == 0 {
        0
    } else {
        tally(answers.drop_last(), answer) + if answers.last() == answer {
            1nat
        } else {
            0nat
        }
    }
}

/// The sessions whose queue answered that it is closed; `answers[i]` is that of `sessions[i]`.
pub open spec fn closed_sessions(sessions: Seq<Seq<char>>, answers: Seq<Delivery>) -> Set<
    Seq<char>,
> {
    Set::new(
        |session: Seq<char>|
            exists|i: int|
                0 <= i < sessions.len() && #[trigger] sessions[i] == session && answers[i]
                    == Delivery::Closed,
    )
}

/// The routes once the sessions on `channel` gave `answers`: closed queues are taken out.
pub open spec fn settled(
    routes: Routes,
    channel: Seq<char>,
    sessions: Seq<Seq<char>>,
    answers: Seq<Delivery>,
) -> Routes {
    if routes.contains_key(channel) {
        with_channel(
            routes,
            channel,
            routes[channel].remove_keys(closed_sessions(sessions, answers)),
        )
    } else {
        routes
    }
}

/// The sessions that a message was put to, each once; what the queue of each answered; and the
/// handle to the queue of each once that was done.
pub struct Served {
    pub sessions: Seq<Seq<char>>,
    pub answers: Seq<Delivery>,
    pub handles: Seq<mpsc::Sender<WsMessage>>,
}

impl Served {
    /// No session was put anything to.
    pub open spec fn nobody() -> Self {
        Served { sessions: Seq::empty(), answers: Seq::empty(), handles: Seq::empty() }
    }
}

/// Whether `session` is on `channel`.
pub open spec fn is_on(routes: Routes, channel: Seq<char>, session: Seq<char>) -> bool {
    routes.contains_key(channel) && routes[channel].contains_key(session)
}

/// `served` names every session on `channel` once, and no other, and tells of each what putting
/// `event` to its queue one time came to.
pub open spec fn serves(
    routes: Routes,
    channel: Seq<char>,
    event: WsMessage,
    served: Served,
) -> bool {
    &&& served.answers.len() == served.sessions.len()
    &&& served.handles.len() == served.sessions.len()
    &&& served.sessions.no_duplicates()
    &&& forall|session: Seq<char>| #[trigger]
        served.sessions.contains(session) <==> is_on(routes, channel, session)
    &&& forall|i: int|
        0 <= i < served.sessions.len() ==> put_once(
            routes[channel][#[trigger] served.sessions[i]],
            event,
            served.answers[i],
            served.handles[i],
        )
}

/// The queues of the sessions on a channel with the handle of `sessions[i]` being `handles[i]`.
pub open spec fn with_handles(
    queues: Map<Seq<char>, mpsc::Sender<WsMessage>>,
    sessions: Seq<Seq<char>>,
    handles: Seq<mpsc::Sender<WsMessage>>,
) -> Map<Seq<char>, mpsc::Sender<WsMessage>> {
    Map::new(
        |session: Seq<char>| queues.contains_key(session),
        |session: Seq<char>| handles[sessions.index_of(session)],
    )
}

/// The routes once the sessions on `channel` were served: their handles tell of it.
pub open spec fn handed(routes: Routes, channel: Seq<char>, served: Served) -> Routes {
    if routes.contains_key(channel) {
        routes.insert(
            channel,
            with_handles(routes[channel], served.sessions, served.handles),
        )
    } else {
        routes
    }
}

/// The routes once the sessions on `channel` were served and the closed ones were taken out.
pub open spec fn after_serving(routes: Routes, channel: Seq<char>, served: Served) -> Routes {
    settled(handed(routes, channel, served), channel, served.sessions, served.answers)
}

/// Every channel of the routes has a session.
pub open spec fn no_idle_channel(routes: Routes) -> bool {
    forall|channel: Seq<char>| #[trigger]
        routes.contains_key(channel) ==> routes[channel] != Map::<
            Seq<char>,
            mpsc::Sender<WsMessage>,
        >::empty()
}

/// In-memory bookkeeping of the sessions on each channel.
pub struct RoutingTable {
    routes: NameMap<NameMap<mpsc::Sender<WsMessage>>>,
}

impl View for RoutingTable {
    type V = Routes;

    closed spec fn view(&self) -> Routes {
        self.routes@.map_values(|sessions: NameMap<mpsc::Sender<WsMessage>>| sessions@)
    }
}

impl Default for RoutingTable {
    fn default() -> (table: Self)
        ensures
            table.wf(),
            table@ == Map::<Seq<char>, Map<Seq<char>, mpsc::Sender<WsMessage>>>::empty(),
    {
        RoutingTable::new()
    }
}

impl RoutingTable {
    /// Both levels are sound, and a channel that is in the table has a session.
    pub closed spec fn wf(self) -> bool {
        &&& self.routes.wf()
        &&& forall|channel: Seq<char>| #[trigger]
            self.routes@.contains_key(channel) ==> {
                &&& self.routes@[channel].wf()
                &&& self.routes@[channel]@ != Map::<Seq<char>, mpsc::Sender<WsMessage>>::empty()
            }
    }

    /// The sessions on `channel`, in the order in which they are served.
    pub closed spec fn subscribers(self, channel: Seq<char>) -> Seq<Seq<char>> {
        if self.routes@.contains_key(channel) {
            self.routes@[channel].names()
        } else {
            Seq::empty()
        }
    }

    /// A channel is in the table only while a session is on it.
    pub proof fn law_no_idle_channel(self)
        requires
            self.wf(),
        ensures
            no_idle_channel(self@),
    {
    }

    /// `subscribers` lists each session on the channel once, and no other.
    pub proof fn law_subscribers(self, channel: Seq<char>)
        requires
            self.wf(),
        ensures
            self.subscribers(channel).no_duplicates(),
            forall|session: Seq<char>| #[trigger]
                self.subscribers(channel).contains(session) <==> self@.contains_key(channel)
                    && self@[channel].contains_key(session),
    {
        if self.routes@.contains_key(channel) {
            self.routes@[channel].lemma_names();
        }
    }

    /// A table without sessions.
    pub fn new() -> (table: Self)
        ensures
            table.wf(),
            table@ == Map::<Seq<char>, Map<Seq<char>, mpsc::Sender<WsMessage>>>::empty(),
    {
        let table = RoutingTable { routes: NameMap::new() };
        assert(table@ =~= Map::empty());
        table
    }

    /// Registers a session's interest in a channel. Returns `true` if this is the first
    /// session on the channel: the caller should then subscribe to it for real.
    pub fn subscribe(
        &mut self,
        channel: &str,
        session_id: &str,
        sender: mpsc::Sender<WsMessage>,
    ) -> (is_new: bool)
        requires
            old(self).wf(),
        ensures
            final(self).wf(),
            final(self)@ == with_session(old(self)@, channel@, session_id@, sender),
            is_new == !old(self)@.contains_key(channel@),
    {
        let is_new = !self.routes.contains_key(channel);
        if is_new {
            self.routes.insert(channel.to_owned(), NameMap::new());
        }
        if let Some(sessions) = self.routes.get_mut(channel) {
            sessions.insert(session_id.to_owned(), sender);
        }
        proof {
            assert(self.routes@[channel@]@.contains_key(session_id@));
            assert(self@ =~= with_session(old(self)@, channel@, session_id@, sender));
        }
        is_new
    }

    /// Removes a session's interest in a channel. Returns `true` if this was the last
    /// session on the channel: the caller should then unsubscribe from it for real.
    pub fn unsubscribe(&mut self, channel: &str, session_id: &str) -> (was_last: bool)
        requires
            old(self).wf(),
        ensures
            final(self).wf(),
            final(self)@ == without_session(old(self)@, channel@, session_id@),
            was_last == is_last_session(old(self)@, channel@, session_id@),
    {
        let mut emptied = false;
        if let Some(sessions) = self.routes.get_mut(channel) {
            sessions.remove(session_id);
            emptied = sessions.is_empty();
        }
        if emptied {
            self.routes.remove(channel);
        }
        proof {
            assert(self@ =~= without_session(old(self)@, channel@, session_id@));
            if old(self)@.contains_key(channel@) {
                lemma_last_session(old(self)@[channel@], session_id@);
            }
        }
        emptied
    }

    /// Delivers `event` to every session registered on `channel`, to each once, and to no
    /// other session.
    ///
    /// A session with a full queue has the message dropped rather than being taken out or
    /// blocking the others. A session whose receiving end is gone is taken out.
    ///
    /// Returns how many sessions got the message and how many had it dropped.
    pub fn route(&mut self, channel: &str, event: WsMessage) -> (counts: (usize, usize))
        requires
            old(self).wf(),
        ensures
            final(self).wf(),
            exists|served: Served|
                {
                    &&& #[trigger] serves(old(self)@, channel@, event, served)
                    &&& final(self)@ == after_serving(old(self)@, channel@, served)
                    &&& counts.0 == tally(served.answers, Delivery::Delivered)
                    &&& counts.1 == tally(served.answers, Delivery::Dropped)
                },
    {
        let answers: Vec<Delivery> = self.put_to_all(channel, &event);
        self.settle(channel, &answers)
    }

    /// Puts `event` to every session on `channel`, to each once, and collects the answers.
    fn put_to_all(&mut self, channel: &str, event: &WsMessage) -> (answers: Vec<Delivery>)
        requires
            old(self).wf(),
        ensures
            final(self).wf(),
            final(self).subscribers(channel@) == old(self).subscribers(channel@),
            answers@.len() == old(self).subscribers(channel@).len(),
            exists|served: Served|
                {
                    &&& #[trigger] serves(old(self)@, channel@, *event, served)
                    &&& served.sessions == old(self).subscribers(channel@)
                    &&& served.answers == answers@
                    &&& final(self)@ == handed(old(self)@, channel@, served)
                },
    {
        let mut answers: Vec<Delivery> = Vec::new();
        let ghost mut handles = Seq::<mpsc::Sender<WsMessage>>::empty();
        if let Some(sessions) = self.routes.get_mut(channel) {
            answers = put_to_each(sessions, event);
        }
        proof {
            let sessions = old(self).subscribers(channel@);
            if old(self).routes@.contains_key(channel@) {
                let before = old(self).routes@[channel@];
                before.lemma_names();
                self.routes@[channel@].lemma_names();
                handles = choose|handles: Seq<mpsc::Sender<WsMessage>>| #[trigger]
                    each_put_once(before, *event, answers@, handles, self.routes@[channel@]);
            }
            old(self).law_subscribers(channel@);
            let served = Served { sessions, answers: answers@, handles };
            assert(serves(old(self)@, channel@, *event, served));
            assert(self@ =~= handed(old(self)@, channel@, served));
        }
        answers
    }

    /// Takes out the sessions on `channel` whose queue is closed, given the answer of each
    /// session in the order of [`RoutingTable::sessions`]. Returns how many answers say
    /// delivered and how many say dropped.
    pub fn settle(&mut self, channel: &str, answers: &Vec<Delivery>) -> (counts: (usize, usize))
        requires
            old(self).wf(),
            answers@.len() == old(self).subscribers(channel@).len(),
        ensures
            final(self).wf(),
            final(self)@ == settled(
                old(self)@,
                channel@,
                old(self).subscribers(channel@),
                answers@,
            ),
            counts.0 == tally(answers@, Delivery::Delivered),
            counts.1 == tally(answers@, Delivery::Dropped),
    {
        let mut emptied = false;
        if let Some(sessions) = self.routes.get_mut(channel) {
            take_out_closed(sessions, answers);
            emptied = sessions.is_empty();
        }
        if emptied {
            self.routes.remove(channel);
        }
        proof {
            assert(self@ =~= settled(
                old(self)@,
                channel@,
                old(self).subscribers(channel@),
                answers@,
            ));
        }
        count_answers(answers)
    }

    /// The sessions on `channel`, each once, in the order in which they are served.
    pub fn sessions(&self, channel: &str) -> (sessions: Vec<String>)
        requires
            self.wf(),
        ensures
            sessions@.len() == self.subscribers(channel@).len(),
            forall|i: int|
                0 <= i < sessions@.len() ==> (#[trigger] sessions@[i])@ == self.subscribers(
                    channel@,
                )[i],
    {
        match self.routes.get(channel) {
            Some(sessions) => sessions.keys(),
            None => Vec::new(),
        }
    }

    /// Every channel in use, each once: what to subscribe to again on a new connection.
    pub fn channels(&self) -> (channels: Vec<String>)
        requires
            self.wf(),
        ensures
            lists_channels(channels@, self@),
    {
        proof {
            self.routes.lemma_names();
        }
        let channels = self.routes.keys();
        proof {
            let names = self.routes.names();
            assert forall|channel: Seq<char>| self@.contains_key(channel) implies exists|i: int|
                0 <= i < channels@.len() && (#[trigger] channels@[i])@ == channel by {
                assert(names.contains(channel));
                let i = choose|i: int| 0 <= i < names.len() && names[i] == channel;
                assert(channels@[i]@ == channel);
            }
        }
        channels
    }
}

/// `channels` names every channel of `routes` once, and no other.
pub open spec fn lists_channels(channels: Seq<String>, routes: Routes) -> bool {
    &&& forall|i: int| 0 <= i < channels.len() ==> routes.contains_key((#[trigger] channels[i])@)
    &&& forall|channel: Seq<char>| #[trigger]
        routes.contains_key(channel) ==> exists|i: int|
            0 <= i < channels.len() && (#[trigger] channels[i])@ == channel
    &&& forall|i: int, j: int|
        0 <= i < j < channels.len() ==> (#[trigger] channels[i])@ != (#[trigger] channels[j])@
}

/// A session is the last on a channel just when nothing is left without it.
pub proof fn lemma_last_session(
    sessions: Map<Seq<char>, mpsc::Sender<WsMessage>>,
    session: Seq<char>,
)
    ensures
        sessions.remove(session) == Map::<Seq<char>, mpsc::Sender<WsMessage>>::empty() <==> (
        forall|other: Seq<char>| #[trigger] sessions.contains_key(other) ==> other == session),
{
    let rest = sessions.remove(session);
    if rest == Map::<Seq<char>, mpsc::Sender<WsMessage>>::empty() {
        assert forall|other: Seq<char>| #[trigger] sessions.contains_key(other) implies other
            == session by {
            if other != session {
                assert(rest.contains_key(other));
            }
        }
    }
    if forall|other: Seq<char>| #[trigger] sessions.contains_key(other) ==> other == session {
        assert(rest =~= Map::empty());
    }
}

/// `event` was put to every session of `before` once; `answers` and `handles` tell what came
/// of it, in the order of the sessions, and `after` holds those handles.
spec fn each_put_once(
    before: NameMap<mpsc::Sender<WsMessage>>,
    event: WsMessage,
    answers: Seq<Delivery>,
    handles: Seq<mpsc::Sender<WsMessage>>,
    after: NameMap<mpsc::Sender<WsMessage>>,
) -> bool {
    let names = before.names();
    &&& after.names() == names
    &&& answers.len() == names.len()
    &&& handles.len() == names.len()
    &&& forall|i: int|
        0 <= i < names.len() ==> put_once(
            before@[#[trigger] names[i]],
            event,
            answers[i],
            handles[i],
        )
    &&& after@ == with_handles(before@, names, handles)
}

/// Puts `event` to every session once and collects the answers.
fn put_to_each(sessions: &mut NameMap<mpsc::Sender<WsMessage>>, event: &WsMessage) -> (answers: Vec<
    Delivery,
>)
    requires
        old(sessions).wf(),
    ensures
        final(sessions).wf(),
        final(sessions).names() == old(sessions).names(),
        answers@.len() == old(sessions).names().len(),
        exists|handles: Seq<mpsc::Sender<WsMessage>>| #[trigger]
            each_put_once(*old(sessions), *event, answers@, handles, *final(sessions)),
{
    let mut answers: Vec<Delivery> = Vec::new();
    let ghost mut handles = Seq::<mpsc::Sender<WsMessage>>::empty();
    let ghost before = *sessions;
    let ghost names = sessions.names();
    let total: usize = sessions.len();
    proof {
        sessions.lemma_names();
    }
    for at in 0..total
        invariant
            sessions.wf(),
            names == before.names(),
            names.no_duplicates(),
            forall|i: int| 0 <= i < names.len() ==> before@.contains_key(#[trigger] names[i]),
            sessions.names() == names,
            total == names.len(),
            answers@.len() == at,
            handles.len() == at,
            sessions@.dom() == before@.dom(),
            forall|i: int|
                0 <= i < at ==> put_once(
                    before@[#[trigger] names[i]],
                    *event,
                    answers@[i],
                    handles[i],
                ),
            forall|i: int|
                0 <= i < names.len() ==> sessions@[#[trigger] names[i]] == if i < at {
                    handles[i]
                } else {
                    before@[names[i]]
                },
    {
        let answer = put(sessions.value_at_mut(at), event.clone());
        answers.push(answer);
        proof {
            handles = handles.push(sessions@[names[at as int]]);
            assert(sessions@.dom() =~= before@.dom());
        }
    }
    proof {
        before.lemma_names();
        let after = with_handles(before@, names, handles);
        assert forall|session: Seq<char>| #[trigger] sessions@.contains_key(session) implies
            sessions@[session] == after[session] by {
            assert(names.contains(session));
            let at = names.index_of(session);
            assert(names[at] == session);
        }
        assert(sessions@ =~= after);
        assert(each_put_once(before, *event, answers@, handles, *sessions));
    }
    answers
}

/// Takes out the entries of `sessions` whose answer is `Closed`.
fn take_out_closed(
    sessions: &mut NameMap<mpsc::Sender<WsMessage>>,
    answers: &Vec<Delivery>,
)
    requires
        old(sessions).wf(),
        answers@.len() == old(sessions).names().len(),
    ensures
        final(sessions).wf(),
        final(sessions)@ == old(sessions)@.remove_keys(
            closed_sessions(old(sessions).names(), answers@),
        ),
{
    let ghost names = sessions.names();
    let ghost before = sessions@;
    let mut at: usize = answers.len();
    proof {
        sessions.lemma_names();
        assert(sessions@ =~= before.remove_keys(closed_from(names, answers@, at as int)));
    }
    while at > 0
        invariant
            sessions.wf(),
            names.no_duplicates(),
            at <= answers@.len() == names.len(),
            sessions.names().len() >= at,
            forall|i: int| 0 <= i < at ==> #[trigger] sessions.names()[i] == names[i],
            sessions@ == before.remove_keys(closed_from(names, answers@, at as int)),
        decreases at,
    {
        at = at - 1;
        if answers[at] == Delivery::Closed {
            sessions.remove_at(at);
        }
        assert(sessions@ =~= before.remove_keys(closed_from(names, answers@, at as int)));
    }
    assert(closed_from(names, answers@, 0) =~= closed_sessions(names, answers@));
}

/// The closed sessions from position `from` on.
spec fn closed_from(sessions: Seq<Seq<char>>, answers: Seq<Delivery>, from: int) -> Set<Seq<char>> {
    Set::new(
        |session: Seq<char>|
            exists|i: int|
                from <= i < sessions.len() && #[trigger] sessions[i] == session && answers[i]
                    == Delivery::Closed,
    )
}

/// Counts the answers that say delivered and those that say dropped.
fn count_answers(answers: &Vec<Delivery>) -> (counts: (usize, usize))
    ensures
        counts.0 == tally(answers@, Delivery::Delivered),
        counts.1 == tally(answers@, Delivery::Dropped),
{
    let mut delivered: usize = 0;
    let mut dropped: usize = 0;
    for at in 0..answers.len()
        invariant
            delivered == tally(answers@.take(at as int), Delivery::Delivered),
            dropped == tally(answers@.take(at as int), Delivery::Dropped),
            delivered + dropped <= at,
    {
        assert(answers@.take(at + 1).drop_last() =~= answers@.take(at as int));
        match answers[at] {
            Delivery::Delivered => {
                delivered = delivered + 1;
            },
            Delivery::Dropped => {
                dropped = dropped + 1;
            },
            Delivery::Closed => {},
        }
    }
    assert(answers@.take(answers@.len() as int) =~= answers@);
    (delivered, dropped)
}

/// Unsubscribing undoes subscribing: what is left is what was there without the session, and
/// exactly what was there when the session was not on the channel. The real subscription is
/// withdrawn in the second step just when the first step asked for it.
pub proof fn law_unsubscribe_undoes_subscribe(
    routes: Routes,
    channel: Seq<char>,
    session: Seq<char>,
    sender: mpsc::Sender<WsMessage>,
)
    requires
        no_idle_channel(routes),
    ensures
        without_session(with_session(routes, channel, session, sender), channel, session)
            == without_session(routes, channel, session),
        !(routes.contains_key(channel) && routes[channel].contains_key(session)) ==> {
            &&& without_session(with_session(routes, channel, session, sender), channel, session)
                == routes
            &&& is_last_session(with_session(routes, channel, session, sender), channel, session)
                <==> !routes.contains_key(channel)
        },
{
    let joined = with_session(routes, channel, session, sender);
    if routes.contains_key(channel) {
        assert(joined[channel].remove(session) =~= routes[channel].remove(session));
        assert(joined.remove(channel) =~= routes.remove(channel));
        assert(joined.insert(channel, routes[channel].remove(session)) =~= routes.insert(
            channel,
            routes[channel].remove(session),
        ));
        if !routes[channel].contains_key(session) {
            assert(routes[channel].remove(session) =~= routes[channel]);
            assert(routes.insert(channel, routes[channel]) =~= routes);
            assert(exists|other: Seq<char>| #[trigger] routes[channel].contains_key(other)) by {
                if forall|other: Seq<char>| !#[trigger] routes[channel].contains_key(other) {
                    assert(routes[channel] =~= Map::empty());
                }
            }
            let other = choose|other: Seq<char>| #[trigger] routes[channel].contains_key(other);
            assert(joined[channel].contains_key(other));
        }
    } else {
        assert(joined[channel].remove(session) =~= Map::empty());
        assert(joined.remove(channel) =~= routes);
    }
}

/// The routes once `session` is on each of `channels`, one after the other.
pub open spec fn with_session_on(
    routes: Routes,
    channels: Seq<Seq<char>>,
    session: Seq<char>,
    sender: mpsc::Sender<WsMessage>,
) -> Routes
    decreases channels.len(),
{
    if channels.len() == 0 {
        routes
    } else {
        with_session(
            with_session_on(routes, channels.drop_last(), session, sender),
            channels.last(),
            session,
            sender,
        )
    }
}

/// The routes once `session` is off each of `channels`, one after the other.
pub open spec fn without_session_on(
    routes: Routes,
    channels: Seq<Seq<char>>,
    session: Seq<char>,
) -> Routes
    decreases channels.len(),
{
    if channels.len() == 0 {
        routes
    } else {
        without_session(
            without_session_on(routes, channels.drop_last(), session),
            channels.last(),
            session,
        )
    }
}

proof fn lemma_with_session_on(
    routes: Routes,
    channels: Seq<Seq<char>>,
    session: Seq<char>,
    sender: mpsc::Sender<WsMessage>,
    channel: Seq<char>,
)
    ensures
        with_session_on(routes, channels, session, sender).get(channel) == if channels.contains(
            channel,
        ) {
            with_session(routes, channel, session, sender).get(channel)
        } else {
            routes.get(channel)
        },
    decreases channels.len(),
{
    if channels.len() > 0 {
        let fewer = channels.drop_last();
        lemma_with_session_on(routes, fewer, session, sender, channel);
        lemma_contains_last(channels, channel);
        if channel == channels.last() && fewer.contains(channel) {
            let earlier = with_session_on(routes, fewer, session, sender);
            assert(earlier.contains_key(channel));
            assert(earlier[channel].insert(session, sender) =~= earlier[channel]);
        }
    }
}

proof fn lemma_without_session_on(
    routes: Routes,
    channels: Seq<Seq<char>>,
    session: Seq<char>,
    channel: Seq<char>,
)
    ensures
        without_session_on(routes, channels, session).get(channel) == if channels.contains(
            channel,
        ) {
            without_session(routes, channel, session).get(channel)
        } else {
            routes.get(channel)
        },
    decreases channels.len(),
{
    if channels.len() > 0 {
        let fewer = channels.drop_last();
        lemma_without_session_on(routes, fewer, session, channel);
        lemma_contains_last(channels, channel);
        if channel == channels.last() && fewer.contains(channel) {
            let earlier = without_session_on(routes, fewer, session);
            if earlier.contains_key(channel) {
                assert(earlier[channel].remove(session) =~= earlier[channel]);
            }
        }
    }
}

proof fn lemma_contains_last(channels: Seq<Seq<char>>, channel: Seq<char>)
    requires
        channels.len() > 0,
    ensures
        channels.contains(channel) <==> channels.drop_last().contains(channel) || channel
            == channels.last(),
{
    let fewer = channels.drop_last();
    if channels.contains(channel) && channel != channels.last() {
        let i = choose|i: int| 0 <= i < channels.len() && channels[i] == channel;
        assert(fewer[i] == channel);
    }
    if fewer.contains(channel) {
        let i = choose|i: int| 0 <= i < fewer.len() && fewer[i] == channel;
        assert(channels[i] == channel);
    }
}

/// A session that goes on a number of channels, whichever they are, and then off the same
/// channels leaves the table as it was, if it was on none of them before.
pub proof fn law_leaving_all_undoes_joining_all(
    routes: Routes,
    channels: Seq<Seq<char>>,
    session: Seq<char>,
    sender: mpsc::Sender<WsMessage>,
)
    requires
        no_idle_channel(routes),
        forall|channel: Seq<char>| #[trigger]
            channels.contains(channel) && routes.contains_key(channel)
                ==> !routes[channel].contains_key(session),
    ensures
        without_session_on(
            with_session_on(routes, channels, session, sender),
            channels,
            session,
        ) == routes,
{
    let joined = with_session_on(routes, channels, session, sender);
    let left = without_session_on(joined, channels, session);
    assert forall|channel: Seq<char>| #[trigger] left.get(channel) == routes.get(channel) by {
        lemma_with_session_on(routes, channels, session, sender, channel);
        lemma_without_session_on(joined, channels, session, channel);
        if channels.contains(channel) {
            law_unsubscribe_undoes_subscribe(routes, channel, session, sender);
            let once = with_session(routes, channel, session, sender);
            assert(joined.contains_key(channel) && joined[channel] == once[channel]);
            assert(without_session(joined, channel, session).get(channel) == without_session(
                once,
                channel,
                session,
            ).get(channel));
        }
    }
    assert forall|channel: Seq<char>| #[trigger]
        left.contains_key(channel) == routes.contains_key(channel) by {
        assert(left.get(channel) == routes.get(channel));
    }
    assert forall|channel: Seq<char>| routes.contains_key(channel) implies #[trigger] left[channel]
        == routes[channel] by {
        assert(left.get(channel) == routes.get(channel));
    }
    assert(left =~= routes);
}

/// Subscribing a session again on the same channel only replaces its queue.
pub proof fn law_subscribing_again_replaces(
    routes: Routes,
    channel: Seq<char>,
    session: Seq<char>,
    first: mpsc::Sender<WsMessage>,
    second: mpsc::Sender<WsMessage>,
)
    ensures
        with_session(with_session(routes, channel, session, first), channel, session, second)
            == with_session(routes, channel, session, second),
{
    let once = with_session(routes, channel, session, first);
    let direct = with_session(routes, channel, session, second);
    assert(once[channel].insert(session, second) =~= direct[channel]);
    assert(once.insert(channel, direct[channel]) =~= direct);
}

/// Unsubscribing a second time changes nothing.
pub proof fn law_unsubscribing_again_is_idle(
    routes: Routes,
    channel: Seq<char>,
    session: Seq<char>,
)
    requires
        no_idle_channel(routes),
    ensures
        without_session(without_session(routes, channel, session), channel, session)
            == without_session(routes, channel, session),
        !is_last_session(without_session(routes, channel, session), channel, session),
{
    let once = without_session(routes, channel, session);
    if once.contains_key(channel) {
        let rest = once[channel];
        assert(rest.remove(session) =~= rest);
        assert(once.insert(channel, rest) =~= once);
        if is_last_session(once, channel, session) {
            assert(rest =~= Map::empty());
        }
    }
}

/// What is done on one channel leaves every other channel as it was.
pub proof fn law_other_channels_untouched(
    routes: Routes,
    channel: Seq<char>,
    other: Seq<char>,
    session: Seq<char>,
    sender: mpsc::Sender<WsMessage>,
    served: Served,
)
    requires
        channel != other,
    ensures
        with_session(routes, channel, session, sender).get(other) == routes.get(other),
        without_session(routes, channel, session).get(other) == routes.get(other),
        after_serving(routes, channel, served).get(other) == routes.get(other),
{
}

/// Delivering an event puts it to each session on the channel exactly one time. A session that
/// stays has the event, and nothing more, on the record of its queue; a session leaves just
/// when its queue answered that it is closed.
pub proof fn law_each_session_is_put_the_event_once(
    routes: Routes,
    channel: Seq<char>,
    event: WsMessage,
    served: Served,
    session: Seq<char>,
)
    requires
        serves(routes, channel, event, served),
        is_on(routes, channel, session),
    ensures
        ({
            let at = served.sessions.index_of(session);
            let after = after_serving(routes, channel, served);
            &&& 0 <= at < served.sessions.len()
            &&& served.sessions[at] == session
            &&& is_on(after, channel, session) <==> served.answers[at] != Delivery::Closed
            &&& is_on(after, channel, session) ==> {
                &&& after[channel][session] == served.handles[at]
                &&& put_once(
                    routes[channel][session],
                    event,
                    served.answers[at],
                    after[channel][session],
                )
            }
        }),
{
    assert(served.sessions.contains(session));
    let at = served.sessions.index_of(session);
    let told = handed(routes, channel, served);
    assert(told[channel].contains_key(session));
    law_only_closed_sessions_leave(told, channel, served.sessions, served.answers, at);
}

/// Delivering an event puts no session on a channel, and moves none to another.
pub proof fn law_delivering_adds_no_session(
    routes: Routes,
    channel: Seq<char>,
    event: WsMessage,
    served: Served,
    other: Seq<char>,
    session: Seq<char>,
)
    requires
        serves(routes, channel, event, served),
    ensures
        is_on(after_serving(routes, channel, served), other, session) ==> is_on(
            routes,
            other,
            session,
        ),
{
}

/// An event on a channel without sessions is put to nobody, counts nothing and leaves the table
/// as it was.
pub proof fn law_unknown_channel_reaches_nobody(
    routes: Routes,
    channel: Seq<char>,
    event: WsMessage,
    served: Served,
)
    requires
        !routes.contains_key(channel),
        serves(routes, channel, event, served),
    ensures
        served.sessions.len() == 0,
        after_serving(routes, channel, served) == routes,
        tally(served.answers, Delivery::Delivered) == 0,
        tally(served.answers, Delivery::Dropped) == 0,
{
    if served.sessions.len() > 0 {
        assert(served.sessions.contains(served.sessions[0]));
    }
}

/// Every session on a channel is counted once: as delivered, as dropped, or as closed.
pub proof fn law_every_answer_is_counted(answers: Seq<Delivery>)
    ensures
        tally(answers, Delivery::Delivered) + tally(answers, Delivery::Dropped) + tally(
            answers,
            Delivery::Closed,
        ) == answers.len(),
    decreases answers.len(),
{
    if answers.len() > 0 {
        law_every_answer_is_counted(answers.drop_last());
    }
}

/// A session stays on its channel, with its queue, unless that queue is closed: a full queue
/// is no reason to take it out.
pub proof fn law_only_closed_sessions_leave(
    routes: Routes,
    channel: Seq<char>,
    sessions: Seq<Seq<char>>,
    answers: Seq<Delivery>,
    at: int,
)
    requires
        routes.contains_key(channel),
        sessions.no_duplicates(),
        answers.len() == sessions.len(),
        0 <= at < sessions.len(),
        routes[channel].contains_key(sessions[at]),
    ensures
        answers[at] == Delivery::Closed ==> !(settled(routes, channel, sessions, answers)
            .contains_key(channel) && settled(routes, channel, sessions, answers)[channel]
            .contains_key(sessions[at])),
        answers[at] != Delivery::Closed ==> {
            &&& settled(routes, channel, sessions, answers).contains_key(channel)
            &&& settled(routes, channel, sessions, answers)[channel].contains_key(sessions[at])
            &&& settled(routes, channel, sessions, answers)[channel][sessions[at]]
                == routes[channel][sessions[at]]
        },
{
    let gone = closed_sessions(sessions, answers);
    let kept = routes[channel].remove_keys(gone);
    if answers[at] == Delivery::Closed {
        assert(gone.contains(sessions[at]));
    } else {
        assert(!gone.contains(sessions[at]));
        assert(kept.contains_key(sessions[at]));
    }
}

/// As long as no queue is closed, no session is taken out.
pub proof fn law_open_queues_keep_the_table(
    routes: Routes,
    channel: Seq<char>,
    sessions: Seq<Seq<char>>,
    answers: Seq<Delivery>,
)
    requires
        no_idle_channel(routes),
        answers.len() == sessions.len(),
        tally(answers, Delivery::Closed) == 0,
    ensures
        settled(routes, channel, sessions, answers) == routes,
{
    if routes.contains_key(channel) {
        assert forall|i: int| 0 <= i < answers.len() implies answers[i] != Delivery::Closed by {
            lemma_tally_positive(answers, i);
        }
        assert(routes[channel].remove_keys(closed_sessions(sessions, answers)) =~= routes[channel]);
        assert(routes.insert(channel, routes[channel]) =~= routes);
    }
}

proof fn lemma_tally_positive(answers: Seq<Delivery>, at: int)
    requires
        0 <= at < answers.len(),
    ensures
        tally(answers, answers[at]) > 0,
    decreases answers.len(),
{
    if at < answers.len() - 1 {
        lemma_tally_positive(answers.drop_last(), at);
    }
}

/// Each answer counts one: with another answer in its place, it is counted once less.
pub proof fn law_an_answer_counts_one(answers: Seq<Delivery>, at: int, instead: Delivery)
    requires
        0 <= at < answers.len(),
        instead != answers[at],
    ensures
        tally(answers, answers[at]) == tally(answers.update(at, instead), answers[at]) + 1,
    decreases answers.len(),
{
    let changed = answers.update(at, instead);
    if at < answers.len() - 1 {
        law_an_answer_counts_one(answers.drop_last(), at, instead);
        assert(changed.drop_last() =~= answers.drop_last().update(at, instead));
    } else {
        assert(changed.drop_last() =~= answers.drop_last());
    }
}

/// Once every queue of a channel is closed, the channel is out of the table.
pub proof fn law_dead_channel_leaves(
    routes: Routes,
    channel: Seq<char>,
    sessions: Seq<Seq<char>>,
    answers: Seq<Delivery>,
)
    requires
        answers.len() == sessions.len(),
        forall|session: Seq<char>| #[trigger]
            routes[channel].contains_key(session) ==> sessions.contains(session),
        forall|i: int| 0 <= i < answers.len() ==> #[trigger] answers[i] == Delivery::Closed,
    ensures
        !settled(routes, channel, sessions, answers).contains_key(channel),
{
    let gone = closed_sessions(sessions, answers);
    assert forall|session: Seq<char>| #[trigger]
        routes[channel].contains_key(session) implies gone.contains(session) by {
        let i = choose|i: int| 0 <= i < sessions.len() && sessions[i] == session;
        assert(answers[i] == Delivery::Closed);
    }
    assert(routes[channel].remove_keys(gone) =~= Map::empty());
}

} // verus!
