//! What the operations on the routing table do, session by session.

use crate::event::WsMessage;
use crate::queue::{copies, feeds, queue_limit, sent, Delivery};
use crate::routing_table::{
    after_serving, is_on, law_each_session_is_put_the_event_once, law_only_closed_sessions_leave,
    lemma_last_session, serves, settled, tally, with_session, without_session, Routes,
    RoutingTable, Served,
};
use tokio::sync::mpsc;
use vstd::prelude::*;

verus! {

/// Whether `session` is among those on `channel`.
pub open spec fn there(routes: Routes, channel: Seq<char>, session: Seq<char>) -> bool {
    routes.contains_key(channel) && routes[channel].contains_key(session)
}

/// Every session but `session` on `channel` is on the same channels before and after, with the
/// same handle to its queue. No channel but `channel` comes or goes.
pub open spec fn others_untouched(
    before: Routes,
    after: Routes,
    channel: Seq<char>,
    session: Seq<char>,
) -> bool {
    &&& forall|c: Seq<char>, s: Seq<char>|
        !(c == channel && s == session) ==> (after.contains_key(c)
            && #[trigger] after[c].contains_key(s)) == (before.contains_key(c)
            && before[c].contains_key(s))
    &&& forall|c: Seq<char>, s: Seq<char>|
        !(c == channel && s == session) && before.contains_key(c)
            && #[trigger] before[c].contains_key(s) ==> {
            &&& after.contains_key(c)
            &&& after[c].contains_key(s)
            &&& after[c][s] == before[c][s]
        }
    &&& forall|c: Seq<char>|
        c != channel ==> #[trigger] after.contains_key(c) == before.contains_key(c)
}

/// `session` is on `channel` with the handle `sender`.
pub open spec fn on_with(
    routes: Routes,
    channel: Seq<char>,
    session: Seq<char>,
    sender: mpsc::Sender<WsMessage>,
) -> bool {
    &&& routes.contains_key(channel)
    &&& routes[channel].contains_key(session)
    &&& routes[channel][session] == sender
}

/// The positions at which `answers` holds `answer`.
pub open spec fn positions(answers: Seq<Delivery>, answer: Delivery) -> Set<int> {
    Set::new(|i: int| 0 <= i < answers.len() && answers[i] == answer)
}

/// There is one answer for each session on `channel`, and no other answer; `answers[i]` is that
/// of `sessions[i]`.
pub open spec fn one_answer_each(
    before: Routes,
    channel: Seq<char>,
    sessions: Seq<Seq<char>>,
    answers: Seq<Delivery>,
) -> bool {
    &&& sessions.len() == answers.len()
    &&& sessions.no_duplicates()
    &&& forall|i: int|
        0 <= i < sessions.len() ==> there(before, channel, #[trigger] sessions[i])
    &&& forall|s: Seq<char>|
        before.contains_key(channel) && #[trigger] before[channel].contains_key(s)
            ==> sessions.contains(s)
}

/// `event` went to the session one time: on the record of its queue, the event and the answer
/// are the one new entry. It is the same queue as before.
pub open spec fn one_more_entry(
    before: mpsc::Sender<WsMessage>,
    event: WsMessage,
    answer: Delivery,
    after: mpsc::Sender<WsMessage>,
) -> bool {
    &&& sent(after) == sent(before).push((event, answer))
    &&& copies(after) == copies(before)
    &&& queue_limit(after) == queue_limit(before)
    &&& forall|receiver: mpsc::Receiver<WsMessage>|
        feeds(before, receiver) ==> #[trigger] feeds(after, receiver)
}

/// What becomes of the sessions on `channel` when `event` is put to each of them: a session
/// whose queue is closed leaves, every other one stays and has the event as the one new entry
/// on the record of its queue. Nobody joins, and no other channel is touched.
pub open spec fn each_reached_once(
    before: Routes,
    after: Routes,
    channel: Seq<char>,
    event: WsMessage,
    sessions: Seq<Seq<char>>,
    answers: Seq<Delivery>,
) -> bool {
    &&& forall|i: int|
        0 <= i < sessions.len() && answers[i] == Delivery::Closed ==> !there(
            after,
            channel,
            #[trigger] sessions[i],
        )
    &&& forall|i: int|
        0 <= i < sessions.len() && answers[i] != Delivery::Closed ==> {
            &&& there(after, channel, #[trigger] sessions[i])
            &&& one_more_entry(
                before[channel][sessions[i]],
                event,
                answers[i],
                after[channel][sessions[i]],
            )
        }
    &&& nobody_joins(before, after, channel)
}

/// On `channel` there is nobody who was not there before; every other channel is as it was.
pub open spec fn nobody_joins(before: Routes, after: Routes, channel: Seq<char>) -> bool {
    &&& forall|s: Seq<char>|
        after.contains_key(channel) && #[trigger] after[channel].contains_key(s)
            ==> before.contains_key(channel) && before[channel].contains_key(s)
    &&& forall|c: Seq<char>|
        c != channel ==> #[trigger] after.contains_key(c) == before.contains_key(c)
    &&& forall|c: Seq<char>|
        c != channel && before.contains_key(c) ==> #[trigger] after[c] == before[c]
}

/// A new table has no channel.
pub proof fn law_new_table_is_empty(table: RoutingTable)
    requires
        call_ensures(RoutingTable::new, (), table) || call_ensures(
            <RoutingTable as Default>::default,
            (),
            table,
        ),
    ensures
        table.wf(),
        forall|channel: Seq<char>| !#[trigger] table@.contains_key(channel),
{
}

/// Subscribing puts the session on the channel with the given queue and touches nobody else.
/// The answer says whether the channel had no session before.
pub proof fn law_subscribe_touches_nobody_else(
    channel: &str,
    session_id: &str,
    sender: mpsc::Sender<WsMessage>,
    is_new: bool,
)
    ensures
        forall|table: &mut RoutingTable| #[trigger]
            call_ensures(RoutingTable::subscribe, (table, channel, session_id, sender), is_new)
                ==> {
                &&& on_with(final(table)@, channel@, session_id@, sender)
                &&& others_untouched(table@, final(table)@, channel@, session_id@)
                &&& is_new <==> !table@.contains_key(channel@)
            },
{
    assert forall|table: &mut RoutingTable| #[trigger]
        call_ensures(
            RoutingTable::subscribe,
            (table, channel, session_id, sender),
            is_new,
        ) implies others_untouched(table@, final(table)@, channel@, session_id@) by {
        lemma_with_session(table@, channel@, session_id@, sender);
    }
}

/// Putting a session on a channel touches nobody else.
pub proof fn lemma_with_session(
    routes: Routes,
    channel: Seq<char>,
    session: Seq<char>,
    sender: mpsc::Sender<WsMessage>,
)
    ensures
        on_with(with_session(routes, channel, session, sender), channel, session, sender),
        others_untouched(
            routes,
            with_session(routes, channel, session, sender),
            channel,
            session,
        ),
{
}

/// Taking a session off a channel touches nobody else; the channel goes just when nobody else
/// was on it.
pub proof fn lemma_without_session(routes: Routes, channel: Seq<char>, session: Seq<char>)
    ensures
        ({
            let after = without_session(routes, channel, session);
            &&& !(after.contains_key(channel) && after[channel].contains_key(session))
            &&& others_untouched(routes, after, channel, session)
        }),
        routes.contains_key(channel) ==> (without_session(routes, channel, session).contains_key(
            channel,
        ) <==> exists|other: Seq<char>|
            other != session && #[trigger] routes[channel].contains_key(other)),
{
    let after = without_session(routes, channel, session);
    if routes.contains_key(channel) {
        let rest = routes[channel].remove(session);
        lemma_last_session(routes[channel], session);
        assert forall|c: Seq<char>, s: Seq<char>|
            !(c == channel && s == session) && routes.contains_key(c)
                && #[trigger] routes[c].contains_key(s) implies {
            &&& after.contains_key(c)
            &&& after[c].contains_key(s)
            &&& after[c][s] == routes[c][s]
        } by {
            if c == channel {
                assert(rest.contains_key(s));
            }
        }
    }
}

/// Unsubscribing takes the session off the channel and touches nobody else. The answer says
/// whether the channel went with it, which is so just when it was in use and no other session
/// was on it.
pub proof fn law_unsubscribe_touches_nobody_else(channel: &str, session_id: &str, was_last: bool)
    ensures
        forall|table: &mut RoutingTable| #[trigger]
            call_ensures(RoutingTable::unsubscribe, (table, channel, session_id), was_last) ==> {
                &&& !(final(table)@.contains_key(channel@)
                    && final(table)@[channel@].contains_key(session_id@))
                &&& others_untouched(table@, final(table)@, channel@, session_id@)
                &&& was_last <==> table@.contains_key(channel@) && !final(table)@.contains_key(
                    channel@,
                )
                &&& was_last <==> table@.contains_key(channel@) && !(exists|other: Seq<char>|
                    other != session_id@ && #[trigger] table@[channel@].contains_key(other))
            },
{
    assert forall|table: &mut RoutingTable| #[trigger]
        call_ensures(RoutingTable::unsubscribe, (table, channel, session_id), was_last) implies {
        &&& others_untouched(table@, final(table)@, channel@, session_id@)
        &&& was_last <==> table@.contains_key(channel@) && !final(table)@.contains_key(channel@)
        &&& was_last <==> table@.contains_key(channel@) && !(exists|other: Seq<char>|
            other != session_id@ && #[trigger] table@[channel@].contains_key(other))
    } by {
        lemma_without_session(table@, channel@, session_id@);
    }
}

/// A tally is the number of positions that hold the answer.
pub proof fn law_tally_counts_positions(answers: Seq<Delivery>, answer: Delivery)
    ensures
        positions(answers, answer).finite(),
        tally(answers, answer) == positions(answers, answer).len(),
    decreases answers.len(),
{
    if answers.len() == 0 {
        assert(positions(answers, answer) =~= Set::empty());
    } else {
        let fewer = answers.drop_last();
        let last = answers.len() - 1;
        law_tally_counts_positions(fewer, answer);
        if answers.last() == answer {
            assert(positions(answers, answer) =~= positions(fewer, answer).insert(last));
        } else {
            assert(positions(answers, answer) =~= positions(fewer, answer));
        }
    }
}

/// Routing an event puts it to every session on the channel one time, and to nobody else. The
/// counts are the numbers of answers that say delivered and dropped.
pub proof fn law_route_reaches_every_session_once(
    channel: &str,
    event: WsMessage,
    counts: (usize, usize),
)
    ensures
        forall|table: &mut RoutingTable| #[trigger]
            call_ensures(RoutingTable::route, (table, channel, event), counts)
                ==> exists|sessions: Seq<Seq<char>>, answers: Seq<Delivery>|
                {
                    &&& #[trigger] one_answer_each(table@, channel@, sessions, answers)
                    &&& each_reached_once(
                        table@,
                        final(table)@,
                        channel@,
                        event,
                        sessions,
                        answers,
                    )
                    &&& counts.0 == positions(answers, Delivery::Delivered).len()
                    &&& counts.1 == positions(answers, Delivery::Dropped).len()
                },
{
    assert forall|table: &mut RoutingTable| #[trigger]
        call_ensures(RoutingTable::route, (table, channel, event), counts) implies exists|
        sessions: Seq<Seq<char>>,
        answers: Seq<Delivery>,
    |
        {
            &&& #[trigger] one_answer_each(table@, channel@, sessions, answers)
            &&& each_reached_once(table@, final(table)@, channel@, event, sessions, answers)
            &&& counts.0 == positions(answers, Delivery::Delivered).len()
            &&& counts.1 == positions(answers, Delivery::Dropped).len()
        } by {
        let served = choose|served: Served|
            {
                &&& #[trigger] serves(table@, channel@, event, served)
                &&& final(table)@ == after_serving(table@, channel@, served)
                &&& counts.0 == tally(served.answers, Delivery::Delivered)
                &&& counts.1 == tally(served.answers, Delivery::Dropped)
            };
        lemma_served(table@, channel@, event, served);
        assert(one_answer_each(table@, channel@, served.sessions, served.answers));
    }
}

/// Serving the sessions on a channel reaches each of them one time.
pub proof fn lemma_served(before: Routes, channel: Seq<char>, event: WsMessage, served: Served)
    requires
        serves(before, channel, event, served),
    ensures
        one_answer_each(before, channel, served.sessions, served.answers),
        each_reached_once(
            before,
            after_serving(before, channel, served),
            channel,
            event,
            served.sessions,
            served.answers,
        ),
        forall|answer: Delivery| #[trigger]
            tally(served.answers, answer) == positions(served.answers, answer).len(),
{
    let after = after_serving(before, channel, served);
    assert forall|answer: Delivery| #[trigger]
        tally(served.answers, answer) == positions(served.answers, answer).len() by {
        law_tally_counts_positions(served.answers, answer);
    }
    assert forall|i: int| 0 <= i < served.sessions.len() implies there(
        before,
        channel,
        #[trigger] served.sessions[i],
    ) by {
        assert(served.sessions.contains(served.sessions[i]));
        assert(is_on(before, channel, served.sessions[i]));
    }
    assert forall|s: Seq<char>|
        before.contains_key(channel)
            && #[trigger] before[channel].contains_key(s) implies served.sessions.contains(s) by {
        assert(is_on(before, channel, s));
    }
    assert forall|i: int| 0 <= i < served.sessions.len() implies {
        let s = #[trigger] served.sessions[i];
        if served.answers[i] == Delivery::Closed {
            !there(after, channel, s)
        } else {
            &&& there(after, channel, s)
            &&& one_more_entry(
                before[channel][s],
                event,
                served.answers[i],
                after[channel][s],
            )
        }
    } by {
        let s = served.sessions[i];
        assert(is_on(before, channel, s));
        law_each_session_is_put_the_event_once(before, channel, event, served, s);
        assert(served.sessions.index_of(s) == i);
        assert(is_on(after, channel, s) <==> served.answers[i] != Delivery::Closed);
    }
}

/// Settling takes out the sessions whose answer says that the queue is closed, and nobody else,
/// and does not touch the queues of the others. The counts are the numbers of answers that say
/// delivered and dropped.
pub proof fn law_settle_takes_out_the_closed(
    channel: &str,
    answers: &Vec<Delivery>,
    counts: (usize, usize),
)
    ensures
        forall|table: &mut RoutingTable| #[trigger]
            call_ensures(RoutingTable::settle, (table, channel, answers), counts) && table.wf()
                && answers@.len() == table.subscribers(channel@).len() ==> {
                &&& one_answer_each(
                    table@,
                    channel@,
                    table.subscribers(channel@),
                    answers@,
                )
                &&& closed_ones_leave(
                    table@,
                    final(table)@,
                    channel@,
                    table.subscribers(channel@),
                    answers@,
                )
                &&& counts.0 == positions(answers@, Delivery::Delivered).len()
                &&& counts.1 == positions(answers@, Delivery::Dropped).len()
            },
{
    law_tally_counts_positions(answers@, Delivery::Delivered);
    law_tally_counts_positions(answers@, Delivery::Dropped);
    assert forall|table: &mut RoutingTable| #[trigger]
        call_ensures(RoutingTable::settle, (table, channel, answers), counts) && table.wf()
            && answers@.len() == table.subscribers(channel@).len() implies {
        &&& one_answer_each(table@, channel@, table.subscribers(channel@), answers@)
        &&& closed_ones_leave(
            table@,
            final(table)@,
            channel@,
            table.subscribers(channel@),
            answers@,
        )
    } by {
        table.law_subscribers(channel@);
        lemma_settled(table@, channel@, table.subscribers(channel@), answers@);
    }
}

/// A session whose answer is that its queue is closed leaves; every other one stays, with the
/// same handle. Nobody joins, and no other channel is touched.
pub open spec fn closed_ones_leave(
    before: Routes,
    after: Routes,
    channel: Seq<char>,
    sessions: Seq<Seq<char>>,
    answers: Seq<Delivery>,
) -> bool {
    &&& forall|i: int|
        0 <= i < sessions.len() && answers[i] == Delivery::Closed ==> !there(
            after,
            channel,
            #[trigger] sessions[i],
        )
    &&& forall|i: int|
        0 <= i < sessions.len() && answers[i] != Delivery::Closed ==> on_with(
            after,
            channel,
            #[trigger] sessions[i],
            before[channel][sessions[i]],
        )
    &&& nobody_joins(before, after, channel)
}

proof fn lemma_settled(
    before: Routes,
    channel: Seq<char>,
    sessions: Seq<Seq<char>>,
    answers: Seq<Delivery>,
)
    requires
        answers.len() == sessions.len(),
        sessions.no_duplicates(),
        forall|session: Seq<char>| #[trigger]
            sessions.contains(session) <==> before.contains_key(channel)
                && before[channel].contains_key(session),
    ensures
        one_answer_each(before, channel, sessions, answers),
        closed_ones_leave(
            before,
            settled(before, channel, sessions, answers),
            channel,
            sessions,
            answers,
        ),
{
    let after = settled(before, channel, sessions, answers);
    assert forall|i: int| 0 <= i < sessions.len() implies there(
        before,
        channel,
        #[trigger] sessions[i],
    ) by {
        assert(sessions.contains(sessions[i]));
    }
    assert forall|i: int| 0 <= i < sessions.len() implies {
        let s = #[trigger] sessions[i];
        if answers[i] == Delivery::Closed {
            !there(after, channel, s)
        } else {
            on_with(after, channel, s, before[channel][s])
        }
    } by {
        assert(sessions.contains(sessions[i]));
        law_only_closed_sessions_leave(before, channel, sessions, answers, i);
    }
}

/// The channels that a table lists are those that have a session, each once.
pub proof fn law_channels_are_those_in_use(table: &RoutingTable, channels: Vec<String>)
    requires
        call_ensures(RoutingTable::channels, (table,), channels),
    ensures
        forall|i: int|
            0 <= i < channels@.len() ==> table@.contains_key((#[trigger] channels@[i])@),
        forall|c: Seq<char>| #[trigger]
            table@.contains_key(c) ==> exists|i: int|
                0 <= i < channels@.len() && (#[trigger] channels@[i])@ == c,
        forall|i: int, j: int|
            0 <= i < j < channels@.len() ==> (#[trigger] channels@[i])@ != (
            #[trigger] channels@[j])@,
{
}

/// The sessions that a table lists for a channel are those that are on it, each once.
pub proof fn law_sessions_are_those_on_the_channel(
    table: &RoutingTable,
    channel: &str,
    sessions: Vec<String>,
)
    requires
        table.wf(),
        call_ensures(RoutingTable::sessions, (table, channel), sessions),
    ensures
        forall|i: int|
            0 <= i < sessions@.len() ==> there(table@, channel@, (#[trigger] sessions@[i])@),
        forall|s: Seq<char>|
            table@.contains_key(channel@) && #[trigger] table@[channel@].contains_key(s)
                ==> exists|i: int| 0 <= i < sessions@.len() && (#[trigger] sessions@[i])@ == s,
        forall|i: int, j: int|
            0 <= i < j < sessions@.len() ==> (#[trigger] sessions@[i])@ != (
            #[trigger] sessions@[j])@,
{
    table.law_subscribers(channel@);
    let names = table.subscribers(channel@);
    assert forall|i: int| 0 <= i < sessions@.len() implies there(
        table@,
        channel@,
        (#[trigger] sessions@[i])@,
    ) by {
        assert(names.contains(names[i]));
    }
    assert forall|s: Seq<char>|
        table@.contains_key(channel@)
            && #[trigger] table@[channel@].contains_key(s) implies exists|i: int|
        0 <= i < sessions@.len() && (#[trigger] sessions@[i])@ == s by {
        assert(names.contains(s));
        let i = choose|i: int| 0 <= i < names.len() && names[i] == s;
        assert(sessions@[i]@ == s);
    }
}

} // verus!
