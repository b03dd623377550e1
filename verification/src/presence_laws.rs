//! What the shared store says about who is online.

use crate::presence::{
    add_commands, session_user_key, user_node_key, user_sessions_key, RemovalStage, RemovalView,
    ONLINE_USERS_KEY, SESSION_USER_PREFIX, USER_NODE_PREFIX, USER_SESSIONS_PREFIX,
};
use crate::store::{
    accepts, accepts_all, members_at, performed, performed_all, reply_to, text_at, with_members, Store,
    StoreCommandView, StoreReplyView, StoreValue,
};
use vstd::prelude::*;

verus! {

/// The sessions that are online.
pub open spec fn online(store: Store) -> Set<Seq<char>> {
    members_at(store, ONLINE_USERS_KEY@)
}

/// The user of a session.
pub open spec fn user_of(store: Store, session_id: Seq<char>) -> Option<Seq<char>> {
    text_at(store, session_user_key(session_id))
}

/// The sessions of a user.
pub open spec fn sessions_of(store: Store, user_id: Seq<char>) -> Set<Seq<char>> {
    members_at(store, user_sessions_key(user_id))
}

/// The node of a user.
pub open spec fn node_of(store: Store, user_id: Seq<char>) -> Option<Seq<char>> {
    text_at(store, user_node_key(user_id))
}

/// Whether a set of the store can be under `key`: one with members, and not without end.
pub open spec fn holds_set(store: Store, key: Seq<char>) -> bool {
    store.contains_key(key) ==> {
        &&& store[key] is Members
        &&& store[key]->Members_0.finite()
        &&& store[key]->Members_0 != Set::<Seq<char>>::empty()
    }
}

/// Whether a text can be under `key`.
pub open spec fn holds_text(store: Store, key: Seq<char>) -> bool {
    store.contains_key(key) ==> store[key] is Text
}

/// The four kinds of keys agree: a session is online just when it has a user, it is among
/// the sessions of that user and of no other, and a user has a node just when the user has
/// a session.
pub open spec fn consistent(store: Store) -> bool {
    &&& holds_set(store, ONLINE_USERS_KEY@)
    &&& forall|user: Seq<char>| holds_set(store, #[trigger] user_sessions_key(user))
    &&& forall|session: Seq<char>| holds_text(store, #[trigger] session_user_key(session))
    &&& forall|user: Seq<char>| holds_text(store, #[trigger] user_node_key(user))
    &&& forall|session: Seq<char>|
        online(store).contains(session) <==> #[trigger] user_of(store, session) is Some
    &&& forall|session: Seq<char>, user: Seq<char>|
        #![trigger sessions_of(store, user), user_of(store, session)]
        sessions_of(store, user).contains(session) <==> user_of(store, session) == Some(user)
    &&& forall|user: Seq<char>|
        #![trigger node_of(store, user)]
        #![trigger sessions_of(store, user)]
        node_of(store, user) is Some <==> sessions_of(store, user) != Set::<Seq<char>>::empty()
}

/// Two keys are the same only if they are of the same kind and of the same id.
pub proof fn law_keys_are_distinct(a: Seq<char>, b: Seq<char>)
    ensures
        session_user_key(a) == session_user_key(b) <==> a == b,
        user_sessions_key(a) == user_sessions_key(b) <==> a == b,
        user_node_key(a) == user_node_key(b) <==> a == b,
        session_user_key(a) != user_sessions_key(b),
        session_user_key(a) != user_node_key(b),
        user_sessions_key(a) != user_node_key(b),
        session_user_key(a) != ONLINE_USERS_KEY@,
        user_sessions_key(a) != ONLINE_USERS_KEY@,
        user_node_key(a) != ONLINE_USERS_KEY@,
{
    reveal_strlit("arifa:online_users");
    reveal_strlit("arifa:user_sessions");
    reveal_strlit("arifa:session_user");
    reveal_strlit("arifa:user_node");
    lemma_key_ends_with_id(SESSION_USER_PREFIX@, a, b);
    lemma_key_ends_with_id(USER_SESSIONS_PREFIX@, a, b);
    lemma_key_ends_with_id(USER_NODE_PREFIX@, a, b);
    assert(session_user_key(a)[6] == 's');
    assert(user_sessions_key(a)[6] == 'u');
    assert(user_sessions_key(b)[6] == 'u');
    assert(user_node_key(a)[6] == 'u');
    assert(user_node_key(b)[6] == 'u');
    assert(ONLINE_USERS_KEY@[6] == 'o');
    assert(user_sessions_key(a)[11] == 's');
    assert(user_node_key(b)[11] == 'n');
}

proof fn lemma_key_ends_with_id(prefix: Seq<char>, a: Seq<char>, b: Seq<char>)
    ensures
        crate::presence::key_of(prefix, a) == crate::presence::key_of(prefix, b) <==> a == b,
{
    let key_a = crate::presence::key_of(prefix, a);
    let key_b = crate::presence::key_of(prefix, b);
    assert(key_a.skip((prefix.len() + 1) as int) =~= a);
    assert(key_b.skip((prefix.len() + 1) as int) =~= b);
}

proof fn lemma_keys()
    ensures
        forall|a: Seq<char>, b: Seq<char>|
            #![trigger session_user_key(a), session_user_key(b)]
            session_user_key(a) == session_user_key(b) ==> a == b,
        forall|a: Seq<char>, b: Seq<char>|
            #![trigger user_sessions_key(a), user_sessions_key(b)]
            user_sessions_key(a) == user_sessions_key(b) ==> a == b,
        forall|a: Seq<char>, b: Seq<char>|
            #![trigger user_node_key(a), user_node_key(b)]
            user_node_key(a) == user_node_key(b) ==> a == b,
        forall|a: Seq<char>, b: Seq<char>|
            #![trigger session_user_key(a), user_sessions_key(b)]
            session_user_key(a) != user_sessions_key(b),
        forall|a: Seq<char>, b: Seq<char>|
            #![trigger session_user_key(a), user_node_key(b)]
            session_user_key(a) != user_node_key(b),
        forall|a: Seq<char>, b: Seq<char>|
            #![trigger user_sessions_key(a), user_node_key(b)]
            user_sessions_key(a) != user_node_key(b),
        forall|a: Seq<char>| #[trigger] session_user_key(a) != ONLINE_USERS_KEY@,
        forall|a: Seq<char>| #[trigger] user_sessions_key(a) != ONLINE_USERS_KEY@,
        forall|a: Seq<char>| #[trigger] user_node_key(a) != ONLINE_USERS_KEY@,
{
    assert forall|a: Seq<char>, b: Seq<char>|
        #![trigger session_user_key(a), user_sessions_key(b)]
        session_user_key(a) != user_sessions_key(b) by {
        law_keys_are_distinct(a, b);
    }
    assert forall|a: Seq<char>, b: Seq<char>|
        #![trigger session_user_key(a), session_user_key(b)]
        session_user_key(a) == session_user_key(b) implies a == b by {
        law_keys_are_distinct(a, b);
    }
    assert forall|a: Seq<char>, b: Seq<char>|
        #![trigger user_sessions_key(a), user_sessions_key(b)]
        user_sessions_key(a) == user_sessions_key(b) implies a == b by {
        law_keys_are_distinct(a, b);
    }
    assert forall|a: Seq<char>, b: Seq<char>|
        #![trigger user_node_key(a), user_node_key(b)]
        user_node_key(a) == user_node_key(b) implies a == b by {
        law_keys_are_distinct(a, b);
    }
    assert forall|a: Seq<char>, b: Seq<char>|
        #![trigger session_user_key(a), user_node_key(b)]
        session_user_key(a) != user_node_key(b) by {
        law_keys_are_distinct(a, b);
    }
    assert forall|a: Seq<char>, b: Seq<char>|
        #![trigger user_sessions_key(a), user_node_key(b)]
        user_sessions_key(a) != user_node_key(b) by {
        law_keys_are_distinct(a, b);
    }
    assert forall|a: Seq<char>| #[trigger] session_user_key(a) != ONLINE_USERS_KEY@ by {
        law_keys_are_distinct(a, a);
    }
    assert forall|a: Seq<char>| #[trigger] user_sessions_key(a) != ONLINE_USERS_KEY@ by {
        law_keys_are_distinct(a, a);
    }
    assert forall|a: Seq<char>| #[trigger] user_node_key(a) != ONLINE_USERS_KEY@ by {
        law_keys_are_distinct(a, a);
    }
}

/// The store once a session of a user is marked online at a node.
pub open spec fn added(
    store: Store,
    node_id: Seq<char>,
    session_id: Seq<char>,
    user_id: Seq<char>,
) -> Store {
    performed_all(store, add_commands(node_id, session_id, user_id))
}

proof fn lemma_add_commands(
    store: Store,
    node_id: Seq<char>,
    session_id: Seq<char>,
    user_id: Seq<char>,
)
    ensures
        ({
            let commands = add_commands(node_id, session_id, user_id);
            let first = performed(store, commands[0]);
            let second = performed(first, commands[1]);
            let third = performed(second, commands[2]);
            &&& added(store, node_id, session_id, user_id) == performed(third, commands[3])
            &&& accepts_all(store, commands) == {
                &&& accepts(store, commands[0])
                &&& accepts(first, commands[1])
                &&& accepts(second, commands[2])
                &&& accepts(third, commands[3])
            }
        }),
{
    reveal_with_fuel(performed_all, 5);
    reveal_with_fuel(accepts_all, 5);
    let commands = add_commands(node_id, session_id, user_id);
    assert(commands.drop_last().drop_last().drop_last().drop_last() =~= Seq::empty());
}

/// Marking a session online: it joins the sessions that are online and those of its user,
/// whose node is then the one given. The store carries out all the commands, its keys keep
/// agreeing, and no other session or user is touched. The session is new, or was marked
/// online for the same user before.
pub proof fn law_add_online_user(
    store: Store,
    node_id: Seq<char>,
    session_id: Seq<char>,
    user_id: Seq<char>,
)
    requires
        consistent(store),
        user_of(store, session_id) matches Some(user) ==> user == user_id,
    ensures
        accepts_all(store, add_commands(node_id, session_id, user_id)),
        consistent(added(store, node_id, session_id, user_id)),
        online(added(store, node_id, session_id, user_id)) == online(store).insert(session_id),
        user_of(added(store, node_id, session_id, user_id), session_id) == Some(user_id),
        sessions_of(added(store, node_id, session_id, user_id), user_id) == sessions_of(
            store,
            user_id,
        ).insert(session_id),
        node_of(added(store, node_id, session_id, user_id), user_id) == Some(node_id),
        forall|session: Seq<char>|
            session != session_id ==> #[trigger] user_of(
                added(store, node_id, session_id, user_id),
                session,
            ) == user_of(store, session),
        forall|user: Seq<char>|
            user != user_id ==> {
                &&& #[trigger] sessions_of(added(store, node_id, session_id, user_id), user)
                    == sessions_of(store, user)
                &&& node_of(added(store, node_id, session_id, user_id), user) == node_of(
                    store,
                    user,
                )
            },
{
    lemma_keys();
    lemma_add_commands(store, node_id, session_id, user_id);
    let after = added(store, node_id, session_id, user_id);
    assert(online(store).insert(session_id).contains(session_id));
    assert(sessions_of(store, user_id).insert(session_id).contains(session_id));
    assert forall|session: Seq<char>| session != session_id implies #[trigger] user_of(
        after,
        session,
    ) == user_of(store, session) by {
        assert(session_user_key(session) != session_user_key(session_id));
    }
    assert forall|user: Seq<char>| user != user_id implies {
        &&& #[trigger] sessions_of(after, user) == sessions_of(store, user)
        &&& node_of(after, user) == node_of(store, user)
    } by {
        assert(user_sessions_key(user) != user_sessions_key(user_id));
        assert(user_node_key(user) != user_node_key(user_id));
    }
}

/// How many steps of a removal are still to come, at most.
pub open spec fn steps_left(stage: RemovalStage) -> nat {
    match stage {
        RemovalStage::LookUp => 7,
        RemovalStage::LeaveOnline => 6,
        RemovalStage::LeaveUser(_) => 5,
        RemovalStage::ForgetSession(_) => 4,
        RemovalStage::CountRest(_) => 3,
        RemovalStage::ForgetNode(_) => 2,
        RemovalStage::ForgetUser(_) => 1,
        RemovalStage::Finished => 0,
    }
}

/// The store once a removal has run to its end, each command being carried out and answered
/// by the store.
pub open spec fn removal_done(removal: RemovalView, reply: StoreReplyView, store: Store) -> Store
    decreases steps_left(removal.stage),
{
    match removal.command(reply) {
        Some(command) => removal_done(
            removal.after(reply),
            reply_to(store, command),
            performed(store, command),
        ),
        None => store,
    }
}

/// Whether the store carries out every command of a removal.
pub open spec fn removal_accepted(
    removal: RemovalView,
    reply: StoreReplyView,
    store: Store,
) -> bool
    decreases steps_left(removal.stage),
{
    match removal.command(reply) {
        Some(command) => accepts(store, command) && removal_accepted(
            removal.after(reply),
            reply_to(store, command),
            performed(store, command),
        ),
        None => true,
    }
}

/// The store once a session is removed from those that are online.
pub open spec fn removed(store: Store, session_id: Seq<char>) -> Store {
    removal_done(RemovalView::initial(session_id), StoreReplyView::Done, store)
}

/// What is left of the store once an online session of `user` is removed.
spec fn without_online_session(store: Store, session_id: Seq<char>, user: Seq<char>) -> Store {
    let rest = sessions_of(store, user).remove(session_id);
    let left = with_members(
        with_members(store, ONLINE_USERS_KEY@, online(store).remove(session_id)),
        user_sessions_key(user),
        rest,
    ).remove(session_user_key(session_id));
    if rest == Set::<Seq<char>>::empty() {
        left.remove(user_node_key(user))
    } else {
        left
    }
}

proof fn lemma_removed(store: Store, session_id: Seq<char>)
    requires
        consistent(store),
    ensures
        removal_accepted(RemovalView::initial(session_id), StoreReplyView::Done, store),
        removed(store, session_id) == match user_of(store, session_id) {
            Some(user) => without_online_session(store, session_id, user),
            None => store,
        },
{
    lemma_keys();
    reveal_with_fuel(removal_done, 9);
    reveal_with_fuel(removal_accepted, 9);
    let after = removed(store, session_id);
    match user_of(store, session_id) {
        Some(user) => {
            let rest = sessions_of(store, user).remove(session_id);
            let first = with_members(store, ONLINE_USERS_KEY@, online(store).remove(session_id));
            let second = with_members(first, user_sessions_key(user), rest);
            let third = second.remove(session_user_key(session_id));
            assert(sessions_of(store, user).contains(session_id));
            assert(sessions_of(first, user) == sessions_of(store, user));
            assert(sessions_of(third, user) == rest);
            if rest.len() == 0 {
                rest.lemma_len0_is_empty();
            }
            assert(after =~= without_online_session(store, session_id, user));
        },
        None => {
            assert(!online(store).contains(session_id));
            assert(online(store).remove(session_id) =~= online(store));
            assert(after =~= store);
        },
    }
}

/// Removing a session: it leaves the sessions that are online and those of its user; with
/// the last session the node of the user is forgotten too. The store carries out all the
/// commands, its keys keep agreeing, and no other session or user is touched. A session that
/// is not online leaves the store as it was.
pub proof fn law_remove_online_user(store: Store, session_id: Seq<char>)
    requires
        consistent(store),
    ensures
        removal_accepted(RemovalView::initial(session_id), StoreReplyView::Done, store),
        consistent(removed(store, session_id)),
        online(removed(store, session_id)) == online(store).remove(session_id),
        user_of(removed(store, session_id), session_id) is None,
        forall|session: Seq<char>|
            session != session_id ==> #[trigger] user_of(removed(store, session_id), session)
                == user_of(store, session),
        match user_of(store, session_id) {
            Some(user) => {
                let rest = sessions_of(store, user).remove(session_id);
                &&& sessions_of(removed(store, session_id), user) == rest
                &&& node_of(removed(store, session_id), user) == if rest == Set::<
                    Seq<char>,
                >::empty() {
                    None
                } else {
                    node_of(store, user)
                }
                &&& forall|other: Seq<char>|
                    other != user ==> {
                        &&& #[trigger] sessions_of(removed(store, session_id), other)
                            == sessions_of(store, other)
                        &&& node_of(removed(store, session_id), other) == node_of(store, other)
                    }
            },
            None => removed(store, session_id) == store,
        },
{
    lemma_keys();
    lemma_removed(store, session_id);
    let after = removed(store, session_id);
    match user_of(store, session_id) {
        Some(user) => {
            assert(sessions_of(store, user).contains(session_id));
            let rest = sessions_of(store, user).remove(session_id);
            assert forall|other: Seq<char>| #[trigger] sessions_of(after, other) == if other
                == user {
                rest
            } else {
                sessions_of(store, other)
            } by {
                assert(user_sessions_key(other) == user_sessions_key(user) ==> other == user);
            }
            assert forall|session: Seq<char>, other: Seq<char>|
                #![trigger sessions_of(after, other), user_of(after, session)]
                sessions_of(after, other).contains(session) <==> user_of(after, session) == Some(
                    other,
                ) by {
                assert(sessions_of(store, other).contains(session) <==> user_of(store, session)
                    == Some(other));
            }
            assert forall|other: Seq<char>|
                node_of(after, other) is Some <==> #[trigger] sessions_of(after, other) != Set::<
                    Seq<char>,
                >::empty() by {
                assert(node_of(store, other) is Some <==> sessions_of(store, other) != Set::<
                    Seq<char>,
                >::empty());
                assert(user_node_key(other) == user_node_key(user) ==> other == user);
            }
            assert forall|session: Seq<char>|
                online(after).contains(session) <==> #[trigger] user_of(after, session) is Some by {
                assert(online(store).contains(session) <==> user_of(store, session) is Some);
                assert(session_user_key(session) == session_user_key(session_id) ==> session
                    == session_id);
            }
        },
        None => {
            assert(!online(store).contains(session_id));
            assert(online(store).remove(session_id) =~= online(store));
        },
    }
}

/// In a store that holds nothing, nobody is online and the keys agree.
pub proof fn law_empty_store_is_consistent()
    ensures
        consistent(Map::empty()),
        online(Map::empty()) == Set::<Seq<char>>::empty(),
{
}

/// Removing a session that was new when it was marked online undoes the marking. Only the
/// node of a user who has other sessions stays the one of the latest marking.
pub proof fn law_remove_undoes_add(
    store: Store,
    node_id: Seq<char>,
    session_id: Seq<char>,
    user_id: Seq<char>,
)
    requires
        consistent(store),
        user_of(store, session_id) is None,
    ensures
        removed(added(store, node_id, session_id, user_id), session_id) == if sessions_of(
            store,
            user_id,
        ) == Set::<Seq<char>>::empty() {
            store
        } else {
            store.insert(user_node_key(user_id), StoreValue::Text(node_id))
        },
{
    lemma_keys();
    law_add_online_user(store, node_id, session_id, user_id);
    lemma_add_commands(store, node_id, session_id, user_id);
    let with = added(store, node_id, session_id, user_id);
    lemma_removed(with, session_id);
    assert(!online(store).contains(session_id));
    assert(sessions_of(store, user_id).contains(session_id) ==> user_of(store, session_id) == Some(
        user_id,
    ));
    assert(online(with).remove(session_id) =~= online(store));
    assert(sessions_of(with, user_id).remove(session_id) =~= sessions_of(store, user_id));
    assert(node_of(store, user_id) is Some <==> sessions_of(store, user_id) != Set::<
        Seq<char>,
    >::empty());
    if sessions_of(store, user_id) == Set::<Seq<char>>::empty() {
        assert(removed(with, session_id) =~= store);
    } else {
        assert(removed(with, session_id) =~= store.insert(
            user_node_key(user_id),
            StoreValue::Text(node_id),
        ));
    }
}

/// Asking for the node of a user gives the node that marked a session of the user online
/// last, and gives none once every session of the user is removed.
pub proof fn law_user_node_is_the_latest(
    store: Store,
    node_id: Seq<char>,
    session_id: Seq<char>,
    user_id: Seq<char>,
)
    requires
        consistent(store),
    ensures
        reply_to(
            added(store, node_id, session_id, user_id),
            StoreCommandView::Get { key: user_node_key(user_id) },
        ) == StoreReplyView::Text(Some(node_id)),
        sessions_of(store, user_id) == Set::<Seq<char>>::empty() ==> reply_to(
            store,
            StoreCommandView::Get { key: user_node_key(user_id) },
        ) == StoreReplyView::Text(None),
{
    lemma_add_commands(store, node_id, session_id, user_id);
    assert(node_of(store, user_id) is Some <==> sessions_of(store, user_id) != Set::<
        Seq<char>,
    >::empty());
}

/// The number of online users is the number of sessions that are online: a session that is
/// marked online for the first time adds one, whoever its user is, and an online session
/// that is removed takes one away.
pub proof fn law_online_users_counts_sessions(
    store: Store,
    node_id: Seq<char>,
    session_id: Seq<char>,
    user_id: Seq<char>,
)
    requires
        consistent(store),
    ensures
        reply_to(store, StoreCommandView::SCard { key: ONLINE_USERS_KEY@ })
            == StoreReplyView::Count(online(store).len()),
        user_of(store, session_id) is None ==> online(
            added(store, node_id, session_id, user_id),
        ).len() == online(store).len() + 1,
        user_of(store, session_id) is Some ==> online(removed(store, session_id)).len() == online(
            store,
        ).len() - 1,
{
    if user_of(store, session_id) is None {
        law_add_online_user(store, node_id, session_id, user_id);
        assert(!online(store).contains(session_id));
    } else {
        law_remove_online_user(store, session_id);
        assert(online(store).contains(session_id));
    }
}

/// The sessions of a user are counted to tell whether the user is online: the count is above
/// zero just when a session of that user is online.
pub proof fn law_user_is_online_with_a_session(store: Store, user_id: Seq<char>)
    requires
        consistent(store),
    ensures
        reply_to(store, StoreCommandView::SCard { key: user_sessions_key(user_id) })
            == StoreReplyView::Count(sessions_of(store, user_id).len()),
        sessions_of(store, user_id).len() > 0 <==> exists|session: Seq<char>|
            #![trigger user_of(store, session)]
            online(store).contains(session) && user_of(store, session) == Some(user_id),
{
    let sessions = sessions_of(store, user_id);
    assert(holds_set(store, user_sessions_key(user_id)));
    if sessions.len() > 0 {
        let session = sessions.choose();
        assert(sessions.contains(session));
        assert(user_of(store, session) == Some(user_id));
    }
    if exists|session: Seq<char>|
        #![trigger user_of(store, session)]
        online(store).contains(session) && user_of(store, session) == Some(user_id) {
        let session = choose|session: Seq<char>|
            #![trigger user_of(store, session)]
            online(store).contains(session) && user_of(store, session) == Some(user_id);
        assert(sessions.contains(session));
    }
}

/// A user with two sessions stays online when one of them is removed.
pub proof fn law_other_session_keeps_user_online(
    store: Store,
    user_id: Seq<char>,
    leaving: Seq<char>,
    staying: Seq<char>,
)
    requires
        consistent(store),
        leaving != staying,
        user_of(store, leaving) == Some(user_id),
        user_of(store, staying) == Some(user_id),
    ensures
        sessions_of(removed(store, leaving), user_id).contains(staying),
        sessions_of(removed(store, leaving), user_id).len() > 0,
        node_of(removed(store, leaving), user_id) == node_of(store, user_id),
{
    law_remove_online_user(store, leaving);
    assert(sessions_of(store, user_id).contains(staying));
    assert(holds_set(removed(store, leaving), user_sessions_key(user_id)));
    assert(sessions_of(removed(store, leaving), user_id).contains(staying));
    assert(sessions_of(store, user_id).remove(leaving).contains(staying));
}

/// How the keys are spelled.
pub proof fn law_keys_are_spelled_out(id: Seq<char>)
    ensures
        ONLINE_USERS_KEY@ == "arifa:online_users"@,
        session_user_key(id) == "arifa:session_user:"@ + id,
        user_sessions_key(id) == "arifa:user_sessions:"@ + id,
        user_node_key(id) == "arifa:user_node:"@ + id,
{
    reveal_strlit("arifa:user_sessions");
    reveal_strlit("arifa:session_user");
    reveal_strlit("arifa:user_node");
    reveal_strlit("arifa:user_sessions:");
    reveal_strlit("arifa:session_user:");
    reveal_strlit("arifa:user_node:");
    assert(session_user_key(id) =~= "arifa:session_user:"@ + id);
    assert(user_sessions_key(id) =~= "arifa:user_sessions:"@ + id);
    assert(user_node_key(id) =~= "arifa:user_node:"@ + id);
}

/// Every key but those in `keys` holds after what it held before.
pub open spec fn other_keys_untouched(before: Store, after: Store, keys: Set<Seq<char>>) -> bool {
    &&& forall|key: Seq<char>|
        !keys.contains(key) ==> #[trigger] after.contains_key(key) == before.contains_key(key)
    &&& forall|key: Seq<char>|
        !keys.contains(key) && before.contains_key(key) ==> #[trigger] after[key] == before[key]
}

/// What the commands do, key by key: a text is read back as it was put; a member that is put
/// into a set is in it and one that is taken out is not, and the other members stay; a key that
/// is removed holds nothing. No command touches another key, and asking changes nothing.
pub proof fn law_what_commands_do(
    store: Store,
    key: Seq<char>,
    text: Seq<char>,
    member: Seq<char>,
    other: Seq<char>,
)
    requires
        other != member,
    ensures
        ({
            let put = performed(store, StoreCommandView::SetText { key, value: text });
            &&& reply_to(put, StoreCommandView::Get { key }) == StoreReplyView::Text(Some(text))
            &&& other_keys_untouched(store, put, set![key])
        }),
        ({
            let joined = performed(store, StoreCommandView::SAdd { key, member });
            &&& members_at(joined, key).contains(member)
            &&& members_at(joined, key).contains(other) == members_at(store, key).contains(other)
            &&& other_keys_untouched(store, joined, set![key])
        }),
        ({
            let left = performed(store, StoreCommandView::SRem { key, member });
            &&& !members_at(left, key).contains(member)
            &&& members_at(left, key).contains(other) == members_at(store, key).contains(other)
            &&& other_keys_untouched(store, left, set![key])
        }),
        ({
            let gone = performed(store, StoreCommandView::Del { key });
            &&& !gone.contains_key(key)
            &&& other_keys_untouched(store, gone, set![key])
        }),
        performed(store, StoreCommandView::Get { key }) == store,
        performed(store, StoreCommandView::SCard { key }) == store,
        performed(store, StoreCommandView::Publish { channel: key, payload: text }) == store,
        reply_to(store, StoreCommandView::SCard { key }) == StoreReplyView::Count(
            members_at(store, key).len(),
        ),
{
    let joined = members_at(store, key).insert(member);
    assert(joined.contains(member));
    let left = members_at(store, key).remove(member);
    if left == Set::<Seq<char>>::empty() {
        assert(!left.contains(other));
    }
}

/// What is in the store once a session of a user is marked online at a node, key by key: the
/// node under the user, the user under the session, the session among those of the user and
/// among those that are online, beside whoever was there before. No other key is touched.
pub open spec fn marked_online(
    before: Store,
    after: Store,
    node_id: Seq<char>,
    session_id: Seq<char>,
    user_id: Seq<char>,
) -> bool {
    let online_key = "arifa:online_users"@;
    let user_key = "arifa:session_user:"@ + session_id;
    let sessions_key = "arifa:user_sessions:"@ + user_id;
    let node_key = "arifa:user_node:"@ + user_id;
    &&& after.contains_key(node_key)
    &&& after[node_key] == StoreValue::Text(node_id)
    &&& after.contains_key(user_key)
    &&& after[user_key] == StoreValue::Text(user_id)
    &&& after.contains_key(sessions_key)
    &&& after[sessions_key] == StoreValue::Members(
        members_at(before, sessions_key).insert(session_id),
    )
    &&& after.contains_key(online_key)
    &&& after[online_key] == StoreValue::Members(
        members_at(before, online_key).insert(session_id),
    )
    &&& other_keys_untouched(
        before,
        after,
        set![online_key, user_key, sessions_key, node_key],
    )
}

/// Marking a session online has its effect on whatever store it meets.
pub proof fn law_adding_on_any_store(
    store: Store,
    node_id: Seq<char>,
    session_id: Seq<char>,
    user_id: Seq<char>,
)
    ensures
        marked_online(
            store,
            added(store, node_id, session_id, user_id),
            node_id,
            session_id,
            user_id,
        ),
{
    lemma_keys();
    lemma_add_commands(store, node_id, session_id, user_id);
    law_keys_are_spelled_out(session_id);
    law_keys_are_spelled_out(user_id);
    assert(online(store).insert(session_id).contains(session_id));
    assert(sessions_of(store, user_id).insert(session_id).contains(session_id));
}

/// Removing a session has its effect on whatever store it meets, agreeing keys or not, as long
/// as the keys that it asks for hold what they are for: the session is no longer among those
/// that are online; if it had a user, it has none any more and is not among the sessions of that
/// user; the node of the user goes just when no session of the user is left. No other key is
/// touched, and the other members of the sets stay.
pub proof fn law_removing_on_any_store(store: Store, session_id: Seq<char>)
    requires
        holds_set(store, "arifa:online_users"@),
        holds_text(store, "arifa:session_user:"@ + session_id),
        store.contains_key("arifa:session_user:"@ + session_id) ==> holds_set(
            store,
            "arifa:user_sessions:"@ + store["arifa:session_user:"@ + session_id]->Text_0,
        ),
    ensures
        ({
            let after = removed(store, session_id);
            let online_key = "arifa:online_users"@;
            let user_key = "arifa:session_user:"@ + session_id;
            &&& members_at(after, online_key) == members_at(store, online_key).remove(session_id)
            &&& !after.contains_key(user_key)
            &&& !store.contains_key(user_key) ==> other_keys_untouched(
                store,
                after,
                set![online_key],
            )
            &&& store.contains_key(user_key) ==> {
                let user = store[user_key]->Text_0;
                let sessions_key = "arifa:user_sessions:"@ + user;
                let node_key = "arifa:user_node:"@ + user;
                let rest = members_at(store, sessions_key).remove(session_id);
                &&& members_at(after, sessions_key) == rest
                &&& rest == Set::<Seq<char>>::empty() ==> !after.contains_key(node_key)
                    && !after.contains_key(sessions_key)
                &&& rest != Set::<Seq<char>>::empty() ==> other_keys_untouched(
                    store,
                    after,
                    set![online_key, user_key, sessions_key],
                )
                &&& other_keys_untouched(
                    store,
                    after,
                    set![online_key, user_key, sessions_key, node_key],
                )
            }
        }),
{
    lemma_keys();
    law_keys_are_spelled_out(session_id);
    reveal_with_fuel(removal_done, 9);
    let after = removed(store, session_id);
    match user_of(store, session_id) {
        Some(user) => {
            law_keys_are_spelled_out(user);
            let rest = sessions_of(store, user).remove(session_id);
            let first = with_members(store, ONLINE_USERS_KEY@, online(store).remove(session_id));
            let second = with_members(first, user_sessions_key(user), rest);
            let third = second.remove(session_user_key(session_id));
            assert(holds_set(store, "arifa:user_sessions:"@ + user));
            assert(sessions_of(first, user) == sessions_of(store, user));
            assert(sessions_of(third, user) == rest);
            assert(rest.finite());
            if rest.len() == 0 {
                rest.lemma_len0_is_empty();
            }
            assert(after =~= without_online_session(store, session_id, user));
        },
        None => {
            assert(after =~= with_members(
                store,
                ONLINE_USERS_KEY@,
                online(store).remove(session_id),
            ));
        },
    }
}

/// A removal is carried out command by command, each reply deciding on what follows, until there
/// is no further command; and it begins alike whatever reply it is given first.
pub proof fn law_removal_runs_to_its_end(
    removal: RemovalView,
    reply: StoreReplyView,
    store: Store,
    session_id: Seq<char>,
)
    ensures
        removal_done(removal, reply, store) == match removal.command(reply) {
            Some(command) => removal_done(
                removal.after(reply),
                reply_to(store, command),
                performed(store, command),
            ),
            None => store,
        },
        removal_done(RemovalView::initial(session_id), reply, store) == removed(store, session_id),
        removal.command(reply) is Some ==> steps_left(removal.after(reply).stage) < steps_left(
            removal.stage,
        ),
{
}

} // verus!
