//! The commands that are sent to the shared store, and what they mean there.

use vstd::prelude::*;

verus! {

/// A command to the store.
#[derive(Debug)]
pub enum StoreCommand {
    /// Read the text under a key.
    Get { key: String },
    /// Put a text under a key.
    SetText { key: String, value: String },
    /// Put a member into the set under a key.
    SAdd { key: String, member: String },
    /// Take a member out of the set under a key.
    SRem { key: String, member: String },
    /// Count the members of the set under a key.
    SCard { key: String },
    /// Remove a key and what is under it.
    Del { key: String },
    /// Send a payload to every subscriber of a channel.
    Publish { channel: String, payload: String },
}

/// What the store answers to a command.
#[derive(Debug)]
pub enum StoreReply {
    /// The text under the key, if there is any.
    Text(Option<String>),
    /// A number: of members, or of things added, removed or reached.
    Count(u64),
    /// Nothing but that the command is done.
    Done,
}

/// A command to the store.
pub enum StoreCommandView {
    Get { key: Seq<char> },
    SetText { key: Seq<char>, value: Seq<char> },
    SAdd { key: Seq<char>, member: Seq<char> },
    SRem { key: Seq<char>, member: Seq<char> },
    SCard { key: Seq<char> },
    Del { key: Seq<char> },
    Publish { channel: Seq<char>, payload: Seq<char> },
}

/// What the store answers to a command.
pub enum StoreReplyView {
    Text(Option<Seq<char>>),
    Count(nat),
    Done,
}

impl View for StoreCommand {
    type V = StoreCommandView;

    open spec fn view(&self) -> StoreCommandView {
        match self {
            StoreCommand::Get { key } => StoreCommandView::Get { key: key@ },
            StoreCommand::SetText { key, value } => StoreCommandView::SetText { key: key@, value: value@ },
            StoreCommand::SAdd { key, member } => StoreCommandView::SAdd {
                key: key@,
                member: member@,
            },
            StoreCommand::SRem { key, member } => StoreCommandView::SRem {
                key: key@,
                member: member@,
            },
            StoreCommand::SCard { key } => StoreCommandView::SCard { key: key@ },
            StoreCommand::Del { key } => StoreCommandView::Del { key: key@ },
            StoreCommand::Publish { channel, payload } => StoreCommandView::Publish {
                channel: channel@,
                payload: payload@,
            },
        }
    }
}

impl View for StoreReply {
    type V = StoreReplyView;

    open spec fn view(&self) -> StoreReplyView {
        match self {
            StoreReply::Text(Some(text)) => StoreReplyView::Text(Some(text@)),
            StoreReply::Text(None) => StoreReplyView::Text(None),
            StoreReply::Count(count) => StoreReplyView::Count(*count as nat),
            StoreReply::Done => StoreReplyView::Done,
        }
    }
}

impl StoreReply {
    /// The text of the reply, if it is one.
    pub fn into_text(self) -> (text: Option<String>)
        ensures
            match text {
                Some(text) => self@ == StoreReplyView::Text(Some(text@)),
                None => !(self@ matches StoreReplyView::Text(Some(_))),
            },
    {
        match self {
            StoreReply::Text(text) => text,
            _ => None,
        }
    }

    /// The number of the reply; zero if it is none.
    pub fn count(&self) -> (count: u64)
        ensures
            count == match self@ {
                StoreReplyView::Count(count) => count,
                _ => 0,
            },
    {
        match self {
            StoreReply::Count(count) => *count,
            _ => 0,
        }
    }
}

/// What the store can hold under a key.
pub enum StoreValue {
    Text(Seq<char>),
    Members(Set<Seq<char>>),
}

/// What the store holds. A set without members is not held at all.
pub type Store = Map<Seq<char>, StoreValue>;

/// The text under `key`.
pub open spec fn text_at(store: Store, key: Seq<char>) -> Option<Seq<char>> {
    if store.contains_key(key) && store[key] is Text {
        Some(store[key]->Text_0)
    } else {
        None
    }
}

/// The members of the set under `key`.
pub open spec fn members_at(store: Store, key: Seq<char>) -> Set<Seq<char>> {
    if store.contains_key(key) && store[key] is Members {
        store[key]->Members_0
    } else {
        Set::empty()
    }
}

/// The store with the set under `key` being `members`.
pub open spec fn with_members(store: Store, key: Seq<char>, members: Set<Seq<char>>) -> Store {
    if members == Set::<Seq<char>>::empty() {
        store.remove(key)
    } else {
        store.insert(key, StoreValue::Members(members))
    }
}

/// Whether the store carries out the command: what is under the key is of the kind that the
/// command is about, or there is nothing under it.
pub open spec fn accepts(store: Store, command: StoreCommandView) -> bool {
    match command {
        StoreCommandView::Get { key } => store.contains_key(key) ==> store[key] is Text,
        StoreCommandView::SAdd { key, .. }
        | StoreCommandView::SRem { key, .. }
        | StoreCommandView::SCard { key } => store.contains_key(key) ==> store[key] is Members,
        StoreCommandView::SetText { .. }
        | StoreCommandView::Del { .. }
        | StoreCommandView::Publish { .. } => true,
    }
}

/// What the store holds once it has carried out the command.
pub open spec fn performed(store: Store, command: StoreCommandView) -> Store {
    match command {
        StoreCommandView::SetText { key, value } => store.insert(key, StoreValue::Text(value)),
        StoreCommandView::SAdd { key, member } => with_members(
            store,
            key,
            members_at(store, key).insert(member),
        ),
        StoreCommandView::SRem { key, member } => with_members(
            store,
            key,
            members_at(store, key).remove(member),
        ),
        StoreCommandView::Del { key } => store.remove(key),
        StoreCommandView::Get { .. }
        | StoreCommandView::SCard { .. }
        | StoreCommandView::Publish { .. } => store,
    }
}

/// What the store holds once it has carried out the commands, one after the other.
pub open spec fn performed_all(store: Store, commands: Seq<StoreCommandView>) -> Store
    decreases commands.len(),
{
    if commands.len() == 0 {
        store
    } else {
        performed(performed_all(store, commands.drop_last()), commands.last())
    }
}

/// Whether the store carries out all the commands, one after the other.
pub open spec fn accepts_all(store: Store, commands: Seq<StoreCommandView>) -> bool
    decreases commands.len(),
{
    commands.len() > 0 ==> {
        &&& accepts_all(store, commands.drop_last())
        &&& accepts(performed_all(store, commands.drop_last()), commands.last())
    }
}

/// What the store answers to a command. How many subscribers a publication reaches is not
/// held in the store and is left open.
pub open spec fn reply_to(store: Store, command: StoreCommandView) -> StoreReplyView {
    match command {
        StoreCommandView::Get { key } => StoreReplyView::Text(text_at(store, key)),
        StoreCommandView::SetText { .. } => StoreReplyView::Done,
        StoreCommandView::SAdd { key, member } => StoreReplyView::Count(
            if members_at(store, key).contains(member) {
                0
            } else {
                1
            },
        ),
        StoreCommandView::SRem { key, member } => StoreReplyView::Count(
            if members_at(store, key).contains(member) {
                1
            } else {
                0
            },
        ),
        StoreCommandView::SCard { key } => StoreReplyView::Count(members_at(store, key).len()),
        StoreCommandView::Del { key } => StoreReplyView::Count(
            if store.contains_key(key) {
                1
            } else {
                0
            },
        ),
        StoreCommandView::Publish { .. } => StoreReplyView::Count(arbitrary()),
    }
}

/// A command stands for what it says, word for word.
pub proof fn law_commands_stand_for_what_they_say(first: String, second: String)
    ensures
        (StoreCommand::Get { key: first })@ == (StoreCommandView::Get { key: first@ }),
        (StoreCommand::SetText { key: first, value: second })@ == (StoreCommandView::SetText {
            key: first@,
            value: second@,
        }),
        (StoreCommand::SAdd { key: first, member: second })@ == (StoreCommandView::SAdd {
            key: first@,
            member: second@,
        }),
        (StoreCommand::SRem { key: first, member: second })@ == (StoreCommandView::SRem {
            key: first@,
            member: second@,
        }),
        (StoreCommand::SCard { key: first })@ == (StoreCommandView::SCard { key: first@ }),
        (StoreCommand::Del { key: first })@ == (StoreCommandView::Del { key: first@ }),
        (StoreCommand::Publish { channel: first, payload: second })@ == (
        StoreCommandView::Publish { channel: first@, payload: second@ }),
{
}

/// A reply is read for what it is: a text as that text, a number as that number, and nothing
/// else as either.
pub proof fn law_replies_are_read_for_what_they_are(
    reply: StoreReply,
    text: Option<String>,
    count: u64,
)
    ensures
        call_ensures(StoreReply::into_text, (reply,), text) ==> match reply {
            StoreReply::Text(Some(held)) => text is Some && text->0@ == held@,
            _ => text is None,
        },
        call_ensures(StoreReply::count, (&reply,), count) ==> match reply {
            StoreReply::Count(held) => count == held,
            _ => count == 0,
        },
        match reply {
            StoreReply::Text(Some(held)) => reply@ == StoreReplyView::Text(Some(held@)),
            StoreReply::Text(None) => reply@ == StoreReplyView::Text(None),
            StoreReply::Count(held) => reply@ == StoreReplyView::Count(held as nat),
            StoreReply::Done => reply@ is Done,
        },
{
}

/// Commands are carried out one after the other, every one of them.
pub proof fn law_every_command_is_carried_out(
    store: Store,
    commands: Seq<StoreCommandView>,
    next: StoreCommandView,
)
    ensures
        performed_all(store, Seq::empty()) == store,
        performed_all(store, commands.push(next)) == performed(
            performed_all(store, commands),
            next,
        ),
        accepts_all(store, commands.push(next)) <==> accepts_all(store, commands) && accepts(
            performed_all(store, commands),
            next,
        ),
{
    assert(commands.push(next).drop_last() =~= commands);
}

} // verus!
