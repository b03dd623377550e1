//! Who is online, and where.
//!
//! Four kinds of keys in the shared store hold it: the set of the sessions that are online,
//! the user of each session, the set of the sessions of each user, and the node of each user.

use crate::store::{StoreCommand, StoreReply};
#[allow(unused_imports)]
use crate::store::{StoreCommandView, StoreReplyView};
use vstd::prelude::*;

verus! {

/// The key of the set of sessions that are online.
pub const ONLINE_USERS_KEY: &'static str = "arifa:online_users";

/// What the keys of the session sets of users begin with.
pub const USER_SESSIONS_PREFIX: &'static str = "arifa:user_sessions";

/// What the keys of the users of sessions begin with.
pub const SESSION_USER_PREFIX: &'static str = "arifa:session_user";

/// What the keys of the nodes of users begin with.
pub const USER_NODE_PREFIX: &'static str = "arifa:user_node";

/// The key made of a prefix and an id.
pub open spec fn key_of(prefix: Seq<char>, id: Seq<char>) -> Seq<char> {
    prefix + seq![':'] + id
}

/// The key of the user of a session.
pub open spec fn session_user_key(session_id: Seq<char>) -> Seq<char> {
    key_of(SESSION_USER_PREFIX@, session_id)
}

/// The key of the set of sessions of a user.
pub open spec fn user_sessions_key(user_id: Seq<char>) -> Seq<char> {
    key_of(USER_SESSIONS_PREFIX@, user_id)
}

/// The key of the node of a user.
pub open spec fn user_node_key(user_id: Seq<char>) -> Seq<char> {
    key_of(USER_NODE_PREFIX@, user_id)
}

/// The key made of a prefix and an id.
fn make_key(prefix: &str, id: &str) -> (key: String)
    ensures
        key@ == key_of(prefix@, id@),
{
    let mut key = prefix.to_owned();
    key.append(":");
    key.append(id);
    proof {
        reveal_strlit(":");
        assert(":"@ =~= seq![':']);
        assert(key@ =~= key_of(prefix@, id@));
    }
    key
}

/// What marks a session of a user online at a node, in order.
pub open spec fn add_commands(
    node_id: Seq<char>,
    session_id: Seq<char>,
    user_id: Seq<char>,
) -> Seq<StoreCommandView> {
    seq![
        StoreCommandView::SAdd { key: ONLINE_USERS_KEY@, member: session_id },
        StoreCommandView::SetText { key: session_user_key(session_id), value: user_id },
        StoreCommandView::SAdd { key: user_sessions_key(user_id), member: session_id },
        StoreCommandView::SetText { key: user_node_key(user_id), value: node_id },
    ]
}

/// The commands, as the store sees them.
pub open spec fn views(commands: Seq<StoreCommand>) -> Seq<StoreCommandView> {
    commands.map_values(|command: StoreCommand| command@)
}

/// Each command is seen, in its place.
pub proof fn law_views_show_every_command(commands: Seq<StoreCommand>)
    ensures
        views(commands).len() == commands.len(),
        forall|i: int| 0 <= i < commands.len() ==> #[trigger] views(commands)[i] == commands[i]@,
{
}

/// Marks a session of a user online at a node: the commands to send, in order.
pub(crate) fn online_commands(node_id: &str, session_id: &str, user_id: &str) -> (commands: Vec<
    StoreCommand,
>)
    ensures
        views(commands@) == add_commands(node_id@, session_id@, user_id@),
{
    let mut commands: Vec<StoreCommand> = Vec::new();
    commands.push(
        StoreCommand::SAdd { key: ONLINE_USERS_KEY.to_owned(), member: session_id.to_owned() },
    );
    commands.push(
        StoreCommand::SetText {
            key: make_key(SESSION_USER_PREFIX, session_id),
            value: user_id.to_owned(),
        },
    );
    commands.push(
        StoreCommand::SAdd {
            key: make_key(USER_SESSIONS_PREFIX, user_id),
            member: session_id.to_owned(),
        },
    );
    commands.push(
        StoreCommand::SetText {
            key: make_key(USER_NODE_PREFIX, user_id),
            value: node_id.to_owned(),
        },
    );
    assert(views(commands@) =~= add_commands(node_id@, session_id@, user_id@));
    commands
}

/// Asks for the node of a user; the text that comes back is its id.
pub(crate) fn user_node_query(user_id: &str) -> (command: StoreCommand)
    ensures
        command@ == (StoreCommandView::Get { key: user_node_key(user_id@) }),
{
    StoreCommand::Get { key: make_key(USER_NODE_PREFIX, user_id) }
}

/// Asks for the number of sessions of a user that are online.
pub(crate) fn user_sessions_query(user_id: &str) -> (command: StoreCommand)
    ensures
        command@ == (StoreCommandView::SCard { key: user_sessions_key(user_id@) }),
{
    StoreCommand::SCard { key: make_key(USER_SESSIONS_PREFIX, user_id) }
}

/// Asks for the number of sessions that are online.
pub(crate) fn online_users_query() -> (command: StoreCommand)
    ensures
        command@ == (StoreCommandView::SCard { key: ONLINE_USERS_KEY@ }),
{
    StoreCommand::SCard { key: ONLINE_USERS_KEY.to_owned() }
}

/// What the removal of a session does next.
enum Stage {
    LookUp,
    LeaveOnline,
    LeaveUser(String),
    ForgetSession(String),
    CountRest(String),
    ForgetNode(String),
    ForgetUser(String),
    Finished,
}

/// What the removal of a session does next.
pub enum RemovalStage {
    /// Ask for the user of the session.
    LookUp,
    /// Take the session out of the sessions that are online; the reply names the user.
    LeaveOnline,
    /// Take the session out of the sessions of the user.
    LeaveUser(Seq<char>),
    /// Forget the user of the session.
    ForgetSession(Seq<char>),
    /// Count the sessions that the user has left.
    CountRest(Seq<char>),
    /// Forget the node of the user, if the reply says that no session is left.
    ForgetNode(Seq<char>),
    /// Forget the sessions of the user.
    ForgetUser(Seq<char>),
    /// Nothing.
    Finished,
}

/// The state of the removal of a session.
pub struct RemovalView {
    pub session_id: Seq<char>,
    pub stage: RemovalStage,
}

impl RemovalView {
    /// The removal of a session, at its start.
    pub open spec fn initial(session_id: Seq<char>) -> Self {
        RemovalView { session_id, stage: RemovalStage::LookUp }
    }

    /// The next command, given the reply to the one before; `None` at the end.
    pub open spec fn command(self, reply: StoreReplyView) -> Option<StoreCommandView> {
        match self.stage {
            RemovalStage::LookUp => Some(
                StoreCommandView::Get { key: session_user_key(self.session_id) },
            ),
            RemovalStage::LeaveOnline => Some(
                StoreCommandView::SRem { key: ONLINE_USERS_KEY@, member: self.session_id },
            ),
            RemovalStage::LeaveUser(user) => Some(
                StoreCommandView::SRem { key: user_sessions_key(user), member: self.session_id },
            ),
            RemovalStage::ForgetSession(user) => Some(
                StoreCommandView::Del { key: session_user_key(self.session_id) },
            ),
            RemovalStage::CountRest(user) => Some(
                StoreCommandView::SCard { key: user_sessions_key(user) },
            ),
            RemovalStage::ForgetNode(user) => if reply == StoreReplyView::Count(0) {
                Some(StoreCommandView::Del { key: user_node_key(user) })
            } else {
                None
            },
            RemovalStage::ForgetUser(user) => Some(
                StoreCommandView::Del { key: user_sessions_key(user) },
            ),
            RemovalStage::Finished => None,
        }
    }

    /// The state after that command.
    pub open spec fn after(self, reply: StoreReplyView) -> Self {
        let stage = match self.stage {
            RemovalStage::LookUp => RemovalStage::LeaveOnline,
            RemovalStage::LeaveOnline => match reply {
                StoreReplyView::Text(Some(user)) => RemovalStage::LeaveUser(user),
                _ => RemovalStage::Finished,
            },
            RemovalStage::LeaveUser(user) => RemovalStage::ForgetSession(user),
            RemovalStage::ForgetSession(user) => RemovalStage::CountRest(user),
            RemovalStage::CountRest(user) => RemovalStage::ForgetNode(user),
            RemovalStage::ForgetNode(user) => if reply == StoreReplyView::Count(0) {
                RemovalStage::ForgetUser(user)
            } else {
                RemovalStage::Finished
            },
            RemovalStage::ForgetUser(_) => RemovalStage::Finished,
            RemovalStage::Finished => RemovalStage::Finished,
        };
        RemovalView { stage, ..self }
    }
}

/// The removal of a session from those that are online: it says which command to send next,
/// given the reply to the one before.
pub struct OnlineRemoval {
    session_id: String,
    stage: Stage,
}

impl View for OnlineRemoval {
    type V = RemovalView;

    closed spec fn view(&self) -> RemovalView {
        RemovalView {
            session_id: self.session_id@,
            stage: match self.stage {
                Stage::LookUp => RemovalStage::LookUp,
                Stage::LeaveOnline => RemovalStage::LeaveOnline,
                Stage::LeaveUser(user) => RemovalStage::LeaveUser(user@),
                Stage::ForgetSession(user) => RemovalStage::ForgetSession(user@),
                Stage::CountRest(user) => RemovalStage::CountRest(user@),
                Stage::ForgetNode(user) => RemovalStage::ForgetNode(user@),
                Stage::ForgetUser(user) => RemovalStage::ForgetUser(user@),
                Stage::Finished => RemovalStage::Finished,
            },
        }
    }
}

impl OnlineRemoval {
    /// The removal of a session, at its start.
    pub fn new(session_id: &str) -> (removal: Self)
        ensures
            removal@ == RemovalView::initial(session_id@),
    {
        OnlineRemoval { session_id: session_id.to_owned(), stage: Stage::LookUp }
    }

    /// The next command, given the reply to the one before; `None` once the session is
    /// removed. The first call takes no notice of the reply.
    pub fn next(&mut self, reply: StoreReply) -> (command: Option<StoreCommand>)
        ensures
            final(self)@ == old(self)@.after(reply@),
            match command {
                Some(command) => old(self)@.command(reply@) == Some(command@),
                None => old(self)@.command(reply@) is None,
            },
    {
        let mut stage = Stage::Finished;
        core::mem::swap(&mut stage, &mut self.stage);
        match stage {
            Stage::LookUp => {
                self.stage = Stage::LeaveOnline;
                Some(
                    StoreCommand::Get {
                        key: make_key(SESSION_USER_PREFIX, self.session_id.as_str()),
                    },
                )
            },
            Stage::LeaveOnline => {
                if let StoreReply::Text(Some(user)) = reply {
                    self.stage = Stage::LeaveUser(user);
                }
                Some(
                    StoreCommand::SRem {
                        key: ONLINE_USERS_KEY.to_owned(),
                        member: self.session_id.clone(),
                    },
                )
            },
            Stage::LeaveUser(user) => {
                let key = make_key(USER_SESSIONS_PREFIX, user.as_str());
                self.stage = Stage::ForgetSession(user);
                Some(StoreCommand::SRem { key, member: self.session_id.clone() })
            },
            Stage::ForgetSession(user) => {
                self.stage = Stage::CountRest(user);
                Some(
                    StoreCommand::Del {
                        key: make_key(SESSION_USER_PREFIX, self.session_id.as_str()),
                    },
                )
            },
            Stage::CountRest(user) => {
                let key = make_key(USER_SESSIONS_PREFIX, user.as_str());
                self.stage = Stage::ForgetNode(user);
                Some(StoreCommand::SCard { key })
            },
            Stage::ForgetNode(user) => {
                if let StoreReply::Count(0) = reply {
                    let key = make_key(USER_NODE_PREFIX, user.as_str());
                    self.stage = Stage::ForgetUser(user);
                    Some(StoreCommand::Del { key })
                } else {
                    None
                }
            },
            Stage::ForgetUser(user) => {
                Some(StoreCommand::Del { key: make_key(USER_SESSIONS_PREFIX, user.as_str()) })
            },
            Stage::Finished => None,
        }
    }
}

} // verus!
