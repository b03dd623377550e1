//! The channels of a client that connects with a user and a location.

use vstd::prelude::*;

verus! {

/// What the name of the channel of a location begins with.
pub const LOCATION_PREFIX: &'static str = "Location::";

/// What the name of the channel of a user begins with.
pub const USER_PREFIX: &'static str = "User::";

/// The channel of a location.
pub fn location_channel(location: &str) -> (channel: String)
    ensures
        channel@ == LOCATION_PREFIX@ + location@,
{
    let mut channel = LOCATION_PREFIX.to_owned();
    channel.append(location);
    channel
}

/// The channel of a user.
pub fn user_channel(user_id: &str) -> (channel: String)
    ensures
        channel@ == USER_PREFIX@ + user_id@,
{
    let mut channel = USER_PREFIX.to_owned();
    channel.append(user_id);
    channel
}

/// The channels of a client: that of its location, then that of its user.
pub fn client_channels(location: &str, user_id: &str) -> (channels: Vec<String>)
    ensures
        channels@.len() == 2,
        channels@[0]@ == LOCATION_PREFIX@ + location@,
        channels@[1]@ == USER_PREFIX@ + user_id@,
{
    let mut channels: Vec<String> = Vec::new();
    channels.push(location_channel(location));
    channels.push(user_channel(user_id));
    channels
}

/// What a client can send.
#[derive(Debug, Clone, Copy, PartialEq, Eq, Structural)]
pub enum ClientFrame {
    /// It closes the connection.
    Close,
    /// It can no longer be understood.
    Broken,
    /// Anything else.
    Other,
}

/// Whether the connection of the client is over.
pub fn ends_connection(frame: ClientFrame) -> (over: bool)
    ensures
        over == (frame != ClientFrame::Other),
{
    match frame {
        ClientFrame::Close | ClientFrame::Broken => true,
        ClientFrame::Other => false,
    }
}

/// How the names of channels are spelled: a client has the channel of its location and that of
/// its user, in this order.
pub proof fn law_channel_names_are_spelled_out(
    location: &str,
    user_id: &str,
    location_name: String,
    user_name: String,
    channels: Vec<String>,
)
    ensures
        call_ensures(location_channel, (location,), location_name) ==> location_name@
            == "Location::"@ + location@,
        call_ensures(user_channel, (user_id,), user_name) ==> user_name@ == "User::"@ + user_id@,
        call_ensures(client_channels, (location, user_id), channels) ==> {
            &&& channels@.len() == 2
            &&& channels@[0]@ == "Location::"@ + location@
            &&& channels@[1]@ == "User::"@ + user_id@
        },
{
}

/// A connection is over just when the client closes it or can no longer be understood.
pub proof fn law_connection_ends_with_close_or_error(frame: ClientFrame, over: bool)
    requires
        call_ensures(ends_connection, (frame,), over),
    ensures
        over <==> frame == ClientFrame::Close || frame == ClientFrame::Broken,
{
}

/// Two names are the same only if both are of locations, or both of users, and of the same.
pub proof fn law_channel_names_are_distinct(a: Seq<char>, b: Seq<char>)
    ensures
        LOCATION_PREFIX@ + a == LOCATION_PREFIX@ + b <==> a == b,
        USER_PREFIX@ + a == USER_PREFIX@ + b <==> a == b,
        LOCATION_PREFIX@ + a != USER_PREFIX@ + b,
{
    reveal_strlit("Location::");
    reveal_strlit("User::");
    let location_len = LOCATION_PREFIX@.len() as int;
    let user_len = USER_PREFIX@.len() as int;
    assert((LOCATION_PREFIX@ + a).skip(location_len) =~= a);
    assert((LOCATION_PREFIX@ + b).skip(location_len) =~= b);
    assert((USER_PREFIX@ + a).skip(user_len) =~= a);
    assert((USER_PREFIX@ + b).skip(user_len) =~= b);
    assert((LOCATION_PREFIX@ + a)[0] == 'L');
    assert((USER_PREFIX@ + b)[0] == 'U');
}

} // verus!
