//! The message that travels from a publisher to the subscribed sessions.

use vstd::prelude::*;

verus! {

/// A JSON value of `serde_json`. A payload is carried from end to end and never looked into.
#[verifier::external_type_specification]
#[verifier::external_body]
pub struct ExJsonValue(serde_json::Value);

/// `serde_json::Value` derives `Clone` over owned data: the copy is the same JSON value.
pub assume_specification[ <serde_json::Value as Clone>::clone ](value: &serde_json::Value) -> (copy:
    serde_json::Value)
    ensures
        copy == *value,
;

/// Whom a message is meant for.
#[derive(Debug, Clone, Copy, PartialEq, Eq, Structural)]
pub enum NotificationScope {
    Broadcast,
    Private,
}

/// What a message is about.
#[derive(Debug, Clone, Copy, PartialEq, Eq, Structural)]
pub enum NotificationKind {
    Feeds,
    DirectMessage,
    Event,
}

/// A message on a channel.
#[derive(Debug)]
pub struct WsMessage {
    pub scope: NotificationScope,
    pub kind: NotificationKind,
    /// The only node that is to deliver the message; `None` for every node.
    pub node_id: Option<String>,
    pub payload: serde_json::Value,
}

impl Clone for WsMessage {
    fn clone(&self) -> (copy: Self)
        ensures
            copy == *self,
    {
        WsMessage {
            scope: self.scope,
            kind: self.kind,
            node_id: match &self.node_id {
                Some(node_id) => Some(node_id.clone()),
                None => None,
            },
            payload: self.payload.clone(),
        }
    }
}

impl WsMessage {
    /// Whether the node called `node_id` delivers this message: it names that node, or none.
    pub open spec fn is_for(self, node_id: Seq<char>) -> bool {
        self.node_id matches Some(target) ==> target@ == node_id
    }

    /// Whether the node called `node_id` delivers this message.
    pub fn targets(&self, node_id: &String) -> (yes: bool)
        ensures
            yes == self.is_for(node_id@),
    {
        match &self.node_id {
            Some(target) => *target == *node_id,
            None => true,
        }
    }
}

/// A message that names no node is for every node, one that names a node is for that one only,
/// and a copy of a message is the same message.
pub proof fn law_message_is_for_the_node_it_names(
    message: &WsMessage,
    node_id: &String,
    yes: bool,
    copy: WsMessage,
)
    ensures
        call_ensures(WsMessage::targets, (message, node_id), yes) ==> (yes <==> (
        message.node_id is None || message.node_id->0@ == node_id@)),
        call_ensures(<WsMessage as Clone>::clone, (message,), copy) ==> copy == *message,
{
}

} // verus!
