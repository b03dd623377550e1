use arifa::presence::OnlineRemoval;
use arifa::store::{StoreCommand, StoreReply};
use arifa::Arifa;
use std::collections::{BTreeMap, BTreeSet};

fn node(name: &str) -> Arifa<u32> {
    Arifa::new(name.to_string())
}

/// A store in memory.
#[derive(Debug, Clone, PartialEq)]
struct Memory {
    texts: BTreeMap<String, String>,
    sets: BTreeMap<String, BTreeSet<String>>,
}

impl Memory {
    fn new() -> Self {
        Memory {
            texts: BTreeMap::new(),
            sets: BTreeMap::new(),
        }
    }

    fn perform(&mut self, command: &StoreCommand) -> StoreReply {
        match command {
            StoreCommand::Get { key } => StoreReply::Text(self.texts.get(key).cloned()),
            StoreCommand::SetText { key, value } => {
                self.texts.insert(key.clone(), value.clone());
                StoreReply::Done
            }
            StoreCommand::SAdd { key, member } => {
                let set = self.sets.entry(key.clone()).or_default();
                StoreReply::Count(set.insert(member.clone()) as u64)
            }
            StoreCommand::SRem { key, member } => {
                let mut count = 0;
                if let Some(set) = self.sets.get_mut(key) {
                    count = set.remove(member) as u64;
                    if set.is_empty() {
                        self.sets.remove(key);
                    }
                }
                StoreReply::Count(count)
            }
            StoreCommand::SCard { key } => {
                StoreReply::Count(self.sets.get(key).map_or(0, |set| set.len() as u64))
            }
            StoreCommand::Del { key } => {
                let text = self.texts.remove(key).is_some();
                let set = self.sets.remove(key).is_some();
                StoreReply::Count((text || set) as u64)
            }
            StoreCommand::Publish { .. } => StoreReply::Count(0),
        }
    }

    fn add(&mut self, node: &Arifa<u32>, session_id: &str, user_id: &str) {
        for command in node.add_online_user(session_id, user_id) {
            self.perform(&command);
        }
    }

    fn remove(&mut self, node: &Arifa<u32>, session_id: &str) -> usize {
        let mut removal = node.remove_online_user(session_id);
        let mut reply = StoreReply::Done;
        let mut sent = 0;
        while let Some(command) = removal.next(reply) {
            reply = self.perform(&command);
            sent += 1;
        }
        sent
    }

    fn online(&mut self, node: &Arifa<u32>) -> u64 {
        self.perform(&node.online_users()).count()
    }

    fn is_online(&mut self, node: &Arifa<u32>, user_id: &str) -> bool {
        let reply = self.perform(&node.is_user_online(user_id));
        node.is_online(&reply)
    }

    fn node_of(&mut self, node: &Arifa<u32>, user_id: &str) -> Option<String> {
        self.perform(&node.get_user_node_id(user_id)).into_text()
    }
}

#[test]
fn the_commands_that_mark_a_session_online() {
    let commands = node("node-1").add_online_user("s1", "42");
    let text: Vec<String> = commands.iter().map(|c| format!("{c:?}")).collect();
    assert_eq!(
        text,
        vec![
            "SAdd { key: \"arifa:online_users\", member: \"s1\" }",
            "SetText { key: \"arifa:session_user:s1\", value: \"42\" }",
            "SAdd { key: \"arifa:user_sessions:42\", member: \"s1\" }",
            "SetText { key: \"arifa:user_node:42\", value: \"node-1\" }",
        ]
    );
}

#[test]
fn the_questions_about_users() {
    let node = node("node-1");
    assert_eq!(
        format!("{:?}", node.get_user_node_id("42")),
        "Get { key: \"arifa:user_node:42\" }"
    );
    assert_eq!(
        format!("{:?}", node.is_user_online("42")),
        "SCard { key: \"arifa:user_sessions:42\" }"
    );
    assert_eq!(
        format!("{:?}", node.online_users()),
        "SCard { key: \"arifa:online_users\" }"
    );
}

#[test]
fn the_commands_that_remove_the_last_session() {
    let mut removal = OnlineRemoval::new("s1");
    let mut text = Vec::new();
    let mut reply = StoreReply::Done;
    while let Some(command) = removal.next(reply) {
        reply = match &command {
            StoreCommand::Get { .. } => StoreReply::Text(Some("42".to_string())),
            StoreCommand::SCard { .. } => StoreReply::Count(0),
            _ => StoreReply::Count(1),
        };
        text.push(format!("{command:?}"));
    }
    assert_eq!(
        text,
        vec![
            "Get { key: \"arifa:session_user:s1\" }",
            "SRem { key: \"arifa:online_users\", member: \"s1\" }",
            "SRem { key: \"arifa:user_sessions:42\", member: \"s1\" }",
            "Del { key: \"arifa:session_user:s1\" }",
            "SCard { key: \"arifa:user_sessions:42\" }",
            "Del { key: \"arifa:user_node:42\" }",
            "Del { key: \"arifa:user_sessions:42\" }",
        ]
    );
    assert!(removal.next(StoreReply::Done).is_none());
}

#[test]
fn a_removal_stops_where_other_sessions_are_left() {
    let mut removal = OnlineRemoval::new("s1");
    removal.next(StoreReply::Done);
    removal.next(StoreReply::Text(Some("42".to_string())));
    removal.next(StoreReply::Count(1));
    removal.next(StoreReply::Count(1));
    removal.next(StoreReply::Count(1));
    assert!(removal.next(StoreReply::Count(2)).is_none());
    assert!(removal.next(StoreReply::Count(0)).is_none());
}

#[test]
fn a_removal_of_an_unknown_session_sends_two_commands() {
    let mut removal = OnlineRemoval::new("s1");
    assert!(matches!(
        removal.next(StoreReply::Done),
        Some(StoreCommand::Get { .. })
    ));
    assert!(matches!(
        removal.next(StoreReply::Text(None)),
        Some(StoreCommand::SRem { .. })
    ));
    assert!(removal.next(StoreReply::Count(0)).is_none());
}

#[test]
fn adding_and_removing_a_session() {
    let node = node("node-1");
    let mut store = Memory::new();
    store.add(&node, "s1", "42");
    assert_eq!(store.online(&node), 1);
    assert!(store.is_online(&node, "42"));
    assert!(!store.is_online(&node, "7"));
    assert_eq!(store.node_of(&node, "42"), Some("node-1".to_string()));
    assert_eq!(store.node_of(&node, "7"), None);

    assert_eq!(store.remove(&node, "s1"), 7);
    assert_eq!(store, Memory::new());
}

#[test]
fn online_users_counts_sessions() {
    let node = node("node-1");
    let mut store = Memory::new();
    store.add(&node, "s1", "42");
    store.add(&node, "s2", "42");
    store.add(&node, "s3", "7");
    assert_eq!(store.online(&node), 3);
    store.remove(&node, "s1");
    assert_eq!(store.online(&node), 2);
    assert!(store.is_online(&node, "42"));
    assert_eq!(store.node_of(&node, "42"), Some("node-1".to_string()));
    store.remove(&node, "s2");
    assert_eq!(store.online(&node), 1);
    assert!(!store.is_online(&node, "42"));
    assert_eq!(store.node_of(&node, "42"), None);
    assert!(store.is_online(&node, "7"));
}

#[test]
fn removing_an_unknown_session_changes_nothing() {
    let node = node("node-1");
    let mut store = Memory::new();
    store.add(&node, "s1", "42");
    let before = store.clone();
    assert_eq!(store.remove(&node, "s2"), 2);
    assert_eq!(store, before);
}

#[test]
fn removing_undoes_adding_but_for_the_node() {
    let first = node("node-1");
    let second = node("node-2");
    let mut store = Memory::new();
    store.add(&first, "s1", "42");
    let mut before = store.clone();
    store.add(&second, "s2", "42");
    store.remove(&second, "s2");
    before
        .texts
        .insert("arifa:user_node:42".to_string(), "node-2".to_string());
    assert_eq!(store, before);
}

#[test]
fn ids_that_look_like_keys_stay_apart() {
    let node = node("node-1");
    let mut store = Memory::new();
    store.add(&node, "a", "b");
    store.add(&node, "b", "a");
    store.add(&node, ":a", "node:a");
    assert_eq!(store.texts.len(), 6);
    assert_eq!(store.sets.len(), 4);
    store.remove(&node, "a");
    assert!(!store.is_online(&node, "b"));
    assert!(store.is_online(&node, "a"));
    assert!(store.is_online(&node, "node:a"));
}

#[test]
fn replies_are_read_for_what_they_are() {
    let node = node("node-1");
    assert_eq!(StoreReply::Count(3).count(), 3);
    assert_eq!(StoreReply::Done.count(), 0);
    assert_eq!(
        StoreReply::Text(Some("x".to_string())).into_text(),
        Some("x".to_string())
    );
    assert_eq!(StoreReply::Text(None).into_text(), None);
    assert_eq!(StoreReply::Count(1).into_text(), None);
    assert!(node.is_online(&StoreReply::Count(1)));
    assert!(!node.is_online(&StoreReply::Count(0)));
    assert!(!node.is_online(&StoreReply::Done));
}

#[test]
fn the_node_of_a_user_is_the_latest() {
    let first = node("node-1");
    let second = node("node-2");
    let mut store = Memory::new();
    store.add(&first, "s1", "42");
    store.add(&second, "s2", "42");
    assert_eq!(store.node_of(&first, "42"), Some("node-2".to_string()));
    store.add(&first, "s1", "42");
    assert_eq!(store.node_of(&first, "42"), Some("node-1".to_string()));
    store.remove(&first, "s1");
    store.remove(&second, "s2");
    assert_eq!(store.node_of(&first, "42"), None);
}
