use arifa::name_map::NameMap;
use arifa::naming::{
    client_channels, ends_connection, location_channel, user_channel, ClientFrame,
};

#[test]
fn channels_of_a_client() {
    assert_eq!(location_channel("891e2040897ffff"), "Location::891e2040897ffff");
    assert_eq!(user_channel("42"), "User::42");
    assert_eq!(
        client_channels("891e2040897ffff", "42"),
        vec![
            "Location::891e2040897ffff".to_string(),
            "User::42".to_string()
        ]
    );
    assert_ne!(location_channel("x"), user_channel("x"));
}

#[test]
fn a_close_or_a_fault_ends_a_connection() {
    assert!(ends_connection(ClientFrame::Close));
    assert!(ends_connection(ClientFrame::Broken));
    assert!(!ends_connection(ClientFrame::Other));
}

#[test]
fn a_map_finds_what_was_put_in() {
    let mut map: NameMap<u32> = NameMap::new();
    assert!(map.is_empty());
    assert_eq!(map.insert("a".to_string(), 1), None);
    assert_eq!(map.insert("b".to_string(), 2), None);
    assert_eq!(map.insert("c".to_string(), 3), None);
    assert_eq!(map.insert("b".to_string(), 20), Some(2));
    assert_eq!(map.len(), 3);
    assert!(map.contains_key("b"));
    assert_eq!(map.get("b"), Some(&20));
    assert_eq!(map.get("d"), None);
    if let Some(value) = map.get_mut("c") {
        *value = 30;
    }
    assert_eq!(map.get("c"), Some(&30));
    assert!(map.get_mut("d").is_none());
}

#[test]
fn a_map_stays_in_order_when_entries_leave() {
    let mut map: NameMap<u32> = NameMap::new();
    for (at, name) in ["a", "b", "c", "d"].iter().enumerate() {
        map.insert(name.to_string(), at as u32);
    }
    assert_eq!(map.remove("a"), Some(0));
    assert_eq!(map.remove("a"), None);
    assert_eq!(map.get("d"), Some(&3));
    assert_eq!(map.get("b"), Some(&1));
    assert_eq!(map.get("c"), Some(&2));
    assert_eq!(map.remove("d"), Some(3));
    let mut keys = map.keys();
    keys.sort();
    assert_eq!(keys, vec!["b".to_string(), "c".to_string()]);
    let first = map.keys()[0].clone();
    *map.value_at_mut(0) = 20;
    assert_eq!(map.get(&first), Some(&20));
    let (name, _) = map.remove_at(0);
    assert!(!map.contains_key(&name));
    assert_eq!(map.drain().len(), 1);
    assert!(map.is_empty());
    assert_eq!(map.insert("a".to_string(), 9), None);
    assert_eq!(map.get("a"), Some(&9));
}
