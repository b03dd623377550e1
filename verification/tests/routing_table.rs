use arifa::queue::Delivery;
use arifa::routing_table::RoutingTable;
use arifa::{MessageKind, MessageScope, WsMessage};
use tokio::sync::mpsc;

fn channel_pair(capacity: usize) -> (mpsc::Sender<WsMessage>, mpsc::Receiver<WsMessage>) {
    mpsc::channel(capacity)
}

fn sample_event() -> WsMessage {
    let mut payload = serde_json::Map::new();
    payload.insert("test".to_string(), serde_json::Value::Bool(true));
    WsMessage {
        scope: MessageScope::Broadcast,
        kind: MessageKind::Event,
        node_id: None,
        payload: serde_json::Value::Object(payload),
    }
}

fn sorted(mut names: Vec<String>) -> Vec<String> {
    names.sort();
    names
}

#[test]
fn first_subscriber_triggers_real_subscribe() {
    let mut table = RoutingTable::new();
    let (tx, _rx) = channel_pair(4);
    assert!(table.subscribe("chan", "session-1", tx));
}

#[test]
fn second_subscriber_does_not_resubscribe() {
    let mut table = RoutingTable::new();
    let (tx1, _rx1) = channel_pair(4);
    let (tx2, _rx2) = channel_pair(4);
    assert!(table.subscribe("chan", "session-1", tx1));
    assert!(!table.subscribe("chan", "session-2", tx2));
}

#[test]
fn last_unsubscriber_triggers_real_unsubscribe() {
    let mut table = RoutingTable::new();
    let (tx1, _rx1) = channel_pair(4);
    let (tx2, _rx2) = channel_pair(4);
    table.subscribe("chan", "session-1", tx1);
    table.subscribe("chan", "session-2", tx2);

    assert!(!table.unsubscribe("chan", "session-1"));
    assert!(table.unsubscribe("chan", "session-2"));
}

#[test]
fn route_delivers_to_all_subscribers() {
    let mut table = RoutingTable::new();
    let (tx1, mut rx1) = channel_pair(4);
    let (tx2, mut rx2) = channel_pair(4);
    table.subscribe("chan", "session-1", tx1);
    table.subscribe("chan", "session-2", tx2);

    let (delivered, dropped) = table.route("chan", sample_event());
    assert_eq!(delivered, 2);
    assert_eq!(dropped, 0);
    assert!(rx1.try_recv().is_ok());
    assert!(rx2.try_recv().is_ok());
}

#[test]
fn route_prunes_dropped_receiver() {
    let mut table = RoutingTable::new();
    let (tx, rx) = channel_pair(4);
    table.subscribe("chan", "session-1", tx);
    drop(rx);

    let (delivered, dropped) = table.route("chan", sample_event());
    assert_eq!(delivered, 0);
    assert_eq!(dropped, 0);
    assert!(table.channels().is_empty());
}

#[test]
fn route_drops_but_keeps_slow_session() {
    let mut table = RoutingTable::new();
    let (tx, _rx) = channel_pair(1); // capacity 1, receiver never drains
    table.subscribe("chan", "session-1", tx);

    let (d1, dropped1) = table.route("chan", sample_event()); // fills the buffer
    let (d2, dropped2) = table.route("chan", sample_event()); // buffer now full

    assert_eq!((d1, dropped1), (1, 0));
    assert_eq!((d2, dropped2), (0, 1));
    // Session is still registered: a full buffer isn't fatal.
    assert_eq!(table.channels(), vec!["chan".to_string()]);
}

#[test]
fn route_carries_the_message_unchanged() {
    let mut table = RoutingTable::new();
    let (tx, mut rx) = channel_pair(4);
    table.subscribe("chan", "session-1", tx);
    let mut event = sample_event();
    event.node_id = Some("node-1".to_string());
    table.route("chan", event.clone());

    let got = rx.try_recv().unwrap();
    assert_eq!(got.scope, MessageScope::Broadcast);
    assert_eq!(got.kind, MessageKind::Event);
    assert_eq!(got.node_id, Some("node-1".to_string()));
    assert_eq!(got.payload, event.payload);
    assert_eq!(got.payload.to_string(), "{\"test\":true}");
}

#[test]
fn route_on_an_unknown_channel_reaches_nobody() {
    let mut table = RoutingTable::new();
    let (tx, mut rx) = channel_pair(4);
    table.subscribe("chan", "session-1", tx);
    assert_eq!(table.route("other", sample_event()), (0, 0));
    assert!(rx.try_recv().is_err());
    assert_eq!(table.channels(), vec!["chan".to_string()]);
}

#[test]
fn route_counts_each_session_once() {
    let mut table = RoutingTable::new();
    let (open, mut open_rx) = channel_pair(4);
    let (full, _full_rx) = channel_pair(1);
    let (gone, gone_rx) = channel_pair(4);
    full.try_send(sample_event()).unwrap();
    drop(gone_rx);
    table.subscribe("chan", "gone", gone);
    table.subscribe("chan", "full", full);
    table.subscribe("chan", "open", open);

    assert_eq!(table.route("chan", sample_event()), (1, 1));
    assert!(open_rx.try_recv().is_ok());
    assert_eq!(
        sorted(table.sessions("chan")),
        vec!["full".to_string(), "open".to_string()]
    );
}

#[test]
fn unsubscribing_undoes_subscribing() {
    let mut table = RoutingTable::new();
    let (tx, _rx) = channel_pair(4);
    table.subscribe("chan", "session-1", tx);
    let (tx, _rx) = channel_pair(4);
    assert!(table.subscribe("other", "session-1", tx));
    assert!(table.unsubscribe("other", "session-1"));
    assert_eq!(table.channels(), vec!["chan".to_string()]);
    assert_eq!(table.sessions("chan"), vec!["session-1".to_string()]);
}

#[test]
fn unsubscribing_again_is_idle() {
    let mut table = RoutingTable::new();
    let (tx1, _rx1) = channel_pair(4);
    let (tx2, _rx2) = channel_pair(4);
    table.subscribe("chan", "session-1", tx1);
    table.subscribe("chan", "session-2", tx2);
    assert!(!table.unsubscribe("chan", "session-1"));
    assert!(!table.unsubscribe("chan", "session-1"));
    assert!(!table.unsubscribe("unknown", "session-1"));
    assert_eq!(table.sessions("chan"), vec!["session-2".to_string()]);
    assert!(table.unsubscribe("chan", "session-2"));
    assert!(!table.unsubscribe("chan", "session-2"));
}

#[test]
fn subscribing_again_replaces_the_queue() {
    let mut table = RoutingTable::new();
    let (tx1, mut rx1) = channel_pair(4);
    let (tx2, mut rx2) = channel_pair(4);
    assert!(table.subscribe("chan", "session-1", tx1));
    assert!(!table.subscribe("chan", "session-1", tx2));
    assert_eq!(table.route("chan", sample_event()), (1, 0));
    assert!(rx1.try_recv().is_err());
    assert!(rx2.try_recv().is_ok());
}

#[test]
fn other_channels_are_untouched() {
    let mut table = RoutingTable::new();
    let (tx1, mut rx1) = channel_pair(4);
    let (tx2, rx2) = channel_pair(4);
    table.subscribe("a", "session-1", tx1);
    table.subscribe("b", "session-2", tx2);
    drop(rx2);
    assert_eq!(table.route("b", sample_event()), (0, 0));
    assert_eq!(table.channels(), vec!["a".to_string()]);
    assert!(rx1.try_recv().is_err());
    assert_eq!(table.route("a", sample_event()), (1, 0));
    assert!(rx1.try_recv().is_ok());
}

#[test]
fn settle_follows_the_answers() {
    let mut table = RoutingTable::new();
    for name in ["s1", "s2", "s3", "s4"] {
        let (tx, _rx) = channel_pair(4);
        table.subscribe("chan", name, tx);
    }
    let order = table.sessions("chan");
    let answers = vec![
        Delivery::Closed,
        Delivery::Delivered,
        Delivery::Closed,
        Delivery::Dropped,
    ];
    assert_eq!(table.settle("chan", &answers), (1, 1));
    assert_eq!(
        sorted(table.sessions("chan")),
        sorted(vec![order[1].clone(), order[3].clone()])
    );
    assert_eq!(
        table.settle("chan", &vec![Delivery::Delivered, Delivery::Delivered]),
        (2, 0)
    );
    assert_eq!(
        table.settle("chan", &vec![Delivery::Closed, Delivery::Closed]),
        (0, 0)
    );
    assert!(table.channels().is_empty());
    assert!(table.sessions("chan").is_empty());
    assert_eq!(table.settle("chan", &Vec::new()), (0, 0));
}

#[test]
fn channels_lists_each_channel_once() {
    let mut table = RoutingTable::new();
    for (channel, session) in [("a", "1"), ("b", "1"), ("a", "2"), ("c", "3")] {
        let (tx, _rx) = channel_pair(1);
        table.subscribe(channel, session, tx);
    }
    assert_eq!(
        sorted(table.channels()),
        vec!["a".to_string(), "b".to_string(), "c".to_string()]
    );
}

#[test]
fn leaving_all_undoes_joining_all() {
    let mut table = RoutingTable::default();
    let (tx, _rx) = channel_pair(4);
    table.subscribe("a", "s0", tx);
    let (tx, _rx) = channel_pair(4);
    for channel in ["a", "b", "a", "c"] {
        table.subscribe(channel, "s1", tx.clone());
    }
    assert_eq!(table.channels().len(), 3);
    let released: Vec<bool> = ["a", "b", "a", "c"]
        .iter()
        .map(|channel| table.unsubscribe(channel, "s1"))
        .collect();
    assert_eq!(released, vec![false, true, false, true]);
    assert_eq!(table.channels(), vec!["a".to_string()]);
    assert_eq!(table.sessions("a"), vec!["s0".to_string()]);
}
