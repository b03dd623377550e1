use arifa::forwarder::{forward, ForwarderAction, ForwarderEvent};
use arifa::metrics::Metrics;
use arifa::router::RouterCommand;
use arifa::store::StoreCommand;
use arifa::{Arifa, MessageKind, MessageScope, WsMessage};

fn message() -> WsMessage {
    WsMessage {
        scope: MessageScope::Broadcast,
        kind: MessageKind::Feeds,
        node_id: None,
        payload: serde_json::Value::Null,
    }
}

fn channels() -> Vec<String> {
    vec![
        "Location::891e2040897ffff".to_string(),
        "User::42".to_string(),
    ]
}

fn node() -> Arifa<u32> {
    Arifa::new("node-1".to_string())
}

#[test]
fn a_node_knows_its_name() {
    assert_eq!(node().node_id(), "node-1");
}

#[test]
fn session_ids_have_their_shape_and_differ() {
    let first = node().subscribe(&channels(), "42").session_id;
    let second = node().subscribe(&channels(), "42").session_id;
    assert_ne!(first, second);
    for id in [&first, &second] {
        assert_eq!(id.len(), 36);
        for (at, c) in id.chars().enumerate() {
            if matches!(at, 8 | 13 | 18 | 23) {
                assert_eq!(c, '-');
            } else {
                assert!(matches!(c, '0'..='9' | 'a'..='f'));
            }
        }
        assert_eq!(id.chars().nth(14), Some('4'));
        assert!(matches!(id.chars().nth(19), Some('8' | '9' | 'a' | 'b')));
    }
}

#[test]
fn a_subscription_has_a_command_for_each_channel() {
    let mut subscription = node().subscribe(&channels(), "42");
    assert_eq!(subscription.commands.len(), 2);
    assert_eq!(subscription.acks.len(), 2);
    let wanted = channels();
    for (at, command) in subscription.commands.into_iter().enumerate() {
        match command {
            RouterCommand::Subscribe {
                channel,
                session_id,
                sender,
                ack,
            } => {
                assert_eq!(channel, wanted[at]);
                assert_eq!(session_id, subscription.session_id);
                assert!(subscription.acks[at].try_recv().is_err());
                ack.send(()).unwrap();
                assert!(subscription.acks[at].try_recv().is_ok());
                assert!(sender.try_send(message()).is_ok());
                assert!(subscription.messages.try_recv().is_ok());
            }
            RouterCommand::Unsubscribe { .. } => panic!("the session leaves"),
        }
    }
}

#[test]
fn the_queue_of_a_session_is_bounded() {
    let mut subscription = node().subscribe(&vec!["chan".to_string()], "42");
    match subscription.commands.remove(0) {
        RouterCommand::Subscribe { sender, .. } => {
            assert_eq!(sender.max_capacity(), 256);
            for _ in 0..256 {
                assert!(sender.try_send(message()).is_ok());
            }
            assert!(sender.try_send(message()).is_err());
        }
        RouterCommand::Unsubscribe { .. } => panic!("the session leaves"),
    }
}

#[test]
fn a_subscription_marks_its_session_online() {
    let subscription = node().subscribe(&channels(), "42");
    assert_eq!(subscription.online.len(), 4);
    assert!(matches!(
        &subscription.online[1],
        StoreCommand::SetText { key, value }
            if *key == format!("arifa:session_user:{}", subscription.session_id) && value == "42"
    ));
}

#[test]
fn unsubscribing_ends_a_known_session_once() {
    let mut node = node();
    let mut metrics = Metrics::default();
    assert_eq!(node.start_session("s1", 7, &mut metrics), None);
    assert_eq!(metrics.snapshot().sessions_active, 1);

    let (commands, handle) = node.unsubscribe("s1", &channels(), &mut metrics);
    assert_eq!(handle, Some(7));
    assert_eq!(metrics.snapshot().sessions_active, 0);
    assert_eq!(commands.len(), 2);
    let wanted = channels();
    for (at, command) in commands.into_iter().enumerate() {
        match command {
            RouterCommand::Unsubscribe {
                channel,
                session_id,
            } => {
                assert_eq!(channel, wanted[at]);
                assert_eq!(session_id, "s1");
            }
            RouterCommand::Subscribe { .. } => panic!("the session joins"),
        }
    }

    let (commands, handle) = node.unsubscribe("s1", &channels(), &mut metrics);
    assert_eq!(commands.len(), 2);
    assert_eq!(handle, None);
    assert_eq!(metrics.snapshot().sessions_active, 0);
}

#[test]
fn starting_again_hands_back_the_handle() {
    let mut node = node();
    let mut metrics = Metrics::default();
    assert_eq!(node.start_session("s1", 1, &mut metrics), None);
    assert_eq!(node.start_session("s1", 2, &mut metrics), Some(1));
    assert_eq!(metrics.snapshot().sessions_active, 2);
    assert_eq!(node.shutdown(&mut metrics), vec![2]);
}

#[test]
fn shutdown_hands_out_and_counts_out_every_session() {
    let mut node = node();
    let mut metrics = Metrics::default();
    metrics.record_routed(5, 6);
    node.start_session("s1", 1, &mut metrics);
    node.start_session("s2", 2, &mut metrics);
    node.start_session("s3", 3, &mut metrics);
    assert_eq!(metrics.snapshot().sessions_active, 3);
    let mut handles = node.shutdown(&mut metrics);
    handles.sort();
    assert_eq!(handles, vec![1, 2, 3]);
    assert_eq!(metrics.snapshot().sessions_active, 0);
    assert_eq!(metrics.snapshot().messages_routed, 5);
    assert_eq!(metrics.snapshot().messages_dropped, 6);
    assert!(node.shutdown(&mut metrics).is_empty());
    assert_eq!(node.end_session("s1", &mut metrics), None);
    assert_eq!(metrics.snapshot().sessions_active, 0);
    assert_eq!(node.node_id(), "node-1");
}

#[test]
fn a_session_that_ended_by_itself_is_counted_out_once() {
    let mut node = node();
    let mut metrics = Metrics::default();
    let subscription = node.subscribe(&vec!["c".to_string()], "u");
    let id = subscription.session_id;
    node.start_session(&id, 1, &mut metrics);
    assert_eq!(metrics.snapshot().sessions_active, 1);
    assert!(matches!(forward(ForwarderEvent::SendFailed), ForwarderAction::Stop));
    assert_eq!(node.end_session(&id, &mut metrics), Some(1));
    assert_eq!(metrics.snapshot().sessions_active, 0);
    let (commands, handle) = node.unsubscribe(&id, &vec!["c".to_string()], &mut metrics);
    assert_eq!(commands.len(), 1);
    assert_eq!(handle, None);
    assert_eq!(metrics.snapshot().sessions_active, 0);
}

#[test]
fn a_session_counts_one_whatever_its_channels() {
    let mut node = node();
    let mut metrics = Metrics::default();
    let names: Vec<String> = (0..5).map(|at| format!("c{at}")).collect();
    let subscription = node.subscribe(&names, "u");
    assert_eq!(subscription.commands.len(), 5);
    node.start_session(&subscription.session_id, 1, &mut metrics);
    assert_eq!(metrics.snapshot().sessions_active, 1);
    assert_eq!(metrics.snapshot().messages_routed, 0);
    assert_eq!(metrics.snapshot().redis_reconnects, 0);
}

#[test]
fn publishing_sends_the_text_to_the_channel() {
    let command = node().publish("User::42", "{}".to_string());
    assert!(matches!(
        command,
        StoreCommand::Publish { channel, payload } if channel == "User::42" && payload == "{}"
    ));
}

#[test]
fn a_forwarder_sends_until_its_queue_or_its_client_is_gone() {
    let action = forward(ForwarderEvent::Message(message()));
    assert!(matches!(action, ForwarderAction::Send(m) if m.kind == MessageKind::Feeds));
    assert!(matches!(forward(ForwarderEvent::Sent), ForwarderAction::Receive));
    assert!(matches!(forward(ForwarderEvent::QueueClosed), ForwarderAction::Stop));
    assert!(matches!(forward(ForwarderEvent::SendFailed), ForwarderAction::Stop));
}

#[test]
fn a_session_can_be_prepared_under_a_given_id() {
    let subscription = node().subscribe_as("s1".to_string(), &channels(), "42");
    assert_eq!(subscription.session_id, "s1");
    assert_eq!(subscription.commands.len(), 2);
    assert_eq!(subscription.acks.len(), 2);
    for (command, name) in subscription.commands.into_iter().zip(channels()) {
        match command {
            RouterCommand::Subscribe {
                channel,
                session_id,
                sender,
                ..
            } => {
                assert_eq!(channel, name);
                assert_eq!(session_id, "s1");
                assert_eq!(sender.max_capacity(), 256);
            }
            _ => panic!("not a subscription"),
        }
    }
    assert_eq!(
        format!("{:?}", subscription.online[0]),
        "SAdd { key: \"arifa:online_users\", member: \"s1\" }"
    );
}

#[test]
fn a_forwarder_sends_what_it_receives_and_stops_at_a_failure() {
    let mut queue = vec![1, 2, 3, 4].into_iter();
    let mut reports = vec![true, true, false].into_iter();
    let mut sent = Vec::new();
    let mut action = ForwarderAction::Receive;
    loop {
        let event = match action {
            ForwarderAction::Receive => match queue.next() {
                Some(payload) => {
                    let mut next = message();
                    next.payload = serde_json::Value::from(payload);
                    ForwarderEvent::Message(next)
                }
                None => ForwarderEvent::QueueClosed,
            },
            ForwarderAction::Send(message) => {
                sent.push(message.payload);
                if reports.next() == Some(true) {
                    ForwarderEvent::Sent
                } else {
                    ForwarderEvent::SendFailed
                }
            }
            ForwarderAction::Stop => break,
        };
        action = forward(event);
    }
    let wanted: Vec<serde_json::Value> = (1..4).map(serde_json::Value::from).collect();
    assert_eq!(sent, wanted);
    assert_eq!(queue.next(), Some(4));
}
