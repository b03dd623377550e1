use arifa::metrics::Metrics;
use arifa::router::{Router, RouterAction, RouterCommand, RouterEvent};
use arifa::{Arifa, MessageKind, MessageScope, WsMessage};
use tokio::sync::{mpsc, oneshot};

fn message(node_id: Option<&str>) -> WsMessage {
    WsMessage {
        scope: MessageScope::Private,
        kind: MessageKind::Event,
        node_id: node_id.map(|id| id.to_string()),
        payload: serde_json::Value::String("updated".to_string()),
    }
}

fn subscribe(
    channel: &str,
    session_id: &str,
    sender: mpsc::Sender<WsMessage>,
) -> (RouterEvent, oneshot::Receiver<()>) {
    let (ack, answered) = oneshot::channel();
    let command = RouterCommand::Subscribe {
        channel: channel.to_string(),
        session_id: session_id.to_string(),
        sender,
        ack,
    };
    (RouterEvent::Command(command), answered)
}

fn unsubscribe(channel: &str, session_id: &str) -> RouterEvent {
    RouterEvent::Command(RouterCommand::Unsubscribe {
        channel: channel.to_string(),
        session_id: session_id.to_string(),
    })
}

fn arrival(channel: &str, message: Option<WsMessage>) -> RouterEvent {
    RouterEvent::Message {
        channel: channel.to_string(),
        message,
    }
}

fn listening() -> (Router, Metrics) {
    let mut router = Router::new("node-1".to_string());
    let mut metrics = Metrics::default();
    let action = router.step(RouterEvent::Connected, &mut metrics);
    assert!(matches!(action, RouterAction::Resubscribe(channels) if channels.is_empty()));
    (router, metrics)
}

fn joined(
    router: &mut Router,
    metrics: &mut Metrics,
    channel: &str,
    session_id: &str,
) -> mpsc::Receiver<WsMessage> {
    let (sender, receiver) = mpsc::channel(4);
    let (event, mut answered) = subscribe(channel, session_id, sender);
    let mut action = router.step(event, metrics);
    if matches!(&action, RouterAction::SubscribeChannel(name) if name.as_str() == channel) {
        action = router.step(RouterEvent::ChannelSubscribed, metrics);
    }
    match action {
        RouterAction::Acknowledge(ack) => ack.send(()).unwrap(),
        _ => panic!("the handle is not answered"),
    }
    assert!(answered.try_recv().is_ok());
    receiver
}

#[test]
fn waits_double_up_to_the_longest() {
    let mut router = Router::new("node-1".to_string());
    let mut metrics = Metrics::default();
    let mut waits = Vec::new();
    for _ in 0..10 {
        match router.step(RouterEvent::ConnectFailed, &mut metrics) {
            RouterAction::ConnectAfter(wait) => waits.push(wait),
            _ => panic!("no attempt follows"),
        }
    }
    assert_eq!(
        waits,
        vec![200, 400, 800, 1600, 3200, 6400, 12800, 25600, 30000, 30000]
    );
    assert_eq!(metrics.snapshot().redis_reconnects, 0);
}

#[test]
fn a_connection_resets_the_wait() {
    let mut router = Router::new("node-1".to_string());
    let mut metrics = Metrics::default();
    router.step(RouterEvent::ConnectFailed, &mut metrics);
    router.step(RouterEvent::ConnectFailed, &mut metrics);
    router.step(RouterEvent::Connected, &mut metrics);
    let action = router.step(RouterEvent::StreamEnded, &mut metrics);
    assert!(matches!(action, RouterAction::ConnectAfter(200)));
    let action = router.step(RouterEvent::ConnectFailed, &mut metrics);
    assert!(matches!(action, RouterAction::ConnectAfter(400)));
    assert_eq!(metrics.snapshot().redis_reconnects, 1);
}

#[test]
fn every_channel_is_asked_for_on_a_new_connection() {
    let (mut router, mut metrics) = listening();
    let mut first = joined(&mut router, &mut metrics, "Location::891e2040897ffff", "s1");
    let _second = joined(&mut router, &mut metrics, "User::42", "s1");
    router.step(RouterEvent::StreamEnded, &mut metrics);
    router.step(RouterEvent::ConnectFailed, &mut metrics);
    match router.step(RouterEvent::Connected, &mut metrics) {
        RouterAction::Resubscribe(mut channels) => {
            channels.sort();
            assert_eq!(
                channels,
                vec!["Location::891e2040897ffff".to_string(), "User::42".to_string()]
            );
        }
        _ => panic!("no channel is asked for"),
    }
    router.step(
        arrival("Location::891e2040897ffff", Some(message(None))),
        &mut metrics,
    );
    assert!(first.try_recv().is_ok());
}

#[test]
fn a_refused_channel_is_asked_for_again() {
    let (mut router, mut metrics) = listening();
    let (sender, mut receiver) = mpsc::channel(4);
    let (event, mut answered) = subscribe("chan", "s1", sender);
    let action = router.step(event, &mut metrics);
    assert!(matches!(action, RouterAction::SubscribeChannel(name) if name == "chan"));
    let action = router.step(RouterEvent::ChannelRefused, &mut metrics);
    assert!(matches!(action, RouterAction::Connect));
    assert_eq!(metrics.snapshot().redis_reconnects, 1);
    // The handle gets no answer, and can tell.
    assert!(matches!(
        answered.try_recv(),
        Err(oneshot::error::TryRecvError::Closed)
    ));
    let action = router.step(RouterEvent::Connected, &mut metrics);
    assert!(
        matches!(action, RouterAction::Resubscribe(channels) if channels == vec!["chan".to_string()])
    );
    router.step(arrival("chan", Some(message(None))), &mut metrics);
    assert!(receiver.try_recv().is_ok());
}

#[test]
fn only_the_first_session_asks_for_a_channel() {
    let (mut router, mut metrics) = listening();
    let _first = joined(&mut router, &mut metrics, "chan", "s1");
    let (sender, _second) = mpsc::channel(4);
    let (event, _answered) = subscribe("chan", "s2", sender);
    let action = router.step(event, &mut metrics);
    assert!(matches!(action, RouterAction::Acknowledge(_)));
}

#[test]
fn only_the_last_session_releases_a_channel() {
    let (mut router, mut metrics) = listening();
    let _first = joined(&mut router, &mut metrics, "chan", "s1");
    let _second = joined(&mut router, &mut metrics, "chan", "s2");
    let action = router.step(unsubscribe("chan", "s1"), &mut metrics);
    assert!(matches!(action, RouterAction::Listen));
    let action = router.step(unsubscribe("chan", "s2"), &mut metrics);
    assert!(matches!(action, RouterAction::UnsubscribeChannel(name) if name == "chan"));
    let action = router.step(unsubscribe("chan", "s2"), &mut metrics);
    assert!(matches!(action, RouterAction::Listen));
}

#[test]
fn messages_are_counted() {
    let (mut router, mut metrics) = listening();
    let mut first = joined(&mut router, &mut metrics, "chan", "s1");
    let mut second = joined(&mut router, &mut metrics, "chan", "s2");
    for _ in 0..6 {
        let action = router.step(arrival("chan", Some(message(None))), &mut metrics);
        assert!(matches!(action, RouterAction::Listen));
    }
    // Each queue holds four messages.
    assert_eq!(metrics.snapshot().messages_routed, 8);
    assert_eq!(metrics.snapshot().messages_dropped, 4);
    assert!(first.try_recv().is_ok());
    assert!(second.try_recv().is_ok());
}

#[test]
fn a_message_reaches_only_the_node_it_names() {
    let (mut router, mut metrics) = listening();
    let mut receiver = joined(&mut router, &mut metrics, "User::42", "s1");
    router.step(arrival("User::42", Some(message(Some("node-2")))), &mut metrics);
    assert!(receiver.try_recv().is_err());
    assert_eq!(metrics.snapshot().messages_routed, 0);
    router.step(arrival("User::42", Some(message(Some("node-1")))), &mut metrics);
    assert!(receiver.try_recv().is_ok());
    router.step(arrival("User::42", Some(message(None))), &mut metrics);
    assert!(receiver.try_recv().is_ok());
    assert_eq!(metrics.snapshot().messages_routed, 2);
}

#[test]
fn an_unreadable_message_is_ignored() {
    let (mut router, mut metrics) = listening();
    let mut receiver = joined(&mut router, &mut metrics, "chan", "s1");
    let action = router.step(arrival("chan", None), &mut metrics);
    assert!(matches!(action, RouterAction::Listen));
    assert!(receiver.try_recv().is_err());
    assert_eq!(metrics.snapshot().messages_routed, 0);
}

#[test]
fn a_dead_channel_is_asked_for_afresh() {
    let (mut router, mut metrics) = listening();
    let receiver = joined(&mut router, &mut metrics, "chan", "s1");
    drop(receiver);
    router.step(arrival("chan", Some(message(None))), &mut metrics);
    assert_eq!(metrics.snapshot().messages_routed, 0);
    assert_eq!(metrics.snapshot().messages_dropped, 0);
    let (sender, _receiver) = mpsc::channel(4);
    let (event, _answered) = subscribe("chan", "s2", sender);
    let action = router.step(event, &mut metrics);
    assert!(matches!(action, RouterAction::SubscribeChannel(name) if name == "chan"));
}

#[test]
fn shutdown_stops_the_router_for_good() {
    let (mut router, mut metrics) = listening();
    let action = router.step(RouterEvent::ShutdownRequested, &mut metrics);
    assert!(matches!(action, RouterAction::Stop));
    let action = router.step(RouterEvent::Connected, &mut metrics);
    assert!(matches!(action, RouterAction::Stop));

    let mut router = Router::new("node-1".to_string());
    let action = router.step(RouterEvent::ShutdownRequested, &mut metrics);
    assert!(matches!(action, RouterAction::Stop));

    let (mut router, mut metrics) = listening();
    let action = router.step(RouterEvent::CommandsClosed, &mut metrics);
    assert!(matches!(action, RouterAction::Stop));
}

#[test]
fn an_event_at_the_wrong_time_changes_nothing() {
    let mut router = Router::new("node-1".to_string());
    let mut metrics = Metrics::default();
    let action = router.step(RouterEvent::StreamEnded, &mut metrics);
    assert!(matches!(action, RouterAction::Connect));
    assert_eq!(metrics.snapshot().redis_reconnects, 0);

    let (mut router, mut metrics) = listening();
    let action = router.step(RouterEvent::ConnectFailed, &mut metrics);
    assert!(matches!(action, RouterAction::Listen));
    let (sender, _receiver) = mpsc::channel(4);
    let (event, _answered) = subscribe("chan", "s1", sender);
    router.step(event, &mut metrics);
    let action = router.step(RouterEvent::ShutdownRequested, &mut metrics);
    assert!(matches!(action, RouterAction::SubscribeChannel(name) if name == "chan"));
    let action = router.step(RouterEvent::ChannelSubscribed, &mut metrics);
    assert!(matches!(action, RouterAction::Acknowledge(_)));
}

#[test]
fn a_subscription_is_fed_until_it_is_torn_down() {
    let (mut router, mut metrics) = listening();
    let mut node: Arifa<u32> = Arifa::new("node-1".to_string());
    let channels = vec!["Location::891e2040897ffff".to_string(), "User::42".to_string()];
    let mut subscription = node.subscribe(&channels, "42");
    for (command, mut answered) in subscription.commands.into_iter().zip(subscription.acks) {
        router.step(RouterEvent::Command(command), &mut metrics);
        match router.step(RouterEvent::ChannelSubscribed, &mut metrics) {
            RouterAction::Acknowledge(ack) => ack.send(()).unwrap(),
            _ => panic!("the handle is not answered"),
        }
        assert!(answered.try_recv().is_ok());
    }
    node.start_session(&subscription.session_id, 7, &mut metrics);

    router.step(arrival("User::42", Some(message(None))), &mut metrics);
    let got = subscription.messages.try_recv().unwrap();
    assert_eq!(got.payload, serde_json::Value::String("updated".to_string()));

    // The queue is bounded.
    for _ in 0..300 {
        router.step(arrival("User::42", Some(message(None))), &mut metrics);
    }
    assert_eq!(metrics.snapshot().messages_routed, 257);
    assert_eq!(metrics.snapshot().messages_dropped, 44);

    let (commands, handle) = node.unsubscribe(&subscription.session_id, &channels, &mut metrics);
    assert_eq!(handle, Some(7));
    for (command, channel) in commands.into_iter().zip(&channels) {
        let action = router.step(RouterEvent::Command(command), &mut metrics);
        assert!(matches!(action, RouterAction::UnsubscribeChannel(name) if &name == channel));
    }
    router.step(arrival("User::42", Some(message(None))), &mut metrics);
    assert_eq!(metrics.snapshot().messages_routed, 257);
    assert_eq!(metrics.snapshot().messages_dropped, 44);
}

#[test]
fn what_a_step_counts_is_an_increment() {
    let (mut router, mut metrics) = listening();
    let _first = joined(&mut router, &mut metrics, "chan", "s1");
    metrics.record_routed(u64::MAX, 5);
    let before = metrics.snapshot();
    router.step(arrival("chan", Some(message(None))), &mut metrics);
    let mut fresh = Metrics::default();
    router.step(arrival("chan", Some(message(None))), &mut fresh);
    assert_eq!(fresh.snapshot().messages_routed, 1);
    assert_eq!(
        metrics.snapshot().messages_routed,
        before.messages_routed.wrapping_add(fresh.snapshot().messages_routed)
    );
    assert_eq!(metrics.snapshot().messages_dropped, before.messages_dropped);
}

#[test]
fn a_queue_gets_each_message_once_and_nothing_else() {
    let (mut router, mut metrics) = listening();
    let mut receiver = joined(&mut router, &mut metrics, "User::42", "s1");
    let mut elsewhere = joined(&mut router, &mut metrics, "User::7", "s2");
    for (node_id, payload) in [(Some("node-2"), 1), (Some("node-1"), 2), (None, 3)] {
        let mut event = message(node_id);
        event.payload = serde_json::Value::from(payload);
        router.step(arrival("User::42", Some(event)), &mut metrics);
    }
    router.step(arrival("User::42", None), &mut metrics);
    assert_eq!(receiver.try_recv().unwrap().payload, serde_json::Value::from(2));
    assert_eq!(receiver.try_recv().unwrap().payload, serde_json::Value::from(3));
    assert!(receiver.try_recv().is_err());
    assert!(elsewhere.try_recv().is_err());
    assert_eq!(metrics.snapshot().messages_routed, 2);
    assert_eq!(metrics.snapshot().messages_dropped, 0);
    assert_eq!(metrics.snapshot().redis_reconnects, 0);
}

#[test]
fn a_message_reaches_each_node_it_is_for() {
    let mut nodes = Vec::new();
    for name in ["node-1", "node-2", "node-3"] {
        let mut router = Router::new(name.to_string());
        let mut metrics = Metrics::default();
        router.step(RouterEvent::Connected, &mut metrics);
        let receiver = joined(&mut router, &mut metrics, "chan", "s1");
        nodes.push((router, metrics, receiver));
    }
    for node_id in [None, Some("node-2"), Some("node-4")] {
        for (router, metrics, _) in nodes.iter_mut() {
            router.step(arrival("chan", Some(message(node_id))), metrics);
        }
    }
    let got: Vec<usize> = nodes
        .iter_mut()
        .map(|(_, _, receiver)| {
            let mut count = 0;
            while receiver.try_recv().is_ok() {
                count += 1;
            }
            count
        })
        .collect();
    assert_eq!(got, vec![1, 2, 1]);
}

#[test]
fn counters_add_up_over_a_run() {
    let (mut router, mut metrics) = listening();
    let _slow = joined(&mut router, &mut metrics, "chan", "s1");
    let gone = joined(&mut router, &mut metrics, "chan", "s2");
    drop(gone);
    for _ in 0..5 {
        router.step(arrival("chan", Some(message(None))), &mut metrics);
    }
    router.step(RouterEvent::StreamEnded, &mut metrics);
    router.step(RouterEvent::ConnectFailed, &mut metrics);
    router.step(RouterEvent::Connected, &mut metrics);
    let (sender, _receiver) = mpsc::channel(4);
    let (event, _answered) = subscribe("other", "s1", sender);
    router.step(event, &mut metrics);
    router.step(RouterEvent::ChannelRefused, &mut metrics);
    let shown = metrics.snapshot();
    assert_eq!(shown.messages_routed, 4);
    assert_eq!(shown.messages_dropped, 1);
    assert_eq!(shown.redis_reconnects, 2);
    assert_eq!(shown.sessions_active, 0);
}

#[test]
fn a_full_queue_costs_only_its_session() {
    let (mut router, mut metrics) = listening();
    let mut slow = joined(&mut router, &mut metrics, "chan", "slow");
    let mut quick = joined(&mut router, &mut metrics, "chan", "quick");
    for _ in 0..4 {
        router.step(arrival("chan", Some(message(None))), &mut metrics);
        assert!(quick.try_recv().is_ok());
    }
    router.step(arrival("chan", Some(message(None))), &mut metrics);
    assert!(quick.try_recv().is_ok());
    assert_eq!(metrics.snapshot().messages_dropped, 1);
    assert_eq!(metrics.snapshot().messages_routed, 9);
    // The slow session is still there.
    assert!(slow.try_recv().is_ok());
    router.step(arrival("chan", Some(message(None))), &mut metrics);
    assert_eq!(metrics.snapshot().messages_routed, 11);
}
