use arifa::metrics::{Metrics, MetricsSnapshot};

fn plus(a: MetricsSnapshot, b: MetricsSnapshot) -> MetricsSnapshot {
    MetricsSnapshot {
        sessions_active: a.sessions_active.wrapping_add(b.sessions_active),
        messages_routed: a.messages_routed.wrapping_add(b.messages_routed),
        messages_dropped: a.messages_dropped.wrapping_add(b.messages_dropped),
        redis_reconnects: a.redis_reconnects.wrapping_add(b.redis_reconnects),
        heartbeat_evictions: a.heartbeat_evictions.wrapping_add(b.heartbeat_evictions),
    }
}

#[test]
fn fresh_counters_are_zero() {
    let snapshot = Metrics::default().snapshot();
    assert_eq!(
        snapshot,
        MetricsSnapshot {
            sessions_active: 0,
            messages_routed: 0,
            messages_dropped: 0,
            redis_reconnects: 0,
            heartbeat_evictions: 0,
        }
    );
}

#[test]
fn each_recording_moves_its_own_counters() {
    let mut metrics = Metrics::default();
    metrics.session_started();
    metrics.session_started();
    metrics.session_ended();
    metrics.record_routed(5, 2);
    metrics.record_routed(1, 0);
    metrics.record_reconnect();
    metrics._record_heartbeat_eviction();
    metrics._record_heartbeat_eviction();
    assert_eq!(
        metrics.snapshot(),
        MetricsSnapshot {
            sessions_active: 1,
            messages_routed: 6,
            messages_dropped: 2,
            redis_reconnects: 1,
            heartbeat_evictions: 2,
        }
    );
}

#[test]
fn counters_wrap() {
    let mut metrics = Metrics::default();
    metrics.session_ended();
    assert_eq!(metrics.snapshot().sessions_active, u64::MAX);
    metrics.session_started();
    assert_eq!(metrics.snapshot().sessions_active, 0);
    metrics.record_routed(u64::MAX, 3);
    metrics.record_routed(2, u64::MAX);
    assert_eq!(metrics.snapshot().messages_routed, 1);
    assert_eq!(metrics.snapshot().messages_dropped, 2);
}

#[test]
fn a_recording_on_fresh_counters_is_an_increment() {
    let mut totals = Metrics::default();
    totals.session_started();
    totals.record_routed(7, 1);
    let before = totals.snapshot();

    let mut fresh = Metrics::default();
    fresh.session_ended();
    fresh.record_routed(3, 4);
    fresh.record_reconnect();

    totals.record_reconnect();
    totals.record_routed(3, 4);
    totals.session_ended();
    assert_eq!(totals.snapshot(), plus(before, fresh.snapshot()));
}

#[test]
fn several_sessions_can_end_at_once() {
    let mut metrics = Metrics::default();
    for _ in 0..5 {
        metrics.session_started();
    }
    metrics.sessions_ended(3);
    assert_eq!(metrics.snapshot().sessions_active, 2);
    metrics.sessions_ended(3);
    assert_eq!(metrics.snapshot().sessions_active, u64::MAX);
}
