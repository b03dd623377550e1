//! Counters of the router's health.

use vstd::prelude::*;

verus! {

/// A counter once `by` is added to it. A counter that passes the end of its range starts again at zero.
pub open spec fn count_plus(count: u64, by: nat) -> u64 {
    ((count + by) % 0x1_0000_0000_0000_0000) as u64
}

/// A counter once `by` is taken off it; it wraps below zero as it wraps above.
pub open spec fn count_minus(count: u64, by: nat) -> u64 {
    ((count - by) % 0x1_0000_0000_0000_0000) as u64
}

/// What the counters show at one moment.
#[derive(Debug, Clone, Copy, PartialEq, Eq, Structural)]
pub struct MetricsSnapshot {
    pub sessions_active: u64,
    pub messages_routed: u64,
    pub messages_dropped: u64,
    pub redis_reconnects: u64,
    pub heartbeat_evictions: u64,
}

impl MetricsSnapshot {
    /// All counters at zero.
    pub open spec fn zero() -> Self {
        MetricsSnapshot {
            sessions_active: 0,
            messages_routed: 0,
            messages_dropped: 0,
            redis_reconnects: 0,
            heartbeat_evictions: 0,
        }
    }

    /// Counter by counter, the sum of two snapshots.
    pub open spec fn plus(self, other: Self) -> Self {
        MetricsSnapshot {
            sessions_active: count_plus(self.sessions_active, other.sessions_active as nat),
            messages_routed: count_plus(self.messages_routed, other.messages_routed as nat),
            messages_dropped: count_plus(self.messages_dropped, other.messages_dropped as nat),
            redis_reconnects: count_plus(self.redis_reconnects, other.redis_reconnects as nat),
            heartbeat_evictions: count_plus(self.heartbeat_evictions, other.heartbeat_evictions as nat),
        }
    }

    /// The counters once one more session has started.
    pub open spec fn after_session_started(self) -> Self {
        MetricsSnapshot { sessions_active: count_plus(self.sessions_active, 1), ..self }
    }

    /// The counters once a session has ended.
    pub open spec fn after_session_ended(self) -> Self {
        MetricsSnapshot { sessions_active: count_minus(self.sessions_active, 1), ..self }
    }

    /// The counters once `ended` sessions have ended.
    pub open spec fn after_sessions_ended(self, ended: nat) -> Self {
        MetricsSnapshot { sessions_active: count_minus(self.sessions_active, ended), ..self }
    }

    /// The counters once a message has reached `delivered` sessions and missed `dropped`.
    pub open spec fn after_routed(self, delivered: nat, dropped: nat) -> Self {
        MetricsSnapshot {
            messages_routed: count_plus(self.messages_routed, delivered),
            messages_dropped: count_plus(self.messages_dropped, dropped),
            ..self
        }
    }

    /// The counters once the connection has been given up for a new one.
    pub open spec fn after_reconnect(self) -> Self {
        MetricsSnapshot { redis_reconnects: count_plus(self.redis_reconnects, 1), ..self }
    }

    /// The counters once a session has been evicted for a missing heartbeat.
    pub open spec fn after_heartbeat_eviction(self) -> Self {
        MetricsSnapshot { heartbeat_evictions: count_plus(self.heartbeat_evictions, 1), ..self }
    }
}

/// The counters themselves.
///
/// Whatever is recorded adds the same amounts whatever the counters showed before (see
/// [`law_recording_adds`]). So a recording made on fresh counters is an increment that can be
/// added, counter by counter and in any order, to totals that several threads share.
pub struct Metrics {
    counts: MetricsSnapshot,
}

impl View for Metrics {
    type V = MetricsSnapshot;

    closed spec fn view(&self) -> MetricsSnapshot {
        self.counts
    }
}

impl Default for Metrics {
    fn default() -> (metrics: Self)
        ensures
            metrics@ == MetricsSnapshot::zero(),
    {
        Metrics {
            counts: MetricsSnapshot {
                sessions_active: 0,
                messages_routed: 0,
                messages_dropped: 0,
                redis_reconnects: 0,
                heartbeat_evictions: 0,
            },
        }
    }
}

impl Metrics {
    /// What the counters show now.
    pub fn snapshot(&self) -> (snapshot: MetricsSnapshot)
        ensures
            snapshot == self@,
    {
        MetricsSnapshot {
            sessions_active: self.counts.sessions_active,
            messages_routed: self.counts.messages_routed,
            messages_dropped: self.counts.messages_dropped,
            redis_reconnects: self.counts.redis_reconnects,
            heartbeat_evictions: self.counts.heartbeat_evictions,
        }
    }

    /// Counts one more active session.
    pub fn session_started(&mut self)
        ensures
            final(self)@ == old(self)@.after_session_started(),
    {
        self.counts.sessions_active = self.counts.sessions_active.wrapping_add(1);
    }

    /// Counts one active session less.
    pub fn session_ended(&mut self)
        ensures
            final(self)@ == old(self)@.after_session_ended(),
    {
        self.counts.sessions_active = self.counts.sessions_active.wrapping_sub(1);
    }

    /// Counts `ended` active sessions less.
    pub fn sessions_ended(&mut self, ended: usize)
        ensures
            final(self)@ == old(self)@.after_sessions_ended(ended as nat),
    {
        self.counts.sessions_active = self.counts.sessions_active.wrapping_sub(ended as u64);
    }

    /// Counts the sessions that a message reached and those that it was dropped for.
    pub fn record_routed(&mut self, delivered: u64, dropped: u64)
        ensures
            final(self)@ == old(self)@.after_routed(delivered as nat, dropped as nat),
    {
        self.counts.messages_routed = self.counts.messages_routed.wrapping_add(delivered);
        self.counts.messages_dropped = self.counts.messages_dropped.wrapping_add(dropped);
    }

    /// Counts one more reconnect.
    pub fn record_reconnect(&mut self)
        ensures
            final(self)@ == old(self)@.after_reconnect(),
    {
        self.counts.redis_reconnects = self.counts.redis_reconnects.wrapping_add(1);
    }

    /// Counts one more session evicted for a missing heartbeat.
    pub fn _record_heartbeat_eviction(&mut self)
        ensures
            final(self)@ == old(self)@.after_heartbeat_eviction(),
    {
        self.counts.heartbeat_evictions = self.counts.heartbeat_evictions.wrapping_add(1);
    }
}

/// What a recording does is an addition of what it makes of fresh counters; where nothing is
/// recorded, nothing is added.
pub proof fn law_recording_adds(
    counts: MetricsSnapshot,
    delivered: nat,
    dropped: nat,
    ended: nat,
)
    ensures
        counts.after_session_started() == counts.plus(
            MetricsSnapshot::zero().after_session_started(),
        ),
        counts.after_session_ended() == counts.plus(MetricsSnapshot::zero().after_session_ended()),
        counts.after_sessions_ended(ended) == counts.plus(
            MetricsSnapshot::zero().after_sessions_ended(ended),
        ),
        counts.after_routed(delivered, dropped) == counts.plus(
            MetricsSnapshot::zero().after_routed(delivered, dropped),
        ),
        counts.after_reconnect() == counts.plus(MetricsSnapshot::zero().after_reconnect()),
        counts.after_heartbeat_eviction() == counts.plus(
            MetricsSnapshot::zero().after_heartbeat_eviction(),
        ),
        counts == counts.plus(MetricsSnapshot::zero()),
{
    lemma_plus_what_zero_shows(counts.messages_routed, delivered as int);
    lemma_plus_what_zero_shows(counts.messages_dropped, dropped as int);
    lemma_plus_what_zero_shows(counts.sessions_active, -ended);
}

proof fn lemma_plus_what_zero_shows(count: u64, by: int)
    ensures
        (count + by) % 0x1_0000_0000_0000_0000 == (count + by % 0x1_0000_0000_0000_0000)
            % 0x1_0000_0000_0000_0000,
{
    vstd::arithmetic::div_mod::lemma_add_mod_noop_right(
        count as int,
        by,
        0x1_0000_0000_0000_0000,
    );
}

/// Fresh counters show zero.
pub proof fn law_fresh_counters_show_zero(metrics: Metrics)
    requires
        call_ensures(<Metrics as Default>::default, (), metrics),
    ensures
        metrics@.sessions_active == 0,
        metrics@.messages_routed == 0,
        metrics@.messages_dropped == 0,
        metrics@.redis_reconnects == 0,
        metrics@.heartbeat_evictions == 0,
{
}

/// Each recording adds to its own counter what it is about, modulo the range of a counter, and
/// leaves the others as they were.
pub proof fn law_recordings_keep_to_their_counter(delivered: u64, dropped: u64, ended: usize)
    ensures
        forall|metrics: &mut Metrics| #[trigger]
            call_ensures(Metrics::session_started, (metrics,), ()) ==> final(metrics)@ == (
            MetricsSnapshot {
                sessions_active: ((metrics@.sessions_active + 1)
                    % 0x1_0000_0000_0000_0000) as u64,
                ..metrics@
            }),
        forall|metrics: &mut Metrics| #[trigger]
            call_ensures(Metrics::session_ended, (metrics,), ()) ==> final(metrics)@ == (
            MetricsSnapshot {
                sessions_active: ((metrics@.sessions_active - 1)
                    % 0x1_0000_0000_0000_0000) as u64,
                ..metrics@
            }),
        forall|metrics: &mut Metrics| #[trigger]
            call_ensures(Metrics::sessions_ended, (metrics, ended), ()) ==> final(metrics)@ == (
            MetricsSnapshot {
                sessions_active: ((metrics@.sessions_active - ended)
                    % 0x1_0000_0000_0000_0000) as u64,
                ..metrics@
            }),
        forall|metrics: &mut Metrics| #[trigger]
            call_ensures(Metrics::record_routed, (metrics, delivered, dropped), ()) ==> final(metrics)@
                == (MetricsSnapshot {
                messages_routed: ((metrics@.messages_routed + delivered)
                    % 0x1_0000_0000_0000_0000) as u64,
                messages_dropped: ((metrics@.messages_dropped + dropped)
                    % 0x1_0000_0000_0000_0000) as u64,
                ..metrics@
            }),
        forall|metrics: &mut Metrics| #[trigger]
            call_ensures(Metrics::record_reconnect, (metrics,), ()) ==> final(metrics)@ == (
            MetricsSnapshot {
                redis_reconnects: ((metrics@.redis_reconnects + 1)
                    % 0x1_0000_0000_0000_0000) as u64,
                ..metrics@
            }),
        forall|metrics: &mut Metrics| #[trigger]
            call_ensures(Metrics::_record_heartbeat_eviction, (metrics,), ()) ==> final(metrics)@
                == (MetricsSnapshot {
                heartbeat_evictions: ((metrics@.heartbeat_evictions + 1)
                    % 0x1_0000_0000_0000_0000) as u64,
                ..metrics@
            }),
{
}

/// A snapshot shows every counter.
pub proof fn law_snapshot_shows_the_counters(metrics: &Metrics, snapshot: MetricsSnapshot)
    requires
        call_ensures(Metrics::snapshot, (metrics,), snapshot),
    ensures
        snapshot == metrics@,
{
}

/// The order in which increments are added does not matter.
pub proof fn law_increments_commute(
    counts: MetricsSnapshot,
    first: MetricsSnapshot,
    second: MetricsSnapshot,
)
    ensures
        counts.plus(first).plus(second) == counts.plus(second).plus(first),
        counts.plus(first).plus(second) == counts.plus(first.plus(second)),
{
    lemma_count_plus(counts.sessions_active, first.sessions_active, second.sessions_active);
    lemma_count_plus(counts.messages_routed, first.messages_routed, second.messages_routed);
    lemma_count_plus(counts.messages_dropped, first.messages_dropped, second.messages_dropped);
    lemma_count_plus(counts.redis_reconnects, first.redis_reconnects, second.redis_reconnects);
    lemma_count_plus(
        counts.heartbeat_evictions,
        first.heartbeat_evictions,
        second.heartbeat_evictions,
    );
}

/// Adding twice is adding the sum.
pub proof fn lemma_count_plus_twice(count: u64, first: nat, second: nat)
    ensures
        count_plus(count_plus(count, first), second) == count_plus(count, first + second),
{
    vstd::arithmetic::div_mod::lemma_add_mod_noop_right(
        second as int,
        count + first,
        0x1_0000_0000_0000_0000,
    );
}

proof fn lemma_count_plus(count: u64, first: u64, second: u64)
    ensures
        count_plus(count_plus(count, first as nat), second as nat) == count_plus(
            count_plus(count, second as nat),
            first as nat,
        ),
        count_plus(count_plus(count, first as nat), second as nat) == count_plus(
            count,
            count_plus(first, second as nat) as nat,
        ),
{
    lemma_plus_what_zero_shows(second, count + first);
    lemma_plus_what_zero_shows(first, count + second);
    lemma_plus_what_zero_shows(count, first + second);
}

/// A session that has started and ended leaves the counters as they were.
pub proof fn law_ended_session_is_not_counted(counts: MetricsSnapshot)
    ensures
        counts.after_session_started().after_session_ended() == counts,
{
}

/// As long as the count of active sessions stays within its range, a session that starts adds
/// one to it and a session that ends takes one away.
pub proof fn law_active_sessions(counts: MetricsSnapshot)
    ensures
        counts.sessions_active < u64::MAX ==> counts.after_session_started().sessions_active
            == counts.sessions_active + 1,
        counts.sessions_active > 0 ==> counts.after_session_ended().sessions_active
            == counts.sessions_active - 1,
{
}

} // verus!
