//! Global fault-injection counters, updated live as chunks flow through the
//! proxy. Rendered as a summary on shutdown so a run can be checked against
//! the configured probabilities. All counters wrap around at the largest `u64`.

use crate::fault::{counted, Outcome, OutcomeView};
use vstd::prelude::*;

verus! {

/// Per-direction counters.
#[derive(Debug, PartialEq, Eq, Structural)]
pub struct DirectionStats {
    /// Bytes actually forwarded to the peer after all faults were applied.
    /// Dropped bytes are *not* counted here: they never went out.
    pub bytes_forwarded: u64,
    pub latency_events: u64,
    pub chunks_dropped: u64,
    pub chunks_corrupted: u64,
    pub close_fault_fired: u64,
}

impl DirectionStats {
    /// The counters at the start of a run.
    pub open spec fn zero() -> DirectionStats {
        DirectionStats {
            bytes_forwarded: 0,
            latency_events: 0,
            chunks_dropped: 0,
            chunks_corrupted: 0,
            close_fault_fired: 0,
        }
    }

    /// The counters once the faults of one more chunk are counted.
    pub open spec fn with_faults(self, outcome: OutcomeView) -> DirectionStats {
        DirectionStats {
            bytes_forwarded: self.bytes_forwarded,
            latency_events: counted(self.latency_events, outcome.latency_applied),
            chunks_dropped: counted(self.chunks_dropped, outcome.dropped),
            chunks_corrupted: counted(self.chunks_corrupted, outcome.corrupted),
            close_fault_fired: counted(self.close_fault_fired, outcome.close_after),
        }
    }

    /// The counters once `len` more bytes are counted as forwarded.
    pub open spec fn with_bytes(self, len: u64) -> DirectionStats {
        DirectionStats { bytes_forwarded: self.bytes_forwarded.wrapping_add(len), ..self }
    }

    /// The counters as they stand, for printing.
    pub open spec fn as_snapshot(self) -> DirectionSnapshot {
        DirectionSnapshot {
            bytes_forwarded: self.bytes_forwarded,
            latency_events: self.latency_events,
            chunks_dropped: self.chunks_dropped,
            chunks_corrupted: self.chunks_corrupted,
            close_fault_fired: self.close_fault_fired,
        }
    }

    /// Counts the faults that one chunk met with.
    pub fn record_faults(&mut self, outcome: &Outcome)
        ensures
            *final(self) == old(self).with_faults(outcome@),
    {
        if outcome.latency_applied {
            self.latency_events = self.latency_events.wrapping_add(1);
        }
        if outcome.dropped {
            self.chunks_dropped = self.chunks_dropped.wrapping_add(1);
        }
        if outcome.corrupted {
            self.chunks_corrupted = self.chunks_corrupted.wrapping_add(1);
        }
        if outcome.close_after {
            self.close_fault_fired = self.close_fault_fired.wrapping_add(1);
        }
    }

    /// Counts bytes that went out to the peer.
    pub fn record_forwarded(&mut self, len: u64)
        ensures
            *final(self) == old(self).with_bytes(len),
    {
        self.bytes_forwarded = self.bytes_forwarded.wrapping_add(len);
    }

    pub fn snapshot(&self) -> (snap: DirectionSnapshot)
        ensures
            snap == self.as_snapshot(),
    {
        DirectionSnapshot {
            bytes_forwarded: self.bytes_forwarded,
            latency_events: self.latency_events,
            chunks_dropped: self.chunks_dropped,
            chunks_corrupted: self.chunks_corrupted,
            close_fault_fired: self.close_fault_fired,
        }
    }
}

impl Default for DirectionStats {
    fn default() -> (stats: Self)
        ensures
            stats == DirectionStats::zero(),
    {
        DirectionStats {
            bytes_forwarded: 0,
            latency_events: 0,
            chunks_dropped: 0,
            chunks_corrupted: 0,
            close_fault_fired: 0,
        }
    }
}

/// Top-level counters shared across all connections handled by one proxy run.
#[derive(Debug, PartialEq, Eq, Structural)]
pub struct Stats {
    pub connections_handled: u64,
    pub client_to_server: DirectionStats,
    pub server_to_client: DirectionStats,
}

impl Stats {
    /// The counters at the start of a run.
    pub open spec fn zero() -> Stats {
        Stats {
            connections_handled: 0,
            client_to_server: DirectionStats::zero(),
            server_to_client: DirectionStats::zero(),
        }
    }

    /// The counters as they stand, for printing.
    pub open spec fn as_snapshot(self) -> StatsSnapshot {
        StatsSnapshot {
            connections_handled: self.connections_handled,
            client_to_server: self.client_to_server.as_snapshot(),
            server_to_client: self.server_to_client.as_snapshot(),
        }
    }

    /// Counts one more accepted connection.
    pub fn record_connection(&mut self)
        ensures
            final(self).connections_handled == old(self).connections_handled.wrapping_add(1),
            final(self).client_to_server == old(self).client_to_server,
            final(self).server_to_client == old(self).server_to_client,
    {
        self.connections_handled = self.connections_handled.wrapping_add(1);
    }

    pub fn snapshot(&self) -> (snap: StatsSnapshot)
        ensures
            snap == self.as_snapshot(),
    {
        StatsSnapshot {
            connections_handled: self.connections_handled,
            client_to_server: self.client_to_server.snapshot(),
            server_to_client: self.server_to_client.snapshot(),
        }
    }
}

impl Default for Stats {
    fn default() -> (stats: Self)
        ensures
            stats == Stats::zero(),
    {
        Stats {
            connections_handled: 0,
            client_to_server: DirectionStats::default(),
            server_to_client: DirectionStats::default(),
        }
    }
}

/// A run starts with every counter at zero.
pub proof fn law_counters_start_at_zero()
    ensures
        Stats::zero().connections_handled == 0,
        Stats::zero().client_to_server == DirectionStats::zero(),
        Stats::zero().server_to_client == DirectionStats::zero(),
        DirectionStats::zero().bytes_forwarded == 0,
        DirectionStats::zero().latency_events == 0,
        DirectionStats::zero().chunks_dropped == 0,
        DirectionStats::zero().chunks_corrupted == 0,
        DirectionStats::zero().close_fault_fired == 0,
{
}

/// Counting adds one to the counters of what happened and leaves the others alone,
/// and bytes are added up; all of it modulo 2^64.
pub proof fn law_counting_adds(counters: DirectionStats, outcome: OutcomeView, len: u64)
    ensures
        ({
            let one_more = |n: u64, event: bool|
                (n + if event {
                    1int
                } else {
                    0
                }) % 0x1_0000_0000_0000_0000;
            let next = counters.with_faults(outcome);
            &&& next.bytes_forwarded == counters.bytes_forwarded
            &&& next.latency_events == one_more(counters.latency_events, outcome.latency_applied)
            &&& next.chunks_dropped == one_more(counters.chunks_dropped, outcome.dropped)
            &&& next.chunks_corrupted == one_more(counters.chunks_corrupted, outcome.corrupted)
            &&& next.close_fault_fired == one_more(counters.close_fault_fired, outcome.close_after)
        }),
        ({
            let next = counters.with_bytes(len);
            &&& next.bytes_forwarded == (counters.bytes_forwarded + len) % 0x1_0000_0000_0000_0000
            &&& next.latency_events == counters.latency_events
            &&& next.chunks_dropped == counters.chunks_dropped
            &&& next.chunks_corrupted == counters.chunks_corrupted
            &&& next.close_fault_fired == counters.close_fault_fired
        }),
{
}

/// A snapshot holds the counters as they stand, each under its own name.
pub proof fn law_snapshot_is_a_copy(stats: Stats)
    ensures
        ({
            let (snap, c2s, s2c) = (
                stats.as_snapshot(),
                stats.client_to_server,
                stats.server_to_client,
            );
            &&& snap.connections_handled == stats.connections_handled
            &&& snap.client_to_server.bytes_forwarded == c2s.bytes_forwarded
            &&& snap.client_to_server.latency_events == c2s.latency_events
            &&& snap.client_to_server.chunks_dropped == c2s.chunks_dropped
            &&& snap.client_to_server.chunks_corrupted == c2s.chunks_corrupted
            &&& snap.client_to_server.close_fault_fired == c2s.close_fault_fired
            &&& snap.server_to_client.bytes_forwarded == s2c.bytes_forwarded
            &&& snap.server_to_client.latency_events == s2c.latency_events
            &&& snap.server_to_client.chunks_dropped == s2c.chunks_dropped
            &&& snap.server_to_client.chunks_corrupted == s2c.chunks_corrupted
            &&& snap.server_to_client.close_fault_fired == s2c.close_fault_fired
        }),
{
}

/// A point-in-time copy of `Stats`, cheap to pass around and print without
/// touching the shared counters again.
#[derive(Debug, Clone, Copy, PartialEq, Eq, Structural)]
pub struct StatsSnapshot {
    pub connections_handled: u64,
    pub client_to_server: DirectionSnapshot,
    pub server_to_client: DirectionSnapshot,
}

/// A point-in-time copy of `DirectionStats`.
#[derive(Debug, Clone, Copy, PartialEq, Eq, Structural)]
pub struct DirectionSnapshot {
    pub bytes_forwarded: u64,
    pub latency_events: u64,
    pub chunks_dropped: u64,
    pub chunks_corrupted: u64,
    pub close_fault_fired: u64,
}

} // verus!
