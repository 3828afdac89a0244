use netfault::config::FaultConfig;
use netfault::fault::{derive_seed, FaultPipeline, InjectionStats, Outcome};
use netfault::probability::Probability;
use netfault::proxy::{
    accept_step, build_pipeline, collect_forward_result, summarize, AcceptAction, AcceptEvent,
    ConnectionIds, Direction, ForwardAction, ForwardEvent, ForwardFailure, ForwardOutput,
    Forwarder, BUFFER_SIZE, SHUTDOWN_DRAIN_TIMEOUT_MS,
};
use netfault::stats::{DirectionSnapshot, DirectionStats, Stats};

fn prob(p: f64) -> Probability {
    Probability::from_bits(p.to_bits())
}

fn half(config: FaultConfig) -> Forwarder {
    Forwarder::new(FaultPipeline::new(config, 1), Direction::ClientToServer)
}

fn quiet() -> FaultConfig {
    FaultConfig::default()
}

#[test]
fn directions_have_names_and_tags() {
    assert_eq!(Direction::ClientToServer.as_str(), "c2s");
    assert_eq!(Direction::ServerToClient.as_str(), "s2c");
    assert_eq!(Direction::ClientToServer.seed_tag(), 0);
    assert_eq!(Direction::ServerToClient.seed_tag(), 1);
}

#[test]
fn directions_select_their_counters() {
    let mut stats = Stats::default();
    stats.client_to_server.record_forwarded(3);
    stats.server_to_client.record_forwarded(4);
    assert_eq!(Direction::ClientToServer.stats_for(&stats).bytes_forwarded, 3);
    assert_eq!(Direction::ServerToClient.stats_for(&stats).bytes_forwarded, 4);
}

#[test]
fn limits_have_these_values() {
    assert_eq!(BUFFER_SIZE, 8 * 1024);
    assert_eq!(SHUTDOWN_DRAIN_TIMEOUT_MS, 5_000);
}

#[test]
fn pipelines_are_seeded_per_stream() {
    let config = FaultConfig {
        corrupt_probability: prob(1.0),
        corrupt_bits: 9,
        ..quiet()
    };
    let mut built = build_pipeline(&config, 42, 3, Direction::ServerToClient);
    let mut by_hand = FaultPipeline::new(config, derive_seed(42, 3, 1));
    let mut other = build_pipeline(&config, 42, 3, Direction::ClientToServer);
    let out = built.process(vec![0; 64]).payload;
    assert_eq!(out, by_hand.process(vec![0; 64]).payload);
    assert_ne!(out, other.process(vec![0; 64]).payload);
}

#[test]
fn failed_tasks_count_for_nothing() {
    let out = ForwardOutput {
        bytes: 9,
        stats: InjectionStats {
            latency_events: 1,
            dropped: 2,
            corrupted: 3,
            closed: 1,
        },
    };
    let nothing = ForwardOutput {
        bytes: 0,
        stats: InjectionStats::default(),
    };
    assert_eq!(collect_forward_result::<&str, &str>(Ok(Ok(out))), out);
    assert_eq!(collect_forward_result::<&str, &str>(Ok(Err("io"))), nothing);
    assert_eq!(collect_forward_result::<&str, &str>(Err("panic")), nothing);
}

#[test]
fn summary_knows_who_closed() {
    let out = |closed: u64| ForwardOutput {
        bytes: 5,
        stats: InjectionStats {
            closed,
            ..InjectionStats::default()
        },
    };
    assert!(!summarize(out(0), out(0)).closed_by_fault);
    assert!(summarize(out(1), out(0)).closed_by_fault);
    assert!(summarize(out(0), out(1)).closed_by_fault);
    let summary = summarize(out(1), out(0));
    assert_eq!((summary.c2s, summary.s2c), (out(1), out(0)));
}

#[test]
fn chunk_is_written_and_counted() {
    let mut stats = Stats::default();
    let (half, action) = half(quiet()).step(ForwardEvent::Received(vec![1, 2, 3]), &mut stats);
    assert!(matches!(&action, ForwardAction::Write(bytes) if *bytes == [1, 2, 3]));
    assert_eq!(stats.client_to_server.bytes_forwarded, 0);
    let (half, action) = half.step(ForwardEvent::Written, &mut stats);
    assert!(matches!(action, ForwardAction::Read));
    assert_eq!(stats.client_to_server.bytes_forwarded, 3);
    assert_eq!(half.output().bytes, 3);
    let (half, action) = half.step(ForwardEvent::Eof, &mut stats);
    assert!(matches!(action, ForwardAction::Finish { cancel: false }));
    assert_eq!(half.output().bytes, 3);
    assert!(!half.is_closed_by_fault());
}

#[test]
fn latency_waits_before_anything_is_counted() {
    let mut stats = Stats::default();
    let config = FaultConfig {
        latency_ms: 30,
        ..quiet()
    };
    let (half, action) = half(config).step(ForwardEvent::Received(vec![7]), &mut stats);
    assert!(matches!(action, ForwardAction::Wait(30)));
    assert_eq!(stats, Stats::default());
    assert!(half.accepts(&ForwardEvent::Waited));
    assert!(!half.accepts(&ForwardEvent::Cancelled));
    let (half, action) = half.step(ForwardEvent::Waited, &mut stats);
    assert!(matches!(&action, ForwardAction::Write(bytes) if *bytes == [7]));
    assert_eq!(stats.client_to_server.latency_events, 1);
    assert_eq!(half.output().stats.latency_events, 1);
}

#[test]
fn dropped_chunk_reads_on() {
    let mut stats = Stats::default();
    let config = FaultConfig {
        drop_probability: prob(1.0),
        ..quiet()
    };
    let (half, action) = half(config).step(ForwardEvent::Received(vec![7; 100]), &mut stats);
    assert!(matches!(action, ForwardAction::Read));
    assert_eq!(stats.client_to_server.chunks_dropped, 1);
    assert_eq!(stats.client_to_server.bytes_forwarded, 0);
    assert_eq!(half.output().bytes, 0);
    assert_eq!(half.output().stats.dropped, 1);
}

#[test]
fn close_fault_acts_after_the_write() {
    let mut stats = Stats::default();
    let config = FaultConfig {
        close_probability: prob(1.0),
        ..quiet()
    };
    let (half, action) = half(config).step(ForwardEvent::Received(vec![7, 8]), &mut stats);
    assert!(matches!(&action, ForwardAction::Write(bytes) if *bytes == [7, 8]));
    assert_eq!(stats.client_to_server.close_fault_fired, 1);
    let (half, action) = half.step(ForwardEvent::Written, &mut stats);
    assert!(matches!(action, ForwardAction::Finish { cancel: true }));
    assert!(half.is_closed_by_fault());
    assert_eq!(half.output().bytes, 2);
    assert_eq!(half.output().stats.closed, 1);
    for event in [
        ForwardEvent::Cancelled,
        ForwardEvent::Eof,
        ForwardEvent::ReadFailed,
        ForwardEvent::Received(vec![1]),
        ForwardEvent::Waited,
        ForwardEvent::Written,
        ForwardEvent::WriteFailed,
    ] {
        assert!(!half.accepts(&event));
    }
}

#[test]
fn dropped_chunk_can_still_close() {
    let mut stats = Stats::default();
    let config = FaultConfig {
        drop_probability: prob(1.0),
        close_probability: prob(1.0),
        ..quiet()
    };
    let (half, action) = half(config).step(ForwardEvent::Received(vec![7, 8]), &mut stats);
    assert!(matches!(action, ForwardAction::Finish { cancel: true }));
    assert!(half.is_closed_by_fault());
    assert_eq!(stats.client_to_server.chunks_dropped, 1);
    assert_eq!(stats.client_to_server.close_fault_fired, 1);
}

#[test]
fn corrupted_chunk_is_counted_before_the_write() {
    let mut stats = Stats::default();
    let config = FaultConfig {
        corrupt_probability: prob(1.0),
        corrupt_bits: 8,
        ..quiet()
    };
    let (half, action) = half(config).step(ForwardEvent::Received(vec![0x0F]), &mut stats);
    assert!(matches!(&action, ForwardAction::Write(bytes) if *bytes == [0xF0]));
    assert_eq!(stats.client_to_server.chunks_corrupted, 1);
    let (half, action) = half.step(ForwardEvent::WriteFailed, &mut stats);
    assert!(matches!(action, ForwardAction::Fail(ForwardFailure::Write)));
    assert_eq!(stats.client_to_server.bytes_forwarded, 0);
    assert_eq!(half.output().bytes, 0);
}

#[test]
fn cancellation_and_failures_end_a_half() {
    let mut stats = Stats::default();
    let (_, action) = half(quiet()).step(ForwardEvent::Cancelled, &mut stats);
    assert!(matches!(action, ForwardAction::Finish { cancel: false }));
    let (_, action) = half(quiet()).step(ForwardEvent::ReadFailed, &mut stats);
    assert!(matches!(action, ForwardAction::Fail(ForwardFailure::Read)));
    assert_eq!(stats, Stats::default());
}

#[test]
fn failures_are_described() {
    assert_eq!(
        ForwardFailure::Read.context(Direction::ClientToServer),
        "read failed on c2s"
    );
    assert_eq!(
        ForwardFailure::Write.context(Direction::ServerToClient),
        "write failed on s2c"
    );
}

#[test]
fn halves_touch_their_own_direction_only() {
    let mut stats = Stats::default();
    let config = FaultConfig {
        drop_probability: prob(1.0),
        ..quiet()
    };
    let half = Forwarder::new(FaultPipeline::new(config, 1), Direction::ServerToClient);
    let _ = half.step(ForwardEvent::Received(vec![1]), &mut stats);
    assert_eq!(stats.client_to_server, DirectionStats::default());
    assert_eq!(stats.server_to_client.chunks_dropped, 1);
    assert_eq!(stats.connections_handled, 0);
}

#[test]
fn accept_loop_numbers_connections() {
    let mut ids = ConnectionIds::new();
    let mut stats = Stats::default();
    assert_eq!(
        accept_step(AcceptEvent::Accepted, &mut ids, &mut stats),
        AcceptAction::Handle { conn_id: 1 }
    );
    assert_eq!(
        accept_step(AcceptEvent::Failed, &mut ids, &mut stats),
        AcceptAction::Continue
    );
    assert_eq!(
        accept_step(AcceptEvent::Accepted, &mut ids, &mut stats),
        AcceptAction::Handle { conn_id: 2 }
    );
    assert_eq!(
        accept_step(AcceptEvent::Shutdown, &mut ids, &mut stats),
        AcceptAction::Drain
    );
    assert_eq!(stats.connections_handled, 2);
    assert_eq!(ids.allocate(), 3);
}

#[test]
fn snapshot_copies_every_counter() {
    let mut stats = Stats::default();
    stats.record_connection();
    stats.client_to_server.record_faults(&Outcome {
        payload: None,
        close_after: true,
        dropped: true,
        corrupted: false,
        latency_applied: true,
        latency_ms: 4,
    });
    stats.server_to_client.record_faults(&Outcome {
        payload: Some(vec![1]),
        close_after: false,
        dropped: false,
        corrupted: true,
        latency_applied: false,
        latency_ms: 0,
    });
    stats.server_to_client.record_forwarded(1);
    let snap = stats.snapshot();
    assert_eq!(snap.connections_handled, 1);
    assert_eq!(
        snap.client_to_server,
        DirectionSnapshot {
            bytes_forwarded: 0,
            latency_events: 1,
            chunks_dropped: 1,
            chunks_corrupted: 0,
            close_fault_fired: 1,
        }
    );
    assert_eq!(
        snap.server_to_client,
        DirectionSnapshot {
            bytes_forwarded: 1,
            latency_events: 0,
            chunks_dropped: 0,
            chunks_corrupted: 1,
            close_fault_fired: 0,
        }
    );
    assert_eq!(snap.server_to_client, stats.server_to_client.snapshot());
}

#[test]
fn counters_wrap_around() {
    let mut stats = DirectionStats {
        bytes_forwarded: u64::MAX,
        ..DirectionStats::default()
    };
    stats.record_forwarded(3);
    assert_eq!(stats.bytes_forwarded, 2);
}

#[test]
fn connections_are_counted_over_a_run() {
    let mut ids = ConnectionIds::new();
    let mut stats = Stats {
        connections_handled: u64::MAX - 1,
        ..Stats::default()
    };
    let mut seen = Vec::new();
    for i in 0..10 {
        let event = if i % 3 == 1 {
            AcceptEvent::Failed
        } else {
            AcceptEvent::Accepted
        };
        if let AcceptAction::Handle { conn_id } = accept_step(event, &mut ids, &mut stats) {
            seen.push(conn_id);
        }
        stats.client_to_server.record_forwarded(1);
    }
    assert_eq!(seen, vec![1, 2, 3, 4, 5, 6, 7]);
    assert_eq!(stats.connections_handled, 5);
}
