//! Whole connections, driven in memory: a client, the two forwarding halves, and a
//! server that echoes every byte.

use netfault::config::{Config, FaultConfig};
use netfault::probability::Probability;
use netfault::proxy::{
    accept_step, open_connection, AcceptAction, AcceptEvent, ConnectionIds, ForwardAction,
    ForwardEvent, Forwarder,
};
use netfault::stats::Stats;

fn prob(p: f64) -> Probability {
    Probability::from_bits(p.to_bits())
}

fn base_config(seed: u64) -> Config<&'static str> {
    Config {
        listen: "127.0.0.1:0",
        target: "127.0.0.1:1",
        seed,
        client_to_server: FaultConfig::default(),
        server_to_client: FaultConfig::default(),
    }
}

/// A forwarding half on its way through a stream, and what it has done.
struct Ride {
    half: Option<Forwarder>,
    received: usize,
    written: Vec<u8>,
    waited_ms: u64,
    cancelled_peer: bool,
    stopped: bool,
}

impl Ride {
    fn new(half: Forwarder) -> Ride {
        Ride {
            half: Some(half),
            received: 0,
            written: Vec::new(),
            waited_ms: 0,
            cancelled_peer: false,
            stopped: false,
        }
    }

    /// Hands in one read event and does what the half asks for until it wants to
    /// read again or stops. Returns what it wrote.
    fn feed(&mut self, event: ForwardEvent, stats: &mut Stats) -> Vec<u8> {
        if let ForwardEvent::Received(chunk) = &event {
            self.received += chunk.len();
        }
        let mut event = event;
        let mut wrote = Vec::new();
        loop {
            let half = self.half.take().expect("half in place");
            assert!(half.accepts(&event));
            let (half, action) = half.step(event, stats);
            self.half = Some(half);
            event = match action {
                ForwardAction::Read => break,
                ForwardAction::Wait(ms) => {
                    self.waited_ms += ms;
                    ForwardEvent::Waited
                }
                ForwardAction::Write(payload) => {
                    wrote.extend_from_slice(&payload);
                    ForwardEvent::Written
                }
                ForwardAction::Finish { cancel } => {
                    self.cancelled_peer = cancel;
                    self.stopped = true;
                    break;
                }
                ForwardAction::Fail(failure) => panic!("unexpected {failure:?}"),
            };
        }
        self.written.extend_from_slice(&wrote);
        wrote
    }
}

/// Sends `messages` through a connection to the echo server, then ends the stream.
/// Returns the client-to-server and server-to-client rides.
fn converse(
    config: &Config<&'static str>,
    conn_id: u64,
    messages: &[Vec<u8>],
    stats: &mut Stats,
) -> (Ride, Ride) {
    let (c2s, s2c) = open_connection(config, conn_id);
    let (mut c2s, mut s2c) = (Ride::new(c2s), Ride::new(s2c));
    for message in messages {
        let arrived = c2s.feed(ForwardEvent::Received(message.clone()), stats);
        if !arrived.is_empty() && !s2c.stopped {
            s2c.feed(ForwardEvent::Received(arrived), stats);
        }
        if c2s.stopped || s2c.stopped {
            break;
        }
    }
    if c2s.cancelled_peer && !s2c.stopped {
        s2c.feed(ForwardEvent::Cancelled, stats);
    }
    if s2c.cancelled_peer && !c2s.stopped {
        c2s.feed(ForwardEvent::Cancelled, stats);
    }
    if !c2s.stopped {
        c2s.feed(ForwardEvent::Eof, stats);
    }
    if !s2c.stopped {
        s2c.feed(ForwardEvent::Eof, stats);
    }
    (c2s, s2c)
}

fn hamming_distance(a: &[u8], b: &[u8]) -> u32 {
    assert_eq!(a.len(), b.len(), "hamming_distance requires equal lengths");
    a.iter().zip(b).map(|(x, y)| (x ^ y).count_ones()).sum()
}

/// Five standard deviations of the mean of `n` trials of probability `p`.
fn probability_tolerance(p: f64, n: usize) -> f64 {
    5.0 * (p * (1.0 - p) / n as f64).sqrt()
}

#[test]
fn drop_all_client_to_server_delivers_zero_bytes() {
    let mut cfg = base_config(1);
    cfg.client_to_server.drop_probability = prob(1.0);
    let message = b"this should never arrive at the echo server".to_vec();
    let mut stats = Stats::default();
    let (c2s, s2c) = converse(&cfg, 1, &[message], &mut stats);
    assert!(c2s.written.is_empty());
    assert!(s2c.written.is_empty());
    assert_eq!(stats.snapshot().client_to_server.chunks_dropped, 1);
    assert_eq!(stats.snapshot().client_to_server.bytes_forwarded, 0);
}

#[test]
fn latency_c2s_adds_measurable_rtt() {
    let mut cfg = base_config(1);
    cfg.client_to_server.latency_ms = 200;
    let payload = b"ping".to_vec();
    let (c2s, s2c) = converse(&cfg, 1, &[payload.clone()], &mut Stats::default());
    assert_eq!(s2c.written, payload, "echo returned wrong bytes");
    let rtt = c2s.waited_ms + s2c.waited_ms;
    assert!(rtt >= 200);
    assert!(rtt < 1500);
}

#[test]
fn corrupt_flips_exactly_n_distinct_bits() {
    let mut cfg = base_config(1);
    cfg.client_to_server.corrupt_probability = prob(1.0);
    cfg.client_to_server.corrupt_bits = 3;
    let payload: Vec<u8> = (0..512).map(|i| (i & 0xFF) as u8).collect();
    let (_, s2c) = converse(&cfg, 1, &[payload.clone()], &mut Stats::default());
    assert_eq!(s2c.written.len(), payload.len(), "echo returned wrong length");
    assert_eq!(hamming_distance(&payload, &s2c.written), 3);
}

#[test]
fn close_probability_1_terminates_connection() {
    let mut cfg = base_config(1);
    cfg.client_to_server.close_probability = prob(1.0);
    let messages = vec![b"hello".to_vec(), b"never read".to_vec()];
    let (c2s, s2c) = converse(&cfg, 1, &messages, &mut Stats::default());
    assert!(c2s.stopped && s2c.stopped);
    assert!(c2s.cancelled_peer);
    assert_eq!(c2s.written, b"hello");
}

#[test]
fn concurrent_connections_each_hit_target_drop_rate() {
    const N_CLIENTS: usize = 10;
    const MSGS_PER_CLIENT: usize = 500;
    const MSG_LEN: usize = 128;
    const P: f64 = 0.5;
    let mut cfg = base_config(0xC0DE_C0DE);
    cfg.client_to_server.drop_probability = prob(P);
    let tol = probability_tolerance(P, MSGS_PER_CLIENT / 2);
    let mut stats = Stats::default();
    let mut rides: Vec<Ride> = (0..N_CLIENTS)
        .map(|i| Ride::new(open_connection(&cfg, 1 + i as u64).0))
        .collect();
    // The clients take turns, message by message.
    for i in 0..MSGS_PER_CLIENT {
        for (client_id, ride) in rides.iter_mut().enumerate() {
            let mut msg = vec![0u8; MSG_LEN];
            msg[0] = client_id as u8;
            msg[1] = (i & 0xFF) as u8;
            ride.feed(ForwardEvent::Received(msg), &mut stats);
        }
    }
    let mut total = 0;
    for (idx, ride) in rides.iter().enumerate() {
        let sent = (MSGS_PER_CLIENT * MSG_LEN) as f64;
        let rate = 1.0 - ride.written.len() as f64 / sent;
        assert!(
            (rate - P).abs() < tol,
            "client {idx}: observed drop rate {rate:.4}, expected {P:.4} +/- {tol:.4}"
        );
        total += ride.written.len() as u64;
    }
    assert_eq!(stats.client_to_server.bytes_forwarded, total);
    // What a client gets does not depend on the others.
    let mut alone = Ride::new(open_connection(&cfg, 4).0);
    let mut other_stats = Stats::default();
    for i in 0..MSGS_PER_CLIENT {
        let mut msg = vec![0u8; MSG_LEN];
        msg[0] = 3;
        msg[1] = (i & 0xFF) as u8;
        alone.feed(ForwardEvent::Received(msg), &mut other_stats);
    }
    assert_eq!(alone.written, rides[3].written);
}

#[test]
fn all_four_faults_combined_do_not_deadlock() {
    let mut cfg = base_config(0xFAAF_FAAF);
    cfg.client_to_server = FaultConfig {
        latency_ms: 5,
        latency_jitter_ms: 5,
        drop_probability: prob(0.2),
        corrupt_probability: prob(0.2),
        corrupt_bits: 1,
        close_probability: prob(0.01),
    };
    const MAX_MSGS: usize = 500;
    let messages: Vec<Vec<u8>> = (0..MAX_MSGS)
        .map(|i| {
            let mut msg = vec![0u8; 64];
            msg[0] = (i & 0xFF) as u8;
            msg[1] = ((i >> 8) & 0xFF) as u8;
            msg
        })
        .collect();
    let mut stats = Stats::default();
    let (c2s, s2c) = converse(&cfg, 1, &messages, &mut stats);
    assert!(c2s.stopped && s2c.stopped);
    let sent = c2s.received;
    assert!(sent > 0, "no bytes were sent");
    assert!(s2c.written.len() < sent, "no drops observed");
    let counted = stats.snapshot().client_to_server;
    let own = c2s.half.as_ref().unwrap().output();
    assert_eq!(counted.bytes_forwarded, own.bytes);
    assert_eq!(counted.bytes_forwarded, c2s.written.len() as u64);
    assert_eq!(counted.latency_events, own.stats.latency_events);
    assert_eq!(counted.chunks_dropped, own.stats.dropped);
    assert_eq!(counted.chunks_corrupted, own.stats.corrupted);
    assert_eq!(counted.close_fault_fired, own.stats.closed);
}

#[test]
fn half_close_propagates_through_latency_pipeline() {
    let mut cfg = base_config(1);
    cfg.client_to_server.latency_ms = 50;
    cfg.server_to_client.latency_ms = 50;
    let payload: Vec<u8> = (0..2048).map(|i| (i & 0xFF) as u8).collect();
    let (c2s, s2c) = converse(&cfg, 1, &[payload.clone()], &mut Stats::default());
    assert_eq!(s2c.written, payload);
    assert!(c2s.stopped && !c2s.cancelled_peer);
    assert!(s2c.stopped && !s2c.cancelled_peer);
    assert_eq!((c2s.waited_ms, s2c.waited_ms), (50, 50));
}

#[test]
fn shutdown_drains_and_accumulates_correct_stats() {
    let mut cfg = base_config(1);
    cfg.client_to_server.latency_ms = 5;
    const N_CONNS: usize = 3;
    const PAYLOAD_LEN: usize = 256;
    let mut stats = Stats::default();
    let mut ids = ConnectionIds::new();
    for _ in 0..N_CONNS {
        let conn_id = match accept_step(AcceptEvent::Accepted, &mut ids, &mut stats) {
            AcceptAction::Handle { conn_id } => conn_id,
            other => panic!("unexpected {other:?}"),
        };
        let payload: Vec<u8> = (0..PAYLOAD_LEN).map(|i| (i & 0xFF) as u8).collect();
        let (_, s2c) = converse(&cfg, conn_id, &[payload.clone()], &mut stats);
        assert_eq!(s2c.written.len(), payload.len(), "round-trip length");
    }
    assert_eq!(
        accept_step(AcceptEvent::Shutdown, &mut ids, &mut stats),
        AcceptAction::Drain
    );
    let snap = stats.snapshot();
    assert_eq!(snap.connections_handled, N_CONNS as u64);
    assert_eq!(
        snap.client_to_server.bytes_forwarded,
        (N_CONNS * PAYLOAD_LEN) as u64,
        "c2s bytes",
    );
    assert_eq!(
        snap.server_to_client.bytes_forwarded,
        (N_CONNS * PAYLOAD_LEN) as u64,
        "s2c bytes",
    );
    assert!(snap.client_to_server.latency_events >= N_CONNS as u64);
    assert_eq!(snap.client_to_server.chunks_dropped, 0);
    assert_eq!(snap.client_to_server.chunks_corrupted, 0);
    assert_eq!(snap.client_to_server.close_fault_fired, 0);
}
