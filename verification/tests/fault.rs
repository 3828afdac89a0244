use netfault::config::FaultConfig;
use netfault::fault::{chunk_delay, derive_seed, FaultPipeline, InjectionStats, Outcome};
use netfault::probability::Probability;
use rand::rngs::StdRng;
use rand::{Rng, SeedableRng};
use std::time::{Duration, Instant};

fn prob(p: f64) -> Probability {
    Probability::from_bits(p.to_bits())
}

fn cfg_all_off() -> FaultConfig {
    FaultConfig::default()
}

fn cfg_always_drop() -> FaultConfig {
    FaultConfig {
        drop_probability: prob(1.0),
        ..Default::default()
    }
}

fn cfg_always_corrupt(bits: u32) -> FaultConfig {
    FaultConfig {
        corrupt_probability: prob(1.0),
        corrupt_bits: bits,
        ..Default::default()
    }
}

fn cfg_always_close() -> FaultConfig {
    FaultConfig {
        close_probability: prob(1.0),
        ..Default::default()
    }
}

fn hamming(a: &[u8], b: &[u8]) -> u32 {
    assert_eq!(a.len(), b.len());
    a.iter().zip(b).map(|(a, b)| (a ^ b).count_ones()).sum()
}

#[test]
fn all_off_forwards_unchanged() {
    let mut p = FaultPipeline::new(cfg_all_off(), 1);
    let out = p.process(vec![1, 2, 3, 4]);
    assert_eq!(out.payload.as_deref(), Some(&[1, 2, 3, 4][..]));
    assert!(!out.dropped);
    assert!(!out.corrupted);
    assert!(!out.close_after);
    assert!(!out.latency_applied);
    assert_eq!(out.latency_ms, 0);
}

#[test]
fn always_drop_returns_none_and_no_corrupt() {
    let mut p = FaultPipeline::new(cfg_always_drop(), 1);
    let out = p.process(vec![9; 16]);
    assert!(out.payload.is_none());
    assert!(out.dropped);
    assert!(!out.corrupted);
    assert_eq!(p.stats().dropped, 1);
    assert_eq!(p.stats().corrupted, 0);
}

#[test]
fn always_corrupt_flips_exactly_n_bits() {
    let original = vec![0u8; 16];
    let mut p = FaultPipeline::new(cfg_always_corrupt(5), 42);
    let out = p.process(original.clone());
    let corrupted = out.payload.expect("not dropped");
    assert!(out.corrupted);
    let flips: u32 = original
        .iter()
        .zip(&corrupted)
        .map(|(a, b)| (a ^ b).count_ones())
        .sum();
    assert_eq!(flips, 5, "expected 5 bit flips, got {flips}");
}

#[test]
fn corrupt_clamps_bits_to_available() {
    let mut p = FaultPipeline::new(cfg_always_corrupt(100), 7);
    let out = p.process(vec![]);
    // Empty chunk stays empty even with corrupt=1.0 (nothing to flip).
    assert_eq!(out.payload.as_deref(), Some(&[][..]));
    // One byte has eight bits; a hundred flips clamp to eight, one for each.
    let out = p.process(vec![0b0101_0011]);
    assert_eq!(out.payload.as_deref(), Some(&[0b1010_1100][..]));
}

#[test]
fn always_close_sets_close_after() {
    let mut p = FaultPipeline::new(cfg_always_close(), 1);
    let out = p.process(vec![1]);
    assert!(out.close_after);
    assert_eq!(p.stats().closed, 1);
    // Even a second processed chunk keeps `closed` at 1 (it's a boolean count).
    let _ = p.process(vec![2]);
    assert_eq!(p.stats().closed, 1);
}

#[test]
fn latency_advances_time() {
    let cfg = FaultConfig {
        latency_ms: 100,
        ..Default::default()
    };
    let mut p = FaultPipeline::new(cfg, 1);
    let runtime = tokio::runtime::Builder::new_current_thread()
        .enable_time()
        .build()
        .unwrap();
    let start = Instant::now();
    let out = p.process(vec![1]);
    runtime.block_on(async { tokio::time::sleep(Duration::from_millis(out.latency_ms)).await });
    let elapsed = start.elapsed();
    assert!(
        elapsed >= Duration::from_millis(100),
        "expected >=100ms elapsed, got {elapsed:?}"
    );
    assert_eq!(p.stats().latency_events, 1);
}

#[test]
fn derive_seed_is_deterministic_and_separates_directions() {
    let a1 = derive_seed(42, 1, 0);
    let a2 = derive_seed(42, 1, 0);
    assert_eq!(a1, a2, "same inputs must produce same seed");
    let b = derive_seed(42, 1, 1);
    assert_ne!(
        a1, b,
        "different direction tags must produce different seeds"
    );
    let c = derive_seed(42, 2, 0);
    assert_ne!(a1, c, "different conn ids must produce different seeds");
}

#[test]
fn same_seed_produces_same_bit_flips() {
    // Reproducibility: two pipelines with the same seed and config produce
    // byte-identical output for the same input sequence.
    let mut p1 = FaultPipeline::new(cfg_always_corrupt(3), 99);
    let mut p2 = FaultPipeline::new(cfg_always_corrupt(3), 99);
    for _ in 0..10 {
        let input = vec![0xAAu8; 32];
        let o1 = p1.process(input.clone());
        let o2 = p2.process(input);
        assert_eq!(o1.payload, o2.payload);
    }
}

#[test]
fn different_seeds_produce_different_bit_flips() {
    let mut p1 = FaultPipeline::new(cfg_always_corrupt(8), 99);
    let mut p2 = FaultPipeline::new(cfg_always_corrupt(8), 100);
    let o1 = p1.process(vec![0xAAu8; 32]);
    let o2 = p2.process(vec![0xAAu8; 32]);
    assert_ne!(o1.payload, o2.payload);
}

#[test]
fn corruption_always_flips_distinct_bits() {
    for seed in 0..50 {
        for bits in [0u32, 1, 2, 7, 8, 9, 15, 16, 17, 1000] {
            let original = vec![0x5Au8; 2];
            let mut p = FaultPipeline::new(cfg_always_corrupt(bits), seed);
            let out = p.process(original.clone());
            assert!(out.corrupted);
            assert_eq!(hamming(&original, &out.payload.unwrap()), bits.min(16));
        }
    }
}

#[test]
fn every_bit_gets_flipped_sooner_or_later() {
    let mut seen = vec![0u8; 4];
    let mut p = FaultPipeline::new(cfg_always_corrupt(3), 5);
    for _ in 0..200 {
        let out = p.process(vec![0u8; 4]).payload.unwrap();
        for (s, o) in seen.iter_mut().zip(&out) {
            *s |= o;
        }
    }
    assert_eq!(seen, vec![0xFF; 4]);
}

#[test]
fn corrupt_draws_follow_the_generator() {
    let mut rng = StdRng::seed_from_u64(31);
    let mut p = FaultPipeline::new(cfg_always_corrupt(6), 31);
    for _ in 0..50 {
        let total: usize = 24;
        let mut chosen: Vec<usize> = Vec::new();
        for i in 0..6 {
            let drawn = rng.gen_range(0..total);
            if chosen.contains(&drawn) {
                let rank = rng.gen_range(0..total - i);
                let free: Vec<usize> = (0..total).filter(|q| !chosen.contains(q)).collect();
                chosen.push(free[rank]);
            } else {
                chosen.push(drawn);
            }
        }
        let mut expected = vec![0u8; 3];
        for position in chosen {
            expected[position / 8] |= 1 << (position % 8);
        }
        assert_eq!(p.process(vec![0u8; 3]).payload.unwrap(), expected);
    }
}

#[test]
fn distinct_draws_are_the_flipped_bits() {
    let mut seen = 0;
    for seed in 0..200 {
        let mut rng = StdRng::seed_from_u64(seed);
        let mut draws: Vec<usize> = (0..5).map(|_| rng.gen_range(0..128usize)).collect();
        let mut expected = vec![0u8; 16];
        for position in &draws {
            expected[position / 8] ^= 1 << (position % 8);
        }
        draws.sort();
        draws.dedup();
        if draws.len() == 5 {
            seen += 1;
            let mut p = FaultPipeline::new(cfg_always_corrupt(5), seed);
            assert_eq!(p.process(vec![0u8; 16]).payload.unwrap(), expected);
        }
    }
    assert!(seen > 100);
}

#[test]
fn a_full_read_buffer_can_be_inverted() {
    let mut p = FaultPipeline::new(cfg_always_corrupt(u32::MAX), 2);
    let out = p.process(vec![0x3C; 8192]);
    assert_eq!(out.payload.unwrap(), vec![0xC3; 8192]);
}

#[test]
fn rolls_follow_the_generator() {
    let p = 0.3;
    let mut rng = StdRng::seed_from_u64(8);
    let mut pipeline = FaultPipeline::new(
        FaultConfig {
            drop_probability: prob(p),
            ..Default::default()
        },
        8,
    );
    let mut drops = 0;
    for _ in 0..2000 {
        let expected = rng.gen::<f64>() < p;
        let out = pipeline.process(vec![1]);
        assert_eq!(out.dropped, expected);
        drops += u64::from(expected);
    }
    assert_eq!(pipeline.stats().dropped, drops);
    assert!((500..700).contains(&drops));
}

#[test]
fn jitter_follows_the_generator() {
    let mut rng = StdRng::seed_from_u64(3);
    let mut pipeline = FaultPipeline::new(
        FaultConfig {
            latency_ms: 10,
            latency_jitter_ms: 20,
            ..Default::default()
        },
        3,
    );
    for _ in 0..200 {
        let jitter: u64 = rng.gen_range(0..=20);
        let out = pipeline.process(vec![1]);
        assert_eq!(out.latency_ms, 10 + jitter);
        assert!((10..=30).contains(&out.latency_ms));
    }
}

#[test]
fn draws_come_in_pipeline_order() {
    let mut rng = StdRng::seed_from_u64(77);
    let mut pipeline = FaultPipeline::new(
        FaultConfig {
            latency_ms: 1,
            latency_jitter_ms: 4,
            drop_probability: prob(0.25),
            corrupt_probability: prob(0.5),
            corrupt_bits: 1,
            close_probability: prob(0.125),
        },
        77,
    );
    for _ in 0..300 {
        let latency = 1 + rng.gen_range(0..=4u64);
        let dropped = rng.gen::<f64>() < 0.25;
        let corrupted = !dropped && rng.gen::<f64>() < 0.5;
        let payload = if dropped {
            None
        } else if corrupted {
            let position = rng.gen_range(0..8usize);
            Some(vec![1u8 << position])
        } else {
            Some(vec![0u8])
        };
        let close_after = rng.gen::<f64>() < 0.125;
        let out = pipeline.process(vec![0u8]);
        assert_eq!(out.latency_ms, latency);
        assert_eq!(out.dropped, dropped);
        assert_eq!(out.corrupted, corrupted);
        assert_eq!(out.payload, payload);
        assert_eq!(out.close_after, close_after);
    }
}

#[test]
fn switched_off_faults_leave_no_trace() {
    let plain = FaultConfig {
        latency_jitter_ms: 30,
        drop_probability: prob(0.3),
        close_probability: prob(0.2),
        ..Default::default()
    };
    let other = FaultConfig {
        corrupt_probability: prob(-0.0),
        corrupt_bits: 7,
        ..plain
    };
    let mut p1 = FaultPipeline::new(plain, 5);
    let mut p2 = FaultPipeline::new(other, 5);
    for _ in 0..100 {
        let (a, b) = (p1.process(vec![6; 9]), p2.process(vec![6; 9]));
        assert_eq!(a.latency_ms, b.latency_ms);
        assert_eq!(a.dropped, b.dropped);
        assert_eq!(a.payload, b.payload);
        assert_eq!(a.close_after, b.close_after);
        assert!(!a.corrupted && !b.corrupted);
    }
    assert_eq!(p1.stats(), p2.stats());
}

#[test]
fn switched_off_faults_use_no_randomness() {
    // The corrupt positions are the same with and without certain or impossible
    // neighbours.
    let quiet = cfg_always_corrupt(2);
    let noisy = FaultConfig {
        latency_ms: 9,
        close_probability: prob(1.0),
        drop_probability: prob(-0.0),
        ..quiet
    };
    let mut p1 = FaultPipeline::new(quiet, 11);
    let mut p2 = FaultPipeline::new(noisy, 11);
    for _ in 0..20 {
        assert_eq!(p1.process(vec![0; 8]).payload, p2.process(vec![0; 8]).payload);
    }
}

#[test]
fn nan_probability_rolls_and_never_fires() {
    let mut rng = StdRng::seed_from_u64(4);
    let mut p = FaultPipeline::new(
        FaultConfig {
            drop_probability: prob(f64::NAN),
            close_probability: prob(0.5),
            ..Default::default()
        },
        4,
    );
    for _ in 0..50 {
        let _ = rng.gen::<f64>();
        let close = rng.gen::<f64>() < 0.5;
        let out = p.process(vec![1]);
        assert!(!out.dropped);
        assert_eq!(out.close_after, close);
    }
}

#[test]
fn draw_comparison_matches_floating_point() {
    let words = [
        0u64,
        1,
        2047,
        2048,
        4095,
        4096,
        1 << 30,
        1 << 62,
        (1 << 63) - 1,
        1 << 63,
        (1 << 63) + 2048,
        u64::MAX - 2048,
        u64::MAX,
        0x1234_5678_9ABC_DEF0,
    ];
    let scale = 1.0 / (1u64 << 53) as f64;
    let mut probabilities = vec![
        0.0,
        -0.0,
        5e-324,
        1e-310,
        f64::MIN_POSITIVE,
        scale / 2.0,
        scale,
        scale * 1.5,
        scale * 2.0,
        0.001,
        0.05,
        0.1,
        0.25,
        0.5,
        0.75,
        0.999,
        1.0 - scale,
        1.0,
        1.5,
        f64::MAX,
        f64::INFINITY,
        f64::NEG_INFINITY,
        f64::NAN,
        -0.5,
        -2.0,
    ];
    probabilities.extend(words.iter().map(|w| (w >> 11) as f64 * scale));
    for p in probabilities {
        for w in words {
            let draw = (w >> 11) as f64 * scale;
            assert_eq!(prob(p).is_above(w), draw < p, "{p} {w}");
        }
    }
}

#[test]
fn close_is_evaluated_on_dropped_chunks() {
    let mut p = FaultPipeline::new(
        FaultConfig {
            close_probability: prob(1.0),
            ..cfg_always_drop()
        },
        1,
    );
    let out = p.process(vec![1, 2]);
    assert!(out.dropped && out.close_after);
    assert_eq!(p.stats().dropped, 1);
    assert_eq!(p.stats().closed, 1);
}

#[test]
fn zero_bits_corrupt_nothing() {
    let mut p = FaultPipeline::new(cfg_always_corrupt(0), 1);
    let out = p.process(vec![7; 9]);
    assert!(out.corrupted);
    assert_eq!(out.payload, Some(vec![7; 9]));
    assert_eq!(p.stats().corrupted, 1);
}

#[test]
fn delay_saturates() {
    assert_eq!(chunk_delay(100, 20), 120);
    assert_eq!(chunk_delay(u64::MAX - 1, 5), u64::MAX);
    assert_eq!(chunk_delay(0, 0), 0);
    let mut p = FaultPipeline::new(
        FaultConfig {
            latency_ms: u64::MAX,
            latency_jitter_ms: 1000,
            ..Default::default()
        },
        1,
    );
    assert_eq!(p.process(vec![1]).latency_ms, u64::MAX);
}

#[test]
fn counters_count_each_event() {
    let mut stats = InjectionStats::default();
    let outcome = |latency_ms: u64, dropped: bool, corrupted: bool, close_after: bool| Outcome {
        payload: None,
        close_after,
        dropped,
        corrupted,
        latency_applied: latency_ms != 0,
        latency_ms,
    };
    stats.record(&outcome(5, true, false, false));
    stats.record(&outcome(0, false, true, true));
    stats.record(&outcome(7, true, false, true));
    assert_eq!(
        stats,
        InjectionStats {
            latency_events: 2,
            dropped: 2,
            corrupted: 1,
            closed: 1
        }
    );
}
