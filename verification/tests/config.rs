use netfault::config::{CliOverrides, Config, ConfigError, FaultConfig, FileConfig, ProbabilityField};
use netfault::probability::Probability;
use std::str::FromStr;

/// An address as the configuration carries it: opaque to the library.
#[derive(Debug, Clone)]
struct SocketAddr {
    port: u16,
}

impl SocketAddr {
    fn port(&self) -> u16 {
        self.port
    }
}

impl FromStr for SocketAddr {
    type Err = String;

    fn from_str(s: &str) -> Result<Self, String> {
        let (_host, port) = s.rsplit_once(':').ok_or("no port")?;
        let port = port.parse().map_err(|_| "bad port")?;
        Ok(SocketAddr { port })
    }
}

fn prob(p: f64) -> Probability {
    Probability::from_bits(p.to_bits())
}

#[test]
fn defaults_are_benign() {
    let f = FaultConfig::default();
    assert_eq!(f.latency_ms, 0);
    assert_eq!(f.drop_probability, prob(0.0));
    assert_eq!(f.corrupt_probability, prob(0.0));
    assert_eq!(f.close_probability, prob(0.0));
    assert!(f.validate("x").is_ok());
    assert_eq!(f.latency_jitter_ms, 0);
    assert_eq!(f.corrupt_bits, 0);
}

#[test]
fn rejects_out_of_range_probability() {
    let f = FaultConfig {
        drop_probability: prob(1.5),
        ..Default::default()
    };
    assert!(f.validate("c2s").is_err());
}

#[test]
fn rejects_nan_probability() {
    let f = FaultConfig {
        corrupt_probability: prob(f64::NAN),
        ..Default::default()
    };
    assert!(f.validate("c2s").is_err());
}

#[test]
fn cli_overrides_win() {
    let file = FileConfig::<SocketAddr> {
        listen: Some("127.0.0.1:1".parse().unwrap()),
        target: Some("127.0.0.1:2".parse().unwrap()),
        seed: Some(1),
        ..Default::default()
    };
    let cli = CliOverrides {
        listen: Some("127.0.0.1:9".parse().unwrap()),
        target: None,
        seed: Some(42),
    };
    let resolved = Config::resolve(file, cli).unwrap();
    assert_eq!(resolved.listen.port(), 9);
    assert_eq!(resolved.target.port(), 2);
    assert_eq!(resolved.seed, 42);
}

#[test]
fn resolve_requires_listen_and_target() {
    let err = Config::<SocketAddr>::resolve(FileConfig::default(), CliOverrides::default())
        .unwrap_err();
    assert!(err.message("").contains("listen"));
}

#[test]
fn missing_addresses_are_named() {
    let err = Config::<u16>::resolve(FileConfig::default(), CliOverrides::default()).unwrap_err();
    assert!(matches!(err, ConfigError::MissingListen));
    assert_eq!(
        err.message(""),
        "`listen` must be provided via --listen or in the config file"
    );
    let file = FileConfig::<u16> {
        listen: Some(1),
        ..Default::default()
    };
    let err = Config::resolve(file, CliOverrides::default()).unwrap_err();
    assert!(matches!(err, ConfigError::MissingTarget));
    assert_eq!(
        err.message(""),
        "`target` must be provided via --target or in the config file"
    );
}

#[test]
fn first_bad_probability_is_reported() {
    let f = FaultConfig {
        corrupt_probability: prob(-0.25),
        close_probability: prob(2.0),
        ..Default::default()
    };
    let err = f.validate("client_to_server").unwrap_err();
    assert_eq!(
        err.message("-0.25"),
        "client_to_server.corrupt_probability must be in [0.0, 1.0], got -0.25"
    );
    match err {
        ConfigError::ProbabilityOutOfRange { section, field, value } => {
            assert_eq!(section, "client_to_server");
            assert_eq!(field, ProbabilityField::Corrupt);
            assert_eq!(value, prob(-0.25));
        }
        other => panic!("unexpected {other:?}"),
    }
}

#[test]
fn sections_are_checked_in_order() {
    let bad = |p: f64| FaultConfig {
        drop_probability: prob(p),
        ..Default::default()
    };
    let file = FileConfig::<u16> {
        listen: Some(1),
        target: Some(2),
        seed: None,
        client_to_server: bad(1.5),
        server_to_client: bad(2.5),
    };
    let err = Config::resolve(file.clone(), CliOverrides::default()).unwrap_err();
    assert_eq!(
        err.message("1.5"),
        "client_to_server.drop_probability must be in [0.0, 1.0], got 1.5"
    );
    let file = FileConfig {
        client_to_server: FaultConfig {
            close_probability: prob(1.0),
            ..Default::default()
        },
        ..file
    };
    let err = Config::resolve(file, CliOverrides::default()).unwrap_err();
    assert_eq!(
        err.message("2.5"),
        "server_to_client.drop_probability must be in [0.0, 1.0], got 2.5"
    );
}

#[test]
fn close_probability_is_checked_last() {
    let f = FaultConfig {
        close_probability: prob(f64::INFINITY),
        ..Default::default()
    };
    assert_eq!(
        f.validate("s").unwrap_err().message("inf"),
        "s.close_probability must be in [0.0, 1.0], got inf"
    );
}

#[test]
fn unit_interval_matches_floating_point() {
    let samples = [
        0.0,
        -0.0,
        1.0,
        0.5,
        0.05,
        f64::MIN_POSITIVE,
        5e-324,
        -5e-324,
        1.0 - f64::EPSILON / 2.0,
        1.0 + f64::EPSILON,
        -1.0,
        2.0,
        f64::MAX,
        f64::MIN,
        f64::INFINITY,
        f64::NEG_INFINITY,
        f64::NAN,
        -f64::NAN,
    ];
    for v in samples {
        assert_eq!(prob(v).is_in_unit_interval(), (0.0..=1.0).contains(&v), "{v}");
        assert_eq!(prob(v).is_at_most_zero(), v <= 0.0, "{v}");
        assert_eq!(prob(v).is_at_least_one(), v >= 1.0, "{v}");
        assert_eq!(prob(v).to_bits(), v.to_bits());
        for w in samples {
            assert_eq!(prob(v) == prob(w), v == w, "{v} {w}");
        }
    }
}

#[test]
fn settings_compare_as_numbers() {
    let a = FaultConfig {
        drop_probability: prob(0.0),
        latency_ms: 3,
        ..Default::default()
    };
    let b = FaultConfig {
        drop_probability: prob(-0.0),
        latency_ms: 3,
        ..Default::default()
    };
    assert!(a == b);
    assert!(a != FaultConfig::default());
    let nan = FaultConfig {
        drop_probability: prob(f64::NAN),
        ..Default::default()
    };
    assert!(nan != nan);
}

#[test]
fn file_fills_in_what_the_command_line_leaves_open() {
    let faults = FaultConfig {
        latency_ms: 7,
        ..Default::default()
    };
    let file = FileConfig::<u16> {
        listen: Some(1),
        target: Some(2),
        seed: Some(77),
        client_to_server: faults,
        server_to_client: FaultConfig::default(),
    };
    let config = Config::resolve(file, CliOverrides::default()).unwrap();
    assert_eq!((config.listen, config.target, config.seed), (1, 2, 77));
    assert!(config.client_to_server == faults);
    assert!(config.server_to_client == FaultConfig::default());
}

#[test]
fn given_fallback_seed_is_used_only_without_a_seed() {
    let file = FileConfig::<u16> {
        listen: Some(1),
        target: Some(2),
        ..Default::default()
    };
    let config =
        Config::resolve_with_seed(file.clone(), CliOverrides::default(), 1234).unwrap();
    assert_eq!(config.seed, 1234);
    let cli = CliOverrides {
        seed: Some(5),
        ..Default::default()
    };
    let config = Config::resolve_with_seed(file, cli, 1234).unwrap();
    assert_eq!(config.seed, 5);
}

#[test]
fn missing_seed_is_drawn() {
    let file = FileConfig::<u16> {
        listen: Some(1),
        target: Some(2),
        ..Default::default()
    };
    let seeds: Vec<u64> = (0..8)
        .map(|_| Config::resolve(file.clone(), CliOverrides::default()).unwrap().seed)
        .collect();
    assert!(seeds.iter().any(|s| *s != seeds[0]));
}
