use winperf_relay::config::{
    AuditConfig, BufferConfig, ForwarderConfig, IngestConfig, RelayConfig, TlsConfig,
};
use winperf_relay::startup::{launch_mode, LaunchMode, Startup, StartupAction};

fn args(list: &[&str]) -> Vec<String> {
    list.iter().map(|s| s.to_string()).collect()
}

fn config() -> RelayConfig {
    RelayConfig {
        ingest: IngestConfig { named_pipe_path: r"\\.\pipe\metrics".to_string(), pipe_buffer_size: None },
        buffer: BufferConfig {
            metrics_queue: "queue.redb".to_string(),
            max_disk_bytes: None,
            max_age_seconds: None,
            retention_check_interval_seconds: None,
        },
        forwarder: ForwarderConfig {
            pingora_url: "https://collector.example".to_string(),
            batch_size: None,
            request_timeout_seconds: None,
            drain_timeout_seconds: None,
            base_backoff_ms: None,
            max_backoff_ms: None,
            max_jitter_ms: None,
        },
        tls: TlsConfig {
            client_cert_sha1: "c1".to_string(),
            server_sha256_pin: "p2".to_string(),
            min_version: None,
            cipher_suites: None,
            curves: None,
        },
        audit: AuditConfig {
            audit_source_name: "Relay".to_string(),
            event_log: None,
            cert_expiry_warning_days: None,
            log_level: None,
        },
        version: None,
    }
}

#[test]
fn console_is_asked_for_by_its_flag() {
    assert_eq!(launch_mode(&args(&["relay", "--console"])), LaunchMode::Console);
    assert_eq!(launch_mode(&args(&["relay", "-v", "--console", "x"])), LaunchMode::Console);
    assert_eq!(launch_mode(&args(&["relay"])), LaunchMode::Service);
    assert_eq!(launch_mode(&args(&["relay", "--Console"])), LaunchMode::Service);
    assert_eq!(launch_mode(&args(&["relay", "--console=1"])), LaunchMode::Service);
    assert_eq!(launch_mode(&args(&[])), LaunchMode::Service);
}

#[test]
fn everything_comes_up_in_order() {
    let (mut startup, first) = Startup::new(config());
    match first {
        StartupAction::Audit { record } => assert_eq!(
            record.text,
            "[1000][Relay] Relay Application Initializing with redb v4.1 storage."
        ),
        other => panic!("{:?}", other),
    }
    match startup.step(true) {
        StartupAction::OpenQueue { path } => assert_eq!(path, "queue.redb"),
        other => panic!("{:?}", other),
    }
    match startup.step(true) {
        StartupAction::BuildClient { client_cert_sha1, server_sha256_pin } => {
            assert_eq!(client_cert_sha1, "c1");
            assert_eq!(server_sha256_pin, "p2");
        }
        other => panic!("{:?}", other),
    }
    match startup.step(true) {
        StartupAction::StartIngestion { pipe_path } => assert_eq!(pipe_path, r"\\.\pipe\metrics"),
        other => panic!("{:?}", other),
    }
    assert!(matches!(startup.step(true), StartupAction::StartDiskGuard));
    match startup.step(true) {
        StartupAction::RunEgress { url } => assert_eq!(url, "https://collector.example"),
        other => panic!("{:?}", other),
    }
    match startup.step(true) {
        StartupAction::Audit { record } => {
            assert_eq!(record.text, "[1001][Relay] Relay Application Shutdown Complete.")
        }
        other => panic!("{:?}", other),
    }
    assert!(matches!(startup.step(true), StartupAction::Finish));
    assert!(matches!(startup.step(true), StartupAction::Finish));
}

#[test]
fn queue_that_does_not_open_ends_it() {
    let (mut startup, _) = Startup::new(config());
    startup.step(true);
    assert!(matches!(startup.step(false), StartupAction::Fail));
    assert!(matches!(startup.step(true), StartupAction::Fail));
}

#[test]
fn client_that_cannot_be_built_ends_it() {
    let (mut startup, _) = Startup::new(config());
    startup.step(true);
    startup.step(true);
    assert!(matches!(startup.step(false), StartupAction::Fail));
    assert!(matches!(startup.step(true), StartupAction::Fail));
}

#[test]
fn audit_log_trouble_stops_nothing() {
    let (mut startup, _) = Startup::new(config());
    assert!(matches!(startup.step(false), StartupAction::OpenQueue { .. }));
}
