//! The relay's configuration, section by section.

use vstd::prelude::*;

verus! {

#[derive(Clone, Debug)]
pub struct IngestConfig {
    pub named_pipe_path: String,
    pub pipe_buffer_size: Option<u32>,
}

#[derive(Clone, Debug)]
pub struct BufferConfig {
    pub metrics_queue: String,
    pub max_disk_bytes: Option<u64>,
    pub max_age_seconds: Option<u64>,
    pub retention_check_interval_seconds: Option<u64>,
}

#[derive(Clone, Debug)]
pub struct ForwarderConfig {
    pub pingora_url: String,
    pub batch_size: Option<usize>,
    pub request_timeout_seconds: Option<u64>,
    pub drain_timeout_seconds: Option<u64>,
    pub base_backoff_ms: Option<u64>,
    pub max_backoff_ms: Option<u64>,
    pub max_jitter_ms: Option<u64>,
}

#[derive(Clone, Debug)]
pub struct TlsConfig {
    pub client_cert_sha1: String,
    pub server_sha256_pin: String,
    pub min_version: Option<String>,
    pub cipher_suites: Option<Vec<String>>,
    pub curves: Option<Vec<String>>,
}

#[derive(Clone, Debug)]
pub struct AuditConfig {
    pub audit_source_name: String,
    pub event_log: Option<String>,
    pub cert_expiry_warning_days: Option<u32>,
    pub log_level: Option<String>,
}

#[derive(Clone, Debug)]
pub struct RelayConfig {
    pub ingest: IngestConfig,
    pub buffer: BufferConfig,
    pub forwarder: ForwarderConfig,
    pub tls: TlsConfig,
    pub audit: AuditConfig,
    pub version: Option<String>,
}

} // verus!
