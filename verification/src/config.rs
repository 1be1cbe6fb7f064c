//! Server configuration.

use vstd::prelude::*;

use crate::confidence::Thresholds;

verus! {

/// TLS certificate and key locations (PEM files).
#[derive(Clone, Debug, PartialEq, Eq)]
pub struct TlsConfig {
    /// Path to the certificate file.
    pub cert_path: String,
    /// Path to the private key file.
    pub key_path: String,
}

/// Server configuration.  Timeouts are in milliseconds.
#[derive(Clone, Debug)]
pub struct ServerConfig {
    /// Address to bind to, as `host:port`.
    pub bind_addr: String,
    /// Decision thresholds.
    pub thresholds: Thresholds,
    /// Replay window in milliseconds.
    pub replay_window_ms: i64,
    /// TLS configuration, if any.
    pub tls: Option<TlsConfig>,
    /// Read timeout for connections, in milliseconds.
    pub read_timeout_ms: u64,
    /// Write timeout for connections, in milliseconds.
    pub write_timeout_ms: u64,
    /// Maximum message size in bytes.
    pub max_message_size: usize,
}

impl ServerConfig {
    /// Well-formed: thresholds in the unit interval, replay window
    /// non-negative.
    pub open spec fn wf(self) -> bool {
        self.thresholds.wf() && self.replay_window_ms >= 0
    }

    /// Create a config with a custom bind address and defaults otherwise.
    pub fn with_addr(addr: String) -> (r: ServerConfig)
        ensures
            r.bind_addr == addr,
            r.thresholds == (Thresholds {
                tau_exec: 850_000u64,
                tau_clarify: 500_000u64,
                tau_accept: 500_000u64,
            }),
            r.replay_window_ms == 5000,
            r.tls is None,
            r.max_message_size == 1048576,
            r.wf(),
    {
        let mut c = ServerConfig::default();
        c.bind_addr = addr;
        c
    }

    /// Enable TLS with certificate and key files.
    pub fn with_tls(self, cert_path: String, key_path: String) -> (r: ServerConfig)
        ensures
            r == (ServerConfig { tls: Some(TlsConfig { cert_path, key_path }), ..self }),
    {
        ServerConfig { tls: Some(TlsConfig { cert_path, key_path }), ..self }
    }

    /// Set custom thresholds.
    pub fn with_thresholds(self, thresholds: Thresholds) -> (r: ServerConfig)
        ensures
            r == (ServerConfig { thresholds, ..self }),
    {
        ServerConfig { thresholds, ..self }
    }
}

impl Default for ServerConfig {
    /// The default configuration: localhost port 9000, default thresholds,
    /// a five-second replay window, no TLS, thirty-second timeouts, and a
    /// one-mebibyte message bound.
    fn default() -> (r: ServerConfig)
        ensures
            r.bind_addr@ == "127.0.0.1:9000"@,
            r.thresholds == (Thresholds {
                tau_exec: 850_000u64,
                tau_clarify: 500_000u64,
                tau_accept: 500_000u64,
            }),
            r.replay_window_ms == 5000,
            r.tls is None,
            r.read_timeout_ms == 30_000,
            r.write_timeout_ms == 30_000,
            r.max_message_size == 1048576,
            r.wf(),
    {
        ServerConfig {
            bind_addr: String::from_str("127.0.0.1:9000"),
            thresholds: Thresholds::default(),
            replay_window_ms: 5000,
            tls: None,
            read_timeout_ms: 30_000,
            write_timeout_ms: 30_000,
            max_message_size: 1048576,
        }
    }
}

} // verus!
