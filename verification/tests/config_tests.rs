use sinp::config::ServerConfig;
use sinp::confidence::Thresholds;

#[test]
fn default_config() {
    let config = ServerConfig::default();
    assert!(config.bind_addr.contains("9000"));
    assert!(config.tls.is_none());
    assert_eq!(config.replay_window_ms, 5000);
    assert_eq!(config.max_message_size, 1024 * 1024);
}

#[test]
fn custom_config() {
    let config = ServerConfig::with_addr("0.0.0.0:8080".to_string())
        .with_thresholds(Thresholds::new(900_000, 600_000, 600_000));

    assert_eq!(config.bind_addr, "0.0.0.0:8080");
    assert_eq!(config.thresholds.tau_exec, 900_000);
}

#[test]
fn tls_config() {
    let config = ServerConfig::default().with_tls("cert.pem".to_string(), "key.pem".to_string());
    let tls = config.tls.expect("tls set");
    assert_eq!(tls.cert_path, "cert.pem");
    assert_eq!(tls.key_path, "key.pem");
}
