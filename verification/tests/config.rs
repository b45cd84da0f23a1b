use skillsupport::runtime::config::{
    default_forward_timeout_ms, default_host, default_port, default_transport, RuntimeConfig,
    TransportKind,
};
use std::time::Duration;

#[test]
fn defaults_to_websocket_localhost() {
    let config = RuntimeConfig::default();

    assert_eq!(config.transport, TransportKind::Websocket);
    assert_eq!(config.host, "127.0.0.1");
    assert_eq!(config.port, 8787);
    assert_eq!(config.forward_timeout_ms, 30_000);
}

#[test]
fn deserializes_partial_runtime_table() {
    let source = r#"
            [runtime]
            port = 9000
            forward_timeout_ms = 50
            "#;
    let file: toml::Table = toml::from_str(source).expect("config should deserialize");
    let table = file
        .get("runtime")
        .and_then(|value| value.as_table())
        .expect("runtime config");
    let port = table
        .get("port")
        .and_then(|value| value.as_integer())
        .map(|value| value as u16);
    let forward_timeout_ms = table
        .get("forward_timeout_ms")
        .and_then(|value| value.as_integer())
        .map(|value| value as u64);

    let config = RuntimeConfig::from_parts(None, None, port, forward_timeout_ms, None, None);
    assert_eq!(config.transport, TransportKind::Websocket);
    assert_eq!(config.host, "127.0.0.1");
    assert_eq!(config.port, 9000);
    assert_eq!(config.forward_timeout_ms, 50);
}

#[test]
fn default_timing_knobs_match_the_documented_values() {
    let config = RuntimeConfig::default();
    assert_eq!(config.reaper_tick_ms, 50);
    assert_eq!(config.session_ttl_ms, 300_000);
    assert_eq!(config.forward_timeout(), Duration::from_millis(30_000));
    assert_eq!(config.reaper_tick(), Duration::from_millis(50));
    assert_eq!(config.session_ttl(), Duration::from_millis(300_000));
}

#[test]
fn default_helpers_give_the_defaults() {
    assert_eq!(default_transport(), TransportKind::Websocket);
    assert_eq!(default_host(), "127.0.0.1");
    assert_eq!(default_port(), 8787);
    assert_eq!(default_forward_timeout_ms(), 30_000);
}

#[test]
fn transport_url_joins_host_and_port() {
    let config = RuntimeConfig::default();
    assert_eq!(config.transport_url(), "ws://127.0.0.1:8787");
    let config = config.with_port(Some(9000));
    assert_eq!(config.transport_url(), "ws://127.0.0.1:9000");
    let config = config.with_port(Some(0));
    assert_eq!(config.transport_url(), "ws://127.0.0.1:0");
}

#[test]
fn overrides_replace_only_what_is_given() {
    let config = RuntimeConfig::default()
        .with_host(Some("0.0.0.0".to_string()))
        .with_port(None);
    assert_eq!(config.host, "0.0.0.0");
    assert_eq!(config.port, 8787);

    let config = config.with_host(None).with_port(Some(65535));
    assert_eq!(config.host, "0.0.0.0");
    assert_eq!(config.port, 65535);
    assert_eq!(config.forward_timeout_ms, 30_000);
    assert_eq!(config.transport_url(), "ws://0.0.0.0:65535");
}

#[test]
fn from_parts_keeps_every_given_value() {
    let config = RuntimeConfig::from_parts(
        Some(TransportKind::Websocket),
        Some("localhost".to_string()),
        Some(1),
        Some(2),
        Some(3),
        Some(4),
    );
    assert_eq!(config.host, "localhost");
    assert_eq!(config.port, 1);
    assert_eq!(config.forward_timeout_ms, 2);
    assert_eq!(config.reaper_tick_ms, 3);
    assert_eq!(config.session_ttl_ms, 4);
}
