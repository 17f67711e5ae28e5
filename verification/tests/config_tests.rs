use tcp_udp_stream_provider::config::{
    default_reconnect_delay, planned_connections, ConnectionConfig, ConnectionType,
    ProviderConfig, TcpConfig, UdpConfig,
};

fn entry(k: &str, v: &str) -> (String, String) {
    (k.to_string(), v.to_string())
}

#[test]
fn test_connection_config_from_map() {
    let entries = vec![
        entry("protocol", "tcp"),
        entry("host", "10.0.0.1"),
        entry("port", "8080"),
    ];
    let cfg = ConnectionConfig::from_map(&entries);
    assert_eq!(cfg.protocol, ConnectionType::Tcp);
    assert_eq!(cfg.host, "10.0.0.1");
    assert_eq!(cfg.port, 8080);
}

#[test]
fn test_udp_config_from_map() {
    let entries = vec![
        entry("protocol", "udp"),
        entry("host", "192.168.1.100"),
        entry("port", "5555"),
        entry("subscriptions", "topic.a,topic.b"),
    ];
    let cfg = ConnectionConfig::from_map(&entries);
    assert_eq!(cfg.protocol, ConnectionType::Udp);
    assert_eq!(cfg.host, "192.168.1.100");
    assert_eq!(cfg.port, 5555);
    assert_eq!(cfg.subscriptions, vec!["topic.a".to_string(), "topic.b".to_string()]);
}

#[test]
fn from_map_defaults_when_empty() {
    let cfg = ConnectionConfig::from_map(&Vec::new());
    assert_eq!(cfg.protocol, ConnectionType::Tcp);
    assert_eq!(cfg.host, "127.0.0.1");
    assert_eq!(cfg.port, 8080);
    assert!(cfg.subscriptions.is_empty());
}

#[test]
fn from_map_ignores_malformed_port() {
    for bad in ["", "abc", "0", "65536", "99999", "12x", "-1", " 80"] {
        let cfg = ConnectionConfig::from_map(&vec![entry("port", bad)]);
        assert_eq!(cfg.port, 8080, "port string {:?} must fall back to the default", bad);
        assert!(cfg.port >= 1);
    }
}

#[test]
fn from_map_port_bounds() {
    assert_eq!(ConnectionConfig::from_map(&vec![entry("port", "1")]).port, 1);
    assert_eq!(ConnectionConfig::from_map(&vec![entry("port", "65535")]).port, 65535);
}

#[test]
fn from_map_protocol_case_insensitive() {
    assert_eq!(ConnectionConfig::from_map(&vec![entry("protocol", "TCP")]).protocol, ConnectionType::Tcp);
    assert_eq!(ConnectionConfig::from_map(&vec![entry("protocol", "UdP")]).protocol, ConnectionType::Udp);
    // an unrecognized protocol keeps the default
    assert_eq!(ConnectionConfig::from_map(&vec![entry("protocol", "sctp")]).protocol, ConnectionType::Tcp);
}

#[test]
fn from_map_ignores_unknown_keys_and_later_entry_wins() {
    let entries = vec![
        entry("colour", "blue"),
        entry("port", "1000"),
        entry("port", "2000"),
    ];
    let cfg = ConnectionConfig::from_map(&entries);
    assert_eq!(cfg.port, 2000);
}

#[test]
fn merge_keeps_base_when_override_is_default() {
    let base = ConnectionConfig {
        protocol: ConnectionType::Udp,
        host: "example.com".to_string(),
        port: 9999,
        subscriptions: vec!["a".to_string()],
    };
    let merged = base.merge(&ConnectionConfig::default());
    assert_eq!(merged.protocol, ConnectionType::Udp);
    assert_eq!(merged.host, "example.com");
    assert_eq!(merged.port, 9999);
    assert_eq!(merged.subscriptions, vec!["a".to_string()]);
}

#[test]
fn merge_override_wins_when_not_default() {
    let base = ConnectionConfig::default();
    let over = ConnectionConfig {
        protocol: ConnectionType::Udp,
        host: "example.com".to_string(),
        port: 9090,
        subscriptions: vec!["x".to_string(), "y".to_string()],
    };
    let merged = base.merge(&over);
    assert_eq!(merged.protocol, ConnectionType::Udp);
    assert_eq!(merged.host, "example.com");
    assert_eq!(merged.port, 9090);
    assert_eq!(merged.subscriptions, vec!["x".to_string(), "y".to_string()]);
}

#[test]
fn addr_formats_host_and_port() {
    let cfg = ConnectionConfig::from_map(&vec![entry("host", "localhost"), entry("port", "9000")]);
    assert_eq!(cfg.addr(), "localhost:9000");
    let d = ConnectionConfig::default();
    assert_eq!(d.addr(), "127.0.0.1:8080");
}

#[test]
fn test_default_config() {
    let config = ProviderConfig::default();
    assert_eq!(config.tcp.len(), 0);
    assert_eq!(config.udp.len(), 0);
}

#[test]
fn reconnect_delay_default_value() {
    assert_eq!(default_reconnect_delay(), 5000);
}

#[test]
fn planned_connections_lists_tcp_then_udp() {
    let config = ProviderConfig {
        tcp: vec![
            TcpConfig { host: "localhost".to_string(), port: 8080, reconnect_delay_ms: 3000 },
            TcpConfig { host: "example.com".to_string(), port: 9090, reconnect_delay_ms: 5000 },
        ],
        udp: vec![UdpConfig { host: "localhost".to_string(), port: 7070 }],
    };
    let planned = planned_connections(&config);
    assert_eq!(planned.len(), 3);
    assert_eq!(planned[0], (ConnectionType::Tcp, "localhost".to_string(), 8080));
    assert_eq!(planned[1], (ConnectionType::Tcp, "example.com".to_string(), 9090));
    assert_eq!(planned[2], (ConnectionType::Udp, "localhost".to_string(), 7070));
}
