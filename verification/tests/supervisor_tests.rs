use tcp_udp_stream_provider::config::{ConnectionConfig, ConnectionType};
use tcp_udp_stream_provider::connection::{AttachError, ConnectionId, LinkSupervisor};

fn fresh() -> LinkSupervisor {
    LinkSupervisor::new(ConnectionConfig::default())
}

fn entry(k: &str, v: &str) -> (String, String) {
    (k.to_string(), v.to_string())
}

#[test]
fn test_connection_id() {
    let id = ConnectionId::new(ConnectionType::Tcp, "localhost".to_string(), 8080);
    assert_eq!(id.conn_type, ConnectionType::Tcp);
    assert_eq!(id.host, "localhost");
    assert_eq!(id.port, 8080);
    assert_eq!(id.to_text(), "Tcp://localhost:8080");
}

#[test]
fn connection_id_udp_text() {
    let id = ConnectionId::new(ConnectionType::Udp, "example.com".to_string(), 1);
    assert_eq!(id.to_text(), "Udp://example.com:1");
}

#[test]
fn test_connection_manager_creation() {
    let sup = fresh();
    assert_eq!(sup.active_links(), 0);
}

#[test]
fn attach_records_link_with_merged_config() {
    let mut sup = fresh();
    let id = "component-1".to_string();
    let entries = vec![entry("protocol", "udp"), entry("host", "10.0.0.5"), entry("port", "5000")];
    let cfg = sup.begin_attach(&id, &entries).expect("fresh id must be attachable");
    assert_eq!(cfg.protocol, ConnectionType::Udp);
    assert_eq!(cfg.host, "10.0.0.5");
    assert_eq!(cfg.port, 5000);
    let token = sup.finish_attach(&id, cfg, true).expect("connected attach must succeed");
    assert!(sup.has_link(&id));
    assert_eq!(sup.active_links(), 1);
    assert_eq!(sup.detach(&id), Some(token));
    assert_eq!(sup.active_links(), 0);
}

#[test]
fn attach_with_empty_config_uses_defaults() {
    let mut sup = fresh();
    let id = "component-1".to_string();
    let cfg = sup.begin_attach(&id, &Vec::new()).expect("fresh id must be attachable");
    assert_eq!(cfg.protocol, ConnectionType::Tcp);
    assert_eq!(cfg.host, "127.0.0.1");
    assert_eq!(cfg.port, 8080);
    assert!(cfg.subscriptions.is_empty());
    sup.finish_attach(&id, cfg, true).expect("connected attach must succeed");
}

#[test]
fn duplicate_attach_is_rejected() {
    let mut sup = fresh();
    let id = "component-1".to_string();
    let cfg = sup.begin_attach(&id, &Vec::new()).unwrap();
    sup.finish_attach(&id, cfg, true).unwrap();

    assert!(matches!(sup.begin_attach(&id, &Vec::new()), Err(AttachError::DuplicateLink)));
    let other = ConnectionConfig::default();
    assert_eq!(sup.finish_attach(&id, other, true), Err(AttachError::DuplicateLink));
    assert_eq!(sup.active_links(), 1);
}

#[test]
fn failed_connect_leaves_no_entry_and_detach_is_noop() {
    // an attach that fails to connect leaves the link map without an entry
    // for that id, and an immediate detach on the same id is a no-op
    let mut sup = fresh();
    let id = "component-1".to_string();
    let cfg = sup.begin_attach(&id, &Vec::new()).unwrap();
    assert_eq!(sup.finish_attach(&id, cfg, false), Err(AttachError::ConnectFailed));
    assert!(!sup.has_link(&id));
    assert_eq!(sup.active_links(), 0);
    assert_eq!(sup.detach(&id), None);
    assert_eq!(sup.active_links(), 0);
    // the id is immediately attachable again
    let cfg = sup.begin_attach(&id, &Vec::new()).unwrap();
    sup.finish_attach(&id, cfg, true).unwrap();
    assert!(sup.has_link(&id));
}

#[test]
fn detach_of_never_attached_id_succeeds_and_changes_nothing() {
    // detaching a LinkId that was never attached returns success and leaves
    // the map unchanged
    let mut sup = fresh();
    let id_a = "a".to_string();
    let cfg = sup.begin_attach(&id_a, &Vec::new()).unwrap();
    sup.finish_attach(&id_a, cfg, true).unwrap();

    let unknown_id = "never-attached".to_string();
    assert_eq!(sup.detach(&unknown_id), None);
    assert_eq!(sup.active_links(), 1);
    assert!(sup.has_link(&id_a));
}

#[test]
fn shutdown_all_empties_map_and_returns_every_token() {
    // after shutdown the link map is empty and every reader's cancellation
    // token has been handed back
    let mut sup = fresh();
    let mut tokens = Vec::new();
    for name in ["a", "b", "c"] {
        let id = name.to_string();
        let cfg = sup.begin_attach(&id, &Vec::new()).unwrap();
        tokens.push(sup.finish_attach(&id, cfg, true).unwrap());
    }
    assert_eq!(sup.active_links(), 3);
    let stopped = sup.shutdown_all();
    assert_eq!(stopped, tokens);
    assert_eq!(sup.active_links(), 0);
    // reentrant: a second shutdown is a no-op
    assert!(sup.shutdown_all().is_empty());
    assert_eq!(sup.active_links(), 0);
}

#[test]
fn two_links_to_same_endpoint_are_independent() {
    // two distinct ids attached to the same host:port get independent
    // entries and tokens; stopping one does not affect the other
    let mut sup = fresh();
    let entries = vec![entry("host", "10.0.0.9"), entry("port", "7000")];
    let id1 = "first".to_string();
    let id2 = "second".to_string();

    let cfg1 = sup.begin_attach(&id1, &entries).unwrap();
    let t1 = sup.finish_attach(&id1, cfg1, true).unwrap();
    let cfg2 = sup.begin_attach(&id2, &entries).unwrap();
    let t2 = sup.finish_attach(&id2, cfg2, true).unwrap();

    assert_ne!(t1, t2);
    assert_eq!(sup.active_links(), 2);

    assert_eq!(sup.detach(&id1), Some(t1));
    assert!(!sup.has_link(&id1));
    assert!(sup.has_link(&id2));
    assert_eq!(sup.detach(&id2), Some(t2));
    assert_eq!(sup.active_links(), 0);
}

#[test]
fn provider_test_provider_creation() {
    let sup = fresh();
    assert_eq!(sup.active_links(), 0);
}

#[test]
fn provider_test_provider_shutdown() {
    let mut sup = fresh();
    sup.shutdown_all();
    assert_eq!(sup.active_links(), 0);
}

#[test]
fn stream_test_provider_creation() {
    let sup = LinkSupervisor::new(ConnectionConfig::default());
    assert_eq!(sup.active_links(), 0);
}

#[test]
fn stream_test_provider_shutdown() {
    let mut sup = LinkSupervisor::new(ConnectionConfig::default());
    sup.shutdown_all();
    assert_eq!(sup.active_links(), 0);
}
