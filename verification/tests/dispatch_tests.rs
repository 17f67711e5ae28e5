use tcp_udp_stream_provider::dispatch::{
    create_broker_message, default_base_topic, make_stream_message, payload_preview,
    prepare_message, publish_topic, sanitize_topic, trim_str, unsupported_publish,
    unsupported_request,
};

#[test]
fn test_sanitize_topic() {
    assert_eq!(sanitize_topic("tcp://localhost:8080"), "tcp_localhost_8080");
    assert_eq!(
        sanitize_topic("udp://example.com:9090"),
        "udp_example_com_9090"
    );
    assert_eq!(sanitize_topic("192.168.1.1:8080"), "192_168_1_1_8080");
}

#[test]
fn test_create_broker_message() {
    let data = b"hello world".to_vec();
    let msg = create_broker_message(data.clone(), "127.0.0.1:9000");
    assert_eq!(msg.subject, "stream.127.0.0.1:9000");
    assert_eq!(msg.body.as_slice(), b"hello world");
    assert!(msg.reply_to.is_none());
}

#[test]
fn publish_topic_joins_base_and_sanitized_source() {
    assert_eq!(
        publish_topic("wasmcloud.stream.messages", "tcp://localhost:8080"),
        "wasmcloud.stream.messages.tcp_localhost_8080"
    );
}

#[test]
fn base_topic_default_value() {
    assert_eq!(default_base_topic(), "wasmcloud.stream.messages");
}

#[test]
fn stream_message_carries_source_and_content() {
    let msg = make_stream_message("tcp://localhost:8080", "test message");
    assert_eq!(msg.source, "tcp://localhost:8080");
    assert_eq!(msg.content, "test message");
}

#[test]
fn test_handle_empty_message() {
    // a blank message is dropped rather than forwarded
    assert!(prepare_message("   ").is_none());
    assert!(prepare_message("").is_none());
    assert!(prepare_message("\t\r\n").is_none());
}

#[test]
fn prepare_message_trims_surrounding_whitespace() {
    assert_eq!(prepare_message("  hello  "), Some("hello".to_string()));
    assert_eq!(prepare_message("line\n"), Some("line".to_string()));
    assert_eq!(prepare_message("a b"), Some("a b".to_string()));
}

#[test]
fn trim_handles_unicode_whitespace() {
    assert_eq!(trim_str("\u{a0}\u{2003}x\u{3000}"), "x");
    assert_eq!(trim_str("no-trim"), "no-trim");
    assert_eq!(trim_str(""), "");
}

#[test]
fn payload_preview_shows_text_or_byte_count() {
    assert_eq!(payload_preview(b"short payload".to_vec()), "short payload");
    let long: String = "x".repeat(150);
    let preview = payload_preview(long.clone().into_bytes());
    assert_eq!(preview.len(), 103);
    assert_eq!(preview, format!("{}...", "x".repeat(100)));
    assert_eq!(payload_preview(vec![0xff, 0xfe]), "[binary data: 2 bytes]");
    assert_eq!(payload_preview(Vec::new()), "");
}

#[test]
fn provider_test_publish_returns_error() {
    let result = unsupported_publish();
    assert!(result.is_err());
    assert!(result.unwrap_err().contains("receive-only"));
}

#[test]
fn provider_test_request_returns_error() {
    let result = unsupported_request();
    assert!(result.is_err());
    assert!(result.unwrap_err().contains("receive-only"));
}

#[test]
fn stream_test_publish_returns_error() {
    let result = unsupported_publish();
    assert!(result.is_err());
    assert!(result.unwrap_err().contains("receive-only"));
}

#[test]
fn stream_test_request_returns_error() {
    let result = unsupported_request();
    assert!(result.is_err());
    assert!(result.unwrap_err().contains("receive-only"));
}
