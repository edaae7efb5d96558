use rust_sse::sinks::{GrpcSink, GrpcSinkConfig, WebSocketFormat, WebSocketSinkConfig};
use rust_sse::sources::{next_reconnect, GrpcSource, GrpcSourceConfig, WebSocketConfig};
use rust_sse::{BridgeError, SinkError, SourceError, SseError};

#[test]
fn test_grpc_sink_config() {
    let config = GrpcSinkConfig::new("http://localhost:50051").buffer_size(32);

    assert_eq!(config.address, "http://localhost:50051");
    assert_eq!(config.buffer_size, 32);
}

#[test]
fn test_grpc_source_config() {
    let config = GrpcSourceConfig::new("http://localhost:50051")
        .event_types(vec!["message".to_string(), "update".to_string()])
        .last_event_id("123");

    assert_eq!(config.address, "http://localhost:50051");
    assert_eq!(config.event_types, vec!["message", "update"]);
    assert_eq!(config.last_event_id, Some("123".to_string()));
}

#[test]
fn grpc_config_defaults() {
    let config = GrpcSinkConfig::new("addr");
    assert_eq!(config.buffer_size, 16);
    let source = GrpcSourceConfig::new("addr");
    assert!(source.event_types.is_empty());
    assert_eq!(source.last_event_id, None);
}

#[test]
fn grpc_sink_placeholder_answers() {
    let sink = GrpcSink::new(GrpcSinkConfig::new("http://h:1"));
    assert_eq!(sink.config().address, "http://h:1");
    assert!(!sink.is_closed());
    match sink.send_result() {
        Err(SinkError::Send(m)) => assert!(m.starts_with("GrpcSink")),
        other => panic!("unexpected {:?}", other),
    }
    sink.mark_closed();
    assert!(sink.is_closed());
    assert!(matches!(sink.send_result(), Err(SinkError::Closed)));
}

#[test]
fn grpc_source_placeholder_error() {
    let source = GrpcSource::new(GrpcSourceConfig::new("http://h:2"));
    assert_eq!(source.config().address, "http://h:2");
    match source.unsupported_error() {
        SourceError::Other(m) => assert!(m.starts_with("GrpcSource")),
        other => panic!("unexpected {:?}", other),
    }
}

#[test]
fn websocket_config_and_reconnects() {
    let c = WebSocketConfig::new("ws://x");
    assert!(c.auto_reconnect);
    assert_eq!(c.reconnect_delay_ms, 1000);
    assert_eq!(c.max_reconnects, None);
    assert_eq!(next_reconnect(&c, 0), Some(1));
    assert_eq!(next_reconnect(&c, 41), Some(42));
    let limited = WebSocketConfig { max_reconnects: Some(2), ..WebSocketConfig::new("ws://x") };
    assert_eq!(next_reconnect(&limited, 1), Some(2));
    assert_eq!(next_reconnect(&limited, 2), None);
    let off = WebSocketConfig::new("ws://x").no_reconnect();
    assert!(!off.auto_reconnect);
    assert_eq!(next_reconnect(&off, 0), None);
}

#[test]
fn websocket_sink_config_default() {
    let c = WebSocketSinkConfig::default();
    assert_eq!(c.format, WebSocketFormat::Text);
    assert!(!c.include_metadata);
    assert_eq!(WebSocketFormat::default(), WebSocketFormat::Text);
}

#[test]
fn sink_error_messages() {
    assert_eq!(SinkError::Closed.message(), "接收器已关闭");
    assert_eq!(SinkError::Send("x".to_string()).message(), "发送错误: x");
    assert_eq!(SinkError::Serialization("y".to_string()).message(), "序列化错误: y");
    assert_eq!(SinkError::Other("z".to_string()).message(), "其他错误: z");
    assert!(SinkError::Grpc(tonic::Status::internal("boom")).message().starts_with("gRPC 错误: "));
    assert!(SinkError::WebSocket(tokio_tungstenite::tungstenite::Error::ConnectionClosed).message().starts_with("WebSocket 错误: "));
}

#[test]
fn sse_source_and_bridge_error_messages() {
    assert_eq!(
        SseError::InvalidContentType(Some("text/html".to_string())).message(),
        "无效的 content-type: 期望 text/event-stream, 收到 Some(\"text/html\")"
    );
    assert_eq!(SseError::InvalidContentType(None).message(), "无效的 content-type: 期望 text/event-stream, 收到 None");
    assert_eq!(SseError::InvalidHeaderValue.message(), "无效的 header 值");
    assert_eq!(SseError::Url("bad".to_string()).message(), "URL 解析错误: bad");
    assert_eq!(SourceError::Closed.message(), "连接已关闭");
    assert_eq!(SourceError::Connection("c".to_string()).message(), "连接错误: c");
    assert_eq!(SourceError::Parse("p".to_string()).message(), "解析错误: p");
    assert_eq!(SourceError::Sse(SseError::InvalidHeaderValue).message(), "SSE 错误: 无效的 header 值");
    assert_eq!(SourceError::Other("o".to_string()).message(), "其他错误: o");
    assert!(SourceError::Grpc(tonic::Status::internal("boom")).message().starts_with("gRPC 错误: "));
    assert_eq!(BridgeError::NoSinks.message(), "没有注册接收器");
    assert_eq!(BridgeError::Stopped.message(), "桥接已停止");
    assert_eq!(BridgeError::Source(SourceError::Closed).message(), "源错误: 连接已关闭");
    assert_eq!(BridgeError::Sink(SinkError::Closed).message(), "接收器错误: 接收器已关闭");
}
