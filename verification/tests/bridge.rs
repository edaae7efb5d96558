use rust_sse::bridge::event::{BridgeEvent, EventMetadata};
use rust_sse::bridge::{
    check_sinks, drop_failed_sinks, failed_sinks, remove_failed, run_result, source_step, RunEnd, SinkOutcome, SourceStep,
};
use rust_sse::sinks::{format_event, format_message, serde_json_escape, WebSocketFormat, WebSocketSinkConfig, WsPayload};
use rust_sse::sources::{grpc_step, GrpcAction, GrpcItem};
use rust_sse::{BridgeError, SinkError, SourceError, SseEvent};

#[test]
fn test_bridge_event_creation() {
    let event = BridgeEvent::from_string("hello")
        .with_id("123")
        .with_event_type("message");

    assert_eq!(event.id, Some("123".to_string()));
    assert_eq!(event.event_type, Some("message".to_string()));
    assert_eq!(event.payload_str(), "hello");
}

#[test]
fn test_sse_to_bridge_conversion() {
    let sse = SseEvent::new("test data").with_id("1").with_event("update");

    let bridge: BridgeEvent = sse.into();
    assert_eq!(bridge.id, Some("1".to_string()));
    assert_eq!(bridge.event_type, Some("update".to_string()));
    assert_eq!(bridge.payload_str(), "test data");
}

#[test]
fn bridge_round_trip_drops_only_retry() {
    let sse = SseEvent::new("multi\nline ü").with_id("9").with_event("e").with_retry(5);
    let bridge = BridgeEvent::from_sse_event(sse.clone());
    assert_eq!(bridge.metadata.source_protocol.as_deref(), Some("sse"));
    assert!(bridge.metadata.timestamp.is_some());
    let back: SseEvent = bridge.into();
    assert_eq!(back, SseEvent { retry: None, ..sse });
}

#[test]
fn payload_str_replaces_invalid_utf8() {
    let e = BridgeEvent::new(bytes::Bytes::from(vec![0x61u8, 0xff, 0x62]));
    assert_eq!(e.payload_str(), "a\u{fffd}b");
    assert_eq!(e.id, None);
    assert!(e.metadata.timestamp.is_some());
}

#[test]
fn metadata_builders() {
    let m = EventMetadata::now().with_source("ws").with_custom("k", "1").with_custom("j", "2").with_custom("k", "3");
    assert!(m.timestamp.is_some());
    assert_eq!(m.source_protocol.as_deref(), Some("ws"));
    let mut pairs = m.custom.clone();
    pairs.sort();
    assert_eq!(pairs, vec![("j".to_string(), "2".to_string()), ("k".to_string(), "3".to_string())]);
    let d = EventMetadata::default();
    assert!(d.timestamp.is_none() && d.source_protocol.is_none() && d.custom.is_empty());
    let e = BridgeEvent::from_string("x").with_metadata(d);
    assert!(e.metadata.timestamp.is_none());
}

#[test]
fn test_sse_sink_format() {
    let event = BridgeEvent::from_string("hello world")
        .with_id("123")
        .with_event_type("message");

    let formatted = format_event(&event);

    assert!(formatted.contains("id: 123\n"));
    assert!(formatted.contains("event: message\n"));
    assert!(formatted.contains("data: hello world\n"));
    assert!(formatted.ends_with("\n\n"));
    assert_eq!(formatted, "id: 123\nevent: message\ndata: hello world\n\n");
}

#[test]
fn websocket_text_binary_and_json() {
    let event = BridgeEvent::from_string("te\"st\n").with_id("1").with_event_type("message");
    let text = format_message(&WebSocketSinkConfig::default(), &event);
    assert_eq!(text, WsPayload::Text("te\"st\n".to_string()));
    let bin = format_message(&WebSocketSinkConfig { format: WebSocketFormat::Binary, include_metadata: false }, &event);
    assert_eq!(bin, WsPayload::Binary(b"te\"st\n".to_vec()));
    let json = format_message(&WebSocketSinkConfig { format: WebSocketFormat::Json, include_metadata: false }, &event);
    assert_eq!(json, WsPayload::Text(r#"{"id":"1","type":"message","data":"te\"st\n"}"#.to_string()));
    let with_meta = BridgeEvent::from_string("x").with_metadata(EventMetadata::now().with_source("sse"));
    let json = format_message(&WebSocketSinkConfig { format: WebSocketFormat::Json, include_metadata: true }, &with_meta);
    assert_eq!(json, WsPayload::Text(r#"{"id":null,"type":null,"data":"x","source":"sse"}"#.to_string()));
}

#[test]
fn json_escape_control_characters() {
    assert_eq!(serde_json_escape("a\\b\t\r\u{1}\u{7f}\u{9f}é"), "\"a\\\\b\\t\\r\\u0001\\u007f\\u009fé\"");
    assert_eq!(serde_json_escape(""), "\"\"");
}

#[test]
fn remove_failed_keeps_order() {
    let mut v = vec!['a', 'b', 'c', 'd', 'e'];
    remove_failed(&mut v, &vec![1, 3, 9]);
    assert_eq!(v, vec!['a', 'c', 'e']);
    let mut w = vec![1, 2];
    remove_failed(&mut w, &vec![]);
    assert_eq!(w, vec![1, 2]);
    remove_failed(&mut w, &vec![0, 1]);
    assert!(w.is_empty());
}

#[test]
fn source_steps() {
    assert!(matches!(source_step(None), SourceStep::Finish));
    assert!(matches!(source_step(Some(Err(SourceError::Closed))), SourceStep::Finish));
    match source_step(Some(Err(SourceError::Other("boom".into())))) {
        SourceStep::Fail(BridgeError::Source(SourceError::Other(m))) => assert_eq!(m, "boom"),
        other => panic!("unexpected {:?}", other),
    }
    match source_step(Some(Ok(BridgeEvent::from_string("e")))) {
        SourceStep::Forward(e) => assert_eq!(e.payload_str(), "e"),
        other => panic!("unexpected {:?}", other),
    }
    assert!(matches!(check_sinks(0), Err(BridgeError::NoSinks)));
    assert!(check_sinks(2).is_ok());
}

#[test]
fn cloned_event_keeps_payload() {
    let e = BridgeEvent::from_string("payload").with_id("1");
    let c = e.clone();
    assert_eq!(c.payload_str(), "payload");
    assert_eq!(c.payload, e.payload);
}

#[test]
fn json_format_escapes_id_type_and_source() {
    let event = BridgeEvent::from_string("d")
        .with_id("\"")
        .with_event_type("a\\b")
        .with_metadata(EventMetadata::now().with_source("s\n"));
    let json = format_message(&WebSocketSinkConfig { format: WebSocketFormat::Json, include_metadata: true }, &event);
    assert_eq!(json, WsPayload::Text(r#"{"id":"\"","type":"a\\b","data":"d","source":"s\n"}"#.to_string()));
}

#[test]
fn builders_keep_metadata_and_payload() {
    let event = BridgeEvent::from_string("p").with_metadata(EventMetadata::now().with_source("ws"));
    let stamp = event.metadata.timestamp;
    let event = event.with_id("7").with_event_type("t");
    assert_eq!(event.metadata.timestamp, stamp);
    assert_eq!(event.metadata.source_protocol, Some("ws".to_string()));
    assert_eq!(event.payload_str(), "p");
}

#[test]
fn failed_sinks_are_closed_and_failed_sends() {
    let outcomes = vec![SinkOutcome::Sent, SinkOutcome::AlreadyClosed, SinkOutcome::Sent, SinkOutcome::SendFailed];
    assert_eq!(failed_sinks(&outcomes), vec![1, 3]);
    assert!(failed_sinks(&vec![SinkOutcome::Sent]).is_empty());
}

#[test]
fn bridge_stops_when_no_sink_is_left() {
    let mut sinks = vec!['a', 'b'];
    assert!(!drop_failed_sinks(&mut sinks, &vec![0]));
    assert_eq!(sinks, vec!['b']);
    assert!(drop_failed_sinks(&mut sinks, &vec![0]));
    assert!(sinks.is_empty());
    let mut none: Vec<char> = vec![];
    assert!(!drop_failed_sinks(&mut none, &vec![]));
}

#[test]
fn run_result_is_ok_only_when_the_source_ends() {
    assert!(run_result(RunEnd::SourceDone).is_ok());
    assert!(matches!(run_result(RunEnd::Stopped), Err(BridgeError::Stopped)));
    assert!(matches!(run_result(RunEnd::SinksGone), Err(BridgeError::NoSinks)));
}

#[test]
fn grpc_steps() {
    let e = BridgeEvent::from_string("m").with_id("1");
    match grpc_step(GrpcItem::Message(e)) {
        GrpcAction::Emit(f) => assert_eq!(f.id, Some("1".to_string())),
        other => panic!("unexpected {:?}", other),
    }
    assert!(matches!(grpc_step(GrpcItem::End), GrpcAction::Stop));
    match grpc_step(GrpcItem::Failed(tonic::Status::internal("boom"))) {
        GrpcAction::FailThenStop(SourceError::Grpc(st)) => assert_eq!(st.message(), "boom"),
        other => panic!("unexpected {:?}", other),
    }
    match grpc_step(GrpcItem::AlreadyConsumed) {
        GrpcAction::FailThenStop(SourceError::Other(m)) => assert_eq!(m, "Stream already consumed"),
        other => panic!("unexpected {:?}", other),
    }
}

#[test]
fn outside_errors_convert() {
    let s: SourceError = tonic::Status::not_found("x").into();
    assert!(matches!(s, SourceError::Grpc(ref st) if st.message() == "x"));
    let k: SinkError = tonic::Status::unavailable("y").into();
    assert!(matches!(k, SinkError::Grpc(ref st) if st.message() == "y"));
    let w: SourceError = tokio_tungstenite::tungstenite::Error::ConnectionClosed.into();
    assert!(matches!(w, SourceError::WebSocket(tokio_tungstenite::tungstenite::Error::ConnectionClosed)));
    let v: SinkError = tokio_tungstenite::tungstenite::Error::AlreadyClosed.into();
    assert!(matches!(v, SinkError::WebSocket(tokio_tungstenite::tungstenite::Error::AlreadyClosed)));
}
