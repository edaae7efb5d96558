use rust_sse::SseEvent;

#[test]
fn test_to_sse_string_simple() {
    let event = SseEvent::new("hello");
    assert_eq!(event.to_sse_string(), "data: hello\n\n");
}

#[test]
fn test_to_sse_string_with_all_fields() {
    let event = SseEvent::new("hello")
        .with_id("123")
        .with_event("message")
        .with_retry(5000);

    let output = event.to_sse_string();
    assert!(output.contains("id: 123\n"));
    assert!(output.contains("event: message\n"));
    assert!(output.contains("retry: 5000\n"));
    assert!(output.contains("data: hello\n"));
    assert!(output.ends_with("\n\n"));
}

#[test]
fn test_to_sse_string_multiline() {
    let event = SseEvent::new("line1\nline2\nline3");
    let output = event.to_sse_string();
    assert_eq!(output, "data: line1\ndata: line2\ndata: line3\n\n");
}

#[test]
fn to_sse_string_exact_order_of_fields() {
    let event = SseEvent::new("a\r\n\nb\n").with_retry(0).with_event("e").with_id("");
    assert_eq!(event.to_sse_string(), "id: \nevent: e\nretry: 0\ndata: a\ndata: \ndata: b\n\n");
}

#[test]
fn to_sse_string_empty_data() {
    assert_eq!(SseEvent::new("").to_sse_string(), "data:\n\n");
    assert_eq!(SseEvent::default().with_retry(1234567890).to_sse_string(), "retry: 1234567890\ndata:\n\n");
}

#[test]
fn builders_set_fields() {
    let e = SseEvent::new("d").with_id("i").with_event("t").with_retry(9);
    assert_eq!(e, SseEvent { id: Some("i".into()), event: Some("t".into()), data: "d".into(), retry: Some(9) });
}

#[test]
fn to_sse_string_keeps_a_final_bare_cr() {
    assert_eq!(SseEvent::new("x\r").to_sse_string(), "data: x\r\n\n");
    assert_eq!(SseEvent::new("\n").to_sse_string(), "data: \n\n");
}
