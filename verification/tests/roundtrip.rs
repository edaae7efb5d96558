use rust_sse::{SseEvent, SseParser};

fn reparse(e: &SseEvent) -> Vec<SseEvent> {
    let text = e.to_sse_string();
    let mut p = SseParser::new();
    p.push(text.as_bytes())
}

#[test]
fn formatted_events_parse_back() {
    let cases = vec![
        SseEvent::new("hello"),
        SseEvent::new(""),
        SseEvent::new("a\n\nb").with_id("").with_event("x: y"),
        SseEvent::new("  spaced ü 漢字").with_id("42").with_retry(0),
        SseEvent::new("line1\nline2").with_retry(u64::MAX).with_event("update"),
    ];
    for e in cases {
        assert_eq!(reparse(&e), vec![e.clone()]);
    }
}

#[test]
fn leading_newline_in_data_is_not_read_back() {
    // Outside the round-trip law: the first, empty data value is not joined.
    let e = SseEvent::new("\nb");
    assert_eq!(reparse(&e), vec![SseEvent::new("b")]);
}
