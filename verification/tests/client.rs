use rust_sse::client::{
    absorb_event, check_content_type, last_event_id_header, request_url, should_stop, update_last_event_id,
};
use rust_sse::{SseError, SseEvent};

#[test]
fn max_retries_decision() {
    assert!(!should_stop(5, None));
    assert!(!should_stop(0, Some(0)));
    assert!(should_stop(1, Some(0)));
    assert!(!should_stop(2, Some(2)));
    assert!(should_stop(3, Some(2)));
}

#[test]
fn last_event_id_tracking() {
    let mut last = None;
    update_last_event_id(&mut last, &SseEvent::new("x"));
    assert_eq!(last, None);
    update_last_event_id(&mut last, &SseEvent::new("x").with_id("7"));
    assert_eq!(last.as_deref(), Some("7"));
    update_last_event_id(&mut last, &SseEvent::new("y"));
    assert_eq!(last.as_deref(), Some("7"));
    update_last_event_id(&mut last, &SseEvent::new("z").with_id(""));
    assert_eq!(last, None);
}

#[test]
fn content_type_check() {
    assert!(check_content_type(Some("text/event-stream".to_string())).is_ok());
    assert!(check_content_type(Some("text/event-stream; charset=utf-8".to_string())).is_ok());
    match check_content_type(Some("text/html".to_string())) {
        Err(SseError::InvalidContentType(ct)) => assert_eq!(ct.as_deref(), Some("text/html")),
        other => panic!("unexpected {:?}", other),
    }
    assert!(check_content_type(Some("text/event".to_string())).is_err());
    assert!(matches!(check_content_type(None), Err(SseError::InvalidContentType(None))));
}

#[test]
fn absorbing_an_event_updates_id_and_delay() {
    let mut last = Some("1".to_string());
    let mut ev = SseEvent::new("x").with_id("5");
    ev.retry = Some(2500);
    assert_eq!(absorb_event(&mut last, &ev), Some(2500));
    assert_eq!(last, Some("5".to_string()));
    let plain = SseEvent::new("y");
    assert_eq!(absorb_event(&mut last, &plain), None);
    assert_eq!(last, Some("5".to_string()));
}

#[test]
fn request_urls_parse_or_fail_with_url_error() {
    let u = request_url("http://example.com:8080/events?x=1").unwrap();
    assert_eq!(u.host_str(), Some("example.com"));
    assert_eq!(u.port(), Some(8080));
    assert_eq!(u.path(), "/events");
    match request_url("not a url") {
        Err(SseError::Url(m)) => assert_eq!(m, "relative URL without a base"),
        other => panic!("unexpected {:?}", other),
    }
}

#[test]
fn header_values_follow_http_rules() {
    for ok in ["abc-123", "a\tb", "é事件", ""] {
        assert_eq!(last_event_id_header(ok).unwrap().as_bytes(), ok.as_bytes());
    }
    for bad in ["a\nb", "\u{7f}", "\u{1f}"] {
        assert!(matches!(last_event_id_header(bad), Err(SseError::InvalidHeaderValue)));
    }
    assert_eq!(last_event_id_header("42").unwrap().to_str().unwrap(), "42");
    assert!(matches!(last_event_id_header("4\r2"), Err(SseError::InvalidHeaderValue)));
}
