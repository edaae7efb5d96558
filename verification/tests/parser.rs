use rust_sse::{SseEvent, SseParser};

fn feed_all(chunks: &[&[u8]]) -> Vec<SseEvent> {
    let mut p = SseParser::new();
    let mut events = Vec::new();
    for c in chunks {
        events.extend(p.push(c));
    }
    events
}

#[test]
fn pipeline_chunk_line_message_with_splits_and_crlf() {
    let mut p = SseParser::new();

    let chunks = vec![
        b"id: 1\r".as_slice(),
        b"\n",
        b": this is a comment\r\n",
        b"event: greeting\n",
        b"data: hel",
        b"lo\n",
        b"data: world\r",
        b"\n",
        b"\r",
        b"\n",
    ];

    let mut events = Vec::new();
    for c in chunks {
        events.extend(p.push(c));
    }

    assert_eq!(
        events,
        vec![SseEvent {
            id: Some("1".to_string()),
            event: Some("greeting".to_string()),
            data: "hello\nworld".to_string(),
            retry: None,
        }]
    );
}

#[test]
fn ignores_non_integer_retry() {
    let mut p = SseParser::new();
    let chunks = vec![b"retry: def\n".as_slice(), b"\n"];
    let mut events = Vec::new();
    for c in chunks {
        events.extend(p.push(c));
    }

    assert_eq!(
        events,
        vec![SseEvent {
            id: None,
            event: None,
            data: "".to_string(),
            retry: None,
        }]
    );
}

#[test]
fn data_appends_across_multiple_lines() {
    let mut p = SseParser::new();
    let chunks = vec![
        b"data:YHOO\n".as_slice(),
        b"data: +2\n",
        b"data\n",
        b"data: 10\n",
        b"\n",
    ];
    let mut events = Vec::new();
    for c in chunks {
        events.extend(p.push(c));
    }

    assert_eq!(events[0].data, "YHOO\n+2\n\n10".to_string());
}

#[test]
fn chunking_does_not_change_events() {
    let stream: &[u8] = b"id: 7\r\nevent: tick\rdata: a\r\ndata: b\n\nretry: 250\n: note\ndata: c\r\r\n";
    let whole = feed_all(&[stream]);
    for cut in 0..=stream.len() {
        let split = feed_all(&[&stream[..cut], &stream[cut..]]);
        assert_eq!(split, whole, "cut at {}", cut);
    }
    let bytewise: Vec<&[u8]> = stream.chunks(1).collect();
    assert_eq!(feed_all(&bytewise), whole);
    assert_eq!(
        whole,
        vec![
            SseEvent {
                id: Some("7".to_string()),
                event: Some("tick".to_string()),
                data: "a\nb".to_string(),
                retry: None,
            },
            SseEvent { id: None, event: None, data: "c".to_string(), retry: Some(250) },
        ]
    );
}

#[test]
fn crlf_split_between_chunks_is_one_line_end() {
    let events = feed_all(&[b"data: x\r", b"", b"\n", b"\n"]);
    assert_eq!(events, vec![SseEvent::new("x")]);
}

#[test]
fn lone_cr_ends_lines() {
    let events = feed_all(&[b"data: x\r\rdata: y\r\r"]);
    assert_eq!(events, vec![SseEvent::new("x"), SseEvent::new("y")]);
}

#[test]
fn incomplete_message_is_held_back() {
    let mut p = SseParser::new();
    assert!(p.push(b"data: part").is_empty());
    assert!(p.push(b"ial\n").is_empty());
    assert_eq!(p.push(b"\n"), vec![SseEvent::new("partial")]);
}

#[test]
fn empty_id_is_kept_and_unknown_fields_ignored() {
    let events = feed_all(&[b"id\nfoo: bar\nevent:\ndata:  two spaces\n\n"]);
    assert_eq!(
        events,
        vec![SseEvent {
            id: Some(String::new()),
            event: Some(String::new()),
            data: " two spaces".to_string(),
            retry: None,
        }]
    );
}

#[test]
fn retry_is_trimmed_and_checked() {
    let events = feed_all(&[b"retry: \t+42 \n\nretry: 18446744073709551616\n\nretry: -1\n\nretry: 18446744073709551615\n\n"]);
    assert_eq!(events[0].retry, Some(42));
    assert_eq!(events[1].retry, None);
    assert_eq!(events[2].retry, None);
    assert_eq!(events[3].retry, Some(u64::MAX));
}

#[test]
fn invalid_utf8_is_replaced() {
    let events = feed_all(&[b"data: a\xffb\n\n"]);
    assert_eq!(events[0].data, "a\u{fffd}b");
}

#[test]
fn line_ends_are_alike() {
    let lf = feed_all(&[b"event: a\ndata: 1\ndata: 2\n\nid: 9\n"]);
    let cr = feed_all(&[b"event: a\rdata: 1\rdata: 2\r\rid: 9\r"]);
    let crlf = feed_all(&[b"event: a\r\ndata: 1\r\ndata: 2\r\n\r\nid: 9\r\n"]);
    let mixed = feed_all(&[b"event: a\r\ndata: 1\rdata: 2\n\r\nid: 9\n"]);
    assert_eq!(lf.len(), 1);
    assert_eq!(lf[0].data, "1\n2");
    assert_eq!(lf[0].event, Some("a".to_string()));
    assert_eq!(lf, cr);
    assert_eq!(lf, crlf);
    assert_eq!(lf, mixed);
}

#[test]
fn many_chunks_give_the_events_of_one() {
    let whole: &[u8] = b"id: 1\r\ndata: a\r\n\r\ndata: b\rretry: 10\r\r";
    let one = feed_all(&[whole]);
    let pieces: Vec<&[u8]> = whole.chunks(1).collect();
    assert_eq!(feed_all(&pieces), one);
    let threes: Vec<&[u8]> = whole.chunks(3).collect();
    assert_eq!(feed_all(&threes), one);
    assert_eq!(one.len(), 2);
    assert_eq!(one[1].retry, Some(10));
}
