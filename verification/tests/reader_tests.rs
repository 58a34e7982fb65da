use cblt::{CloseResult, FeedResult, RequestReader, MAX_HEADERS, MAX_HEAD_BYTES};

#[test]
fn body_of_declared_length_round_trips() {
    let mut reader = RequestReader::new();
    let head = "POST /submit HTTP/1.1\r\nHost: a.com\r\nContent-Length: 15\r\n\r\n";
    let body = "{\"key\":\"value\"}";
    let mut bytes = head.as_bytes().to_vec();
    bytes.extend_from_slice(body.as_bytes());
    match reader.feed(&bytes) {
        FeedResult::Complete(req) => {
            assert_eq!(req.body.len(), 15);
            assert_eq!(req.body, body.as_bytes());
        }
        _ => panic!("expected a complete request"),
    }
}

#[test]
fn split_chunks_are_tolerated() {
    let mut reader = RequestReader::new();
    assert!(matches!(reader.feed(b"POST /submit HT"), FeedResult::NeedMore));
    assert!(matches!(
        reader.feed(b"TP/1.1\r\nContent-Len"),
        FeedResult::NeedMore
    ));
    assert!(matches!(
        reader.feed(b"gth: 5\r\n\r\nab"),
        FeedResult::NeedMore
    ));
    match reader.feed(b"cde") {
        FeedResult::Complete(req) => {
            assert_eq!(req.method, "POST");
            assert_eq!(req.body, b"abcde");
        }
        _ => panic!("expected a complete request"),
    }
}

#[test]
fn no_content_length_completes_with_trailing_bytes() {
    let mut reader = RequestReader::new();
    match reader.feed(b"GET / HTTP/1.1\r\nHost: a.com\r\n\r\nextra") {
        FeedResult::Complete(req) => {
            assert_eq!(req.body, b"extra");
        }
        _ => panic!("expected a complete request"),
    }
}

#[test]
fn malformed_head_fails() {
    let mut reader = RequestReader::new();
    assert!(matches!(
        reader.feed(b"NOT A REQUEST AT ALL\r\n\r\n"),
        FeedResult::Failure
    ));
}

#[test]
fn too_many_headers_fail_rather_than_stall() {
    let mut head = String::from("GET / HTTP/1.1\r\n");
    for i in 0..(MAX_HEADERS + 1) {
        head.push_str(&format!("X-Filler-{}: v\r\n", i));
    }
    head.push_str("\r\n");
    let mut reader = RequestReader::new();
    assert!(matches!(reader.feed(head.as_bytes()), FeedResult::Failure));
}

#[test]
fn exactly_the_header_bound_is_accepted() {
    let mut head = String::from("GET / HTTP/1.1\r\n");
    for i in 0..MAX_HEADERS {
        head.push_str(&format!("X-Filler-{}: v\r\n", i));
    }
    head.push_str("\r\n");
    let mut reader = RequestReader::new();
    match reader.feed(head.as_bytes()) {
        FeedResult::Complete(req) => assert_eq!(req.headers.len(), MAX_HEADERS),
        _ => panic!("expected a complete request"),
    }
}

#[test]
fn oversized_head_fails_rather_than_stalls() {
    let mut reader = RequestReader::new();
    let filler = vec![b'a'; MAX_HEAD_BYTES];
    assert!(matches!(reader.feed(&filler), FeedResult::Failure));
}

#[test]
fn empty_connection_closes_silently() {
    let reader = RequestReader::new();
    assert!(matches!(reader.close(), CloseResult::Empty));
}

#[test]
fn close_mid_head_is_incomplete() {
    let mut reader = RequestReader::new();
    assert!(matches!(reader.feed(b"GET / HT"), FeedResult::NeedMore));
    assert!(matches!(reader.close(), CloseResult::Incomplete));
}

#[test]
fn close_with_short_body_keeps_what_arrived() {
    let mut reader = RequestReader::new();
    assert!(matches!(
        reader.feed(b"POST / HTTP/1.1\r\nContent-Length: 10\r\n\r\nabc"),
        FeedResult::NeedMore
    ));
    match reader.close() {
        CloseResult::Complete(req) => assert_eq!(req.body, b"abc"),
        _ => panic!("expected a truncated request"),
    }
}
