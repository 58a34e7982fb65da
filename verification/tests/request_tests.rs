use cblt::{build_directives, parse_request_headers, parse_usize, Directive, RawNode, Version};
use std::error::Error;

#[test]
fn request_test_simple() -> Result<(), Box<dyn Error>> {
    let request_str = "POST /submit HTTP/1.1\r\n\
Host: example.com\r\n\
User-Agent: curl/7.68.0\r\n\
Accept: */*\r\n\
Content-Type: application/json\r\n\
Content-Length: 15\r\n\r\n\
{\"key\":\"value\"}";

    let req = parse_request_headers(request_str);
    println!("{:#?}", req);

    Ok(())
}

#[test]
fn request_head_fields_are_parsed() {
    let request_str = "POST /submit HTTP/1.1\r\n\
Host: example.com\r\n\
Content-Length: 15\r\n\r\n";
    let (req, content_length) = parse_request_headers(request_str).unwrap();
    assert_eq!(req.method, "POST");
    assert_eq!(req.path, "/submit");
    assert_eq!(req.version, Version::Http11);
    assert_eq!(req.headers.len(), 2);
    assert_eq!(req.headers[0].0, "Host");
    assert_eq!(req.headers[0].1, "example.com");
    assert_eq!(req.headers[1].0, "Content-Length");
    assert_eq!(req.headers[1].1, "15");
    assert_eq!(content_length, Some(15));
    assert!(req.body.is_empty());
}

#[test]
fn request_version_mapping() {
    let old = parse_request_headers("GET / HTTP/1.0\r\n\r\n").unwrap().0;
    assert_eq!(old.version, Version::Http10);
    let new = parse_request_headers("GET / HTTP/1.1\r\n\r\n").unwrap().0;
    assert_eq!(new.version, Version::Http11);
    assert!(parse_request_headers("GET / HTTP/2.0\r\n\r\n").is_none());
    assert!(parse_request_headers("GET / HTTP/1.2\r\n\r\n").is_none());
}

#[test]
fn request_partial_head_is_not_parsed() {
    assert!(parse_request_headers("GET / HTTP/1.1\r\nHost: a.com\r\n").is_none());
    assert!(parse_request_headers("").is_none());
}

#[test]
fn request_malformed_line_is_rejected() {
    assert!(parse_request_headers("GET/HTTP/1.1\r\n\r\n").is_none());
    assert!(parse_request_headers("GET  HTTP/1.1\r\n\r\n").is_none());
    assert!(parse_request_headers("GET / HTTP/1.1\r\nno-colon-here\r\n\r\n").is_none());
}

#[test]
fn content_length_value_parsing() {
    assert_eq!(parse_usize("15"), Some(15));
    assert_eq!(parse_usize("  15  "), Some(15));
    assert_eq!(parse_usize("+15"), Some(15));
    assert_eq!(parse_usize("0"), Some(0));
    assert_eq!(parse_usize(""), None);
    assert_eq!(parse_usize("   "), None);
    assert_eq!(parse_usize("15a"), None);
    assert_eq!(parse_usize("-1"), None);
    assert_eq!(parse_usize("99999999999999999999999999999"), None);
}

#[test]
fn content_length_header_is_case_insensitive() {
    let (_, cl) = parse_request_headers("GET / HTTP/1.1\r\ncOnTeNt-LeNgTh: 7\r\n\r\n").unwrap();
    assert_eq!(cl, Some(7));
}

#[test]
fn content_length_last_parseable_value_wins() {
    let (_, cl) = parse_request_headers(
        "GET / HTTP/1.1\r\nContent-Length: 3\r\nContent-Length: 9\r\n\r\n",
    )
    .unwrap();
    assert_eq!(cl, Some(9));
    let (_, cl2) = parse_request_headers(
        "GET / HTTP/1.1\r\nContent-Length: 3\r\nContent-Length: oops\r\n\r\n",
    )
    .unwrap();
    assert_eq!(cl2, Some(3));
}

#[test]
fn header_values_keep_arrival_order() {
    let (req, _) = parse_request_headers(
        "GET / HTTP/1.1\r\nAccept: text/html\r\nAccept: text/plain\r\n\r\n",
    )
    .unwrap();
    assert_eq!(req.headers[0].1, "text/html");
    assert_eq!(req.headers[1].1, "text/plain");
}

#[test]
fn helper_string_comparisons() {
    assert!(cblt::eq_ignore_ascii_case("Content-Length", "content-length"));
    assert!(cblt::eq_ignore_ascii_case("HOST", "host"));
    assert!(!cblt::eq_ignore_ascii_case("host", "hosts"));
    assert!(!cblt::eq_ignore_ascii_case("hast", "host"));
    assert!(cblt::str_eq("abc", "abc"));
    assert!(!cblt::str_eq("abc", "abd"));
}

#[test]
fn host_value_takes_first_match_or_empty() {
    let headers = vec![
        ("Accept".to_string(), "*/*".to_string()),
        ("hOsT".to_string(), "a.com".to_string()),
        ("Host".to_string(), "b.com".to_string()),
    ];
    assert_eq!(cblt::host_value(&headers), "a.com");
    assert_eq!(cblt::host_value(&Vec::new()), "");
}

#[test]
fn content_length_of_reads_the_header_list() {
    let headers = vec![("Content-Length".to_string(), " 42 ".to_string())];
    assert_eq!(cblt::content_length_of(&headers), Some(42));
    assert_eq!(cblt::content_length_of(&Vec::new()), None);
}

#[test]
fn parse_head_reports_header_length() {
    let text = b"GET / HTTP/1.1\r\nHost: a.com\r\n\r\nrest";
    match cblt::parse_head(text) {
        cblt::HeadStatus::Complete(req, header_len) => {
            assert_eq!(header_len, text.len() - 4);
            assert_eq!(req.path, "/");
        }
        _ => panic!("expected a complete head"),
    }
    assert!(matches!(cblt::parse_head(b"GET / HT"), cblt::HeadStatus::Partial));
}

#[test]
fn build_directives_reads_plain_declarations() {
    let host = "a.com".to_string();
    let children = vec![
        RawNode { name: "root".to_string(), args: vec!["*".to_string(), "/srv".to_string()] },
        RawNode { name: "file_server".to_string(), args: Vec::new() },
    ];
    let ds = build_directives(&host, &children).unwrap();
    assert_eq!(ds.len(), 2);
    assert!(matches!(&ds[0], Directive::Root { .. }));
    assert!(matches!(&ds[1], Directive::FileServer));
}
