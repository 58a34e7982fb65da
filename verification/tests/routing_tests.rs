use cblt::{
    apply_directory_index, matches_pattern, replace_uri, resolve_file_path, route, Directive,
    DirectiveTable, HostEntry, ParsedRequest, RoutingOutcome, Version, STATUS_FORBIDDEN,
    STATUS_INTERNAL_SERVER_ERROR, STATUS_NOT_FOUND,
};

fn request(host: &str, path: &str) -> ParsedRequest {
    ParsedRequest {
        method: "GET".to_string(),
        path: path.to_string(),
        version: Version::Http11,
        headers: vec![("Host".to_string(), host.to_string())],
        body: Vec::new(),
    }
}

fn table(host: &str, directives: Vec<Directive>) -> DirectiveTable {
    DirectiveTable { entries: vec![HostEntry { host: host.to_string(), directives }] }
}

fn root(pattern: &str, path: &str) -> Directive {
    Directive::Root { pattern: pattern.to_string(), path: path.to_string() }
}

#[test]
fn pattern_star_matches_everything() {
    assert!(matches_pattern("*", "/"));
    assert!(matches_pattern("*", "/anything/else.html"));
    assert!(matches_pattern("*", ""));
}

#[test]
fn pattern_trailing_star_matches_prefix() {
    assert!(matches_pattern("/api/*", "/api/v1"));
    assert!(matches_pattern("/api/*", "/api/"));
    assert!(!matches_pattern("/api/*", "/apx/v1"));
    assert!(!matches_pattern("/api/*", "/ap"));
}

#[test]
fn pattern_without_star_matches_exactly() {
    assert!(matches_pattern("/index.html", "/index.html"));
    assert!(!matches_pattern("/index.html", "/index.htm"));
    assert!(!matches_pattern("/index.html", "/index.html2"));
}

#[test]
fn file_server_resolves_under_root() {
    let t = table("example.com", vec![root("*", "/a"), Directive::FileServer]);
    match route(request("example.com", "/index.html"), &t) {
        RoutingOutcome::ServeFile { path } => assert_eq!(path, "/a/index.html"),
        other => panic!("expected a file outcome, got {:?}", other),
    }
}

#[test]
fn later_matching_root_overrides_earlier() {
    let t = table(
        "example.com",
        vec![root("*", "/a"), root("/img/*", "/b"), Directive::FileServer],
    );
    match route(request("example.com", "/img/x.png"), &t) {
        RoutingOutcome::ServeFile { path } => assert_eq!(path, "/b/img/x.png"),
        other => panic!("expected a file outcome, got {:?}", other),
    }
}

#[test]
fn non_matching_root_keeps_earlier_root() {
    let t = table(
        "example.com",
        vec![root("*", "/a"), root("/img/*", "/b"), Directive::FileServer],
    );
    match route(request("example.com", "/page.html"), &t) {
        RoutingOutcome::ServeFile { path } => assert_eq!(path, "/a/page.html"),
        other => panic!("expected a file outcome, got {:?}", other),
    }
}

#[test]
fn file_server_without_root_is_a_server_error() {
    let t = table("example.com", vec![Directive::FileServer]);
    match route(request("example.com", "/x"), &t) {
        RoutingOutcome::Error { status } => assert_eq!(status, STATUS_INTERNAL_SERVER_ERROR),
        other => panic!("expected an error outcome, got {:?}", other),
    }
}

#[test]
fn reverse_proxy_concatenates_destination_and_path() {
    let t = table(
        "example.com",
        vec![Directive::ReverseProxy {
            pattern: "/api/*".to_string(),
            destination: "http://up:8080".to_string(),
        }],
    );
    match route(request("example.com", "/api/v1"), &t) {
        RoutingOutcome::Proxy { method, uri, headers, body } => {
            assert_eq!(method, "GET");
            assert_eq!(uri, "http://up:8080/api/v1");
            assert_eq!(headers, vec![("Host".to_string(), "example.com".to_string())]);
            assert!(body.is_empty());
        }
        other => panic!("expected a proxy outcome, got {:?}", other),
    }
}

#[test]
fn reverse_proxy_mismatch_falls_through_to_not_found() {
    let t = table(
        "example.com",
        vec![Directive::ReverseProxy {
            pattern: "/api/*".to_string(),
            destination: "http://up:8080".to_string(),
        }],
    );
    match route(request("example.com", "/other"), &t) {
        RoutingOutcome::Error { status } => assert_eq!(status, STATUS_NOT_FOUND),
        other => panic!("expected a not-found outcome, got {:?}", other),
    }
}

#[test]
fn redir_substitutes_the_request_path() {
    let t = table(
        "a.com",
        vec![Directive::Redir { destination: "https://b.com{uri}".to_string() }],
    );
    match route(request("a.com", "/x"), &t) {
        RoutingOutcome::Redirect { location } => assert_eq!(location, "https://b.com/x"),
        other => panic!("expected a redirect outcome, got {:?}", other),
    }
}

#[test]
fn unknown_host_is_forbidden() {
    let t = table("example.com", vec![root("*", "/a"), Directive::FileServer]);
    match route(request("elsewhere.com", "/x"), &t) {
        RoutingOutcome::Error { status } => assert_eq!(status, STATUS_FORBIDDEN),
        other => panic!("expected a forbidden outcome, got {:?}", other),
    }
    match route(
        ParsedRequest {
            method: "GET".to_string(),
            path: "/x".to_string(),
            version: Version::Http11,
            headers: Vec::new(),
            body: Vec::new(),
        },
        &t,
    ) {
        RoutingOutcome::Error { status } => assert_eq!(status, STATUS_FORBIDDEN),
        other => panic!("expected a forbidden outcome, got {:?}", other),
    }
}

#[test]
fn known_host_is_never_forbidden() {
    let t = table("example.com", vec![Directive::FileServer]);
    match route(request("example.com", "/x"), &t) {
        RoutingOutcome::Error { status } => assert_ne!(status, STATUS_FORBIDDEN),
        _ => {}
    }
}

#[test]
fn host_header_name_is_case_insensitive() {
    let t = table("a.com", vec![root("*", "/a"), Directive::FileServer]);
    let req = ParsedRequest {
        method: "GET".to_string(),
        path: "/f.txt".to_string(),
        version: Version::Http11,
        headers: vec![("hOsT".to_string(), "a.com".to_string())],
        body: Vec::new(),
    };
    match route(req, &t) {
        RoutingOutcome::ServeFile { path } => assert_eq!(path, "/a/f.txt"),
        other => panic!("expected a file outcome, got {:?}", other),
    }
}

#[test]
fn tls_directive_is_inert_for_routing() {
    let t = table(
        "a.com",
        vec![
            Directive::Tls { cert: "/c.crt".to_string(), key: "/k.key".to_string() },
            root("*", "/a"),
            Directive::FileServer,
        ],
    );
    match route(request("a.com", "/x"), &t) {
        RoutingOutcome::ServeFile { path } => assert_eq!(path, "/a/x"),
        other => panic!("expected a file outcome, got {:?}", other),
    }
}

#[test]
fn resolve_file_path_joins_and_strips() {
    assert_eq!(resolve_file_path("/a", "/index.html"), "/a/index.html");
    assert_eq!(resolve_file_path("/a/", "/index.html"), "/a/index.html");
    assert_eq!(resolve_file_path("/a", "//double"), "/a/double");
    assert_eq!(resolve_file_path("/a", "/"), "/a/");
    assert_eq!(resolve_file_path("", "/x"), "x");
}

#[test]
fn directory_index_is_appended_only_for_directories() {
    assert_eq!(apply_directory_index("/a/docs".to_string(), true), "/a/docs/index.html");
    assert_eq!(apply_directory_index("/a/x.png".to_string(), false), "/a/x.png");
}

#[test]
fn replace_uri_substitutes_every_occurrence() {
    assert_eq!(replace_uri("https://b.com{uri}", "/x"), "https://b.com/x");
    assert_eq!(replace_uri("{uri}?from={uri}", "/p"), "/p?from=/p");
    assert_eq!(replace_uri("no-placeholder", "/p"), "no-placeholder");
    assert_eq!(replace_uri("", "/p"), "");
    assert_eq!(replace_uri("{uri", "/p"), "{uri");
}
