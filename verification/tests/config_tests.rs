use cblt::{build_config, ConfigError, Directive};
use kdl::KdlDocument;
use std::error::Error;

#[test]
fn config_test_simple() -> Result<(), Box<dyn Error>> {
    let cblt_file = r#"
example.com {
    root "*" "/path/to/folder"
    file_server
}
            "#;
    let doc: KdlDocument = cblt_file.parse()?;
    let config = build_config(&doc).map_err(|e| format!("{:?}", e))?;
    println!("{:#?}", config);

    Ok(())
}

#[test]
fn test_complicated() -> Result<(), Box<dyn Error>> {
    let cblt_file = r#"
example1.com {
    root "*" "/path/folder"
    file_server
    reverse_proxy "/api/*" "localhost:8080"
}

"http://example1.com" {
    redir "https://example2.com{uri}"
}
            "#;
    let doc: KdlDocument = cblt_file.parse()?;
    let config = build_config(&doc).map_err(|e| format!("{:?}", e))?;
    println!("{:#?}", config);

    Ok(())
}

#[test]
fn test_tls() -> Result<(), Box<dyn Error>> {
    let cblt_file = r#"
example.com {
    root "*" "/path/to/folder"
    file_server
    tls "/path/to/your/certificate.crt" "/path/to/your/private.key"
}
            "#;
    let doc: KdlDocument = cblt_file.parse()?;
    let config = build_config(&doc).map_err(|e| format!("{:?}", e))?;
    println!("{:#?}", config);

    Ok(())
}

#[test]
fn config_contents_are_read_in_order() {
    let text = r#"
example.com {
    root "*" "/srv/www"
    file_server
    reverse_proxy "/api/*" "http://up:8080"
}
"#;
    let doc: KdlDocument = text.parse().unwrap();
    let table = build_config(&doc).unwrap();
    assert_eq!(table.entries.len(), 1);
    let entry = &table.entries[0];
    assert_eq!(entry.host, "example.com");
    assert_eq!(entry.directives.len(), 3);
    match &entry.directives[0] {
        Directive::Root { pattern, path } => {
            assert_eq!(pattern, "*");
            assert_eq!(path, "/srv/www");
        }
        other => panic!("expected a root directive, got {:?}", other),
    }
    assert!(matches!(entry.directives[1], Directive::FileServer));
    match &entry.directives[2] {
        Directive::ReverseProxy { pattern, destination } => {
            assert_eq!(pattern, "/api/*");
            assert_eq!(destination, "http://up:8080");
        }
        other => panic!("expected a reverse_proxy directive, got {:?}", other),
    }
}

#[test]
fn config_root_with_one_arg_is_invalid() {
    let text = "example.com {\n    root \"*\"\n}\n";
    let doc: KdlDocument = text.parse().unwrap();
    match build_config(&doc) {
        Err(ConfigError::InvalidDirective { host, directive }) => {
            assert_eq!(host, "example.com");
            assert_eq!(directive, "root");
        }
        other => panic!("expected an invalid-directive error, got {:?}", other),
    }
}

#[test]
fn config_unknown_directive_is_rejected() {
    let text = "example.com {\n    serve_quickly\n}\n";
    let doc: KdlDocument = text.parse().unwrap();
    match build_config(&doc) {
        Err(ConfigError::UnknownDirective { host, directive }) => {
            assert_eq!(host, "example.com");
            assert_eq!(directive, "serve_quickly");
        }
        other => panic!("expected an unknown-directive error, got {:?}", other),
    }
}

#[test]
fn config_empty_host_is_rejected() {
    let text = "example.com {\n}\n";
    let doc: KdlDocument = text.parse().unwrap();
    match build_config(&doc) {
        Err(ConfigError::NoDirectives { host }) => {
            assert_eq!(host, "example.com");
        }
        other => panic!("expected a no-directives error, got {:?}", other),
    }
}

#[test]
fn config_duplicate_host_is_rejected() {
    let text = "a.com {\n    file_server\n}\na.com {\n    file_server\n}\n";
    let doc: KdlDocument = text.parse().unwrap();
    match build_config(&doc) {
        Err(ConfigError::DuplicateHost { host }) => {
            assert_eq!(host, "a.com");
        }
        other => panic!("expected a duplicate-host error, got {:?}", other),
    }
}

#[test]
fn config_redir_takes_one_argument() {
    let text = "b.com {\n    redir \"https://a.com{uri}\"\n}\n";
    let doc: KdlDocument = text.parse().unwrap();
    let table = build_config(&doc).unwrap();
    match &table.entries[0].directives[0] {
        Directive::Redir { destination } => {
            assert_eq!(destination, "https://a.com{uri}");
        }
        other => panic!("expected a redir directive, got {:?}", other),
    }
}
