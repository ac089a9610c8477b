use std::collections::HashMap;
use vinsly::mcp::{infer_server_type, MCPServerConfig};
use vinsly::scanner::{always_skip_dirs, protected_docs_dirs, DEFAULT_DISCOVERY_DEPTH};
use vinsly::tcc::tcc_access_has_allowed_column;

fn server(server_type: Option<&str>, command: Option<&str>) -> MCPServerConfig {
    MCPServerConfig {
        server_type: server_type.map(|s| s.to_string()),
        url: None,
        command: command.map(|s| s.to_string()),
        args: None,
        headers: Some(HashMap::new()),
        env: None,
    }
}

#[test]
fn server_types() {
    assert_eq!(infer_server_type(&server(Some("sse"), Some("npx"))), "sse");
    assert_eq!(infer_server_type(&server(None, Some("npx"))), "stdio");
    assert_eq!(infer_server_type(&server(None, None)), "http");
}

#[test]
fn skipped_directories() {
    let skip = always_skip_dirs("/Users/a", true);
    assert_eq!(skip.len(), 9);
    assert_eq!(skip[0], "/Users/a/Applications");
    assert_eq!(skip[6], "/Users/a/Library/Mobile Documents");
    assert_eq!(skip[8], "/Users/a/Library/Containers");
    let protected = protected_docs_dirs("/Users/a/", true);
    assert_eq!(
        protected,
        vec![
            "/Users/a/Desktop".to_string(),
            "/Users/a/Documents".to_string(),
            "/Users/a/Downloads".to_string()
        ]
    );
    assert_eq!(DEFAULT_DISCOVERY_DEPTH, 12);
    assert!(always_skip_dirs("/home/a", false).is_empty());
    assert!(protected_docs_dirs("/home/a", false).is_empty());
}

#[test]
fn allowed_column_listing() {
    let with = "0|service|TEXT|1||1\n1|client|TEXT|1||2\n2|allowed|INTEGER|1||0\n";
    assert!(tcc_access_has_allowed_column(with));
    let crlf = "0|service|TEXT|1||1\r\n1|allowed|INTEGER|1||0\r\n";
    assert!(tcc_access_has_allowed_column(crlf));
    let without = "0|service|TEXT|1||1\n1|auth_value|INTEGER|1||0\n";
    assert!(!tcc_access_has_allowed_column(without));
    assert!(!tcc_access_has_allowed_column(""));
    assert!(!tcc_access_has_allowed_column("allowed\n|allowedx|\n"));
    assert!(tcc_access_has_allowed_column("x|allowed"));
}
