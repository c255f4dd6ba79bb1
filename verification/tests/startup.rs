use mousehole::startup::{banner, git_hash, healthcheck_ok, healthcheck_port, PROBE_REQUEST};

#[test]
fn banner_names_version_commit_and_address() {
    assert_eq!(
        banner("abc", "0.0.0.0:5010"),
        "Mousehole v0.5.0 (abc) running at http://0.0.0.0:5010/"
    );
}

#[test]
fn commit_of_the_build_comes_first() {
    assert_eq!(git_hash(Some("b"), Some("r")), "b");
    assert_eq!(git_hash(None, Some("r")), "r");
    assert_eq!(git_hash(Some(""), Some("r")), "unknown");
    assert_eq!(git_hash(None, Some("")), "unknown");
    assert_eq!(git_hash(None, None), "unknown");
}

#[test]
fn probe_asks_the_configured_port() {
    assert_eq!(healthcheck_port(Some(" 8080\n")), 8080);
    assert_eq!(healthcheck_port(Some("+81")), 81);
    assert_eq!(healthcheck_port(Some("0")), 0);
    assert_eq!(healthcheck_port(Some("65536")), 5010);
    assert_eq!(healthcheck_port(Some("eleventy")), 5010);
    assert_eq!(healthcheck_port(Some("")), 5010);
    assert_eq!(healthcheck_port(None), 5010);
}

#[test]
fn probe_wants_status_200() {
    assert!(healthcheck_ok(b"HTTP/1.1 200 OK\r\n"));
    assert!(!healthcheck_ok(b"HTTP/1.1 500 Internal Server Error\r\n"));
    assert!(!healthcheck_ok(b"HTTP/1.1 2001 \r\n"));
    assert!(!healthcheck_ok(b" 200"));
    assert!(!healthcheck_ok(b""));
    assert!(PROBE_REQUEST.starts_with("GET /health HTTP/1.1\r\n"));
    assert!(PROBE_REQUEST.ends_with("\r\n\r\n"));
}
