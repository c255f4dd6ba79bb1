use mousehole::boundary::{
    host_allowed, host_matches_rule, host_of_url, normalize_origin, origin_allowed, origin_of_url,
    parse_bearer, parse_host_and_port, require_auth, require_json_body, AuthMethod, UrlParts,
};
use mousehole::config::{AuthConfig, Config, Environment};
use mousehole::number::Double;
use mousehole::session::SessionStore;

fn cfg(pairs: &[(&str, &str)]) -> Config {
    let mut env = Environment::new();
    for (name, value) in pairs {
        env.insert(name, value);
    }
    Config::from_env(
        &env,
        |_: &str| Err("nope".to_string()),
        |raw: &str| raw.parse::<f64>().ok().map(|n| Double { bits: n.to_bits() }),
    )
    .ok()
    .unwrap()
}

fn sessions() -> SessionStore {
    SessionStore::new(60)
}

#[test]
fn default_hosts_match_any_port() {
    let c = cfg(&[("MOUSEHOLE_AUTH_TOKEN", "t")]);
    assert!(host_allowed(Some("localhost:9999"), &c).is_ok());
    assert!(host_allowed(Some("127.0.0.1"), &c).is_ok());
    assert!(host_allowed(Some("[::1]:5010"), &c).is_ok());
    let e = host_allowed(Some("evil.example"), &c).unwrap_err();
    assert_eq!(
        e.body.message,
        "Host \"evil.example\" not allowed. (Add to MOUSEHOLE_ALLOWED_HOSTS to permit it.)"
    );
}

#[test]
fn rule_with_port_80_is_port_agnostic_but_8080_is_exact() {
    let c = cfg(&[
        ("MOUSEHOLE_ALLOWED_HOSTS", "myhost:8080,porty:80"),
        ("MOUSEHOLE_AUTH_TOKEN", "t"),
    ]);
    assert!(host_allowed(Some("myhost:8080"), &c).is_ok());
    assert!(host_allowed(Some("myhost"), &c).is_err());
    assert!(host_allowed(Some("myhost:80"), &c).is_err());
    // :80 stripped from the rule, so any port is allowed
    assert!(host_allowed(Some("porty:1234"), &c).is_ok());
    assert!(host_allowed(Some("PORTY"), &c).is_ok()); // case-insensitive
}

#[test]
fn invalid_and_missing_hosts() {
    let c = cfg(&[("MOUSEHOLE_AUTH_TOKEN", "t")]);
    assert_eq!(
        host_allowed(None, &c).unwrap_err().body.message,
        "Request Host header is required."
    );
    let e = host_allowed(Some("bad/path"), &c).unwrap_err();
    assert_eq!(e.body.message, "Request Host \"bad/path\" is invalid.");
}

#[test]
fn bearer_parse_semantics() {
    assert_eq!(parse_bearer("Bearer abc"), Some("abc"));
    assert_eq!(parse_bearer("bearer abc"), Some("abc"));
    assert_eq!(parse_bearer("BEARER   a b c"), Some("a b c"));
    assert_eq!(parse_bearer("Bearer abc "), Some("abc ")); // untrimmed
    assert_eq!(parse_bearer("Bearerabc"), None);
    assert_eq!(parse_bearer("Basic abc"), None);
    assert_eq!(parse_bearer("Bearer "), None);
}

#[test]
fn auth_ladder_messages() {
    let c = cfg(&[("MOUSEHOLE_AUTH_TOKEN", "sekrit")]);
    let mut s = sessions();
    // token works, lowercase scheme too
    assert_eq!(
        require_auth(&c, &mut s, Some("bearer sekrit"), None, 0).unwrap(),
        AuthMethod::Token
    );
    // wrong token / non-Bearer header
    let e = require_auth(&c, &mut s, Some("Basic x"), None, 0).unwrap_err();
    assert_eq!(
        e.body.message,
        "Rejected Bearer token (wrong value, or MOUSEHOLE_AUTH_TOKEN not set)"
    );
    // stale cookie
    let e = require_auth(&c, &mut s, None, Some("mousehole-session=stale"), 0).unwrap_err();
    assert_eq!(e.body.message, "Unknown or expired session cookie");
    // nothing presented
    let e = require_auth(&c, &mut s, None, None, 0).unwrap_err();
    assert_eq!(e.body.message, "No credentials presented");
    assert_eq!(e.status, 401);
}

#[test]
fn no_auth_modes() {
    let c = cfg(&[("MOUSEHOLE_INSECURE_ALLOW_NO_AUTH", "true")]);
    assert_eq!(
        require_auth(&c, &mut sessions(), None, None, 0).unwrap(),
        AuthMethod::NoAuth
    );
    let mut c2 = cfg(&[("MOUSEHOLE_AUTH_TOKEN", "t")]);
    c2.auth = AuthConfig::NoAuth {
        insecure_allow_no_auth: false,
    };
    let e = require_auth(&c2, &mut sessions(), None, None, 0).unwrap_err();
    assert_eq!(e.body.error_type, "auth-not-configured");
    assert_eq!(e.status, 500);
}

#[test]
fn origin_check_semantics() {
    let c = cfg(&[("MOUSEHOLE_AUTH_PASSWORD", "pw")]); // same-origin mode
    // token skips entirely
    assert!(origin_allowed(
        AuthMethod::Token,
        Some("https://evil.example"),
        Some("localhost:5010"),
        &c
    )
    .is_ok());
    // no header passes
    assert!(origin_allowed(AuthMethod::Session, None, Some("localhost:5010"), &c).is_ok());
    // same-origin passes (default ports normalize away)
    assert!(origin_allowed(
        AuthMethod::Session,
        Some("HTTP://LOCALHOST:80"),
        Some("localhost:80"),
        &c
    )
    .is_ok());
    // cross-origin rejected with the normalized origin in the message
    let e = origin_allowed(
        AuthMethod::Session,
        Some("https://Evil.example:443"),
        Some("localhost:5010"),
        &c,
    )
    .unwrap_err();
    assert_eq!(
        e.body.message,
        "Origin \"https://evil.example\" is not allowed. (Add to MOUSEHOLE_ALLOWED_ORIGINS to permit it.)"
    );
    // Origin: null is rejected in same-origin mode, and can be allowlisted
    assert!(origin_allowed(AuthMethod::Session, Some("null"), Some("h"), &c).is_err());
    let c2 = cfg(&[
        ("MOUSEHOLE_ALLOWED_ORIGINS", "null"),
        ("MOUSEHOLE_AUTH_PASSWORD", "pw"),
    ]);
    assert!(origin_allowed(AuthMethod::Session, Some("null"), Some("h"), &c2).is_ok());
}

#[test]
fn json_content_type() {
    assert!(require_json_body(Some("application/json")).is_ok());
    assert!(require_json_body(Some("Application/JSON; charset=utf-8")).is_ok());
    let e = require_json_body(Some("text/plain")).unwrap_err();
    assert_eq!(
        e.body.message,
        "Unsupported content type \"text/plain\", must be \"application/json\""
    );
    let e = require_json_body(None).unwrap_err();
    assert_eq!(
        e.body.message,
        "Unsupported content type \"\", must be \"application/json\""
    );
}

#[test]
fn bearer_takes_the_rest_of_one_line() {
    assert_eq!(parse_bearer("Bearer\tabc"), Some("abc"));
    assert_eq!(parse_bearer("Bearer  "), Some(" "));
    assert_eq!(parse_bearer("Bearer \u{FEFF}x"), Some("x"));
    assert_eq!(parse_bearer("Bearer a\nb"), None);
    assert_eq!(parse_bearer("Bearer \n"), None);
    assert_eq!(parse_bearer("Bearer \u{85}x"), Some("\u{85}x"));
    assert_eq!(parse_bearer("Bear"), None);
    assert_eq!(parse_bearer("Bearer"), None);
    assert_eq!(parse_bearer("B\u{e9}arer x"), None);
}

#[test]
fn hosts_are_normalized_by_url_rules() {
    let host = |s: &str| parse_host_and_port(s);
    assert_eq!(host(" LocalHost "), Some(("localhost".into(), None)));
    assert_eq!(host("example.com:80"), Some(("example.com".into(), None)));
    assert_eq!(host("example.com:443"), Some(("example.com".into(), Some(443))));
    assert_eq!(host("[::1]"), Some(("[::1]".into(), None)));
    assert_eq!(host("b\u{fc}cher.example"), Some(("xn--bcher-kva.example".into(), None)));
    assert_eq!(host(""), None);
    assert_eq!(host("a?b"), None);
    assert_eq!(host("a/b"), None);
    assert_eq!(host("a:99999"), None);
}

#[test]
fn rules_fit_by_host_and_port() {
    let with_port = ("myhost".to_string(), Some(8080));
    let without = ("myhost".to_string(), None);
    assert!(host_matches_rule(&with_port, "MyHost"));
    assert!(host_matches_rule(&without, "myhost"));
    assert!(host_matches_rule(&with_port, "myhost:8080"));
    assert!(!host_matches_rule(&without, "myhost:8080"));
    assert!(!host_matches_rule(&with_port, "other"));
    assert!(!host_matches_rule(&with_port, "not a host"));
}

#[test]
fn a_url_is_a_bare_host_only_without_path_and_query() {
    let parts = |path: &str, query: Option<&str>, host: Option<&str>| {
        Some(UrlParts {
            host: host.map(str::to_string),
            port: Some(1),
            path: path.to_string(),
            query: query.map(str::to_string),
            origin: "http://h:1".to_string(),
        })
    };
    assert_eq!(host_of_url(parts("/", None, Some("h"))), Some(("h".to_string(), Some(1))));
    assert_eq!(host_of_url(parts("/p", None, Some("h"))), None);
    assert_eq!(host_of_url(parts("/", Some(""), Some("h"))), None);
    assert_eq!(host_of_url(parts("/", None, Some(""))), None);
    assert_eq!(host_of_url(parts("/", None, None)), None);
    assert_eq!(host_of_url(None), None);
    assert_eq!(origin_of_url(parts("/", None, None), "raw"), "http://h:1");
    assert_eq!(origin_of_url(None, "raw"), "raw");
}

#[test]
fn any_host_passes_where_all_are_allowed() {
    let c = cfg(&[("MOUSEHOLE_ALLOWED_HOSTS", "*"), ("MOUSEHOLE_AUTH_TOKEN", "t")]);
    assert!(host_allowed(None, &c).is_ok());
    assert!(host_allowed(Some("bad/path"), &c).is_ok());
}

#[test]
fn session_comes_before_token_and_ends_with_its_lifetime() {
    let c = cfg(&[("MOUSEHOLE_AUTH_PASSWORD", "pw"), ("MOUSEHOLE_AUTH_TOKEN", "t")]);
    let mut s = sessions();
    let id = s.create(1_000);
    let cookie = format!("a=b; mousehole-session={id}");
    let auth = |s: &mut SessionStore, header: Option<&str>, now: u64| {
        require_auth(&c, s, header, Some(&cookie), now)
    };
    assert_eq!(auth(&mut s, Some("Bearer t"), 2_000).unwrap(), AuthMethod::Session);
    assert_eq!(auth(&mut s, Some("Bearer wrong"), 60_000_000_999).unwrap(), AuthMethod::Session);
    assert_eq!(
        auth(&mut s, None, 60_000_001_000).unwrap_err().body.message,
        "Unknown or expired session cookie"
    );
    assert_eq!(auth(&mut s, Some("Bearer t"), 60_000_001_000).unwrap(), AuthMethod::Token);
    assert_eq!(s.take_ended(), vec![id]);
}

#[test]
fn a_token_without_a_configured_one_is_rejected() {
    let c = cfg(&[("MOUSEHOLE_AUTH_PASSWORD", "pw")]);
    let e = require_auth(&c, &mut sessions(), Some("Bearer pw"), None, 0).unwrap_err();
    assert_eq!(e.status, 401);
    assert_eq!(e.headers.len(), 1);
    let c = cfg(&[("MOUSEHOLE_AUTH_TOKEN", "tok")]);
    for header in ["Bearer to", "Bearer tokk", "Bearer TOK", "Bearer tok "] {
        assert!(require_auth(&c, &mut sessions(), Some(header), None, 0).is_err());
    }
}

#[test]
fn origins_are_normalized_on_both_sides() {
    assert_eq!(normalize_origin("HTTPS://Foo.example:443/path?q"), "https://foo.example");
    assert_eq!(normalize_origin("http://foo.example:8080"), "http://foo.example:8080");
    assert_eq!(normalize_origin("null"), "null");
    assert_eq!(normalize_origin("file:///x"), "null");
    let c = cfg(&[
        ("MOUSEHOLE_ALLOWED_ORIGINS", "https://Foo.example:443, http://bar:81"),
        ("MOUSEHOLE_AUTH_PASSWORD", "pw"),
    ]);
    let check = |o: &str| origin_allowed(AuthMethod::NoAuth, Some(o), None, &c);
    assert!(check("https://foo.example").is_ok());
    assert!(check("http://bar:81").is_ok());
    assert!(check("http://bar").is_err());
    assert!(check("http://foo.example").is_err());
    let all = cfg(&[("MOUSEHOLE_ALLOWED_ORIGINS", "*"), ("MOUSEHOLE_AUTH_PASSWORD", "pw")]);
    assert!(origin_allowed(AuthMethod::Session, Some("null"), None, &all).is_ok());
    let own = cfg(&[("MOUSEHOLE_AUTH_PASSWORD", "pw")]);
    assert!(origin_allowed(AuthMethod::Session, Some("http://"), None, &own).is_ok());
}

#[test]
fn media_types_ignore_parameters_and_blanks() {
    assert!(require_json_body(Some("  APPLICATION/JSON ;x")).is_ok());
    assert!(require_json_body(Some("application/jsonp")).is_err());
    assert!(require_json_body(Some(";application/json")).is_err());
    assert_eq!(require_json_body(Some("x")).unwrap_err().status, 415);
}
