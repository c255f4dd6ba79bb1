use mousehole::api::{
    access_line, build_public_state, commit_reply, cookie_of_document, declared_over_limit,
    error_reply, events, get_state, health, health_reply, is_json, login, login_with, logout,
    normalize_status, put_cookie, read_reply, root, state_reply, updates, AppContext, Reply,
    Login, RequestHeaders, Step,
};
use mousehole::config::{Config, Environment};
use mousehole::error::{authentication_required, file_read_error, not_found};
use mousehole::mam::MamClient;
use mousehole::number::Double;
use mousehole::scheduler::Scheduler;
use mousehole::session::SessionStore;
use mousehole::sse::SseRegistry;
use mousehole::state::{FileContents, State, Store};
use mousehole::timefmt::{parse_wire, to_wire};

fn seconds(n: f64) -> Double {
    Double { bits: n.to_bits() }
}

fn context(pairs: &[(&str, &str)]) -> AppContext {
    let mut env = Environment::new();
    for (name, value) in pairs {
        env.insert(name, value);
    }
    let config = Config::from_env(
        &env,
        |_: &str| Err(String::new()),
        |raw: &str| raw.parse::<f64>().ok().map(seconds),
    )
    .ok()
    .unwrap();
    let sessions = SessionStore::new(config.session_duration_seconds);
    let client = MamClient::new(seconds(10.0), "10", None);
    let scheduler =
        Scheduler::new(Store::new("/s"), client, seconds(300.0), 300_000_000_000, "300");
    AppContext { config, sessions, scheduler, sse: SseRegistry::new(), closing: vec![] }
}

fn both() -> AppContext {
    context(&[
        ("MOUSEHOLE_AUTH_PASSWORD", "pw"),
        ("MOUSEHOLE_AUTH_TOKEN", "tok"),
        ("MOUSEHOLE_SESSION_DURATION_SECONDS", "60"),
    ])
}

fn local() -> RequestHeaders {
    RequestHeaders {
        host: Some("localhost:5010".to_string()),
        content_type: Some("application/json".to_string()),
        ..RequestHeaders::default()
    }
}

fn with_token() -> RequestHeaders {
    RequestHeaders { authorization: Some("Bearer tok".to_string()), ..local() }
}

fn with_session(id: &str) -> RequestHeaders {
    RequestHeaders { cookie: Some(format!("mousehole-session={id}")), ..local() }
}

fn replied(step: Step) -> Reply {
    match step {
        Step::Reply(reply) => reply,
        other => panic!("{other:?}"),
    }
}

fn header<'a>(reply: &'a Reply, name: &str) -> Option<&'a str> {
    reply.headers.iter().find(|h| h.0 == name).map(|h| h.1.as_str())
}

fn sorted(mut ids: Vec<u64>) -> Vec<u64> {
    ids.sort();
    ids
}

#[test]
fn the_root_redirects_by_preference() {
    let location = |accept: Option<&str>| {
        let reply = root(&RequestHeaders {
            accept: accept.map(str::to_string),
            ..RequestHeaders::default()
        });
        assert_eq!((reply.status, reply.body.as_str()), (302, ""));
        header(&reply, "Location").unwrap().to_string()
    };
    assert_eq!(location(None), "/web");
    assert_eq!(location(Some("*/*")), "/web");
    assert_eq!(location(Some("application/json")), "/health");
    assert_eq!(location(Some("text/html,application/json")), "/web");
    assert_eq!(location(Some("application/json;q=0.1, text/html")), "/health");
}

#[test]
fn login_opens_a_session_and_logout_ends_it() {
    let mut ctx = both();
    let login = login_with(&mut ctx, &local(), br#"{"password":"pw"}"#, 0, &[0u8; 32]);
    let reply = login.reply;
    let id = "A".repeat(43);
    assert_eq!(login.opened, Some(id.clone()));
    assert_eq!((reply.status, reply.body.as_str()), (200, "{\"ok\":true}"));
    assert_eq!(header(&reply, "Content-Type"), Some("application/json"));
    assert_eq!(
        header(&reply, "Set-Cookie").unwrap(),
        format!("mousehole-session={id}; Max-Age=60; Path=/; HttpOnly; SameSite=Lax")
    );
    assert!(matches!(get_state(&mut ctx, &with_session(&id), 0), Step::ReadState));

    let reply = logout(&mut ctx, &with_session(&id));
    assert_eq!((reply.status, reply.body.as_str()), (200, "{\"ok\":true}"));
    assert_eq!(header(&reply, "Set-Cookie"), Some("mousehole-session=; Max-Age=0; Path=/"));
    let refused = replied(get_state(&mut ctx, &with_session(&id), 0));
    assert_eq!(refused.status, 401);
    assert_eq!(header(&refused, "WWW-Authenticate"), Some("Bearer realm=\"Mousehole\""));
    assert_eq!(
        refused.body,
        "{\"type\":\"authentication-required\",\"message\":\"Unknown or expired session cookie\"}"
    );
    assert_eq!(logout(&mut ctx, &local()).status, 200);
}

#[test]
fn sessions_are_random_and_expire() {
    let mut ctx = both();
    let mut ids = vec![];
    for _ in 0..2 {
        let login = login(&mut ctx, &local(), br#"{"password":"pw"}"#, 7);
        let cookie = header(&login.reply, "Set-Cookie").unwrap();
        let id = cookie["mousehole-session=".len()..].split(';').next().unwrap().to_string();
        assert_eq!(login.opened, Some(id.clone()));
        ids.push(id);
    }
    assert_ne!(ids[0], ids[1]);
    for id in &ids {
        assert_eq!(id.len(), 43);
        assert!(matches!(get_state(&mut ctx, &with_session(id), 60_000_000_006), Step::ReadState));
    }
    for id in &ids {
        assert!(matches!(get_state(&mut ctx, &with_session(id), 60_000_000_007), Step::Reply(_)));
    }
}

#[test]
fn login_is_refused_step_by_step() {
    let refuse = |ctx: &mut AppContext, headers: &RequestHeaders, body: &[u8]| {
        let Login { reply, opened } = login(ctx, headers, body, 0);
        assert_eq!(header(&reply, "Set-Cookie"), None);
        assert_eq!(opened, None);
        (reply.status, reply.body)
    };
    let mut ctx = both();
    let foreign = RequestHeaders { host: Some("evil.example".to_string()), ..local() };
    assert_eq!(refuse(&mut ctx, &foreign, b"").0, 403);
    let cross = RequestHeaders { origin: Some("https://evil.example".to_string()), ..local() };
    let (status, body) = refuse(&mut ctx, &cross, b"");
    assert_eq!(status, 403);
    assert!(body.starts_with("{\"type\":\"origin-not-allowed\""));
    let plain = RequestHeaders { content_type: None, ..local() };
    assert_eq!(refuse(&mut ctx, &plain, b"").0, 415);
    assert_eq!(
        refuse(&mut ctx, &local(), b"{"),
        (400, "{\"ok\":false,\"message\":\"Malformed JSON in request body\"}".to_string())
    );
    for body in [&b"[]"[..], b"{}", br#"{"password":1}"#, b"\"password\""] {
        assert_eq!(
            refuse(&mut ctx, &local(), body),
            (400, "{\"ok\":false,\"message\":\"Request body must match expected schema\"}".to_string())
        );
    }
    for body in [&br#"{"password":"PW"}"#[..], br#"{"password":""}"#, br#"{"password":"pw "}"#] {
        assert_eq!(
            refuse(&mut ctx, &local(), body),
            (401, "{\"ok\":false,\"message\":\"Incorrect password\"}".to_string())
        );
    }
    let mut ctx = context(&[("MOUSEHOLE_AUTH_TOKEN", "tok")]);
    assert_eq!(
        refuse(&mut ctx, &local(), b"{"),
        (
            500,
            "{\"ok\":false,\"message\":\"Browser login is unavailable: MOUSEHOLE_AUTH_PASSWORD is not set\"}".to_string()
        )
    );
}

#[test]
fn checks_answer_in_order() {
    let mut ctx = both();
    let wrong = || RequestHeaders {
        host: Some("evil.example".to_string()),
        origin: Some("https://evil.example".to_string()),
        content_type: Some("text/plain".to_string()),
        ..RequestHeaders::default()
    };
    let mut put = |headers: &RequestHeaders| replied(put_cookie(&mut ctx, headers, "/cookie", b"", 0));
    assert_eq!(put(&wrong()).status, 403);
    assert!(put(&wrong()).body.contains("host-not-allowed"));
    let mut headers = RequestHeaders { host: local().host, ..wrong() };
    assert_eq!(put(&headers).status, 401);
    let mut with_cookie = both();
    let id = with_cookie.sessions.create(0);
    headers.cookie = Some(format!("mousehole-session={id}"));
    let reply = replied(put_cookie(&mut with_cookie, &headers, "/cookie", b"", 0));
    assert!(reply.body.contains("origin-not-allowed"));
    headers.origin = None;
    let reply = replied(put_cookie(&mut with_cookie, &headers, "/cookie", b"", 0));
    assert_eq!(reply.status, 415);
    headers.content_type = local().content_type;
    let reply = replied(put_cookie(&mut with_cookie, &headers, "/cookie", b"", 0));
    assert_eq!(reply.status, 400);
}

#[test]
fn reading_does_not_check_the_origin_and_tokens_skip_it() {
    let mut ctx = both();
    let id = ctx.sessions.create(0);
    let cross = |headers: RequestHeaders| RequestHeaders {
        origin: Some("https://evil.example".to_string()),
        ..headers
    };
    assert!(matches!(get_state(&mut ctx, &cross(with_session(&id)), 0), Step::ReadState));
    assert_eq!(replied(updates(&mut ctx, &cross(with_session(&id)), 0)).status, 403);
    assert!(matches!(updates(&mut ctx, &cross(with_token()), 0), Step::Commit(None)));
    assert!(matches!(updates(&mut ctx, &with_session(&id), 0), Step::Commit(None)));
}

#[test]
fn the_url_stands_in_for_a_missing_host() {
    let mut ctx = both();
    let headers = RequestHeaders { host: None, ..with_token() };
    assert_eq!(
        replied(updates(&mut ctx, &headers, 0)).body,
        "{\"type\":\"host-not-allowed\",\"message\":\"Request Host header is required.\"}"
    );
    let headers = RequestHeaders { authority: Some("localhost".to_string()), ..headers };
    assert!(matches!(updates(&mut ctx, &headers, 0), Step::Commit(None)));
}

#[test]
fn new_cookies_are_checked() {
    let mut ctx = both();
    let mut put = |body: &str| put_cookie(&mut ctx, &with_token(), "/cookie", body.as_bytes(), 0);
    assert!(matches!(put(r#"{"value":"new"}"#), Step::Commit(Some(c)) if c == "new"));
    let mut message = |body: &str| {
        let reply = replied(put(body));
        assert_eq!(reply.status, 400);
        let value: serde_json::Value = serde_json::from_str(&reply.body).unwrap();
        assert_eq!(value["type"], "schema-error");
        value["message"].as_str().unwrap()["Schema validation failed for data from request body: ".len()..]
            .to_string()
    };
    assert_eq!(message(""), "Invalid input: expected object, received undefined");
    assert_eq!(message("[]"), "Invalid input: expected object, received array");
    assert_eq!(message("null"), "Invalid input: expected object, received null");
    assert_eq!(message("{}"), "value: Invalid input: expected string, received undefined");
    assert_eq!(
        message(r#"{"value":1}"#),
        "value: Invalid input: expected string, received number"
    );
    assert_eq!(
        message(r#"{"value":""}"#),
        "value: Too small: expected string to have >=1 characters"
    );
    assert_eq!(cookie_of_document(None).unwrap_err().status, 400);
}

#[test]
fn malformed_bodies_name_the_request() {
    let mut ctx = both();
    let reply = replied(put_cookie(&mut ctx, &with_token(), "/cookie", b"{", 0));
    let value: serde_json::Value = serde_json::from_str(&reply.body).unwrap();
    assert_eq!(reply.status, 400);
    assert_eq!(value["type"], "json-parse-error");
    assert_eq!(
        value["message"],
        "Error parsing JSON from request with method PUT and URL http://localhost:5010/cookie"
    );
    assert_eq!(value["cause"]["type"], "unhandled-error");
}

#[test]
fn streams_end_with_their_session() {
    let mut ctx = both();
    let id = ctx.sessions.create(0);
    let mut open = |ctx: &mut AppContext, headers: &RequestHeaders| match events(ctx, headers, 0) {
        Step::Subscribe { stream, head } => {
            assert_eq!((head.status, head.body.as_str()), (200, ""));
            assert_eq!(
                head.headers,
                vec![
                    ("Content-Type".to_string(), "text/event-stream".to_string()),
                    ("Cache-Control".to_string(), "no-cache".to_string()),
                    ("Connection".to_string(), "keep-alive".to_string()),
                ]
            );
            stream
        }
        other => panic!("{other:?}"),
    };
    let one = open(&mut ctx, &with_session(&id));
    let token = open(&mut ctx, &with_token());
    let two = open(&mut ctx, &with_session(&id));
    assert_eq!(sorted(ctx.sse.notify()), vec![one, token, two]);
    logout(&mut ctx, &with_session(&id));
    assert_eq!(sorted(ctx.take_closing()), vec![one, two]);
    assert!(ctx.take_closing().is_empty());
    assert_eq!(ctx.sse.notify(), vec![token]);
    assert_eq!(replied(events(&mut ctx, &local(), 0)).status, 401);
}

#[test]
fn a_timer_ends_a_session_and_its_streams() {
    let mut ctx = both();
    let id = ctx.sessions.create(0);
    events(&mut ctx, &with_session(&id), 0);
    ctx.session_timer(&id, 59_999_999_999);
    assert!(ctx.take_closing().is_empty());
    ctx.session_timer(&id, 60_000_000_000);
    assert_eq!(ctx.take_closing().len(), 1);
    assert_eq!(ctx.sse.client_count(), 0);
    ctx.sessions.create(0);
    ctx.settle_sessions();
    assert!(ctx.take_closing().is_empty());
}

const STORED: &str = r#"{"version":2,"cookie":"secret","lastMamContact":{"at":"2026-08-18T02:00:05.123+00:00[UTC]","reached":false,"error":{"type":"network-error","message":"m"}}}"#;

#[test]
fn the_state_is_shown_without_the_cookie() {
    let mut ctx = both();
    let stored = FileContents::Text(STORED.to_string());
    let reply = read_reply(&ctx, &stored);
    assert_eq!(reply.status, 200);
    assert_eq!(
        reply.body,
        "{\"hasCookie\":true,\"hasAuth\":true,\"lastMamContact\":{\"at\":\"2026-08-18T02:00:05.123+00:00[UTC]\",\"reached\":false,\"error\":{\"type\":\"network-error\",\"message\":\"m\"}}}"
    );
    assert_eq!(
        read_reply(&ctx, &FileContents::Missing).body,
        "{\"hasCookie\":false,\"hasAuth\":true}"
    );
    ctx.scheduler.schedule_from(&parse_wire("2026-08-18T02:00:00+00:00[UTC]").unwrap());
    let reply = commit_reply(&ctx, &Ok(ctx.scheduler.store().read_document(STORED).unwrap()), &stored);
    assert!(reply.body.contains("\"nextContactAt\":\"2026-08-18T02:05:00+00:00[UTC]\""));
    let reply = commit_reply(&ctx, &Err(file_read_error("/f")), &stored);
    assert_eq!(reply.status, 500);
    assert!(reply.body.starts_with("{\"type\":\"file-read-error\""));
    assert_eq!(read_reply(&ctx, &FileContents::Unreadable).status, 500);

    let other = State { cookie: Some("other".into()), last_mam_contact: None };
    let secret = State { cookie: Some("secret".into()), last_mam_contact: None };
    assert_eq!(state_reply(&ctx, Ok(Some(other))).body, state_reply(&ctx, Ok(Some(secret))).body);
    let public = build_public_state(&ctx, None);
    assert_eq!(public.next_contact_at, ctx.scheduler.next_contact_at().map(to_wire));
    assert!(!public.has_cookie && public.last_mam_contact.is_none());
}

#[test]
fn health_reports_the_last_contact() {
    let ctx = both();
    let report = |contents: &str| health(&ctx, &FileContents::Text(contents.to_string()));
    assert_eq!(report(STORED).body, "{\"lastMamContactResult\":\"unreachable\"}");
    assert_eq!(report("{}").body, "{\"lastMamContactResult\":\"pending\"}");
    assert_eq!(
        health(&ctx, &FileContents::Missing).body,
        "{\"lastMamContactResult\":\"pending\"}"
    );
    assert_eq!(report("{").status, 500);
    assert_eq!(health_reply(Ok(None)).status, 200);
}

#[test]
fn errors_carry_their_headers() {
    let reply = error_reply(&authentication_required("m"));
    assert_eq!(
        reply.headers,
        vec![
            ("Content-Type".to_string(), "application/json".to_string()),
            ("WWW-Authenticate".to_string(), "Bearer realm=\"Mousehole\"".to_string()),
        ]
    );
    assert_eq!(error_reply(&not_found()).body, "{\"type\":\"not-found\",\"message\":\"Not Found\"}");
}

#[test]
fn bodies_over_the_limit_are_refused() {
    assert!(!declared_over_limit(None));
    assert!(!declared_over_limit(Some("8192")));
    assert!(declared_over_limit(Some("8193")));
    assert!(declared_over_limit(Some("99999999999999999999999999")));
    assert!(!declared_over_limit(Some("many")));
    assert!(!declared_over_limit(Some("-1")));
}

#[test]
fn bare_statuses_are_replaced() {
    let code = |status: u16, t: Option<&str>| normalize_status(status, t).map(|e| e.status);
    assert_eq!(code(405, None), Some(404));
    assert_eq!(code(405, Some("application/json")), Some(404));
    assert_eq!(code(413, None), Some(413));
    assert_eq!(code(413, Some("text/plain; charset=utf-8")), Some(413));
    assert_eq!(code(413, Some("application/json; x")), None);
    assert_eq!(code(404, None), None);
    assert!(!is_json(Some("application/jso")));
    assert_eq!(access_line("GET", "/state", 200), "GET /state \u{2192} 200");
}
