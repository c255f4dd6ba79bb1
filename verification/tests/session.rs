use mousehole::session::{
    extract_session_id, login_cookie, logout_cookie, presented_session_cookie, safe_equal,
    SessionStore,
};

#[test]
fn create_produces_43_char_base64url_ids() {
    let mut store = SessionStore::new(60);
    let id = store.create(0);
    assert_eq!(id.len(), 43);
    assert!(id
        .chars()
        .all(|c| c.is_ascii_alphanumeric() || c == '_' || c == '-'));
    assert!(store.is_valid(&id, 0));
    assert!(!store.is_valid("nope", 0));
}

#[test]
fn delete_fires_callback_only_for_known_sessions() {
    let mut store = SessionStore::new(60);
    let id = store.create(0);
    store.delete("unknown");
    assert!(store.take_ended().is_empty());
    store.delete(&id);
    assert_eq!(store.take_ended().as_slice(), &[id]);
}

#[test]
fn safe_equal_semantics() {
    assert!(safe_equal(b"abc", b"abc"));
    assert!(!safe_equal(b"abc", b"abd"));
    assert!(!safe_equal(b"abc", b"abcd"));
    assert!(safe_equal(b"", b""));
}

#[test]
fn cookie_builders_match_contract() {
    assert_eq!(
        login_cookie("SID", 604800, false),
        "mousehole-session=SID; Max-Age=604800; Path=/; HttpOnly; SameSite=Lax"
    );
    assert_eq!(
        login_cookie("SID", 604800, true),
        "mousehole-session=SID; Max-Age=604800; Path=/; HttpOnly; Secure; SameSite=Lax"
    );
    assert_eq!(logout_cookie(), "mousehole-session=; Max-Age=0; Path=/");
}

#[test]
fn cookie_extraction() {
    assert_eq!(
        extract_session_id(Some("a=b; mousehole-session=XYZ; c=d")),
        Some("XYZ".into())
    );
    assert_eq!(
        extract_session_id(Some("mousehole-session=\"Q%20T\"")),
        Some("Q T".into())
    );
    assert_eq!(extract_session_id(Some("other=1")), None);
    assert_eq!(extract_session_id(None), None);
}

#[test]
fn ids_are_url_safe_base64_of_their_bytes() {
    let mut store = SessionStore::new(60);
    let mut bytes = [0u8; 32];
    assert_eq!(store.create_with(&bytes, 0), "A".repeat(43));
    for (i, b) in bytes.iter_mut().enumerate() {
        *b = (i as u8).wrapping_mul(37).wrapping_add(251);
    }
    assert_eq!(
        store.create_with(&bytes, 0),
        "-yBFao-02f4jSG2St9wBJktwlbrfBClOc5i94gcsUXY"
    );
    assert_eq!(store.create_with(&[255u8; 32], 0), format!("{}8", "_".repeat(42)));
}

#[test]
fn sessions_live_exactly_their_lifetime_without_renewal() {
    let mut store = SessionStore::new(1);
    let id = store.create_with(&[7u8; 32], 500);
    let end: u64 = 1_000_000_500;
    assert!(store.is_valid(&id, 500));
    assert!(store.is_valid(&id, end - 1));
    assert!(!store.is_valid(&id, end));
    assert_eq!(store.take_ended(), vec![id.clone()]);
    assert!(!store.is_valid(&id, 500));
    assert!(store.take_ended().is_empty());
}

#[test]
fn the_longest_lifetime_is_counted() {
    let mut store = SessionStore::new(u64::MAX);
    let id = store.create(u64::MAX);
    assert!(store.is_valid(&id, u64::MAX));
}

#[test]
fn a_look_ends_all_that_is_over_in_order() {
    let mut store = SessionStore::new(1);
    let a = store.create_with(&[1u8; 32], 0);
    let b = store.create_with(&[2u8; 32], 10);
    let c = store.create_with(&[3u8; 32], 2_000_000_000);
    assert!(store.is_valid(&c, 2_000_000_000));
    assert_eq!(store.take_ended(), vec![a, b]);
}

#[test]
fn a_new_session_under_the_same_id_starts_over() {
    let mut store = SessionStore::new(1);
    let id = store.create_with(&[1u8; 32], 0);
    assert_eq!(store.create_with(&[1u8; 32], 900_000_000), id);
    assert!(store.is_valid(&id, 1_500_000_000));
    assert!(store.take_ended().is_empty());
    store.delete(&id);
    assert!(!store.is_valid(&id, 1_500_000_000));
    assert_eq!(store.take_ended(), vec![id]);
}

#[test]
fn no_id_is_there_twice() {
    let mut store = SessionStore::new(1);
    let id = store.create_with(&[1u8; 32], 0);
    let other = store.create_with(&[2u8; 32], 0);
    assert_eq!(store.create_with(&[1u8; 32], 0), id);
    assert!(!store.is_valid(&other, 1_000_000_000));
    assert_eq!(store.take_ended(), vec![other, id]);
}

#[test]
fn the_timer_ends_only_what_is_due() {
    let mut store = SessionStore::new(1);
    let id = store.create_with(&[9u8; 32], 0);
    store.reap(&id, 999_999_999);
    store.reap("unknown", 5_000_000_000);
    assert!(store.take_ended().is_empty());
    store.reap(&id, 1_000_000_000);
    assert_eq!(store.take_ended(), vec![id.clone()]);
    store.reap(&id, 1_000_000_000);
    assert!(store.take_ended().is_empty());
}

#[test]
fn other_sessions_survive_a_logout() {
    let mut store = SessionStore::new(60);
    let a = store.create_with(&[1u8; 32], 0);
    let b = store.create_with(&[2u8; 32], 0);
    store.delete(&a);
    assert!(!store.is_valid(&a, 0));
    assert!(store.is_valid(&b, 0));
}

#[test]
fn cookie_values_are_read_leniently() {
    let get = |h: &str| extract_session_id(Some(h));
    assert_eq!(get("mousehole-session="), Some("".into()));
    assert_eq!(get("mousehole-session=\""), Some("\"".into()));
    assert_eq!(get("mousehole-session=\"\""), Some("".into()));
    assert_eq!(get("mousehole-session=a=b"), Some("a=b".into()));
    assert_eq!(get("mousehole-session=%ff"), Some("%ff".into()));
    assert_eq!(get("mousehole-session=%zz%2"), Some("%zz%2".into()));
    assert_eq!(get("mousehole-session=%e2%82%AC"), Some("\u{20ac}".into()));
    assert_eq!(get("x; mousehole-session=1; mousehole-session=2"), Some("1".into()));
    assert_eq!(get("Mousehole-Session=1"), None);
    assert_eq!(get("mousehole-session =1"), None);
    assert!(presented_session_cookie(Some(" mousehole-session=x ")));
    assert!(!presented_session_cookie(Some("mousehole-session")));
    assert!(!presented_session_cookie(None));
}

#[test]
fn a_session_cookie_reads_back_among_others() {
    let mut store = SessionStore::new(60);
    let id = store.create(0);
    let set = login_cookie(&id, 60, false);
    let sent = set.split(';').next().unwrap().to_string();
    assert_eq!(extract_session_id(Some(&sent)), Some(id.clone()));
    assert_eq!(extract_session_id(Some(&format!("a=1; {sent}; b=2"))), Some(id));
}
