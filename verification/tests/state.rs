use mousehole::error::AppError;
use mousehole::state::{
    classify, deserialize_state, migrate_to_current, restore_state, validate_contact,
    ContactError, FileAction, FileContents, IpUpdate, PublicState, SerializedMamContact,
    SerializedState, State, Store, WriteStep, STATE_VERSION,
};
use mousehole::timefmt::{parse_wire, to_wire};

const FULL_EXAMPLE: &str = r#"{
  "version": 2,
  "cookie": "long-opaque-mam-session-cookie-value",
  "lastMamContact": {
    "at": "2026-08-18T02:00:05.123+00:00[UTC]",
    "reached": true,
    "ip": "203.0.113.7",
    "asn": 64496,
    "as": "EXAMPLE-AS",
    "ipUpdate": {
      "success": true,
      "msg": "Completed",
      "httpStatus": 200
    }
  }
}"#;

fn value(text: &str) -> serde_json::Value {
    serde_json::from_str(text).unwrap()
}

fn document(text: &str) -> Result<SerializedState, AppError> {
    Store::new("/s").read_document(text)
}

fn written(steps: &[WriteStep]) -> String {
    for step in steps {
        if let FileAction::Write { contents, .. } = &step.action {
            return contents.clone();
        }
    }
    panic!("nothing is written");
}

#[test]
fn byte_identical_roundtrip_of_spec_example() {
    let parsed = document(FULL_EXAMPLE).unwrap();
    let out = written(&Store::new("/s").write(&parsed).unwrap());
    assert_eq!(out, FULL_EXAMPLE);
    assert_eq!(serde_json::to_string_pretty(&parsed.to_value()).unwrap(), FULL_EXAMPLE);
}

#[test]
fn optionals_are_omitted_not_null() {
    let s = SerializedState {
        version: 2,
        cookie: None,
        last_mam_contact: Some(SerializedMamContact::Reached {
            at: "2026-08-18T02:00:05.123+00:00[UTC]".into(),
            reached: true,
            ip: "203.0.113.7".into(),
            asn: 64496,
            as_name: "EXAMPLE-AS".into(),
            ip_update: None,
        }),
    };
    let out = serde_json::to_string_pretty(&s.to_value()).unwrap();
    assert!(!out.contains("cookie"));
    assert!(!out.contains("ipUpdate"));
    assert!(!out.contains("null"));
}

/// A file system of directories and files, as paths.
struct Disk {
    directories: Vec<String>,
    files: Vec<(String, String)>,
}

impl Disk {
    fn new() -> Disk {
        Disk { directories: vec![], files: vec![] }
    }

    fn read(&self, path: &str) -> FileContents {
        match self.files.iter().find(|f| f.0 == path) {
            Some(f) => FileContents::Text(f.1.clone()),
            None => FileContents::Missing,
        }
    }

    fn put(&mut self, path: &str, contents: &str) {
        self.files.retain(|f| f.0 != path);
        self.files.push((path.to_string(), contents.to_string()));
    }

    fn run(&mut self, steps: &[WriteStep]) {
        for step in steps {
            match &step.action {
                FileAction::CreateDirectory(d) => self.directories.push(d.clone()),
                FileAction::Write { path, contents } => self.put(path, contents),
                FileAction::Rename { from, to } => {
                    let found = self.files.iter().position(|f| &f.0 == from).unwrap();
                    let contents = self.files.remove(found).1;
                    self.put(to, &contents);
                }
            }
        }
    }
}

#[test]
fn store_roundtrip_and_fresh_install() {
    let mut disk = Disk::new();
    let store = Store::new("/tmp/mousehole-test-store");
    assert!(store.read_if_exists(&disk.read(&store.path_str())).unwrap().is_none());
    let s = document(FULL_EXAMPLE).unwrap();
    disk.run(&store.write(&s).unwrap());
    let back = store.read_if_exists(&disk.read(&store.path_str())).unwrap().unwrap();
    assert_eq!(
        back.cookie.as_deref(),
        Some("long-opaque-mam-session-cookie-value")
    );
    assert_eq!(
        classify(back.last_mam_contact.as_ref().map(|c| &c.body)),
        "ok"
    );
    assert_eq!(
        disk.files,
        vec![("/tmp/mousehole-test-store/state.json".to_string(), FULL_EXAMPLE.to_string())]
    );
    assert_eq!(disk.directories, vec!["/tmp/mousehole-test-store".to_string()]);
}

#[test]
fn v1_migration_rescues_only_nonempty_current_cookie() {
    let migrated = migrate_to_current(
        &value(r#"{"currentCookie": "abc", "lastContact": {"junk": true}}"#),
        "src",
    )
    .unwrap();
    assert_eq!(migrated.cookie.as_deref(), Some("abc"));
    assert!(migrated.last_mam_contact.is_none());

    let migrated = migrate_to_current(&value(r#"{"currentCookie": ""}"#), "src").unwrap();
    assert!(migrated.cookie.is_none());

    let migrated = migrate_to_current(&value("[1, 2, 3]"), "src").unwrap();
    assert!(migrated.cookie.is_none());
    assert_eq!(migrated.version, 2);
}

#[test]
fn corrupt_json_and_bad_schema_are_errors_not_fresh() {
    let store = Store::new("/tmp/mousehole-test-corrupt");
    assert_eq!(
        store
            .read_if_exists(&FileContents::Text("{ not json".to_string()))
            .unwrap_err()
            .body
            .error_type,
        "json-parse-error"
    );
    assert_eq!(
        store
            .read_if_exists(&FileContents::Text(
                r#"{"version":2,"lastMamContact":{"at":1}}"#.to_string()
            ))
            .unwrap_err()
            .body
            .error_type,
        "schema-error"
    );
}

#[test]
fn classify_table() {
    assert_eq!(classify(None), "pending");
    let unreached = SerializedMamContact::Unreached {
        at: "2026-08-18T02:00:05+00:00[UTC]".into(),
        reached: false,
        error: ContactError {
            error_type: "network-error".into(),
            message: "x".into(),
        },
    };
    assert_eq!(classify(Some(&unreached)), "unreachable");
    let mk = |status: u16| SerializedMamContact::Reached {
        at: "2026-08-18T02:00:05+00:00[UTC]".into(),
        reached: true,
        ip: "1.2.3.4".into(),
        asn: 1,
        as_name: "A".into(),
        ip_update: Some(IpUpdate {
            success: status == 200,
            msg: "m".into(),
            http_status: status,
        }),
    };
    assert_eq!(classify(Some(&mk(200))), "ok");
    assert_eq!(classify(Some(&mk(429))), "throttled");
    assert_eq!(classify(Some(&mk(403))), "rejected");
    let no_update = SerializedMamContact::Reached {
        at: "2026-08-18T02:00:05+00:00[UTC]".into(),
        reached: true,
        ip: "1.2.3.4".into(),
        asn: 1,
        as_name: "A".into(),
        ip_update: None,
    };
    assert_eq!(classify(Some(&no_update)), "no-cookie");
}

#[test]
fn empty_cookie_parses_but_is_effectively_absent() {
    let s = document(r#"{"version":2,"cookie":""}"#).unwrap();
    let state = deserialize_state(s).unwrap();
    assert_eq!(state.cookie.as_deref(), Some(""));
    assert!(state.effective_cookie().is_none());
}

#[test]
fn a_write_replaces_the_file_in_one_move() {
    let store = Store::new("dir/");
    assert_eq!(store.path_str(), "dir/state.json");
    let steps = store
        .write(&SerializedState { version: 2, cookie: Some("a\"\u{1}".into()), last_mam_contact: None })
        .unwrap();
    assert_eq!(steps.len(), 3);
    assert!(matches!(&steps[0].action, FileAction::CreateDirectory(d) if d == "dir/"));
    assert_eq!(steps[0].failure.body.error_type, "directory-create-error");
    let FileAction::Write { path, contents } = &steps[1].action else { panic!() };
    assert_eq!(path, "dir/state.json.tmp");
    assert_eq!(contents, "{\n  \"version\": 2,\n  \"cookie\": \"a\\\"\\u0001\"\n}");
    assert_eq!(steps[1].failure.body.error_type, "file-write-error");
    let FileAction::Rename { from, to } = &steps[2].action else { panic!() };
    assert_eq!((from.as_str(), to.as_str()), ("dir/state.json.tmp", "dir/state.json"));
    assert_eq!(steps[2].failure.body.error_type, "file-write-error");
    assert_eq!(
        steps[2].failure.body.message,
        "Error writing file: dir/state.json. Check that the parent directory exists and is writable."
    );
    assert_eq!(Store::new("").path_str(), "state.json");
    assert_eq!(Store::new("/").path_str(), "/state.json");
}

#[test]
fn only_a_missing_file_is_fresh() {
    let store = Store::new("/s");
    assert!(store.read_if_exists(&FileContents::Missing).unwrap().is_none());
    let e = store.read_if_exists(&FileContents::Unreadable).unwrap_err();
    assert_eq!(e.body.error_type, "file-read-error");
    assert_eq!(
        e.body.message,
        "Error reading file: /s/state.json. Check that it is readable and is not a directory."
    );
    let e = store.read_if_exists(&FileContents::Text(String::new())).unwrap_err();
    assert_eq!(e.body.message, "Error parsing JSON from file at /s/state.json");
    assert!(e.body.cause.is_some());
    assert!(store.read_if_exists(&FileContents::Text("{}".into())).unwrap().is_some());
}

#[test]
fn what_is_written_reads_back() {
    let contacts = vec![
        None,
        Some(SerializedMamContact::Unreached {
            at: "t".into(),
            reached: false,
            error: ContactError { error_type: "e".into(), message: "\u{20ac}\n".into() },
        }),
        Some(SerializedMamContact::Reached {
            at: "t".into(),
            reached: true,
            ip: "".into(),
            asn: i64::MIN,
            as_name: "\\".into(),
            ip_update: Some(IpUpdate { success: false, msg: "".into(), http_status: u16::MAX }),
        }),
    ];
    for last_mam_contact in contacts {
        let s = SerializedState { version: STATE_VERSION, cookie: Some("c".into()), last_mam_contact };
        let text = written(&Store::new("/s").write(&s).unwrap());
        assert_eq!(document(&text).unwrap(), s);
    }
}

#[test]
fn other_versions_are_migrated() {
    let cookie = |text: &str| document(text).unwrap().cookie;
    assert_eq!(cookie(r#"{"version":1,"currentCookie":"old"}"#).as_deref(), Some("old"));
    assert_eq!(cookie(r#"{"version":"2","currentCookie":"old"}"#).as_deref(), Some("old"));
    assert_eq!(cookie(r#"{"version":3,"cookie":"new"}"#), None);
    assert_eq!(cookie(r#"{"cookie":"new"}"#), None);
    assert_eq!(cookie(r#"{"version":2,"cookie":"new","currentCookie":"old"}"#).as_deref(), Some("new"));
    assert_eq!(cookie(r#"{"version":2.0,"cookie":"new"}"#).as_deref(), Some("new"));
    assert_eq!(cookie(r#"{"version":2,"cookie":null}"#), None);
    assert_eq!(cookie("null"), None);
    assert_eq!(document(r#"{"version":2,"lastMamContact":null}"#).unwrap().last_mam_contact, None);
}

#[test]
fn contacts_on_disk_are_checked() {
    let contact = |text: &str| document(&format!(r#"{{"version":2,"lastMamContact":{text}}}"#));
    let fails = |text: &str| {
        let e = contact(text).unwrap_err();
        assert_eq!((e.status, e.body.error_type.as_str()), (500, "schema-error"));
        assert!(e.body.message.starts_with(
            "Schema validation failed for data from /s/state.json: "
        ));
    };
    for text in [
        "[]",
        "1",
        r#"{"at":"t","reached":false,"error":{"type":"x"}}"#,
        r#"{"at":"t","reached":true,"ip":"i","asn":1.5,"as":"a"}"#,
        r#"{"at":"t","reached":true,"ip":"i","asn":9223372036854775808,"as":"a"}"#,
        r#"{"at":"t","reached":true,"ip":"i","asn":1,"as":"a","ipUpdate":{"success":true}}"#,
        r#"{"at":"t","reached":true,"ip":"i","asn":1,"as":"a","ipUpdate":{"success":true,"msg":"m","httpStatus":65536}}"#,
        r#"{"at":"t","reached":true,"error":{"type":"x","message":"m"}}"#,
        r#"{"at":"t","reached":false,"ip":"i","asn":1,"as":"a"}"#,
    ] {
        fails(text);
    }
    assert!(contact(r#"{"at":"t","reached":true,"ip":"i","asn":-1,"as":"a","ipUpdate":null,"x":[]}"#).is_ok());
    let Some(SerializedMamContact::Reached { asn, ip_update, .. }) = contact(
        r#"{"at":"t","reached":true,"ip":"i","asn":64496.0,"as":"a","ipUpdate":{"success":true,"msg":"m","httpStatus":200.0}}"#,
    )
    .unwrap()
    .last_mam_contact
    else {
        panic!()
    };
    assert_eq!((asn, ip_update.unwrap().http_status), (64496, 200));
    let e = document(r#"{"version":2,"cookie":7}"#).unwrap_err();
    assert_eq!(e.body.error_type, "schema-error");
}

#[test]
fn contacts_must_not_contradict_themselves() {
    let state = |reached: bool| SerializedState {
        version: 2,
        cookie: None,
        last_mam_contact: Some(SerializedMamContact::Unreached {
            at: "t".into(),
            reached,
            error: ContactError { error_type: "e".into(), message: "m".into() },
        }),
    };
    assert!(validate_contact(&state(false), "src").is_ok());
    assert!(validate_contact(&state(true), "src").is_err());
}

#[test]
fn times_are_read_when_state_is_restored() {
    let text = |at: &str| {
        format!(r#"{{"version":2,"lastMamContact":{{"at":"{at}","reached":false,"error":{{"type":"e","message":"m"}}}}}}"#)
    };
    let at = "2026-08-18T09:05:00.123-05:00[America/Chicago]";
    let state = deserialize_state(document(&text(at)).unwrap()).unwrap();
    let contact = state.last_mam_contact.unwrap();
    assert_eq!(to_wire(&contact.at), at);
    assert_eq!(contact.body.at(), at);
    let e = deserialize_state(document(&text("yesterday")).unwrap()).unwrap_err();
    assert_eq!((e.status, e.body.error_type.as_str()), (500, "unhandled-error"));
    assert!(e.body.message.starts_with("invalid stored timestamp: "));
    let e = restore_state(document(&text(at)).unwrap(), Err("words".to_string())).unwrap_err();
    assert_eq!(e.body.message, "invalid stored timestamp: words");
    let read = parse_wire(at);
    assert!(restore_state(document(&text("anything")).unwrap(), read).is_ok());
    assert_eq!(State::fresh(), State { cookie: None, last_mam_contact: None });
}

#[test]
fn public_state_hides_the_cookie() {
    let full = PublicState {
        has_cookie: true,
        has_auth: false,
        next_contact_at: Some("n".into()),
        last_mam_contact: document(FULL_EXAMPLE).unwrap().last_mam_contact,
    };
    assert_eq!(
        serde_json::to_string(&full.to_value()).unwrap(),
        "{\"hasCookie\":true,\"hasAuth\":false,\"nextContactAt\":\"n\",\"lastMamContact\":{\"at\":\"2026-08-18T02:00:05.123+00:00[UTC]\",\"reached\":true,\"ip\":\"203.0.113.7\",\"asn\":64496,\"as\":\"EXAMPLE-AS\",\"ipUpdate\":{\"success\":true,\"msg\":\"Completed\",\"httpStatus\":200}}}"
    );
    let bare = PublicState {
        has_cookie: false,
        has_auth: true,
        next_contact_at: None,
        last_mam_contact: None,
    };
    assert_eq!(
        serde_json::to_string(&bare.to_value()).unwrap(),
        "{\"hasCookie\":false,\"hasAuth\":true}"
    );
}
