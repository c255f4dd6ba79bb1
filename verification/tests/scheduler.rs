use mousehole::error::{file_write_error, network_error};
use mousehole::logger::LogLevel;
use mousehole::mam::{Fetched, FetchedBody, MamClient};
use mousehole::number::Double;
use mousehole::scheduler::{
    apply_cookie, contact_mam, log_network_change, ContactStep, LogEntry, Scheduler,
    TransportAction,
};
use mousehole::state::{
    ContactError, FileAction, FileContents, IpUpdate, SerializedMamContact, SerializedState, State,
    Store,
};
use mousehole::timefmt::{parse_wire, to_wire};

const AT: &str = "2026-08-18T02:00:05.123+00:00[UTC]";

fn seconds(n: f64) -> Double {
    Double { bits: n.to_bits() }
}

fn client() -> MamClient {
    MamClient::new(seconds(10.0), "10", Some("https://mam"))
}

fn scheduler() -> Scheduler {
    Scheduler::new(Store::new("/s"), client(), seconds(300.0), 300_000_000_000, "300")
}

fn entries(log: &[LogEntry]) -> Vec<(LogLevel, &str)> {
    log.iter().map(|e| (e.level, e.message.as_str())).collect()
}

fn state(cookie: Option<&str>, body: Option<SerializedMamContact>) -> State {
    State {
        cookie: cookie.map(str::to_string),
        last_mam_contact: body.map(|body| mousehole::state::MamContact {
            at: parse_wire(AT).unwrap(),
            body,
        }),
    }
}

fn reached(ip: &str, asn: i64, ip_update: Option<IpUpdate>) -> SerializedMamContact {
    SerializedMamContact::Reached {
        at: AT.into(),
        reached: true,
        ip: ip.into(),
        asn,
        as_name: "A".into(),
        ip_update,
    }
}

fn missed() -> SerializedMamContact {
    SerializedMamContact::Unreached {
        at: AT.into(),
        reached: false,
        error: ContactError { error_type: "network-error".into(), message: "m".into() },
    }
}

fn stored(cookie: Option<&str>, body: SerializedMamContact) -> SerializedState {
    SerializedState {
        version: 2,
        cookie: cookie.map(str::to_string),
        last_mam_contact: Some(body),
    }
}

fn answer(status: u16, set_cookies: &[&str], success: bool) -> Fetched {
    Fetched::Answered {
        status,
        set_cookies: set_cookies.iter().map(|s| s.to_string()).collect(),
        body: FetchedBody::Text(format!(
            r#"{{"Success":{success},"msg":"Words","ip":"5.6.7.8","ASN":9,"AS":"A"}}"#
        )),
    }
}

fn update(success: bool, http_status: u16) -> Option<IpUpdate> {
    Some(IpUpdate { success, msg: "Words".into(), http_status })
}

#[test]
fn a_new_cookie_goes_in_before_the_contact() {
    let disk = || Some(state(Some("old"), Some(missed())));
    assert_eq!(apply_cookie(disk(), None), disk());
    assert_eq!(
        apply_cookie(disk(), Some("new".into())),
        Some(state(Some("new"), Some(missed())))
    );
    assert_eq!(apply_cookie(None, Some("new".into())), Some(state(Some("new"), None)));
    assert_eq!(apply_cookie(None, None), None);
}

#[test]
fn only_changes_of_network_are_logged() {
    let prev = state(None, Some(reached("1.2.3.4", 1, None)));
    let said = |ip: &str, asn: i64| log_network_change(Some(&prev), ip, asn);
    assert_eq!(
        said("5.6.7.8", -2).as_deref(),
        Some("Network change: IP 1.2.3.4 -> 5.6.7.8, ASN 1 -> -2")
    );
    assert_eq!(said("5.6.7.8", 1).as_deref(), Some("Network change: IP 1.2.3.4 -> 5.6.7.8"));
    assert_eq!(said("1.2.3.4", 2).as_deref(), Some("Network change: ASN 1 -> 2"));
    assert_eq!(said("1.2.3.4", 1), None);
    assert_eq!(log_network_change(Some(&state(None, Some(missed()))), "1", 1), None);
    assert_eq!(log_network_change(Some(&State::fresh()), "1", 1), None);
    assert_eq!(log_network_change(None, "1", 1), None);
}

#[test]
fn a_contact_with_a_cookie_updates_mam() {
    let prev = state(Some("c"), Some(reached("1.2.3.4", 9, None)));
    let (after, log) = contact_mam(Some(&prev), &client(), AT, &answer(200, &["mam_id=r%3D"], true));
    assert_eq!(after, stored(Some("r="), reached("5.6.7.8", 9, update(true, 200))));
    assert_eq!(
        entries(&log),
        vec![
            (LogLevel::Info, "Network change: IP 1.2.3.4 -> 5.6.7.8"),
            (LogLevel::Info, "MAM update: Words"),
        ]
    );
    let (after, log) = contact_mam(Some(&prev), &client(), AT, &answer(429, &[], false));
    assert_eq!(after, stored(Some("c"), reached("5.6.7.8", 9, update(false, 429))));
    assert_eq!(entries(&log)[1], (LogLevel::Error, "MAM update not applied (429): Words"));
}

#[test]
fn a_contact_without_a_cookie_looks_the_address_up() {
    for prev in [None, Some(state(None, None)), Some(state(Some(""), None))] {
        let (after, log) = contact_mam(prev.as_ref(), &client(), AT, &answer(200, &["mam_id=x"], true));
        assert_eq!(after, stored(None, reached("5.6.7.8", 9, None)));
        assert_eq!(
            entries(&log),
            vec![(LogLevel::Info, "No cookie set yet. Visit the web UI to configure.")]
        );
    }
}

#[test]
fn a_failed_contact_keeps_the_cookie() {
    for cookie in ["c", ""] {
        let prev = state(Some(cookie), None);
        let (after, log) =
            contact_mam(Some(&prev), &client(), AT, &Fetched::Failed { timeout: false });
        assert_eq!(after.cookie.as_deref(), Some(cookie));
        let Some(SerializedMamContact::Unreached { at, reached, error }) = after.last_mam_contact
        else {
            panic!()
        };
        assert_eq!((at.as_str(), reached, error.error_type.as_str()), (AT, false, "network-error"));
        assert_eq!(log.len(), 1);
        assert_eq!(log[0].message, format!("Could not reach MAM: {}", error.message));
    }
}

#[test]
fn a_contact_runs_from_the_file_to_the_file() {
    let mut s = scheduler();
    assert_eq!(s.timer(), None);
    let (step, log) = s.commit_contact(Some("new".into()), &FileContents::Missing);
    assert!(log.is_empty());
    let ContactStep::Fetch { base, at, request } = step else { panic!() };
    assert_eq!(request.url, "https://mam/json/dynamicSeedbox.php");
    assert_eq!(request.cookie.as_deref(), Some("mam_id=new"));
    assert!(at.ends_with(']'));

    let (step, log) = s.contact_answered(base, &at, &answer(403, &[], false));
    assert_eq!(entries(&log), vec![(LogLevel::Error, "MAM update not applied (403): Words")]);
    let ContactStep::Store { state, steps } = step else { panic!() };
    assert_eq!(state.cookie.as_deref(), Some("new"));
    assert_eq!(steps.len(), 3);
    let FileAction::Write { contents, .. } = &steps[1].action else { panic!() };
    assert_eq!(s.store().read_document(contents).unwrap(), state);

    let (step, log) = s.contact_stored(state, Ok(()), true);
    let ContactStep::Done { result, notify, action } = step else { panic!() };
    assert!(result.is_ok() && notify);
    assert_eq!(action, TransportAction::Nothing);
    let next = to_wire(s.next_contact_at().unwrap());
    assert_eq!(log.len(), 1);
    assert_eq!(log[0].message, format!("Next automatic update scheduled for {next}"));
    assert_eq!(s.timer(), Some(seconds(300.0)));
    assert_eq!(s.mam_timeout(), seconds(10.0));
}

#[test]
fn without_a_cookie_the_lookup_is_requested() {
    let mut s = scheduler();
    for contents in ["{}", r#"{"version":2,"cookie":""}"#] {
        let (step, _) = s.commit_contact(None, &FileContents::Text(contents.into()));
        let ContactStep::Fetch { request, .. } = step else { panic!() };
        assert_eq!(request.url, "https://mam/json/jsonIp.php");
        assert_eq!(request.cookie, None);
    }
}

#[test]
fn an_unreadable_file_ends_the_contact_but_schedules_the_next() {
    let mut s = scheduler();
    let (step, log) = s.commit_contact(Some("new".into()), &FileContents::Unreadable);
    let ContactStep::Done { result, notify, action } = step else { panic!() };
    assert_eq!(result.unwrap_err().body.error_type, "file-read-error");
    assert!(!notify);
    assert_eq!(action, TransportAction::Nothing);
    assert_eq!(log.len(), 1);
    assert!(s.next_contact_at().is_some() && s.timer().is_some());
    let (step, _) = s.begin_contact(Err(network_error("u")), None);
    assert!(matches!(step, ContactStep::Done { result: Err(_), notify: false, .. }));
}

#[test]
fn a_failed_write_tells_nobody_but_schedules_the_next() {
    let mut s = scheduler();
    let (step, log) =
        s.contact_stored(stored(None, missed()), Err(file_write_error("/s/state.json")), false);
    let ContactStep::Done { result, notify, action } = step else { panic!() };
    assert_eq!(result.unwrap_err().body.error_type, "file-write-error");
    assert!(!notify);
    assert_eq!(action, TransportAction::Nothing);
    assert_eq!(log.len(), 1);
    assert!(s.timer().is_some());
}

#[test]
fn a_run_of_failures_rebuilds_and_then_gives_up() {
    let mut s = scheduler();
    let mut actions = vec![];
    for _ in 0..9 {
        actions.push(s.note_transport_outcome(&stored(None, missed()), true).0);
    }
    let (nothing, rebuild) = (TransportAction::Nothing, TransportAction::Rebuild);
    assert_eq!(
        actions,
        vec![
            nothing, nothing, rebuild, nothing, nothing, rebuild, nothing, nothing,
            TransportAction::Exit,
        ]
    );
}

#[test]
fn reaching_mam_ends_a_run_of_failures() {
    let mut s = scheduler();
    for _ in 0..2 {
        s.note_transport_outcome(&stored(None, missed()), true);
    }
    let rejected = stored(Some("c"), reached("1.2.3.4", 1, update(false, 403)));
    assert_eq!(s.note_transport_outcome(&rejected, false).0, TransportAction::Nothing);
    let (action, log) = s.note_transport_outcome(&stored(None, missed()), true);
    assert_eq!(action, TransportAction::Nothing);
    assert!(log.is_empty());
    s.note_transport_outcome(&stored(None, missed()), true);
    let (action, log) = s.note_transport_outcome(&stored(None, missed()), true);
    assert_eq!(action, TransportAction::Rebuild);
    assert!(log[0].message.starts_with("3 consecutive transport failures"));
}

#[test]
fn a_lost_interface_gives_up_at_once() {
    let mut s = scheduler();
    let (step, log) = s.contact_stored(stored(None, missed()), Ok(()), false);
    let ContactStep::Done { result, notify, action } = step else { panic!() };
    assert!(result.is_ok() && notify);
    assert_eq!(action, TransportAction::Exit);
    assert_eq!(log.len(), 1);
    assert!(log[0].message.starts_with("eth0 is gone from this network namespace"));
    assert!(s.timer().is_none());
}

#[test]
fn the_next_contact_is_one_interval_away() {
    let mut s = scheduler();
    let now = parse_wire("2026-08-18T09:00:00-05:00[America/Chicago]").unwrap();
    let log = s.schedule_from(&now);
    assert_eq!(
        entries(&log),
        vec![(
            LogLevel::Info,
            "Next automatic update scheduled for 2026-08-18T09:05:00-05:00[America/Chicago]"
        )]
    );
    assert_eq!(
        to_wire(s.next_contact_at().unwrap()),
        "2026-08-18T09:05:00-05:00[America/Chicago]"
    );
    let last = parse_wire("9999-12-30T21:59:00+00:00[UTC]").unwrap();
    assert!(s.schedule_from(&last).is_empty());
    assert!(s.next_contact_at().is_none());
    assert_eq!(s.timer(), Some(seconds(300.0)));
}

#[test]
fn stopped_stays_stopped() {
    let mut s = scheduler();
    s.schedule_next();
    assert!(s.next_contact_at().is_some());
    s.stop();
    assert!(s.next_contact_at().is_none() && s.timer().is_none());
    assert!(s.schedule_next().is_empty());
    assert!(s.next_contact_at().is_none() && s.timer().is_none());
    let (_, log) = s.contact_stored(stored(None, reached("1.2.3.4", 1, None)), Ok(()), true);
    assert!(log.is_empty());
    assert!(s.timer().is_none());
}

#[test]
fn a_stop_waits_for_the_contact_under_way() {
    let mut s = scheduler();
    let (step, _) = s.commit_contact(Some("new".into()), &FileContents::Missing);
    let ContactStep::Fetch { base, at, .. } = step else { panic!() };
    assert!(!s.drained());
    s.stop();
    assert!(!s.drained());
    s.schedule_next();
    assert!(!s.drained());
    let (step, _) = s.contact_answered(base, &at, &answer(200, &[], true));
    let ContactStep::Store { state, steps } = step else { panic!() };
    assert_eq!((state.cookie.as_deref(), steps.len()), (Some("new"), 3));
    assert!(!s.drained());
    let (step, _) = s.contact_stored(state, Ok(()), true);
    assert!(matches!(step, ContactStep::Done { result: Ok(_), notify: true, .. }));
    assert!(s.drained());
    s.schedule_next();
    assert!(s.next_contact_at().is_none() && s.timer().is_none() && s.drained());

    let mut s = scheduler();
    s.stop();
    assert!(s.drained());
    s.commit_contact(None, &FileContents::Unreadable);
    assert!(s.drained());
}

#[test]
fn the_start_is_logged_with_the_interval() {
    let s = Scheduler::new(Store::new("/s"), client(), seconds(0.5), 500_000_000, "0.5");
    let entry = s.start();
    assert_eq!(
        (entry.level, entry.message.as_str()),
        (LogLevel::Info, "Background update task started, running on 0.5 second interval")
    );
}
