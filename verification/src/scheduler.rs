//! The contact loop. Every contact, whoever asks for it, goes through
//! `commit_contact`: the state file is read, MAM is contacted, the new state is
//! written, and only then are clients told. Whatever happens on the way, the
//! next contact is scheduled before the caller answers. There is no jitter, no
//! backoff and no retry. The caller makes the requests and file accesses, one
//! contact at a time.

use crate::error;
use crate::error::{AppError, AppErrorView};
use crate::logger::LogLevel;
use crate::mam;
use crate::mam::{Fetched, FetchedView, MamClient, MamClientView, MamRequest, MamRequestView};
use crate::number::Double;
use crate::state;
use crate::state::{
    ContactError, ContactView, FileContents, IpUpdate, IpUpdateView, MamContactView,
    SerializedMamContact, SerializedState, SerializedStateView, State, StateView, Store, StoreView,
    WriteStep, WriteStepView, STATE_VERSION,
};
use crate::text;
use crate::timefmt;
use crate::timefmt::{ZonedTime, ZonedView};
use vstd::prelude::*;

verus! {

/// A message to be logged.
#[derive(Debug)]
pub struct LogEntry {
    pub level: LogLevel,
    pub message: String,
}

#[verifier::ext_equal]
pub struct LogView {
    pub level: LogLevel,
    pub message: Seq<char>,
}

impl View for LogEntry {
    type V = LogView;

    open spec fn view(&self) -> LogView {
        LogView { level: self.level, message: self.message@ }
    }
}

pub open spec fn log_views(entries: Seq<LogEntry>) -> Seq<LogView> {
    entries.map_values(|e: LogEntry| e@)
}

pub open spec fn info(message: Seq<char>) -> LogView {
    LogView { level: LogLevel::Info, message }
}

pub open spec fn failure(message: Seq<char>) -> LogView {
    LogView { level: LogLevel::Error, message }
}

fn push_entry(entries: &mut Vec<LogEntry>, level: LogLevel, message: String)
    ensures
        log_views(final(entries)@) == log_views(old(entries)@).push(
            LogView { level, message: message@ },
        ),
{
    entries.push(LogEntry { level, message });
    assert(log_views(entries@) =~= log_views(old(entries)@).push(
        LogView { level, message: message@ },
    ));
}

// A contact.
/// The state to contact MAM from: as it is on disk, with a new cookie put in
/// where one was given.
pub open spec fn with_cookie(disk: Option<StateView>, new_cookie: Option<Seq<char>>) -> Option<
    StateView,
> {
    match new_cookie {
        None => disk,
        Some(c) => {
            let base = match disk {
                Some(s) => s,
                None => StateView { cookie: None, last_mam_contact: None },
            };
            Some(StateView { cookie: Some(c), ..base })
        },
    }
}

pub open spec fn state_view(s: Option<State>) -> Option<StateView> {
    match s {
        Some(state) => Some(state@),
        None => None,
    }
}

pub open spec fn borrowed_view(s: Option<&State>) -> Option<StateView> {
    match s {
        Some(state) => Some(state@),
        None => None,
    }
}

/// The cookie that drives a contact from a state: none where it is empty.
pub open spec fn driving_cookie(prev: Option<StateView>) -> Option<Seq<char>> {
    match prev {
        Some(s) => state::usable_cookie(s.cookie),
        None => None,
    }
}

/// The cookie of a state, as it stands.
pub open spec fn stored_cookie(prev: Option<StateView>) -> Option<Seq<char>> {
    match prev {
        Some(s) => s.cookie,
        None => None,
    }
}

/// Puts a new cookie in before MAM is contacted.
pub fn apply_cookie(disk: Option<State>, new_cookie: Option<String>) -> (r: Option<State>)
    ensures
        state_view(r) == with_cookie(state_view(disk), new_cookie.deep_view()),
{
    match new_cookie {
        None => disk,
        Some(c) => {
            let base = match disk {
                Some(s) => s,
                None => State::fresh(),
            };
            let State { cookie: _, last_mam_contact } = base;
            Some(State { cookie: Some(c), last_mam_contact })
        },
    }
}

/// What is said of a change of address or network since the last contact that
/// reached MAM, if there is one: only what changed.
pub open spec fn network_change(
    prev: Option<StateView>,
    new_ip: Seq<char>,
    new_asn: i64,
) -> Option<Seq<char>> {
    match prev {
        Some(
            StateView {
                last_mam_contact: Some(
                    MamContactView { body: ContactView::Reached { ip, asn, .. }, .. },
                ),
                ..
            },
        ) => {
            let address = "IP "@ + ip + " -> "@ + new_ip;
            let network = "ASN "@ + text::signed_decimal(asn as int) + " -> "@
                + text::signed_decimal(new_asn as int);
            if ip != new_ip && asn != new_asn {
                Some("Network change: "@ + address + ", "@ + network)
            } else if ip != new_ip {
                Some("Network change: "@ + address)
            } else if asn != new_asn {
                Some("Network change: "@ + network)
            } else {
                None
            }
        },
        _ => None,
    }
}

/// What is said of a change of address or network, if there is one.
pub fn log_network_change(prev: Option<&State>, new_ip: &str, new_asn: i64) -> (r: Option<String>)
    ensures
        r.deep_view() == network_change(borrowed_view(prev), new_ip@, new_asn),
{
    let contact = match prev {
        Some(s) => match &s.last_mam_contact {
            Some(c) => c,
            None => {
                return None;
            },
        },
        None => {
            return None;
        },
    };
    match &contact.body {
        SerializedMamContact::Unreached { .. } => None,
        SerializedMamContact::Reached { ip, asn, .. } => {
            let moved = !text::same_text(ip, new_ip);
            let renumbered = *asn != new_asn;
            let address = "IP ".to_owned().concat(ip).concat(" -> ").concat(new_ip);
            let network = "ASN ".to_owned().concat(&text::signed_text(*asn)).concat(" -> ").concat(
                &text::signed_text(new_asn),
            );
            if moved && renumbered {
                Some("Network change: ".to_owned().concat(&address).concat(", ").concat(&network))
            } else if moved {
                Some("Network change: ".to_owned().concat(&address))
            } else if renumbered {
                Some("Network change: ".to_owned().concat(&network))
            } else {
                None
            }
        },
    }
}

/// The state after a contact that did not reach MAM: the cookie is carried on
/// as it stands, and of the error its type and message.
pub open spec fn unreached_state(
    at: Seq<char>,
    cookie: Option<Seq<char>>,
    e: AppErrorView,
) -> SerializedStateView {
    SerializedStateView {
        version: STATE_VERSION,
        cookie,
        last_mam_contact: Some(
            ContactView::Unreached {
                at,
                reached: false,
                error_type: e.body.error_type,
                message: e.body.message,
            },
        ),
    }
}

/// The state after a contact, and what is logged of it. It depends on the state
/// before, on when the contact was, and on what came of the request that this
/// state's cookie called for. There is always a contact on record afterwards.
pub open spec fn contacted(
    prev: Option<StateView>,
    client: MamClientView,
    at: Seq<char>,
    fetched: FetchedView,
) -> (SerializedStateView, Seq<LogView>) {
    match driving_cookie(prev) {
        None => match mam::host_info_outcome(client, fetched) {
            Ok(i) => (
                SerializedStateView {
                    version: STATE_VERSION,
                    cookie: None,
                    last_mam_contact: Some(
                        ContactView::Reached {
                            at,
                            reached: true,
                            ip: i.ip,
                            asn: i.asn,
                            as_name: i.as_name,
                            ip_update: None,
                        },
                    ),
                },
                seq![info("No cookie set yet. Visit the web UI to configure."@)],
            ),
            Err(e) => (
                unreached_state(at, stored_cookie(prev), e),
                seq![failure("Could not reach MAM: "@ + e.body.message)],
            ),
        },
        Some(cookie) => match mam::update_outcome(client, fetched) {
            Ok(u) => (
                SerializedStateView {
                    version: STATE_VERSION,
                    cookie: Some(
                        match u.rotated_cookie {
                            Some(rotated) => rotated,
                            None => cookie,
                        },
                    ),
                    last_mam_contact: Some(
                        ContactView::Reached {
                            at,
                            reached: true,
                            ip: u.ip,
                            asn: u.asn,
                            as_name: u.as_name,
                            ip_update: Some(
                                IpUpdateView {
                                    success: u.success,
                                    msg: u.msg,
                                    http_status: u.http_status,
                                },
                            ),
                        },
                    ),
                },
                (match network_change(prev, u.ip, u.asn) {
                    Some(change) => seq![info(change)],
                    None => Seq::empty(),
                }).push(
                    if u.success {
                        info("MAM update: "@ + u.msg)
                    } else {
                        failure(
                            "MAM update not applied ("@ + text::decimal(u.http_status as nat)
                                + "): "@ + u.msg,
                        )
                    },
                ),
            ),
            Err(e) => (
                unreached_state(at, stored_cookie(prev), e),
                seq![failure("Could not reach MAM: "@ + e.body.message)],
            ),
        },
    }
}

fn record_unreached(at: &str, cookie: Option<String>, e: AppError) -> (r: (SerializedState, Vec<LogEntry>))
    ensures
        r.0@ == unreached_state(at@, cookie.deep_view(), e@),
        log_views(r.1@) == seq![failure("Could not reach MAM: "@ + e@.body.message)],
{
    let mut entries: Vec<LogEntry> = Vec::new();
    push_entry(
        &mut entries,
        LogLevel::Error,
        "Could not reach MAM: ".to_owned().concat(&e.body.message),
    );
    assert(log_views(entries@) =~= seq![failure("Could not reach MAM: "@ + e@.body.message)]);
    let state = SerializedState {
        version: STATE_VERSION,
        cookie,
        last_mam_contact: Some(
            SerializedMamContact::Unreached {
                at: at.to_owned(),
                reached: false,
                error: ContactError { error_type: e.body.error_type, message: e.body.message },
            },
        ),
    };
    (state, entries)
}

/// The state after a contact. It never fails: what goes wrong is recorded.
pub fn contact_mam(prev: Option<&State>, mam: &MamClient, at: &str, fetched: &Fetched) -> (r: (
    SerializedState,
    Vec<LogEntry>,
))
    ensures
        r.0@ == contacted(borrowed_view(prev), mam@, at@, fetched@).0,
        log_views(r.1@) == contacted(borrowed_view(prev), mam@, at@, fetched@).1,
{
    let effective: Option<String> = match prev {
        Some(s) => match s.effective_cookie() {
            Some(c) => Some(c.to_owned()),
            None => None,
        },
        None => None,
    };
    let carried: Option<String> = match prev {
        Some(s) => match &s.cookie {
            Some(c) => Some(c.clone()),
            None => None,
        },
        None => None,
    };
    match effective {
        None => match mam.get_host_info(fetched) {
            Ok(host) => {
                let mut entries: Vec<LogEntry> = Vec::new();
                push_entry(
                    &mut entries,
                    LogLevel::Info,
                    "No cookie set yet. Visit the web UI to configure.".to_owned(),
                );
                assert(log_views(entries@) =~= seq![
                    info("No cookie set yet. Visit the web UI to configure."@),
                ]);
                let state = SerializedState {
                    version: STATE_VERSION,
                    cookie: None,
                    last_mam_contact: Some(
                        SerializedMamContact::Reached {
                            at: at.to_owned(),
                            reached: true,
                            ip: host.ip,
                            asn: host.asn,
                            as_name: host.as_name,
                            ip_update: None,
                        },
                    ),
                };
                (state, entries)
            },
            Err(e) => record_unreached(at, carried, e),
        },
        Some(cookie) => match mam.update_mam_ip(fetched) {
            Ok(result) => {
                let mut entries: Vec<LogEntry> = Vec::new();
                let ghost mut said: Seq<LogView> = Seq::empty();
                assert(log_views(entries@) =~= said);
                if let Some(change) = log_network_change(prev, &result.ip, result.asn) {
                    proof {
                        said = seq![info(change@)];
                    }
                    push_entry(&mut entries, LogLevel::Info, change);
                    assert(log_views(entries@) =~= said);
                }
                if result.success {
                    push_entry(
                        &mut entries,
                        LogLevel::Info,
                        "MAM update: ".to_owned().concat(&result.msg),
                    );
                } else {
                    push_entry(
                        &mut entries,
                        LogLevel::Error,
                        "MAM update not applied (".to_owned().concat(
                            &text::decimal_text(result.http_status as u64),
                        ).concat("): ").concat(&result.msg),
                    );
                }
                let next_cookie = match result.rotated_cookie {
                    Some(rotated) => rotated,
                    None => cookie,
                };
                let state = SerializedState {
                    version: STATE_VERSION,
                    cookie: Some(next_cookie),
                    last_mam_contact: Some(
                        SerializedMamContact::Reached {
                            at: at.to_owned(),
                            reached: true,
                            ip: result.ip,
                            asn: result.asn,
                            as_name: result.as_name,
                            ip_update: Some(
                                IpUpdate {
                                    success: result.success,
                                    msg: result.msg,
                                    http_status: result.http_status,
                                },
                            ),
                        },
                    ),
                };
                (state, entries)
            },
            Err(e) => record_unreached(at, carried, e),
        },
    }
}


// The scheduler.
/// What is to be done about failures to reach MAM.
#[derive(Debug, Clone, Copy, PartialEq, Eq, Structural)]
pub enum TransportAction {
    Nothing,
    /// Build a new HTTP client.
    Rebuild,
    /// Give up the process, so that its supervisor restarts it.
    Exit,
}

/// The contact loop's state. The timer is the caller's: it runs where `armed`
/// says so, and is cancelled where not.
#[derive(Debug)]
pub struct Scheduler {
    store: Store,
    mam: MamClient,
    interval_seconds: Double,
    interval_nanoseconds: i64,
    interval_text: String,
    transport_failures: u32,
    armed: bool,
    stopped: bool,
    under_way: bool,
    next_contact_at: Option<ZonedTime>,
}

#[verifier::ext_equal]
pub struct SchedulerView {
    pub store: StoreView,
    pub client: MamClientView,
    pub interval_seconds: Double,
    pub interval_nanoseconds: i64,
    pub interval_text: Seq<char>,
    pub transport_failures: u32,
    pub armed: bool,
    pub stopped: bool,
    pub under_way: bool,
    pub next_contact_at: Option<ZonedView>,
}

impl View for Scheduler {
    type V = SchedulerView;

    closed spec fn view(&self) -> SchedulerView {
        SchedulerView {
            store: self.store@,
            client: self.mam@,
            interval_seconds: self.interval_seconds,
            interval_nanoseconds: self.interval_nanoseconds,
            interval_text: self.interval_text@,
            transport_failures: self.transport_failures,
            armed: self.armed,
            stopped: self.stopped,
            under_way: self.under_way,
            next_contact_at: match self.next_contact_at {
                Some(at) => Some(at@),
                None => None,
            },
        }
    }
}

impl SchedulerView {
    /// Scheduled anew at a point in time: a timer runs unless the loop was
    /// stopped, and is announced for one interval later, unless there is no
    /// timestamp for that. The announcement is the wire form of that time, in
    /// the time zone of the clock, and names it. All else is as before.
    pub open spec fn rescheduled_at(self, after: SchedulerView, now: ZonedView) -> bool {
        let next = now.instant + self.interval_nanoseconds;
        &&& after == (SchedulerView {
            armed: !self.stopped,
            next_contact_at: after.next_contact_at,
            ..self
        })
        &&& after.next_contact_at is Some <==> !self.stopped && timefmt::in_range(next)
        &&& after.next_contact_at matches Some(at) ==> {
            &&& at.valid()
            &&& at.instant == next
            &&& timefmt::may_show(at, next, now)
        }
    }

    /// Scheduled anew, at what the clock said.
    pub open spec fn rescheduled(self, after: SchedulerView) -> bool {
        exists|now: ZonedView|
            #[trigger] timefmt::may_be_now(now) && self.rescheduled_at(after, now)
    }

    /// With no contact under way.
    pub open spec fn idle(self) -> SchedulerView {
        SchedulerView { under_way: false, ..self }
    }

    /// Told to stop: no timer runs any more. A contact that is under way goes
    /// on.
    pub open spec fn after_stop(self) -> SchedulerView {
        SchedulerView {
            stopped: true,
            armed: false,
            next_contact_at: None,
            ..self
        }
    }

    /// Told to stop, and with no contact under way any more.
    pub open spec fn drained(self) -> bool {
        self.stopped && !self.under_way
    }

    /// What is logged of a new schedule.
    pub open spec fn schedule_log(self) -> Seq<LogView> {
        match self.next_contact_at {
            Some(at) => seq![info("Next automatic update scheduled for "@ + at.wire)],
            None => Seq::empty(),
        }
    }

    /// One more failure to reach MAM, counted as far as there are numbers.
    pub open spec fn failures_after(self) -> u32 {
        if self.transport_failures == u32::MAX {
            u32::MAX
        } else {
            (self.transport_failures + 1) as u32
        }
    }

    /// What failures to reach MAM lead to. Contacts that reached it count none,
    /// whatever it answered. Failures in a row first rebuild the client, every
    /// third one, and at the ninth give up the process; where the network
    /// interface is gone, that is done at once.
    pub open spec fn after_outcome(self, s: SerializedStateView, interface_present: bool) -> (
        SchedulerView,
        TransportAction,
        Seq<LogView>,
    ) {
        let n = self.failures_after();
        let counted = SchedulerView { transport_failures: n, ..self };
        if !(s.last_mam_contact matches Some(ContactView::Unreached { .. })) {
            (
                SchedulerView { transport_failures: 0, ..self },
                TransportAction::Nothing,
                Seq::empty(),
            )
        } else if !interface_present {
            (
                self,
                TransportAction::Exit,
                seq![
                    failure(
                        "eth0 is gone from this network namespace — the parent                  container restarted and left us orphaned; exiting so the                  supervisor re-attaches us to the live namespace"@,
                    ),
                ],
            )
        } else if n >= 9 {
            (
                counted,
                TransportAction::Exit,
                seq![
                    failure(
                        "9 consecutive transport failures — client rebuilds did not                  recover; exiting so the supervisor restarts the process"@,
                    ),
                ],
            )
        } else if n % 3 == 0 {
            (
                counted,
                TransportAction::Rebuild,
                seq![
                    failure(
                        text::decimal(n as nat)
                            + " consecutive transport failures — rebuilding the HTTP                  client (stale connector state after a namespace bounce?)"@,
                    ),
                ],
            )
        } else {
            (counted, TransportAction::Nothing, Seq::empty())
        }
    }
}

/// How a contact goes on.
#[derive(Debug)]
pub enum ContactStep {
    /// Make this request; hand what comes of it to `contact_answered` with the
    /// rest.
    Fetch { base: Option<State>, at: String, request: MamRequest },
    /// Do these steps; hand what comes of them to `contact_stored` with the
    /// state.
    Store { state: SerializedState, steps: Vec<WriteStep> },
    /// The contact is over. Clients are to be told where `notify` says so.
    Done { result: Result<SerializedState, AppError>, notify: bool, action: TransportAction },
}

pub enum ContactStepView {
    Fetch { base: Option<StateView>, at: Seq<char>, request: MamRequestView },
    Store { state: SerializedStateView, steps: Seq<WriteStepView> },
    Done {
        result: Result<SerializedStateView, AppErrorView>,
        notify: bool,
        action: TransportAction,
    },
}

impl View for ContactStep {
    type V = ContactStepView;

    open spec fn view(&self) -> ContactStepView {
        match self {
            ContactStep::Fetch { base, at, request } => ContactStepView::Fetch {
                base: state_view(*base),
                at: at@,
                request: request@,
            },
            ContactStep::Store { state, steps } => ContactStepView::Store {
                state: state@,
                steps: state::step_views(steps@),
            },
            ContactStep::Done { result, notify, action } => ContactStepView::Done {
                result: error::viewed(*result),
                notify: *notify,
                action: *action,
            },
        }
    }
}

/// A contact that ended in an error: nobody is told, and the next one is
/// scheduled all the same.
pub open spec fn ended_in_error(
    before: SchedulerView,
    after: SchedulerView,
    step: ContactStepView,
    logged: Seq<LogView>,
    e: AppErrorView,
) -> bool {
    &&& before.idle().rescheduled(after)
    &&& logged == after.schedule_log()
    &&& step == (ContactStepView::Done {
        result: Err(e),
        notify: false,
        action: TransportAction::Nothing,
    })
}

/// The wire form of what the clock said.
pub open spec fn is_now(at: Seq<char>) -> bool {
    exists|now: ZonedView|
        #[trigger] timefmt::may_be_now(now) && now.wire == at && timefmt::bracketed(at)
}

/// A contact that got as far as its request: the time is taken before it is
/// made, and the request is the one that the cookie calls for.
pub open spec fn about_to_fetch(
    client: MamClientView,
    base: Option<StateView>,
    step: ContactStepView,
) -> bool {
    step matches ContactStepView::Fetch { base: b, at, request } && b == base && is_now(at)
        && request == mam::request_for(client, driving_cookie(base))
}

/// How a contact begins, given what reading the state file came to.
pub open spec fn begun(
    before: SchedulerView,
    after: SchedulerView,
    step: ContactStepView,
    logged: Seq<LogView>,
    read: Result<Option<StateView>, AppErrorView>,
    new_cookie: Option<Seq<char>>,
) -> bool {
    match read {
        Err(e) => ended_in_error(before, after, step, logged, e),
        Ok(disk) => {
            &&& after == (SchedulerView { under_way: true, ..before })
            &&& logged.len() == 0
            &&& about_to_fetch(before.client, with_cookie(disk, new_cookie), step)
        },
    }
}

/// How a contact ends, given what storing its state came to.
pub open spec fn ended(
    before: SchedulerView,
    after: SchedulerView,
    step: ContactStepView,
    logged: Seq<LogView>,
    state: SerializedStateView,
    stored: Result<(), AppErrorView>,
    interface_present: bool,
) -> bool {
    match stored {
        Err(e) => ended_in_error(before, after, step, logged, e),
        Ok(_) => {
            let (counted, action, said) = before.idle().after_outcome(state, interface_present);
            &&& step == (ContactStepView::Done { result: Ok(state), notify: true, action })
            &&& if action == TransportAction::Exit {
                after == counted && logged == said
            } else {
                counted.rescheduled(after) && logged == said + after.schedule_log()
            }
        },
    }
}

impl Scheduler {
    /// `interval_nanoseconds` and `interval_text` are the interval once more,
    /// as the clock counts it and as it is shown.
    pub fn new(
        store: Store,
        mam: MamClient,
        interval_seconds: Double,
        interval_nanoseconds: i64,
        interval_text: &str,
    ) -> (r: Self)
        ensures
            r@ == (SchedulerView {
                store: store@,
                client: mam@,
                interval_seconds,
                interval_nanoseconds,
                interval_text: interval_text@,
                transport_failures: 0,
                armed: false,
                stopped: false,
                under_way: false,
                next_contact_at: None,
            }),
    {
        Scheduler {
            store,
            mam,
            interval_seconds,
            interval_nanoseconds,
            interval_text: interval_text.to_owned(),
            transport_failures: 0,
            armed: false,
            stopped: false,
            under_way: false,
            next_contact_at: None,
        }
    }

    /// Begins a contact. `contents` is the state file, read for this contact.
    pub fn commit_contact(&mut self, new_cookie: Option<String>, contents: &FileContents) -> (r: (
        ContactStep,
        Vec<LogEntry>,
    ))
        ensures
            exists|read: Result<Option<StateView>, AppErrorView>|
                #[trigger] state::may_come_to(contents@, old(self)@.store.path, read) && begun(
                    old(self)@,
                    final(self)@,
                    r.0@,
                    log_views(r.1@),
                    read,
                    new_cookie.deep_view(),
                ),
    {
        let read = self.store.read_if_exists(contents);
        assert(state::may_come_to(contents@, self@.store.path, state::optional_state(read)));
        self.begin_contact(read, new_cookie)
    }

    /// Begins a contact, given what reading the state file came to.
    pub fn begin_contact(
        &mut self,
        read: Result<Option<State>, AppError>,
        new_cookie: Option<String>,
    ) -> (r: (ContactStep, Vec<LogEntry>))
        ensures
            begun(
                old(self)@,
                final(self)@,
                r.0@,
                log_views(r.1@),
                state::optional_state(read),
                new_cookie.deep_view(),
            ),
    {
        match read {
            Err(e) => {
                self.under_way = false;
                let entries = self.schedule_next();
                (
                    ContactStep::Done {
                        result: Err(e),
                        notify: false,
                        action: TransportAction::Nothing,
                    },
                    entries,
                )
            },
            Ok(disk) => {
                let base = apply_cookie(disk, new_cookie);
                let now = timefmt::now_zoned();
                let at = timefmt::to_wire(&now);
                assert(is_now(at@));
                let request = match &base {
                    Some(s) => self.mam.request(s.effective_cookie()),
                    None => self.mam.request(None),
                };
                self.under_way = true;
                let entries: Vec<LogEntry> = Vec::new();
                (ContactStep::Fetch { base, at, request }, entries)
            },
        }
    }

    /// Goes on with what came of the request: the state is to be stored.
    pub fn contact_answered(&self, base: Option<State>, at: &str, fetched: &Fetched) -> (r: (
        ContactStep,
        Vec<LogEntry>,
    ))
        ensures
            ({
                let after = contacted(state_view(base), self@.client, at@, fetched@);
                &&& r.0@ matches ContactStepView::Store { state, steps } && state == after.0
                    && steps == state::write_steps(
                    self@.store,
                    crate::json::pretty_json(state::state_json(after.0)),
                )
                &&& log_views(r.1@) == after.1
                &&& state::document_read(
                    crate::json::pretty_json(state::state_json(after.0)),
                    self@.store.path,
                ) == Ok::<SerializedStateView, AppErrorView>(after.0)
            }),
    {
        let (state, entries) = match &base {
            Some(s) => contact_mam(Some(s), &self.mam, at, fetched),
            None => contact_mam(None, &self.mam, at, fetched),
        };
        proof {
            law_contact_is_always_recorded(state_view(base), self@.client, at@, fetched@);
        }
        match self.store.write(&state) {
            Ok(steps) => (ContactStep::Store { state, steps }, entries),
            Err(e) => (
                ContactStep::Done {
                    result: Err(e),
                    notify: false,
                    action: TransportAction::Nothing,
                },
                entries,
            ),
        }
    }

    /// Ends a contact with what came of storing its state. Clients are told
    /// only of what was stored. The next contact is scheduled either way,
    /// unless the process is to be given up.
    pub fn contact_stored(
        &mut self,
        state: SerializedState,
        stored: Result<(), AppError>,
        interface_present: bool,
    ) -> (r: (ContactStep, Vec<LogEntry>))
        ensures
            ended(
                old(self)@,
                final(self)@,
                r.0@,
                log_views(r.1@),
                state@,
                error::viewed(stored),
                interface_present,
            ),
    {
        self.under_way = false;
        if let Err(e) = stored {
            let entries = self.schedule_next();
            return (
                ContactStep::Done {
                    result: Err(e),
                    notify: false,
                    action: TransportAction::Nothing,
                },
                entries,
            );
        }
        let (action, mut entries) = self.note_transport_outcome(&state, interface_present);
        if action != TransportAction::Exit {
            let ghost said = log_views(entries@);
            let mut more = self.schedule_next();
            let ghost scheduled = log_views(more@);
            entries.append(&mut more);
            assert(log_views(entries@) =~= said + scheduled);
        }
        (ContactStep::Done { result: Ok(state), notify: true, action }, entries)
    }

    /// Counts failures to reach MAM, and says what is to be done about them.
    pub fn note_transport_outcome(
        &mut self,
        serialized: &SerializedState,
        interface_present: bool,
    ) -> (r: (TransportAction, Vec<LogEntry>))
        ensures
            ({
                let (after, action, said) = old(self)@.after_outcome(
                    serialized@,
                    interface_present,
                );
                &&& final(self)@ == after
                &&& r.0 == action
                &&& log_views(r.1@) == said
            }),
    {
        let mut entries: Vec<LogEntry> = Vec::new();
        assert(log_views(entries@) =~= Seq::empty());
        let missed = match &serialized.last_mam_contact {
            Some(SerializedMamContact::Unreached { .. }) => true,
            _ => false,
        };
        if !missed {
            self.transport_failures = 0;
            return (TransportAction::Nothing, entries);
        }
        if !interface_present {
            push_entry(
                &mut entries,
                LogLevel::Error,
                "eth0 is gone from this network namespace — the parent                  container restarted and left us orphaned; exiting so the                  supervisor re-attaches us to the live namespace".to_owned(),
            );
            assert(log_views(entries@) =~= old(self)@.after_outcome(serialized@, false).2);
            return (TransportAction::Exit, entries);
        }
        let n: u32 = if self.transport_failures == u32::MAX {
            u32::MAX
        } else {
            self.transport_failures + 1
        };
        self.transport_failures = n;
        if n >= 9 {
            push_entry(
                &mut entries,
                LogLevel::Error,
                "9 consecutive transport failures — client rebuilds did not                  recover; exiting so the supervisor restarts the process".to_owned(),
            );
            assert(log_views(entries@) =~= old(self)@.after_outcome(serialized@, true).2);
            (TransportAction::Exit, entries)
        } else if n % 3 == 0 {
            push_entry(
                &mut entries,
                LogLevel::Error,
                text::decimal_text(n as u64).concat(
                    " consecutive transport failures — rebuilding the HTTP                  client (stale connector state after a namespace bounce?)",
                ),
            );
            assert(log_views(entries@) =~= old(self)@.after_outcome(serialized@, true).2);
            (TransportAction::Rebuild, entries)
        } else {
            (TransportAction::Nothing, entries)
        }
    }

    /// Schedules the next contact one interval from now, in place of any that
    /// was scheduled before; none once the loop was stopped.
    pub fn schedule_next(&mut self) -> (r: Vec<LogEntry>)
        ensures
            old(self)@.rescheduled(final(self)@),
            log_views(r@) == final(self)@.schedule_log(),
    {
        let now = timefmt::now_zoned();
        let r = self.schedule_from(&now);
        assert(old(self)@.rescheduled_at(self@, now@));
        r
    }

    /// Schedules the next contact one interval from a point in time.
    pub fn schedule_from(&mut self, now: &ZonedTime) -> (r: Vec<LogEntry>)
        ensures
            old(self)@.rescheduled_at(final(self)@, now@),
            log_views(r@) == final(self)@.schedule_log(),
    {
        let mut entries: Vec<LogEntry> = Vec::new();
        assert(log_views(entries@) =~= Seq::empty());
        if self.stopped {
            self.armed = false;
            self.next_contact_at = None;
            return entries;
        }
        self.armed = true;
        let next = timefmt::plus_seconds(now, self.interval_nanoseconds);
        if let Some(at) = &next {
            push_entry(
                &mut entries,
                LogLevel::Info,
                "Next automatic update scheduled for ".to_owned().concat(&timefmt::to_wire(at)),
            );
        }
        self.next_contact_at = next;
        assert(log_views(entries@) =~= self@.schedule_log());
        entries
    }

    /// What is logged when the loop starts. The caller then begins the first
    /// contact without waiting for it.
    pub fn start(&self) -> (r: LogEntry)
        ensures
            r@ == info(
                "Background update task started, running on "@ + self@.interval_text
                    + " second interval"@,
            ),
    {
        LogEntry {
            level: LogLevel::Info,
            message: "Background update task started, running on ".to_owned().concat(
                &self.interval_text,
            ).concat(" second interval"),
        }
    }

    /// Tells the loop to stop: no timer runs any more, and none will. A contact
    /// that is under way goes on; the stop is complete once `drained` says so.
    pub fn stop(&mut self)
        ensures
            final(self)@ == old(self)@.after_stop(),
    {
        self.stopped = true;
        self.armed = false;
        self.next_contact_at = None;
    }

    /// Whether the loop was told to stop and no contact is under way any more.
    pub fn drained(&self) -> (r: bool)
        ensures
            r == self@.drained(),
    {
        self.stopped && !self.under_way
    }

    /// When the next contact is announced for.
    pub fn next_contact_at(&self) -> (r: Option<&ZonedTime>)
        ensures
            (match r {
                Some(at) => Some(at@),
                None => None,
            }) == self@.next_contact_at,
    {
        match &self.next_contact_at {
            Some(at) => Some(at),
            None => None,
        }
    }

    /// Whether a timer is to run, and for how many seconds.
    pub fn timer(&self) -> (r: Option<Double>)
        ensures
            r == if self@.armed {
                Some(self@.interval_seconds)
            } else {
                None
            },
    {
        if self.armed {
            Some(self.interval_seconds)
        } else {
            None
        }
    }

    pub fn store(&self) -> (r: &Store)
        ensures
            r@ == self@.store,
    {
        &self.store
    }

    /// How long the caller is to wait for MAM.
    pub fn mam_timeout(&self) -> (r: Double)
        ensures
            r == self@.client.timeout_seconds,
    {
        self.mam.timeout()
    }
}

// Laws.
/// Whatever comes of a contact, the state after it is one of the current
/// version that records this contact, at its time, and consistently: it can be
/// written and read back.
pub proof fn law_contact_is_always_recorded(
    prev: Option<StateView>,
    client: MamClientView,
    at: Seq<char>,
    fetched: FetchedView,
)
    ensures
        ({
            let s = contacted(prev, client, at, fetched).0;
            &&& s.current()
            &&& s.last_mam_contact matches Some(c) && c.at() == at
        }),
{
}

/// A contact that fails leaves the cookie as it was, even an empty one.
pub proof fn law_failure_keeps_the_cookie(
    prev: Option<StateView>,
    client: MamClientView,
    at: Seq<char>,
    fetched: FetchedView,
)
    requires
        contacted(prev, client, at, fetched).0.last_mam_contact matches Some(
            ContactView::Unreached { .. },
        ),
    ensures
        contacted(prev, client, at, fetched).0.cookie == stored_cookie(prev),
{
}

/// A contact that a cookie drove, and that reached MAM, keeps that cookie or
/// the one that MAM put in its place, whatever MAM answered; one without a
/// cookie leaves none.
pub proof fn law_cookie_after_reaching_mam(
    prev: Option<StateView>,
    client: MamClientView,
    at: Seq<char>,
    fetched: FetchedView,
)
    requires
        contacted(prev, client, at, fetched).0.last_mam_contact matches Some(
            ContactView::Reached { .. },
        ),
    ensures
        contacted(prev, client, at, fetched).0.cookie == match driving_cookie(prev) {
            None => None,
            Some(cookie) => match fetched {
                FetchedView::Answered { set_cookies, .. } => match mam::rotated_cookie(
                    set_cookies,
                ) {
                    Some(rotated) => Some(rotated),
                    None => Some(cookie),
                },
                _ => Some(cookie),
            },
        },
        (contacted(prev, client, at, fetched).0.last_mam_contact matches Some(
            ContactView::Reached { ip_update: Some(_), .. },
        )) == (driving_cookie(prev) is Some),
{
}

/// A new cookie is the one that the very next request carries, and none of
/// what else was stored is lost to it.
pub proof fn law_new_cookie_is_used_at_once(
    disk: Option<StateView>,
    cookie: Seq<char>,
    client: MamClientView,
)
    requires
        cookie.len() > 0,
    ensures
        ({
            let base = with_cookie(disk, Some(cookie));
            &&& driving_cookie(base) == Some(cookie)
            &&& mam::request_for(client, driving_cookie(base)) == (MamRequestView {
                url: mam::update_url(client),
                cookie: Some("mam_id="@ + cookie),
            })
            &&& disk matches Some(s) ==> base matches Some(b) && b.last_mam_contact
                == s.last_mam_contact
        }),
{
}

/// A new cookie is stored even where MAM cannot be reached, or refuses it.
pub proof fn law_new_cookie_is_stored(
    disk: Option<StateView>,
    cookie: Seq<char>,
    client: MamClientView,
    at: Seq<char>,
    fetched: FetchedView,
)
    requires
        cookie.len() > 0,
        fetched matches FetchedView::Answered { set_cookies, .. } ==> mam::rotated_cookie(
            set_cookies,
        ) is None,
    ensures
        contacted(with_cookie(disk, Some(cookie)), client, at, fetched).0.cookie == Some(cookie),
{
}

/// Once stopped, the loop stays stopped: scheduling runs no timer.
pub proof fn law_stopped_stays_stopped(before: SchedulerView, after: SchedulerView)
    requires
        before.stopped,
        before.rescheduled(after),
    ensures
        after.stopped,
        !after.armed,
        after.next_contact_at is None,
{
}

/// While it is not stopped, scheduling always runs a timer, for the one fixed
/// interval: nothing that happened before changes it. Scheduling later, by
/// whatever time that fits a timestamp, announces the next contact later by as
/// much.
pub proof fn law_interval_is_fixed(
    before: SchedulerView,
    after: SchedulerView,
    again: SchedulerView,
    now: ZonedView,
    later: ZonedView,
)
    requires
        !before.stopped,
        before.rescheduled_at(after, now),
        after.rescheduled_at(again, later),
        timefmt::in_range(now.instant + before.interval_nanoseconds),
        timefmt::in_range(later.instant + before.interval_nanoseconds),
    ensures
        after.armed,
        again.armed,
        after.interval_seconds == before.interval_seconds,
        after.interval_nanoseconds == before.interval_nanoseconds,
        after.next_contact_at matches Some(at) && at.instant == now.instant
            + before.interval_nanoseconds,
        again.next_contact_at matches Some(at) && at.instant == later.instant
            + before.interval_nanoseconds,
{
}

/// A stop waits for the contact that is under way. That contact goes on as if
/// nothing had happened: the same client answers for it and the same store
/// takes its state, and scheduling meanwhile does not end it. The stop is
/// complete when the contact has ended, with its state stored or with the error
/// of storing it, and not before. From then on no contact is announced, no
/// timer runs, and scheduling runs none.
pub proof fn law_stop_waits_for_the_contact_under_way(
    before: SchedulerView,
    meanwhile: SchedulerView,
    after: SchedulerView,
    later: SchedulerView,
    step: ContactStepView,
    logged: Seq<LogView>,
    state: SerializedStateView,
    stored: Result<(), AppErrorView>,
    interface_present: bool,
)
    requires
        before.under_way,
        before.after_stop() == meanwhile || before.after_stop().rescheduled(meanwhile),
        ended(meanwhile, after, step, logged, state, stored, interface_present),
        after.rescheduled(later),
    ensures
        !before.after_stop().drained(),
        !meanwhile.drained(),
        meanwhile.client == before.client,
        meanwhile.store == before.store,
        step matches ContactStepView::Done { result, .. } && result == match stored {
            Ok(_) => Ok::<SerializedStateView, AppErrorView>(state),
            Err(e) => Err(e),
        },
        after.drained(),
        after.next_contact_at is None,
        !after.armed,
        later.drained(),
        later.next_contact_at is None,
        !later.armed,
{
}

/// Contacts that reach MAM, whatever it answers, count as no failure and end a
/// run of them.
pub proof fn law_reaching_mam_ends_a_run_of_failures(
    before: SchedulerView,
    s: SerializedStateView,
    interface_present: bool,
)
    requires
        s.last_mam_contact matches Some(ContactView::Reached { .. }),
    ensures
        before.after_outcome(s, interface_present).0.transport_failures == 0,
        before.after_outcome(s, interface_present).1 == TransportAction::Nothing,
{
}

/// A run of failures, starting from none, rebuilds the client at the third and
/// the sixth and gives up at the ninth.
pub proof fn law_run_of_failures(before: SchedulerView, s: SerializedStateView)
    requires
        s.last_mam_contact matches Some(ContactView::Unreached { .. }),
        before.transport_failures < 9,
    ensures
        ({
            let n = before.transport_failures + 1;
            let (after, action, _) = before.after_outcome(s, true);
            &&& after.transport_failures == n
            &&& action == if n == 9 {
                TransportAction::Exit
            } else if n == 3 || n == 6 {
                TransportAction::Rebuild
            } else {
                TransportAction::Nothing
            }
        }),
{
}

/// What an update found out is what is recorded of it: address, number and name
/// of the network and what came of the update are those of this very answer,
/// and so is a cookie that MAM put in place of the one that drove the contact.
/// What was on record before has no say.
pub proof fn law_update_is_recorded_as_answered(
    prev: Option<&State>,
    client: &MamClient,
    at: &str,
    fetched: &Fetched,
    answered: Result<mam::MamUpdateResult, AppError>,
    r: (SerializedState, Vec<LogEntry>),
    cookie: Seq<char>,
)
    requires
        call_ensures(contact_mam, (prev, client, at, fetched), r),
        call_ensures(MamClient::update_mam_ip, (client, fetched), answered),
        prev matches Some(s) && s@.cookie == Some(cookie),
        cookie.len() > 0,
    ensures
        answered matches Ok(u) ==> {
            &&& r.0@.last_mam_contact == Some(
                ContactView::Reached {
                    at: at@,
                    reached: true,
                    ip: u.ip@,
                    asn: u.asn,
                    as_name: u.as_name@,
                    ip_update: Some(
                        IpUpdateView {
                            success: u.success,
                            msg: u.msg@,
                            http_status: u.http_status,
                        },
                    ),
                },
            )
            &&& r.0@.cookie == Some(
                match u.rotated_cookie {
                    Some(rotated) => rotated@,
                    None => cookie,
                },
            )
        },
{
}

/// Without a cookie, or with an empty one, a contact is a lookup: what it found
/// out is recorded, with no update and no cookie.
pub proof fn law_lookup_is_recorded_as_answered(
    prev: Option<&State>,
    client: &MamClient,
    at: &str,
    fetched: &Fetched,
    answered: Result<mam::HostInfo, AppError>,
    r: (SerializedState, Vec<LogEntry>),
)
    requires
        call_ensures(contact_mam, (prev, client, at, fetched), r),
        call_ensures(MamClient::get_host_info, (client, fetched), answered),
        prev matches Some(s) ==> s@.cookie matches Some(c) ==> c.len() == 0,
    ensures
        answered matches Ok(i) ==> {
            &&& r.0@.last_mam_contact == Some(
                ContactView::Reached {
                    at: at@,
                    reached: true,
                    ip: i.ip@,
                    asn: i.asn,
                    as_name: i.as_name@,
                    ip_update: None,
                },
            )
            &&& r.0@.cookie is None
        },
{
}

/// A contact that failed is recorded with the type and the message of its
/// error, and leaves the cookie as it stands.
pub proof fn law_failure_is_recorded(
    prev: Option<&State>,
    client: &MamClient,
    at: &str,
    fetched: &Fetched,
    update: Result<mam::MamUpdateResult, AppError>,
    lookup: Result<mam::HostInfo, AppError>,
    r: (SerializedState, Vec<LogEntry>),
)
    requires
        call_ensures(contact_mam, (prev, client, at, fetched), r),
        call_ensures(MamClient::update_mam_ip, (client, fetched), update),
        call_ensures(MamClient::get_host_info, (client, fetched), lookup),
    ensures
        ({
            let with_cookie = prev matches Some(s) && s@.cookie matches Some(c) && c.len() > 0;
            let failed = if with_cookie {
                error::viewed(update) is Err
            } else {
                error::viewed(lookup) is Err
            };
            let e = if with_cookie {
                update->Err_0
            } else {
                lookup->Err_0
            };
            failed ==> {
                &&& r.0@.last_mam_contact == Some(
                    ContactView::Unreached {
                        at: at@,
                        reached: false,
                        error_type: e.body.error_type@,
                        message: e.body.message@,
                    },
                )
                &&& r.0@.cookie == match prev {
                    Some(s) => s@.cookie,
                    None => None,
                }
            }
        }),
{
}

/// What is recorded of a contact rests on the cookie, the time and the answer
/// alone: from two states with the same cookie the same is recorded, whatever
/// else they hold.
pub proof fn law_record_forgets_the_contact_before(
    one: Option<&State>,
    other: Option<&State>,
    client: &MamClient,
    at: &str,
    fetched: &Fetched,
    r: (SerializedState, Vec<LogEntry>),
    q: (SerializedState, Vec<LogEntry>),
)
    requires
        call_ensures(contact_mam, (one, client, at, fetched), r),
        call_ensures(contact_mam, (other, client, at, fetched), q),
        match (one, other) {
            (Some(a), Some(b)) => a@.cookie == b@.cookie,
            (Some(a), None) => a@.cookie is None,
            (None, Some(b)) => b@.cookie is None,
            (None, None) => true,
        },
    ensures
        r.0@ == q.0@,
{
}

/// Of an update the log says, last, in MAM's words what came of it, as an error
/// with the status where it was not applied. A change of the network since the
/// contact before is said first.
pub proof fn law_update_is_logged(
    prev: Option<&State>,
    client: &MamClient,
    at: &str,
    fetched: &Fetched,
    answered: Result<mam::MamUpdateResult, AppError>,
    ip: &str,
    change: Option<String>,
    r: (SerializedState, Vec<LogEntry>),
)
    requires
        call_ensures(contact_mam, (prev, client, at, fetched), r),
        call_ensures(MamClient::update_mam_ip, (client, fetched), answered),
        prev matches Some(s) && s@.cookie matches Some(c) && c.len() > 0,
        answered matches Ok(u) && u.ip@ == ip@ && call_ensures(
            log_network_change,
            (prev, ip, u.asn),
            change,
        ),
    ensures
        ({
            let u = answered->Ok_0;
            let last = r.1@[r.1@.len() - 1]@;
            &&& r.1@.len() == (if change is Some {
                2int
            } else {
                1int
            })
            &&& change matches Some(words) ==> r.1@[0]@ == (LogView {
                level: LogLevel::Info,
                message: words@,
            })
            &&& u.success ==> last == (LogView {
                level: LogLevel::Info,
                message: "MAM update: "@ + u.msg@,
            })
            &&& !u.success ==> last == (LogView {
                level: LogLevel::Error,
                message: "MAM update not applied ("@ + text::decimal(u.http_status as nat) + "): "@
                    + u.msg@,
            })
        }),
{
    let views = log_views(r.1@);
    assert(views.len() == r.1@.len());
    assert(views[views.len() - 1] == r.1@[r.1@.len() - 1]@);
    assert(views[0] == r.1@[0]@);
}

/// A failure to reach MAM is logged as one error, with the words of the error.
pub proof fn law_failure_is_logged(
    prev: Option<&State>,
    client: &MamClient,
    at: &str,
    fetched: &Fetched,
    r: (SerializedState, Vec<LogEntry>),
)
    requires
        call_ensures(contact_mam, (prev, client, at, fetched), r),
    ensures
        r.0@.last_mam_contact matches Some(ContactView::Unreached { message, .. }) ==> r.1@.len()
            == 1 && r.1@[0]@ == (LogView {
            level: LogLevel::Error,
            message: "Could not reach MAM: "@ + message,
        }),
        r.0@.last_mam_contact matches Some(ContactView::Reached { ip_update: None, .. })
            ==> r.1@.len() == 1 && r.1@[0]@.level == LogLevel::Info,
{
    let views = log_views(r.1@);
    assert(views.len() == r.1@.len());
    assert(views[0] == r.1@[0]@);
}

/// A change of the network is told of by what changed since the last contact
/// that reached MAM: the address with the one before, the number with the one
/// before, both or neither. Without such a contact there is no change.
pub proof fn law_network_change_names_what_changed(
    prev: Option<&State>,
    new_ip: &str,
    new_asn: i64,
    r: Option<String>,
)
    requires
        call_ensures(log_network_change, (prev, new_ip, new_asn), r),
    ensures
        ({
            let before = match prev {
                Some(s) => s@.last_mam_contact,
                None => None,
            };
            match before {
                Some(MamContactView { body: ContactView::Reached { ip, asn, .. }, .. }) => {
                    let address = "IP "@ + ip + " -> "@ + new_ip@;
                    let network = "ASN "@ + text::signed_decimal(asn as int) + " -> "@
                        + text::signed_decimal(new_asn as int);
                    &&& r is None <==> ip == new_ip@ && asn == new_asn
                    &&& ip != new_ip@ && asn == new_asn ==> r.deep_view() == Some(
                        "Network change: "@ + address,
                    )
                    &&& ip == new_ip@ && asn != new_asn ==> r.deep_view() == Some(
                        "Network change: "@ + network,
                    )
                    &&& ip != new_ip@ && asn != new_asn ==> r.deep_view() == Some(
                        "Network change: "@ + address + ", "@ + network,
                    )
                },
                _ => r is None,
            }
        }),
{
}

/// A new cookie takes the place of the stored one, and nothing else changes;
/// without a new one, the state is as it was.
pub proof fn law_new_cookie_replaces_the_old(
    disk: Option<State>,
    new_cookie: Option<String>,
    r: Option<State>,
)
    requires
        call_ensures(apply_cookie, (disk, new_cookie), r),
    ensures
        new_cookie is None ==> (r is Some <==> disk is Some) && (disk matches Some(s) ==> r->0@
            == s@),
        new_cookie matches Some(c) ==> r matches Some(s) && s@.cookie == Some(c@) && s@.last_mam_contact
            == match disk {
            Some(d) => d@.last_mam_contact,
            None => None,
        },
{
}

/// A contact begins with the state as it was read and the new cookie put in,
/// and asks MAM with the cookie that then stands: an update where there is one
/// that is not empty, else a lookup. A state that could not be read ends the
/// contact with that error, and nobody is told.
pub proof fn law_contact_begins_with_the_stored_cookie(
    scheduler: &mut Scheduler,
    read: Result<Option<State>, AppError>,
    new_cookie: Option<String>,
    r: (ContactStep, Vec<LogEntry>),
)
    requires
        call_ensures(Scheduler::begin_contact, (scheduler, read, new_cookie), r),
    ensures
        read matches Err(e) ==> {
            &&& r.0@ == (ContactStepView::Done {
                result: Err(e@),
                notify: false,
                action: TransportAction::Nothing,
            })
            &&& !final(scheduler)@.under_way
            &&& final(scheduler)@.armed == !old(scheduler)@.stopped
            &&& final(scheduler)@.transport_failures == old(scheduler)@.transport_failures
        },
        read matches Ok(disk) ==> {
            let cookie = match new_cookie {
                Some(c) => Some(c@),
                None => match disk {
                    Some(s) => s@.cookie,
                    None => None,
                },
            };
            &&& final(scheduler)@ == (SchedulerView { under_way: true, ..old(scheduler)@ })
            &&& r.1@.len() == 0
            &&& r.0 matches ContactStep::Fetch { base, at, request } && {
                &&& exists|now: ZonedView| #[trigger] timefmt::may_be_now(now) && now.wire == at@
                &&& (base matches Some(s) && s@.cookie is Some) <==> cookie is Some
                &&& base matches Some(s) ==> s@.cookie == cookie && s@.last_mam_contact
                    == match disk {
                    Some(d) => d@.last_mam_contact,
                    None => None,
                }
                &&& match cookie {
                    Some(c) => if c.len() > 0 {
                        &&& request.url@ == old(scheduler)@.client.base_url
                            + "/json/dynamicSeedbox.php"@
                        &&& request.cookie.deep_view() == Some("mam_id="@ + c)
                    } else {
                        &&& request.url@ == old(scheduler)@.client.base_url + "/json/jsonIp.php"@
                        &&& request.cookie is None
                    },
                    None => {
                        &&& request.url@ == old(scheduler)@.client.base_url + "/json/jsonIp.php"@
                        &&& request.cookie is None
                    },
                }
            }
        },
{
}

/// What is stored of an answer is what `contact_mam` makes of it: it is written
/// to the state file of the store, as a document that is read back as that
/// state, and logged in its words.
pub proof fn law_answer_is_stored(
    scheduler: &Scheduler,
    base: Option<State>,
    prev: Option<&State>,
    client: &MamClient,
    at: &str,
    fetched: &Fetched,
    made: (SerializedState, Vec<LogEntry>),
    r: (ContactStep, Vec<LogEntry>),
)
    requires
        call_ensures(Scheduler::contact_answered, (scheduler, base, at, fetched), r),
        call_ensures(contact_mam, (prev, client, at, fetched), made),
        client@ == scheduler@.client,
        state_view(base) == borrowed_view(prev),
    ensures
        r.0 matches ContactStep::Store { state, steps } && {
            let contents = crate::json::pretty_json(state::state_json(made.0@));
            &&& state@ == made.0@
            &&& state::document_read(contents, scheduler@.store.path) == Ok::<
                SerializedStateView,
                AppErrorView,
            >(made.0@)
            &&& state::step_views(steps@) == state::write_steps(scheduler@.store, contents)
        },
        log_views(r.1@) == log_views(made.1@),
{
}

/// A contact ends with its state where that was stored, and clients are told;
/// where it was not, it ends in that error and nobody is told. Either way no
/// contact is under way any more, and the next one is scheduled unless the
/// process is to be given up.
pub proof fn law_contact_ends_as_it_was_stored(
    scheduler: &mut Scheduler,
    state: SerializedState,
    stored: Result<(), AppError>,
    interface_present: bool,
    r: (ContactStep, Vec<LogEntry>),
)
    requires
        call_ensures(
            Scheduler::contact_stored,
            (scheduler, state, stored, interface_present),
            r,
        ),
    ensures
        !final(scheduler)@.under_way,
        final(scheduler)@.stopped == old(scheduler)@.stopped,
        final(scheduler)@.client == old(scheduler)@.client,
        final(scheduler)@.store == old(scheduler)@.store,
        final(scheduler)@.interval_nanoseconds == old(scheduler)@.interval_nanoseconds,
        stored is Err ==> final(scheduler)@.transport_failures == old(
            scheduler,
        )@.transport_failures,
        stored is Ok && !(state@.last_mam_contact matches Some(ContactView::Unreached { .. }))
            ==> final(scheduler)@.transport_failures == 0,
        stored is Ok && (state@.last_mam_contact matches Some(ContactView::Unreached { .. }))
            && interface_present && old(scheduler)@.transport_failures < u32::MAX
            ==> final(scheduler)@.transport_failures == old(scheduler)@.transport_failures + 1,
        r.0@ matches ContactStepView::Done { result, notify, action } && {
            &&& notify == stored is Ok
            &&& stored is Ok ==> result == Ok::<SerializedStateView, AppErrorView>(state@)
            &&& stored matches Err(e) ==> result == Err::<SerializedStateView, AppErrorView>(e@)
                && action == TransportAction::Nothing
            &&& action != TransportAction::Exit ==> final(scheduler)@.armed
                == !old(scheduler)@.stopped
            &&& action == TransportAction::Exit ==> final(scheduler)@.armed == old(scheduler)@.armed
            &&& action == TransportAction::Nothing ==> r.1@.len() == (if final(scheduler)@.next_contact_at is Some {
                1int
            } else {
                0int
            })
            &&& action != TransportAction::Nothing ==> state@.last_mam_contact matches Some(
                ContactView::Unreached { .. },
            )
        },
{
    assert(log_views(r.1@).len() == r.1@.len());
}

/// Failures to reach MAM, and nothing else, are counted. The count only says
/// what is to be done: every third failure in a row rebuilds the client, the
/// ninth and any after it gives up the process, and so does any where the
/// network interface is gone. What is to be done is logged as one error.
pub proof fn law_failures_in_a_row(
    scheduler: &mut Scheduler,
    serialized: &SerializedState,
    interface_present: bool,
    r: (TransportAction, Vec<LogEntry>),
)
    requires
        call_ensures(
            Scheduler::note_transport_outcome,
            (scheduler, serialized, interface_present),
            r,
        ),
    ensures
        ({
            let failed = serialized@.last_mam_contact matches Some(ContactView::Unreached { .. });
            let before = old(scheduler)@.transport_failures;
            let after = final(scheduler)@.transport_failures;
            &&& final(scheduler)@ == (SchedulerView {
                transport_failures: after,
                ..old(scheduler)@
            })
            &&& !failed ==> after == 0 && r.0 == TransportAction::Nothing
            &&& failed && !interface_present ==> after == before && r.0 == TransportAction::Exit
            &&& failed && interface_present && before < u32::MAX ==> after == before + 1
            &&& failed && interface_present ==> r.0 == if before >= 8 {
                TransportAction::Exit
            } else if before == 2 || before == 5 {
                TransportAction::Rebuild
            } else {
                TransportAction::Nothing
            }
            &&& r.1@.len() == (if r.0 == TransportAction::Nothing {
                0int
            } else {
                1int
            })
            &&& r.0 != TransportAction::Nothing ==> r.1@[0]@.level == LogLevel::Error
            &&& r.0 == TransportAction::Rebuild ==> text::decimal(after as nat).is_prefix_of(
                r.1@[0]@.message,
            )
        }),
{
    let views = log_views(r.1@);
    assert(views.len() == r.1@.len());
    if views.len() > 0 {
        assert(views[0] == r.1@[0]@);
    }
    if r.0 == TransportAction::Rebuild {
        let count = text::decimal(final(scheduler)@.transport_failures as nat);
        assert(views[0].message.take(count.len() as int) =~= count);
    }
}

/// The next contact is one interval after the moment from which it is
/// scheduled, and that is what the log names; nothing is scheduled once the
/// loop was stopped. Nothing else changes.
pub proof fn law_next_contact_is_one_interval_later(
    scheduler: &mut Scheduler,
    now: &ZonedTime,
    r: Vec<LogEntry>,
)
    requires
        call_ensures(Scheduler::schedule_from, (scheduler, now), r),
    ensures
        ({
            let before = old(scheduler)@;
            let after = final(scheduler)@;
            let next = now@.instant + before.interval_nanoseconds;
            &&& after.armed == !before.stopped
            &&& after == (SchedulerView {
                armed: after.armed,
                next_contact_at: after.next_contact_at,
                ..before
            })
            &&& before.stopped ==> after.next_contact_at is None && r@.len() == 0
            &&& !before.stopped && timefmt::in_range(next) ==> after.next_contact_at is Some
            &&& after.next_contact_at matches Some(at) ==> at.instant == next && r@.len() == 1
                && r@[0]@ == (LogView {
                level: LogLevel::Info,
                message: "Next automatic update scheduled for "@ + at.wire,
            })
        }),
{
    let views = log_views(r@);
    assert(views.len() == r@.len());
    if views.len() > 0 {
        assert(views[0] == r@[0]@);
    }
}

/// A timer runs where one is armed, for the interval that was configured, and a
/// stop ends it. A stop leaves a contact that is under way alone, and is
/// complete when none is.
pub proof fn law_stop_ends_the_timer(
    scheduler: &mut Scheduler,
    stopped: &Scheduler,
    timer: Option<Double>,
    next: Option<&ZonedTime>,
    drained: bool,
)
    requires
        call_ensures(Scheduler::stop, (scheduler,), ()),
        *stopped == *final(scheduler),
        call_ensures(Scheduler::timer, (stopped,), timer),
        call_ensures(Scheduler::next_contact_at, (stopped,), next),
        call_ensures(Scheduler::drained, (stopped,), drained),
    ensures
        timer is None,
        next is None,
        drained == !old(scheduler)@.under_way,
        stopped@.stopped,
        stopped@.under_way == old(scheduler)@.under_way,
        stopped@.transport_failures == old(scheduler)@.transport_failures,
{
}

/// While a timer is armed it runs for the configured interval, and what is
/// announced is what was scheduled.
pub proof fn law_timer_runs_the_interval(
    scheduler: &Scheduler,
    timer: Option<Double>,
    next: Option<&ZonedTime>,
    drained: bool,
    timeout: Double,
)
    requires
        call_ensures(Scheduler::timer, (scheduler,), timer),
        call_ensures(Scheduler::next_contact_at, (scheduler,), next),
        call_ensures(Scheduler::drained, (scheduler,), drained),
        call_ensures(Scheduler::mam_timeout, (scheduler,), timeout),
    ensures
        timer is Some <==> scheduler@.armed,
        timer matches Some(seconds) ==> seconds == scheduler@.interval_seconds,
        next is Some <==> scheduler@.next_contact_at is Some,
        next matches Some(at) ==> scheduler@.next_contact_at == Some(at@),
        drained <==> scheduler@.stopped && !scheduler@.under_way,
        timeout == scheduler@.client.timeout_seconds,
{
}

/// A new loop is idle and counts no failures, contacts through the client and
/// the store that it was given, and keeps the interval that it was given.
pub proof fn law_new_loop_is_idle(
    store: Store,
    client: MamClient,
    interval_seconds: Double,
    interval_nanoseconds: i64,
    interval_text: &str,
    r: Scheduler,
)
    requires
        call_ensures(
            Scheduler::new,
            (store, client, interval_seconds, interval_nanoseconds, interval_text),
            r,
        ),
    ensures
        r@.store == store@,
        r@.client == client@,
        r@.interval_seconds == interval_seconds,
        r@.interval_nanoseconds == interval_nanoseconds,
        r@.transport_failures == 0,
        !r@.armed,
        !r@.stopped,
        !r@.under_way,
        r@.next_contact_at is None,
{
}

/// The contact is over, in an error of that type that nobody is told of.
pub open spec fn over_with(step: ContactStepView, error_type: Seq<char>) -> bool {
    step matches ContactStepView::Done { result: Err(e), notify, action } && e.body.error_type
        == error_type && !notify
}

/// MAM is asked with that cookie: as it stands, and with none where it is empty
/// or missing.
pub open spec fn asks_with(step: ContactStepView, cookie: Option<Seq<char>>) -> bool {
    step matches ContactStepView::Fetch { request, .. } && match cookie {
        Some(c) => if c.len() > 0 {
            request.cookie == Some("mam_id="@ + c)
        } else {
            request.cookie is None
        },
        None => request.cookie is None,
    }
}

/// A contact goes by the state file as it is read for it: a missing file is a
/// state without a cookie, what cannot be read ends the contact in an error,
/// and what is read sends MAM the cookie that it holds, unless a new one takes
/// its place.
pub proof fn law_contact_goes_by_the_state_file(
    scheduler: &mut Scheduler,
    new_cookie: Option<String>,
    contents: &FileContents,
    r: (ContactStep, Vec<LogEntry>),
)
    requires
        call_ensures(Scheduler::commit_contact, (scheduler, new_cookie, contents), r),
    ensures
        contents is Unreadable ==> over_with(r.0@, "file-read-error"@),
        contents is Missing ==> asks_with(r.0@, new_cookie.deep_view()),
        contents matches FileContents::Text(t) ==> match state::document_read(
            t@,
            old(scheduler)@.store.path,
        ) {
            Err(e) => over_with(r.0@, e.body.error_type) && r.0@->result == Err::<
                SerializedStateView,
                AppErrorView,
            >(e),
            Ok(s) => {
                let cookie = match new_cookie {
                    Some(c) => Some(c@),
                    None => s.cookie,
                };
                &&& asks_with(r.0@, cookie) || over_with(r.0@, "unhandled-error"@)
                &&& s.last_mam_contact is None ==> asks_with(r.0@, cookie)
                &&& r.0@ matches ContactStepView::Fetch { base, .. } ==> base is Some
                    && base->0.cookie == cookie
            },
        },
{
}

/// Scheduling by the clock arms the timer unless the loop was stopped, and
/// changes nothing but the timer and what is announced.
pub proof fn law_scheduling_arms_the_timer(scheduler: &mut Scheduler, r: Vec<LogEntry>)
    requires
        call_ensures(Scheduler::schedule_next, (scheduler,), r),
    ensures
        ({
            let before = old(scheduler)@;
            let after = final(scheduler)@;
            &&& after.armed == !before.stopped
            &&& before.stopped ==> after.next_contact_at is None
            &&& after == (SchedulerView {
                armed: after.armed,
                next_contact_at: after.next_contact_at,
                ..before
            })
            &&& after.next_contact_at matches Some(at) ==> exists|now: ZonedView|
                #[trigger] timefmt::may_be_now(now) && at.instant == now.instant
                    + before.interval_nanoseconds
        }),
{
}

/// The log names the interval when the loop starts.
pub proof fn law_start_names_the_interval(scheduler: &Scheduler, r: LogEntry)
    requires
        call_ensures(Scheduler::start, (scheduler,), r),
    ensures
        r.level == LogLevel::Info,
        text::occurs_in(r.message@, scheduler@.interval_text),
        r.message@ == "Background update task started, running on "@ + scheduler@.interval_text
            + " second interval"@,
{
    let before = "Background update task started, running on "@;
    let n = before.len() as int;
    let words = r.message@;
    assert(words.subrange(n, n + scheduler@.interval_text.len()) =~= scheduler@.interval_text);
}

} // verus!
