//! The state file: one JSON document, the single source of truth. Members are
//! written in a fixed order and absent ones are left out. Only a missing file
//! means a fresh install; any other trouble is an error, because taking an
//! unreadable file for "no state" would let the next contact write a
//! cookieless state over the real one.

use crate::error;
use crate::error::{AppError, AppErrorView, Issue, IssueView};
use crate::json;
use crate::json::JsonView;
use crate::text;
use crate::timefmt;
use crate::timefmt::{ZonedTime, ZonedView};
use vstd::prelude::*;

verus! {

pub const STATE_VERSION: u64 = 2;

// On-disk and wire shapes.
#[derive(Debug, PartialEq)]
pub struct IpUpdate {
    pub success: bool,
    pub msg: String,
    pub http_status: u16,
}

#[verifier::ext_equal]
pub struct IpUpdateView {
    pub success: bool,
    pub msg: Seq<char>,
    pub http_status: u16,
}

#[derive(Debug, PartialEq)]
pub struct ContactError {
    pub error_type: String,
    pub message: String,
}

/// The outcome of a contact with MAM. `reached` repeats in the document which
/// of the two it is.
#[derive(Debug, PartialEq)]
pub enum SerializedMamContact {
    Unreached { at: String, reached: bool, error: ContactError },
    Reached {
        at: String,
        reached: bool,
        ip: String,
        asn: i64,
        as_name: String,
        ip_update: Option<IpUpdate>,
    },
}

#[verifier::ext_equal]
pub enum ContactView {
    Unreached { at: Seq<char>, reached: bool, error_type: Seq<char>, message: Seq<char> },
    Reached {
        at: Seq<char>,
        reached: bool,
        ip: Seq<char>,
        asn: i64,
        as_name: Seq<char>,
        ip_update: Option<IpUpdateView>,
    },
}

#[derive(Debug, PartialEq)]
pub struct SerializedState {
    pub version: u64,
    pub cookie: Option<String>,
    pub last_mam_contact: Option<SerializedMamContact>,
}

#[verifier::ext_equal]
pub struct SerializedStateView {
    pub version: u64,
    pub cookie: Option<Seq<char>>,
    pub last_mam_contact: Option<ContactView>,
}

/// The state in memory: no version, and the time of the last contact parsed.
#[derive(Debug, PartialEq)]
pub struct State {
    pub cookie: Option<String>,
    pub last_mam_contact: Option<MamContact>,
}

#[derive(Debug, PartialEq)]
pub struct MamContact {
    pub at: ZonedTime,
    pub body: SerializedMamContact,
}

#[verifier::ext_equal]
pub struct MamContactView {
    pub at: ZonedView,
    pub body: ContactView,
}

#[verifier::ext_equal]
pub struct StateView {
    pub cookie: Option<Seq<char>>,
    pub last_mam_contact: Option<MamContactView>,
}

impl View for IpUpdate {
    type V = IpUpdateView;

    open spec fn view(&self) -> IpUpdateView {
        IpUpdateView { success: self.success, msg: self.msg@, http_status: self.http_status }
    }
}

impl View for SerializedMamContact {
    type V = ContactView;

    open spec fn view(&self) -> ContactView {
        match self {
            SerializedMamContact::Unreached { at, reached, error } => ContactView::Unreached {
                at: at@,
                reached: *reached,
                error_type: error.error_type@,
                message: error.message@,
            },
            SerializedMamContact::Reached { at, reached, ip, asn, as_name, ip_update } => {
                ContactView::Reached {
                    at: at@,
                    reached: *reached,
                    ip: ip@,
                    asn: *asn,
                    as_name: as_name@,
                    ip_update: match ip_update {
                        Some(u) => Some(u@),
                        None => None,
                    },
                }
            },
        }
    }
}

impl View for SerializedState {
    type V = SerializedStateView;

    open spec fn view(&self) -> SerializedStateView {
        SerializedStateView {
            version: self.version,
            cookie: self.cookie.deep_view(),
            last_mam_contact: match self.last_mam_contact {
                Some(c) => Some(c@),
                None => None,
            },
        }
    }
}

impl View for MamContact {
    type V = MamContactView;

    open spec fn view(&self) -> MamContactView {
        MamContactView { at: self.at@, body: self.body@ }
    }
}

impl View for State {
    type V = StateView;

    open spec fn view(&self) -> StateView {
        StateView {
            cookie: self.cookie.deep_view(),
            last_mam_contact: match self.last_mam_contact {
                Some(c) => Some(c@),
                None => None,
            },
        }
    }
}

impl ContactView {
    /// The time of the contact, as written.
    pub open spec fn at(self) -> Seq<char> {
        match self {
            ContactView::Unreached { at, .. } => at,
            ContactView::Reached { at, .. } => at,
        }
    }

    /// The `reached` member says what the rest of the document says.
    pub open spec fn consistent(self) -> bool {
        match self {
            ContactView::Unreached { reached, .. } => !reached,
            ContactView::Reached { reached, .. } => reached,
        }
    }
}

impl SerializedStateView {
    /// A state as the library writes it: of the current version, with a
    /// consistent contact if there is one.
    pub open spec fn current(self) -> bool {
        &&& self.version == STATE_VERSION
        &&& self.last_mam_contact matches Some(c) ==> c.consistent()
    }
}

// Documents: what each shape is written as.
pub open spec fn ip_update_members(u: IpUpdateView) -> Seq<(Seq<char>, JsonView)> {
    seq![
        ("success"@, JsonView::Bool(u.success)),
        ("msg"@, JsonView::Text(u.msg)),
        ("httpStatus"@, JsonView::Unsigned(u.http_status as u64)),
    ]
}

pub open spec fn ip_update_json(u: IpUpdateView) -> JsonView {
    JsonView::Object(ip_update_members(u))
}

pub open spec fn integer_json(n: i64) -> JsonView {
    if n < 0 {
        JsonView::Negative(n)
    } else {
        JsonView::Unsigned(n as u64)
    }
}

pub open spec fn contact_error_members(error_type: Seq<char>, message: Seq<char>) -> Seq<
    (Seq<char>, JsonView),
> {
    seq![("type"@, JsonView::Text(error_type)), ("message"@, JsonView::Text(message))]
}

pub open spec fn contact_members(c: ContactView) -> Seq<(Seq<char>, JsonView)> {
    match c {
        ContactView::Unreached { at, reached, error_type, message } => seq![
            ("at"@, JsonView::Text(at)),
            ("reached"@, JsonView::Bool(reached)),
            ("error"@, JsonView::Object(contact_error_members(error_type, message))),
        ],
        ContactView::Reached { at, reached, ip, asn, as_name, ip_update } => json::with_member(
            seq![
                ("at"@, JsonView::Text(at)),
                ("reached"@, JsonView::Bool(reached)),
                ("ip"@, JsonView::Text(ip)),
                ("asn"@, integer_json(asn)),
                ("as"@, JsonView::Text(as_name)),
            ],
            "ipUpdate"@,
            match ip_update {
                Some(u) => Some(ip_update_json(u)),
                None => None,
            },
        ),
    }
}

pub open spec fn contact_json(c: ContactView) -> JsonView {
    JsonView::Object(contact_members(c))
}

pub open spec fn state_members(s: SerializedStateView) -> Seq<(Seq<char>, JsonView)> {
    let cookie = match s.cookie {
        Some(c) => Some(JsonView::Text(c)),
        None => None,
    };
    let contact = match s.last_mam_contact {
        Some(c) => Some(contact_json(c)),
        None => None,
    };
    json::with_member(
        json::with_member(
            seq![("version"@, JsonView::Unsigned(s.version))],
            "cookie"@,
            cookie,
        ),
        "lastMamContact"@,
        contact,
    )
}

pub open spec fn state_json(s: SerializedStateView) -> JsonView {
    JsonView::Object(state_members(s))
}

// Documents: what each shape is read from.
/// The text under a name.
pub open spec fn text_at(v: JsonView, key: Seq<char>) -> Option<Seq<char>> {
    match json::member_of(v, key) {
        Some(m) => json::text_in(m),
        None => None,
    }
}

pub open spec fn bool_at(v: JsonView, key: Seq<char>) -> Option<bool> {
    match json::member_of(v, key) {
        Some(m) => json::bool_in(m),
        None => None,
    }
}

/// The whole number under a name, written with or without a decimal point.
pub open spec fn whole_at(v: JsonView, key: Seq<char>) -> Option<i64> {
    match json::member_of(v, key) {
        Some(m) => json::whole_in(m),
        None => None,
    }
}

pub open spec fn ip_update_in(v: JsonView) -> Option<IpUpdateView> {
    let status = whole_at(v, "httpStatus"@);
    match (bool_at(v, "success"@), text_at(v, "msg"@), status) {
        (Some(success), Some(msg), Some(status)) => if 0 <= status <= u16::MAX {
            Some(IpUpdateView { success, msg, http_status: status as u16 })
        } else {
            None
        },
        _ => None,
    }
}

pub open spec fn unreached_in(v: JsonView) -> Option<ContactView> {
    let error = match json::member_of(v, "error"@) {
        Some(e) => match (text_at(e, "type"@), text_at(e, "message"@)) {
            (Some(error_type), Some(message)) => Some((error_type, message)),
            _ => None,
        },
        None => None,
    };
    match (text_at(v, "at"@), bool_at(v, "reached"@), error) {
        (Some(at), Some(reached), Some(e)) => Some(
            ContactView::Unreached { at, reached, error_type: e.0, message: e.1 },
        ),
        _ => None,
    }
}

/// The optional update below a contact: missing or `null` is none, and
/// anything that is not an update is refused.
pub open spec fn optional_update_in(v: JsonView) -> Result<Option<IpUpdateView>, ()> {
    match json::member_of(v, "ipUpdate"@) {
        None => Ok(None),
        Some(JsonView::Null) => Ok(None),
        Some(u) => match ip_update_in(u) {
            Some(update) => Ok(Some(update)),
            None => Err(()),
        },
    }
}

pub open spec fn reached_in(v: JsonView) -> Option<ContactView> {
    let asn = whole_at(v, "asn"@);
    match (
        text_at(v, "at"@),
        bool_at(v, "reached"@),
        text_at(v, "ip"@),
        asn,
        text_at(v, "as"@),
        optional_update_in(v),
    ) {
        (Some(at), Some(reached), Some(ip), Some(asn), Some(as_name), Ok(ip_update)) => Some(
            ContactView::Reached { at, reached, ip, asn, as_name, ip_update },
        ),
        _ => None,
    }
}

/// The contact that a document holds. One that is reached and has all that a
/// reached one has is reached; any other is unreached if it has an error, and
/// else reached. Unknown members are ignored.
pub open spec fn contact_in(v: JsonView) -> Option<ContactView> {
    match reached_in(v) {
        Some(c) => if c.consistent() || unreached_in(v) is None {
            Some(c)
        } else {
            unreached_in(v)
        },
        None => unreached_in(v),
    }
}

/// The words in which a document is refused that is neither kind of contact.
pub open spec fn no_contact_words() -> Seq<char> {
    "data did not match any variant of untagged enum SerializedMamContact"@
}

/// The document says that it is of the current version: by the number two,
/// with or without a decimal point.
pub open spec fn says_current(v: JsonView) -> bool {
    match json::member_of(v, "version"@) {
        Some(m) => json::u64_in(m) == Some(STATE_VERSION) || m == JsonView::Float("2.0"@),
        None => false,
    }
}

/// A document of the current version, read strictly, or the words in which it
/// is refused.
pub open spec fn strict_state(v: JsonView) -> Result<SerializedStateView, Seq<char>> {
    let cookie = match json::member_of(v, "cookie"@) {
        None => Ok(None),
        Some(JsonView::Null) => Ok(None),
        Some(JsonView::Text(c)) => Ok(Some(c)),
        Some(other) => Err(json::not_optional_text(other)),
    };
    let contact = match json::member_of(v, "lastMamContact"@) {
        None => Ok(None),
        Some(JsonView::Null) => Ok(None),
        Some(c) => match contact_in(c) {
            Some(contact) => Ok(Some(contact)),
            None => Err(no_contact_words()),
        },
    };
    match (cookie, contact) {
        (Err(words), _) => Err(words),
        (_, Err(words)) => Err(words),
        (Ok(cookie), Ok(last_mam_contact)) => Ok(
            SerializedStateView { version: STATE_VERSION, cookie, last_mam_contact },
        ),
    }
}

/// The cookie that survives from an older version: a `currentCookie` that is a
/// text and not empty.
pub open spec fn rescued_cookie(v: JsonView) -> Option<Seq<char>> {
    match text_at(v, "currentCookie"@) {
        Some(c) => if c.len() > 0 {
            Some(c)
        } else {
            None
        },
        None => None,
    }
}

pub open spec fn one_issue(path: Seq<char>, message: Seq<char>) -> Seq<IssueView> {
    seq![IssueView { path, message }]
}

/// The check that the `reached` member agrees with the rest.
pub open spec fn contact_checked(s: SerializedStateView, source: Seq<char>) -> Result<
    (),
    AppErrorView,
> {
    if s.last_mam_contact matches Some(c) && !c.consistent() {
        Err(
            error::schema_error_of(
                500,
                source,
                one_issue(
                    "lastMamContact.reached"@,
                    "reached flag does not match contact variant"@,
                ),
            ),
        )
    } else {
        Ok(())
    }
}

/// What a document becomes in the current version.
pub open spec fn migrated(v: JsonView, source: Seq<char>) -> Result<
    SerializedStateView,
    AppErrorView,
> {
    if says_current(v) {
        match strict_state(v) {
            Err(words) => Err(error::schema_error_of(500, source, one_issue(Seq::empty(), words))),
            Ok(s) => match contact_checked(s, source) {
                Err(e) => Err(e),
                Ok(_) => Ok(s),
            },
        }
    } else {
        Ok(
            SerializedStateView {
                version: STATE_VERSION,
                cookie: rescued_cookie(v),
                last_mam_contact: None,
            },
        )
    }
}

// Reading.
fn member_text(v: &serde_json::Value, key: &str) -> (r: Option<String>)
    ensures
        r.deep_view() == text_at(json::json_content(*v), key@),
{
    match json::member(v, key) {
        Some(m) => match m.as_str() {
            Some(s) => Some(s.to_owned()),
            None => None,
        },
        None => None,
    }
}

fn member_bool(v: &serde_json::Value, key: &str) -> (r: Option<bool>)
    ensures
        r == bool_at(json::json_content(*v), key@),
{
    match json::member(v, key) {
        Some(m) => m.as_bool(),
        None => None,
    }
}

fn member_whole(v: &serde_json::Value, key: &str) -> (r: Option<i64>)
    ensures
        r == whole_at(json::json_content(*v), key@),
{
    match json::member(v, key) {
        Some(m) => json::whole_number(m),
        None => None,
    }
}

fn read_ip_update(v: &serde_json::Value) -> (r: Option<IpUpdate>)
    ensures
        (match r {
            Some(u) => Some(u@),
            None => None,
        }) == ip_update_in(json::json_content(*v)),
{
    let status: Option<i64> = member_whole(v, "httpStatus");
    match (member_bool(v, "success"), member_text(v, "msg"), status) {
        (Some(success), Some(msg), Some(status)) => if 0 <= status && status <= u16::MAX as i64 {
            Some(IpUpdate { success, msg, http_status: status as u16 })
        } else {
            None
        },
        _ => None,
    }
}

fn read_unreached(v: &serde_json::Value) -> (r: Option<SerializedMamContact>)
    ensures
        (match r {
            Some(c) => Some(c@),
            None => None,
        }) == unreached_in(json::json_content(*v)),
{
    let error: Option<ContactError> = match json::member(v, "error") {
        Some(e) => match (member_text(e, "type"), member_text(e, "message")) {
            (Some(error_type), Some(message)) => Some(ContactError { error_type, message }),
            _ => None,
        },
        None => None,
    };
    match (member_text(v, "at"), member_bool(v, "reached"), error) {
        (Some(at), Some(reached), Some(error)) => Some(
            SerializedMamContact::Unreached { at, reached, error },
        ),
        _ => None,
    }
}

fn read_reached(v: &serde_json::Value) -> (r: Option<SerializedMamContact>)
    ensures
        (match r {
            Some(c) => Some(c@),
            None => None,
        }) == reached_in(json::json_content(*v)),
{
    let asn: Option<i64> = member_whole(v, "asn");
    let ip_update: Option<IpUpdate> = match json::member(v, "ipUpdate") {
        None => None,
        Some(u) => if u.is_null() {
            None
        } else {
            match read_ip_update(u) {
                Some(update) => Some(update),
                None => {
                    return None;
                },
            }
        },
    };
    match (
        member_text(v, "at"),
        member_bool(v, "reached"),
        member_text(v, "ip"),
        asn,
        member_text(v, "as"),
    ) {
        (Some(at), Some(reached), Some(ip), Some(asn), Some(as_name)) => Some(
            SerializedMamContact::Reached { at, reached, ip, asn, as_name, ip_update },
        ),
        _ => None,
    }
}

fn read_contact(v: &serde_json::Value) -> (r: Option<SerializedMamContact>)
    ensures
        (match r {
            Some(c) => Some(c@),
            None => None,
        }) == contact_in(json::json_content(*v)),
{
    match read_reached(v) {
        Some(c) => {
            if is_consistent(&c) {
                Some(c)
            } else {
                match read_unreached(v) {
                    Some(u) => Some(u),
                    None => Some(c),
                }
            }
        },
        None => read_unreached(v),
    }
}

fn is_consistent(c: &SerializedMamContact) -> (r: bool)
    ensures
        r == c@.consistent(),
{
    match c {
        SerializedMamContact::Unreached { reached, .. } => !*reached,
        SerializedMamContact::Reached { reached, .. } => *reached,
    }
}

fn is_current(v: &serde_json::Value) -> (r: bool)
    ensures
        r == says_current(json::json_content(*v)),
{
    match json::member(v, "version") {
        Some(m) => {
            if m.is_f64() {
                match json::number_text(m) {
                    Some(words) => text::same_text(&words, "2.0"),
                    None => false,
                }
            } else {
                m.as_u64() == Some(STATE_VERSION)
            }
        },
        None => false,
    }
}

fn read_strict(v: &serde_json::Value) -> (r: Result<SerializedState, String>)
    ensures
        match r {
            Ok(s) => strict_state(json::json_content(*v)) == Ok::<
                SerializedStateView,
                Seq<char>,
            >(s@),
            Err(words) => strict_state(json::json_content(*v)) == Err::<
                SerializedStateView,
                Seq<char>,
            >(words@),
        },
{
    let cookie: Option<String> = match json::member(v, "cookie") {
        None => None,
        Some(c) => match json::optional_text(c) {
            Ok(text) => text,
            Err(words) => {
                return Err(words);
            },
        },
    };
    let last_mam_contact: Option<SerializedMamContact> = match json::member(v, "lastMamContact") {
        None => None,
        Some(c) => if c.is_null() {
            None
        } else {
            match read_contact(c) {
                Some(contact) => Some(contact),
                None => {
                    return Err(
                        "data did not match any variant of untagged enum SerializedMamContact".to_owned(),
                    );
                },
            }
        },
    };
    Ok(SerializedState { version: STATE_VERSION, cookie, last_mam_contact })
}

fn single_issue(path: &str, message: &str) -> (r: Vec<Issue>)
    ensures
        error::issue_views(r@) == one_issue(path@, message@),
{
    let mut issues: Vec<Issue> = Vec::new();
    issues.push(Issue { path: path.to_owned(), message: message.to_owned() });
    assert(error::issue_views(issues@) =~= one_issue(path@, message@));
    issues
}

/// A document of the current version is read strictly; of any other, only a
/// non-empty `currentCookie` survives.
pub fn migrate_to_current(v: &serde_json::Value, source_name: &str) -> (r: Result<
    SerializedState,
    AppError,
>)
    ensures
        error::viewed(r) == migrated(json::json_content(*v), source_name@),
{
    if is_current(v) {
        match read_strict(v) {
            Err(words) => {
                proof {
                    reveal_strlit("");
                    assert(""@ =~= Seq::<char>::empty());
                }
                Err(error::schema_error(500, source_name, single_issue("", &words)))
            },
            Ok(s) => match validate_contact(&s, source_name) {
                Err(e) => Err(e),
                Ok(_) => Ok(s),
            },
        }
    } else {
        let cookie: Option<String> = match member_text(v, "currentCookie") {
            Some(c) => if c.unicode_len() > 0 {
                Some(c)
            } else {
                None
            },
            None => None,
        };
        Ok(SerializedState { version: STATE_VERSION, cookie, last_mam_contact: None })
    }
}

/// The `reached` member must agree with the kind of contact.
pub fn validate_contact(state: &SerializedState, source_name: &str) -> (r: Result<(), AppError>)
    ensures
        error::viewed(r) == contact_checked(state@, source_name@),
{
    let ok: bool = match &state.last_mam_contact {
        None => true,
        Some(c) => is_consistent(c),
    };
    if ok {
        Ok(())
    } else {
        Err(
            error::schema_error(
                500,
                source_name,
                single_issue(
                    "lastMamContact.reached",
                    "reached flag does not match contact variant",
                ),
            ),
        )
    }
}


// Writing.
proof fn lemma_member_names()
    ensures
        "version"@.len() == 7,
        "cookie"@.len() == 6,
        "lastMamContact"@.len() == 14,
        "at"@.len() == 2,
        "reached"@.len() == 7,
        "error"@.len() == 5,
        "type"@.len() == 4,
        "message"@.len() == 7,
        "ip"@.len() == 2,
        "asn"@.len() == 3,
        "as"@.len() == 2,
        "ipUpdate"@.len() == 8,
        "success"@.len() == 7,
        "msg"@.len() == 3,
        "httpStatus"@.len() == 10,
        "hasCookie"@.len() == 9,
        "hasAuth"@.len() == 7,
        "nextContactAt"@.len() == 13,
        json::raw_token().len() == 30,
        "at"@ != "ip"@,
        "at"@ != "as"@,
        "ip"@ != "as"@,
{
    reveal_strlit("version");
    reveal_strlit("cookie");
    reveal_strlit("lastMamContact");
    reveal_strlit("at");
    reveal_strlit("reached");
    reveal_strlit("error");
    reveal_strlit("type");
    reveal_strlit("message");
    reveal_strlit("ip");
    reveal_strlit("asn");
    reveal_strlit("as");
    reveal_strlit("ipUpdate");
    reveal_strlit("success");
    reveal_strlit("msg");
    reveal_strlit("httpStatus");
    reveal_strlit("hasCookie");
    reveal_strlit("hasAuth");
    reveal_strlit("nextContactAt");
    reveal_strlit("$serde_json::private::RawValue");
    assert("at"@[0] == 'a' && "at"@[1] == 't');
    assert("ip"@[0] == 'i');
    assert("as"@[0] == 'a' && "as"@[1] == 's');
}

impl IpUpdate {
    fn to_value(&self) -> (r: serde_json::Value)
        ensures
            json::json_content(r) == ip_update_json(self@),
    {
        proof {
            lemma_member_names();
        }
        let mut fields: Vec<(String, serde_json::Value)> = Vec::new();
        json::push_member(&mut fields, "success", json::bool_value(self.success));
        json::push_member(&mut fields, "msg", json::text_value(&self.msg));
        json::push_member(&mut fields, "httpStatus", json::unsigned_value(self.http_status as u64));
        assert(json::members_of(fields@) =~= ip_update_members(self@));
        json::object_value(fields)
    }
}

impl SerializedMamContact {
    /// The time of the contact, as written.
    pub fn at(&self) -> (r: &str)
        ensures
            r@ == self@.at(),
    {
        match self {
            SerializedMamContact::Unreached { at, .. } => at.as_str(),
            SerializedMamContact::Reached { at, .. } => at.as_str(),
        }
    }

    /// The contact as a JSON document.
    pub fn to_value(&self) -> (r: serde_json::Value)
        ensures
            json::json_content(r) == contact_json(self@),
    {
        proof {
            lemma_member_names();
        }
        let mut fields: Vec<(String, serde_json::Value)> = Vec::new();
        match self {
            SerializedMamContact::Unreached { at, reached, error } => {
                let mut inner: Vec<(String, serde_json::Value)> = Vec::new();
                json::push_member(&mut inner, "type", json::text_value(&error.error_type));
                json::push_member(&mut inner, "message", json::text_value(&error.message));
                assert(json::members_of(inner@) =~= contact_error_members(
                    error.error_type@,
                    error.message@,
                ));
                json::push_member(&mut fields, "at", json::text_value(at));
                json::push_member(&mut fields, "reached", json::bool_value(*reached));
                json::push_member(&mut fields, "error", json::object_value(inner));
                assert(json::members_of(fields@) =~= contact_members(self@));
            },
            SerializedMamContact::Reached { at, reached, ip, asn, as_name, ip_update } => {
                json::push_member(&mut fields, "at", json::text_value(at));
                json::push_member(&mut fields, "reached", json::bool_value(*reached));
                json::push_member(&mut fields, "ip", json::text_value(ip));
                json::push_member(&mut fields, "asn", json::signed_value(*asn));
                json::push_member(&mut fields, "as", json::text_value(as_name));
                if let Some(update) = ip_update {
                    json::push_member(&mut fields, "ipUpdate", update.to_value());
                }
                assert(json::members_of(fields@) =~= contact_members(self@));
            },
        }
        json::object_value(fields)
    }
}

impl SerializedState {
    /// The state as a JSON document.
    pub fn to_value(&self) -> (r: serde_json::Value)
        ensures
            json::json_content(r) == state_json(self@),
    {
        proof {
            lemma_member_names();
        }
        let mut fields: Vec<(String, serde_json::Value)> = Vec::new();
        json::push_member(&mut fields, "version", json::unsigned_value(self.version));
        if let Some(cookie) = &self.cookie {
            json::push_member(&mut fields, "cookie", json::text_value(cookie));
        }
        if let Some(contact) = &self.last_mam_contact {
            json::push_member(&mut fields, "lastMamContact", contact.to_value());
        }
        assert(json::members_of(fields@) =~= state_members(self@));
        json::object_value(fields)
    }
}

proof fn lemma_update_reads_back(u: IpUpdateView)
    ensures
        ip_update_in(ip_update_json(u)) == Some(u),
        json::plain(ip_update_json(u), 125),
{
    lemma_member_names();
    let m = ip_update_members(u);
    assert(json::distinct_keys(m));
    json::lemma_lookup_at(m, 0);
    json::lemma_lookup_at(m, 1);
    json::lemma_lookup_at(m, 2);
    assert(ip_update_in(ip_update_json(u))->0 =~= u);
    reveal_with_fuel(json::plain, 2);
}

proof fn lemma_contact_reads_back(c: ContactView)
    requires
        c.consistent(),
    ensures
        contact_in(contact_json(c)) == Some(c),
        json::plain(contact_json(c), 126),
{
    lemma_member_names();
    let m = contact_members(c);
    assert(json::distinct_keys(m));
    json::lemma_lookup_at(m, 0);
    json::lemma_lookup_at(m, 1);
    json::lemma_lookup_at(m, 2);
    match c {
        ContactView::Unreached { at, reached, error_type, message } => {
            let inner = contact_error_members(error_type, message);
            assert(json::distinct_keys(inner));
            json::lemma_lookup_at(inner, 0);
            json::lemma_lookup_at(inner, 1);
            assert(!json::has_key(m, "ip"@));
            json::lemma_lookup_absent(m, "ip"@);
            assert(unreached_in(contact_json(c))->0 =~= c);
            reveal_with_fuel(json::plain, 3);
        },
        ContactView::Reached { at, reached, ip, asn, as_name, ip_update } => {
            json::lemma_lookup_at(m, 3);
            json::lemma_lookup_at(m, 4);
            match ip_update {
                Some(u) => {
                    lemma_update_reads_back(u);
                    json::lemma_lookup_at(m, 5);
                },
                None => {
                    assert(!json::has_key(m, "ipUpdate"@));
                    json::lemma_lookup_absent(m, "ipUpdate"@);
                },
            }
            assert(reached_in(contact_json(c))->0 =~= c);
            reveal_with_fuel(json::plain, 2);
        },
    }
}

/// What is written is what is read: the document of a current state migrates
/// to that state, and is one that the printer's text is read back from.
pub proof fn law_document_reads_back(s: SerializedStateView, source: Seq<char>)
    requires
        s.current(),
    ensures
        migrated(state_json(s), source) == Ok::<SerializedStateView, AppErrorView>(s),
        json::plain(state_json(s), json::depth_limit()),
{
    lemma_member_names();
    let m = state_members(s);
    assert(json::distinct_keys(m));
    json::lemma_lookup_at(m, 0);
    assert(m[0] == ("version"@, JsonView::Unsigned(s.version)));
    match s.cookie {
        Some(_) => {
            json::lemma_lookup_at(m, 1);
        },
        None => {
            assert(!json::has_key(m, "cookie"@));
            json::lemma_lookup_absent(m, "cookie"@);
        },
    }
    match s.last_mam_contact {
        Some(c) => {
            json::lemma_lookup_at(m, m.len() - 1);
            lemma_contact_reads_back(c);
        },
        None => {
            assert(!json::has_key(m, "lastMamContact"@));
            json::lemma_lookup_absent(m, "lastMamContact"@);
        },
    }
    assert(strict_state(state_json(s))->Ok_0 =~= s);
    reveal_with_fuel(json::plain, 2);
}


// The state in memory.
impl State {
    /// The state of an install that has no state file yet.
    pub fn fresh() -> (r: Self)
        ensures
            r@ == (StateView { cookie: None, last_mam_contact: None }),
    {
        State { cookie: None, last_mam_contact: None }
    }

    /// The cookie, if there is one: an empty one counts as none.
    pub fn effective_cookie(&self) -> (r: Option<&str>)
        ensures
            r.deep_view() == usable_cookie(self@.cookie),
    {
        match &self.cookie {
            Some(c) => if c.unicode_len() > 0 {
                Some(c.as_str())
            } else {
                None
            },
            None => None,
        }
    }
}

/// A cookie counts where it is there and not empty.
pub open spec fn usable_cookie(cookie: Option<Seq<char>>) -> Option<Seq<char>> {
    match cookie {
        Some(c) => if c.len() > 0 {
            Some(c)
        } else {
            None
        },
        None => None,
    }
}

/// A stored state as it is in memory, given what reading its timestamp gave.
pub open spec fn restored(s: SerializedStateView, at: Result<ZonedView, Seq<char>>) -> Result<
    StateView,
    AppErrorView,
> {
    match s.last_mam_contact {
        None => Ok(StateView { cookie: s.cookie, last_mam_contact: None }),
        Some(body) => match at {
            Ok(at) => Ok(
                StateView {
                    cookie: s.cookie,
                    last_mam_contact: Some(MamContactView { at, body }),
                },
            ),
            Err(words) => Err(error::unhandled_error("invalid stored timestamp: "@ + words)),
        },
    }
}

/// Takes a stored state into memory, given what reading its timestamp gave. A
/// timestamp that cannot be read is an error, never a fresh state.
pub fn restore_state(s: SerializedState, reading: Result<ZonedTime, String>) -> (r: Result<
    State,
    AppError,
>)
    ensures
        error::viewed(r) == restored(s@, timefmt::reading_view(reading)),
{
    let SerializedState { version: _, cookie, last_mam_contact } = s;
    match last_mam_contact {
        None => Ok(State { cookie, last_mam_contact: None }),
        Some(body) => match reading {
            Ok(at) => Ok(State { cookie, last_mam_contact: Some(MamContact { at, body }) }),
            Err(words) => Err(
                error::unhandled(&"invalid stored timestamp: ".to_owned().concat(&words)),
            ),
        },
    }
}

/// The time of the stored contact, if there is one, may read as this.
pub open spec fn time_read(s: SerializedStateView, at: Result<ZonedView, Seq<char>>) -> bool {
    s.last_mam_contact matches Some(c) ==> timefmt::may_read(c.at(), at)
}

/// Takes a stored state into memory.
pub fn deserialize_state(s: SerializedState) -> (r: Result<State, AppError>)
    ensures
        exists|at: Result<ZonedView, Seq<char>>|
            #[trigger] time_read(s@, at) && error::viewed(r) == restored(s@, at),
{
    let reading = match &s.last_mam_contact {
        Some(body) => timefmt::parse_wire(body.at()),
        None => Err(String::new()),
    };
    let ghost outcome = timefmt::reading_view(reading);
    assert(time_read(s@, outcome));
    let r = restore_state(s, reading);
    r
}

// Classification: by the status code alone, never by MAM's words.
pub open spec fn contact_class(contact: Option<ContactView>) -> Seq<char> {
    match contact {
        None => "pending"@,
        Some(ContactView::Unreached { .. }) => "unreachable"@,
        Some(ContactView::Reached { ip_update: None, .. }) => "no-cookie"@,
        Some(ContactView::Reached { ip_update: Some(u), .. }) => if u.http_status == 200 {
            "ok"@
        } else if u.http_status == 429 {
            "throttled"@
        } else {
            "rejected"@
        },
    }
}

pub open spec fn optional_contact(contact: Option<&SerializedMamContact>) -> Option<ContactView> {
    match contact {
        Some(c) => Some(c@),
        None => None,
    }
}

pub fn classify(contact: Option<&SerializedMamContact>) -> (r: &'static str)
    ensures
        r@ == contact_class(optional_contact(contact)),
{
    match contact {
        None => "pending",
        Some(SerializedMamContact::Unreached { .. }) => "unreachable",
        Some(SerializedMamContact::Reached { ip_update, .. }) => match ip_update {
            None => "no-cookie",
            Some(u) => if u.http_status == 200 {
                "ok"
            } else if u.http_status == 429 {
                "throttled"
            } else {
                "rejected"
            },
        },
    }
}

/// MAM's words and its success flag have no say in how an answered update is
/// classified: the status alone decides.
pub proof fn law_class_is_by_status(a: IpUpdateView, b: IpUpdateView, one: ContactView, other: ContactView)
    requires
        one matches ContactView::Reached { ip_update: Some(u), .. } && u == a,
        other matches ContactView::Reached { ip_update: Some(u), .. } && u == b,
        a.http_status == b.http_status,
    ensures
        contact_class(Some(one)) == contact_class(Some(other)),
{
}

// What clients see.
/// The state as clients see it: of the cookie, only whether there is one.
#[derive(Debug)]
pub struct PublicState {
    pub has_cookie: bool,
    pub has_auth: bool,
    pub next_contact_at: Option<String>,
    pub last_mam_contact: Option<SerializedMamContact>,
}

#[verifier::ext_equal]
pub struct PublicStateView {
    pub has_cookie: bool,
    pub has_auth: bool,
    pub next_contact_at: Option<Seq<char>>,
    pub last_mam_contact: Option<ContactView>,
}

impl View for PublicState {
    type V = PublicStateView;

    open spec fn view(&self) -> PublicStateView {
        PublicStateView {
            has_cookie: self.has_cookie,
            has_auth: self.has_auth,
            next_contact_at: self.next_contact_at.deep_view(),
            last_mam_contact: match self.last_mam_contact {
                Some(c) => Some(c@),
                None => None,
            },
        }
    }
}

pub open spec fn public_members(p: PublicStateView) -> Seq<(Seq<char>, JsonView)> {
    let next = match p.next_contact_at {
        Some(at) => Some(JsonView::Text(at)),
        None => None,
    };
    let contact = match p.last_mam_contact {
        Some(c) => Some(contact_json(c)),
        None => None,
    };
    json::with_member(
        json::with_member(
            seq![
                ("hasCookie"@, JsonView::Bool(p.has_cookie)),
                ("hasAuth"@, JsonView::Bool(p.has_auth)),
            ],
            "nextContactAt"@,
            next,
        ),
        "lastMamContact"@,
        contact,
    )
}

pub open spec fn public_json(p: PublicStateView) -> JsonView {
    JsonView::Object(public_members(p))
}

impl PublicState {
    /// The public state as a JSON document.
    pub fn to_value(&self) -> (r: serde_json::Value)
        ensures
            json::json_content(r) == public_json(self@),
    {
        proof {
            lemma_member_names();
        }
        let mut fields: Vec<(String, serde_json::Value)> = Vec::new();
        json::push_member(&mut fields, "hasCookie", json::bool_value(self.has_cookie));
        json::push_member(&mut fields, "hasAuth", json::bool_value(self.has_auth));
        if let Some(at) = &self.next_contact_at {
            json::push_member(&mut fields, "nextContactAt", json::text_value(at));
        }
        if let Some(contact) = &self.last_mam_contact {
            json::push_member(&mut fields, "lastMamContact", contact.to_value());
        }
        assert(json::members_of(fields@) =~= public_members(self@));
        json::object_value(fields)
    }
}

// The store.
/// Where the state file lies. Reading and writing files is the caller's; what
/// is written where, in which order, and what a file's contents mean, is here.
#[derive(Debug)]
pub struct Store {
    dir: String,
    state_path: String,
}

#[verifier::ext_equal]
pub struct StoreView {
    pub dir: Seq<char>,
    pub path: Seq<char>,
}

impl View for Store {
    type V = StoreView;

    closed spec fn view(&self) -> StoreView {
        StoreView { dir: self.dir@, path: self.state_path@ }
    }
}

/// A file name below a directory.
pub open spec fn below(dir: Seq<char>, name: Seq<char>) -> Seq<char> {
    if dir.len() == 0 {
        name
    } else if dir.last() == '/' {
        dir + name
    } else {
        dir + "/"@ + name
    }
}

/// What came of reading the state file.
#[derive(Debug)]
pub enum FileContents {
    Missing,
    Unreadable,
    Text(String),
}

pub enum FileContentsView {
    Missing,
    Unreadable,
    Text(Seq<char>),
}

impl View for FileContents {
    type V = FileContentsView;

    open spec fn view(&self) -> FileContentsView {
        match self {
            FileContents::Missing => FileContentsView::Missing,
            FileContents::Unreadable => FileContentsView::Unreadable,
            FileContents::Text(t) => FileContentsView::Text(t@),
        }
    }
}

/// Something to be done to the file system.
#[derive(Debug)]
pub enum FileAction {
    CreateDirectory(String),
    Write { path: String, contents: String },
    Rename { from: String, to: String },
}

#[verifier::ext_equal]
pub enum FileActionView {
    CreateDirectory(Seq<char>),
    Write { path: Seq<char>, contents: Seq<char> },
    Rename { from: Seq<char>, to: Seq<char> },
}

impl View for FileAction {
    type V = FileActionView;

    open spec fn view(&self) -> FileActionView {
        match self {
            FileAction::CreateDirectory(path) => FileActionView::CreateDirectory(path@),
            FileAction::Write { path, contents } => FileActionView::Write {
                path: path@,
                contents: contents@,
            },
            FileAction::Rename { from, to } => FileActionView::Rename { from: from@, to: to@ },
        }
    }
}

/// A step of a write, and the error to end with where it fails.
#[derive(Debug)]
pub struct WriteStep {
    pub action: FileAction,
    pub failure: AppError,
}

#[verifier::ext_equal]
pub struct WriteStepView {
    pub action: FileActionView,
    pub failure: AppErrorView,
}

impl View for WriteStep {
    type V = WriteStepView;

    open spec fn view(&self) -> WriteStepView {
        WriteStepView { action: self.action@, failure: self.failure@ }
    }
}

pub open spec fn step_views(steps: Seq<WriteStep>) -> Seq<WriteStepView> {
    steps.map_values(|s: WriteStep| s@)
}

/// The steps of a write, to be done in order until one fails: make the
/// directory, write the text beside the state file, and move it over. Errors
/// name the state file, not the one beside it.
pub open spec fn write_steps(store: StoreView, contents: Seq<char>) -> Seq<WriteStepView> {
    let beside = store.path + ".tmp"@;
    seq![
        WriteStepView {
            action: FileActionView::CreateDirectory(store.dir),
            failure: error::directory_creation_error(store.dir),
        },
        WriteStepView {
            action: FileActionView::Write { path: beside, contents },
            failure: error::file_writing_error(store.path),
        },
        WriteStepView {
            action: FileActionView::Rename { from: beside, to: store.path },
            failure: error::file_writing_error(store.path),
        },
    ]
}

/// What a text in the state file at `path` says.
pub open spec fn document_read(contents: Seq<char>, path: Seq<char>) -> Result<
    SerializedStateView,
    AppErrorView,
> {
    match json::parsed_json(vstd::utf8::encode_utf8(contents)) {
        Err(words) => Err(error::file_json_error(path, words)),
        Ok(v) => migrated(v, path),
    }
}

/// What a read of the state file comes to, given what reading the timestamp in
/// it gave.
pub open spec fn state_read(
    contents: FileContentsView,
    path: Seq<char>,
    at: Result<ZonedView, Seq<char>>,
) -> Result<Option<StateView>, AppErrorView> {
    match contents {
        FileContentsView::Missing => Ok(None),
        FileContentsView::Unreadable => Err(error::file_reading_error(path)),
        FileContentsView::Text(t) => match document_read(t, path) {
            Err(e) => Err(e),
            Ok(s) => match restored(s, at) {
                Err(e) => Err(e),
                Ok(state) => Ok(Some(state)),
            },
        },
    }
}

/// Reading the state file may come to this: the timestamp that is read is the
/// one in the file.
pub open spec fn may_come_to(
    contents: FileContentsView,
    path: Seq<char>,
    read: Result<Option<StateView>, AppErrorView>,
) -> bool {
    exists|at: Result<ZonedView, Seq<char>>|
        read == #[trigger] state_read(contents, path, at) && (contents matches FileContentsView::Text(
            t,
        ) ==> document_read(t, path) matches Ok(s) ==> time_read(s, at))
}

/// A read state, by its view.
pub open spec fn optional_state(r: Result<Option<State>, AppError>) -> Result<
    Option<StateView>,
    AppErrorView,
> {
    match r {
        Ok(Some(s)) => Ok(Some(s@)),
        Ok(None) => Ok(None),
        Err(e) => Err(e@),
    }
}

impl Store {
    /// The store in a directory: its state file is `state.json` there.
    pub fn new(dir: &str) -> (r: Self)
        ensures
            r@ == (StoreView { dir: dir@, path: below(dir@, "state.json"@) }),
    {
        let state_path = if dir.unicode_len() == 0 {
            "state.json".to_owned()
        } else if dir.get_char(dir.unicode_len() - 1) == '/' {
            dir.to_owned().concat("state.json")
        } else {
            dir.to_owned().concat("/").concat("state.json")
        };
        Store { dir: dir.to_owned(), state_path }
    }

    /// The path of the state file.
    pub fn path_str(&self) -> (r: String)
        ensures
            r@ == self@.path,
    {
        self.state_path.clone()
    }

    /// The state that the file's contents hold. Only a missing file is a fresh
    /// install; one that cannot be read, or not as a state, is an error.
    pub fn read_if_exists(&self, contents: &FileContents) -> (r: Result<Option<State>, AppError>)
        ensures
            may_come_to(contents@, self@.path, optional_state(r)),
            (r matches Ok(None)) == (contents@ is Missing),
    {
        let contents_text = match contents {
            FileContents::Missing => {
                assert(optional_state(Ok(None)) == state_read(
                    contents@,
                    self@.path,
                    Err(Seq::empty()),
                ));
                return Ok(None);
            },
            FileContents::Unreadable => {
                let e = error::file_read_error(&self.state_path);
                assert(optional_state(Err(e)) == state_read(
                    contents@,
                    self@.path,
                    Err(Seq::empty()),
                ));
                return Err(e);
            },
            FileContents::Text(t) => t,
        };
        match self.read_document(contents_text) {
            Err(e) => {
                assert(optional_state(Err(e)) == state_read(
                    contents@,
                    self@.path,
                    Err(Seq::empty()),
                ));
                Err(e)
            },
            Ok(s) => {
                let r = deserialize_state(s);
                let ghost at = choose|at: Result<ZonedView, Seq<char>>|
                    #[trigger] time_read(s@, at) && error::viewed(r) == restored(s@, at);
                let r = match r {
                    Ok(state) => Ok(Some(state)),
                    Err(e) => Err(e),
                };
                assert(optional_state(r) == state_read(contents@, self@.path, at));
                r
            },
        }
    }

    /// The stored state that a text in the state file says.
    pub fn read_document(&self, contents: &str) -> (r: Result<SerializedState, AppError>)
        ensures
            error::viewed(r) == document_read(contents@, self@.path),
    {
        match json::parse(contents.as_bytes()) {
            Err(words) => Err(error::json_parse_error_file(&self.state_path, &words)),
            Ok(v) => migrate_to_current(&v, &self.state_path),
        }
    }

    /// The text of a state, and the steps that put it into the state file.
    /// What is written reads back as what was written.
    pub fn write(&self, state: &SerializedState) -> (r: Result<Vec<WriteStep>, AppError>)
        ensures
            r matches Ok(steps) && step_views(steps@) == write_steps(
                self@,
                json::pretty_json(state_json(state@)),
            ),
            state@.current() ==> document_read(json::pretty_json(state_json(state@)), self@.path)
                == Ok::<SerializedStateView, AppErrorView>(state@),
    {
        let contents = match json::to_pretty(&state.to_value()) {
            Ok(text) => text,
            Err(words) => {
                return Err(
                    error::unhandled(&"state serialization failed: ".to_owned().concat(&words)),
                );
            },
        };
        proof {
            if state@.current() {
                law_document_reads_back(state@, self@.path);
            }
        }
        let beside = self.state_path.clone().concat(".tmp");
        let mut steps: Vec<WriteStep> = Vec::new();
        steps.push(
            WriteStep {
                action: FileAction::CreateDirectory(self.dir.clone()),
                failure: error::directory_create_error(&self.dir),
            },
        );
        steps.push(
            WriteStep {
                action: FileAction::Write { path: beside.clone(), contents },
                failure: error::file_write_error(&self.state_path),
            },
        );
        steps.push(
            WriteStep {
                action: FileAction::Rename { from: beside, to: self.state_path.clone() },
                failure: error::file_write_error(&self.state_path),
            },
        );
        assert(step_views(steps@) =~= write_steps(
            self@,
            json::pretty_json(state_json(state@)),
        ));
        Ok(steps)
    }
}

/// Corruption is never taken for a fresh install: whatever a file holds, a
/// read of it is a state or an error.
pub proof fn law_only_missing_is_fresh(
    contents: FileContentsView,
    path: Seq<char>,
    at: Result<ZonedView, Seq<char>>,
)
    ensures
        state_read(contents, path, at) == Ok::<Option<StateView>, AppErrorView>(None) <==> contents
            is Missing,
{
}

/// A document of another version leaves nothing but its cookie, and is never
/// refused.
pub proof fn law_migration_keeps_only_the_cookie(v: JsonView, source: Seq<char>)
    requires
        !says_current(v),
    ensures
        migrated(v, source) == Ok::<SerializedStateView, AppErrorView>(
            SerializedStateView {
                version: STATE_VERSION,
                cookie: rescued_cookie(v),
                last_mam_contact: None,
            },
        ),
        rescued_cookie(v) matches Some(c) ==> c.len() > 0,
{
}

/// Whatever is read, from whatever version, is a state of the current one.
pub proof fn law_migrated_is_current(v: JsonView, source: Seq<char>)
    ensures
        migrated(v, source) matches Ok(s) ==> s.current(),
{
}

/// The state file is only ever replaced, in one move, by a text that was
/// written completely elsewhere.
pub proof fn law_write_replaces_in_one_move(store: StoreView, contents: Seq<char>, i: int)
    requires
        0 <= i < write_steps(store, contents).len(),
    ensures
        write_steps(store, contents)[i].action matches FileActionView::Write { path, .. } ==> path
            != store.path,
        write_steps(store, contents)[i].action matches FileActionView::Rename { from, to } ==> {
            &&& to == store.path
            &&& 0 < i
            &&& write_steps(store, contents)[i - 1].action == (FileActionView::Write {
                path: from,
                contents,
            })
        },
{
    reveal_strlit(".tmp");
    assert((store.path + ".tmp"@).len() == store.path.len() + 4);
}

/// A contact is classed by what came of it, whatever its kind: none on record
/// is pending, one that did not reach MAM unreachable, one without an update
/// says that there is no cookie, and of an update the status decides: 200 is
/// ok, 429 throttled, and any other rejected. Each class has this cause alone.
pub proof fn law_class_is_by_outcome(contact: Option<&SerializedMamContact>, r: &'static str)
    requires
        call_ensures(classify, (contact,), r),
    ensures
        r@ == "pending"@ <==> contact is None,
        r@ == "unreachable"@ <==> contact matches Some(SerializedMamContact::Unreached { .. }),
        r@ == "no-cookie"@ <==> contact matches Some(
            SerializedMamContact::Reached { ip_update: None, .. },
        ),
        r@ == "ok"@ <==> (contact matches Some(
            SerializedMamContact::Reached { ip_update: Some(u), .. },
        ) && u.http_status == 200),
        r@ == "throttled"@ <==> (contact matches Some(
            SerializedMamContact::Reached { ip_update: Some(u), .. },
        ) && u.http_status == 429),
        r@ == "rejected"@ <==> (contact matches Some(
            SerializedMamContact::Reached { ip_update: Some(u), .. },
        ) && u.http_status != 200 && u.http_status != 429),
{
    lemma_class_names();
}

proof fn lemma_class_names()
    ensures
        "pending"@.len() == 7,
        "unreachable"@.len() == 11,
        "no-cookie"@.len() == 9,
        "ok"@.len() == 2,
        "throttled"@.len() == 9,
        "rejected"@.len() == 8,
        "no-cookie"@ != "throttled"@,
{
    reveal_strlit("pending");
    reveal_strlit("unreachable");
    reveal_strlit("no-cookie");
    reveal_strlit("ok");
    reveal_strlit("throttled");
    reveal_strlit("rejected");
    assert("no-cookie"@[0] == 'n' && "throttled"@[0] == 't');
}

/// A cookie counts exactly where it is there and not empty, and counts as it
/// stands.
pub proof fn law_empty_cookie_counts_as_none(state: &State, r: Option<&str>)
    requires
        call_ensures(State::effective_cookie, (state,), r),
    ensures
        r is Some <==> (state@.cookie matches Some(c) && c.len() > 0),
        r matches Some(c) ==> state@.cookie == Some(c@),
{
}

/// The names of the members of a document, in order.
pub open spec fn names_in(v: JsonView) -> Seq<Seq<char>> {
    match v {
        JsonView::Object(members) => members.map_values(|m: (Seq<char>, JsonView)| m.0),
        _ => Seq::empty(),
    }
}

/// The document of a contact holds each part of it under its name, in a fixed
/// order, and of what is not there no member.
pub proof fn law_contact_document(contact: &SerializedMamContact, r: serde_json::Value)
    requires
        call_ensures(SerializedMamContact::to_value, (contact,), r),
    ensures
        ({
            let v = json::json_content(r);
            match contact@ {
                ContactView::Unreached { at, reached, error_type, message } => {
                    &&& json::member_of(v, "at"@) == Some(JsonView::Text(at))
                    &&& json::member_of(v, "reached"@) == Some(JsonView::Bool(reached))
                    &&& json::member_of(v, "error"@) matches Some(e) && json::member_of(e, "type"@)
                        == Some(JsonView::Text(error_type)) && json::member_of(e, "message"@)
                        == Some(JsonView::Text(message))
                    &&& json::member_of(v, "ip"@) is None
                    &&& json::member_of(v, "ipUpdate"@) is None
                    &&& names_in(v) == seq!["at"@, "reached"@, "error"@]
                },
                ContactView::Reached { at, reached, ip, asn, as_name, ip_update } => {
                    &&& json::member_of(v, "at"@) == Some(JsonView::Text(at))
                    &&& json::member_of(v, "reached"@) == Some(JsonView::Bool(reached))
                    &&& json::member_of(v, "ip"@) == Some(JsonView::Text(ip))
                    &&& json::member_of(v, "asn"@) matches Some(n) && json::whole_in(n) == Some(asn)
                    &&& json::member_of(v, "as"@) == Some(JsonView::Text(as_name))
                    &&& json::member_of(v, "error"@) is None
                    &&& names_in(v) == seq!["at"@, "reached"@, "ip"@, "asn"@, "as"@] + if ip_update
                        is Some {
                        seq!["ipUpdate"@]
                    } else {
                        Seq::empty()
                    }
                    &&& match ip_update {
                        None => json::member_of(v, "ipUpdate"@) is None,
                        Some(u) => json::member_of(v, "ipUpdate"@) matches Some(w)
                            && json::member_of(w, "success"@) == Some(JsonView::Bool(u.success))
                            && json::member_of(w, "msg"@) == Some(JsonView::Text(u.msg))
                            && json::member_of(w, "httpStatus"@) == Some(
                            JsonView::Unsigned(u.http_status as u64),
                        ),
                    }
                },
            }
        }),
{
    lemma_member_names();
    let c = contact@;
    let m = contact_members(c);
    assert(json::distinct_keys(m));
    json::lemma_lookup_at(m, 0);
    json::lemma_lookup_at(m, 1);
    json::lemma_lookup_at(m, 2);
    match c {
        ContactView::Unreached { at, reached, error_type, message } => {
            let inner = contact_error_members(error_type, message);
            assert(json::distinct_keys(inner));
            json::lemma_lookup_at(inner, 0);
            json::lemma_lookup_at(inner, 1);
            assert(!json::has_key(m, "ip"@));
            json::lemma_lookup_absent(m, "ip"@);
            assert(!json::has_key(m, "ipUpdate"@));
            json::lemma_lookup_absent(m, "ipUpdate"@);
            assert(names_in(contact_json(c)) =~= seq!["at"@, "reached"@, "error"@]);
        },
        ContactView::Reached { at, reached, ip, asn, as_name, ip_update } => {
            json::lemma_lookup_at(m, 3);
            json::lemma_lookup_at(m, 4);
            assert(names_in(contact_json(c)) =~= seq![
                "at"@,
                "reached"@,
                "ip"@,
                "asn"@,
                "as"@,
            ] + if ip_update is Some {
                seq!["ipUpdate"@]
            } else {
                Seq::empty()
            });
            assert(!json::has_key(m, "error"@));
            json::lemma_lookup_absent(m, "error"@);
            match ip_update {
                Some(u) => {
                    let w = ip_update_members(u);
                    assert(json::distinct_keys(w));
                    json::lemma_lookup_at(w, 0);
                    json::lemma_lookup_at(w, 1);
                    json::lemma_lookup_at(w, 2);
                    json::lemma_lookup_at(m, 5);
                },
                None => {
                    assert(!json::has_key(m, "ipUpdate"@));
                    json::lemma_lookup_absent(m, "ipUpdate"@);
                },
            }
        },
    }
}

/// The document of a state holds its version, its cookie and its contact under
/// their names, in this order, and of what is not there no member.
pub proof fn law_state_document(
    state: &SerializedState,
    contact: &SerializedMamContact,
    contact_value: serde_json::Value,
    r: serde_json::Value,
)
    requires
        call_ensures(SerializedState::to_value, (state,), r),
        call_ensures(SerializedMamContact::to_value, (contact,), contact_value),
        state.last_mam_contact matches Some(c) ==> c@ == contact@,
    ensures
        ({
            let v = json::json_content(r);
            &&& json::member_of(v, "version"@) == Some(JsonView::Unsigned(state.version))
            &&& json::member_of(v, "cookie"@) == match state@.cookie {
                Some(c) => Some(JsonView::Text(c)),
                None => None,
            }
            &&& json::member_of(v, "lastMamContact"@) == match state.last_mam_contact {
                Some(_) => Some(json::json_content(contact_value)),
                None => None,
            }
            &&& names_in(v) == seq!["version"@] + (if state.cookie is Some {
                seq!["cookie"@]
            } else {
                Seq::empty()
            }) + if state.last_mam_contact is Some {
                seq!["lastMamContact"@]
            } else {
                Seq::empty()
            }
        }),
{
    lemma_member_names();
    assert(names_in(state_json(state@)) =~= seq!["version"@] + (if state.cookie is Some {
        seq!["cookie"@]
    } else {
        Seq::empty()
    }) + if state.last_mam_contact is Some {
        seq!["lastMamContact"@]
    } else {
        Seq::empty()
    });
    let m = state_members(state@);
    assert(json::distinct_keys(m));
    json::lemma_lookup_at(m, 0);
    match state@.cookie {
        Some(_) => {
            json::lemma_lookup_at(m, 1);
        },
        None => {
            assert(!json::has_key(m, "cookie"@));
            json::lemma_lookup_absent(m, "cookie"@);
        },
    }
    match state@.last_mam_contact {
        Some(c) => {
            json::lemma_lookup_at(m, m.len() - 1);
        },
        None => {
            assert(!json::has_key(m, "lastMamContact"@));
            json::lemma_lookup_absent(m, "lastMamContact"@);
        },
    }
}

/// Clients are shown under its name each thing that there is to show, in a fixed
/// order and nothing besides: whether there is a cookie, whether credentials are
/// asked for, when the next contact is due, and the last contact, of whatever
/// kind, as it is stored.
pub proof fn law_public_document(
    public: &PublicState,
    contact: &SerializedMamContact,
    contact_value: serde_json::Value,
    r: serde_json::Value,
)
    requires
        call_ensures(PublicState::to_value, (public,), r),
        call_ensures(SerializedMamContact::to_value, (contact,), contact_value),
        public.last_mam_contact matches Some(c) ==> c@ == contact@,
    ensures
        ({
            let v = json::json_content(r);
            &&& json::member_of(v, "hasCookie"@) == Some(JsonView::Bool(public.has_cookie))
            &&& json::member_of(v, "hasAuth"@) == Some(JsonView::Bool(public.has_auth))
            &&& json::member_of(v, "nextContactAt"@) == match public@.next_contact_at {
                Some(at) => Some(JsonView::Text(at)),
                None => None,
            }
            &&& json::member_of(v, "lastMamContact"@) == match public.last_mam_contact {
                Some(_) => Some(json::json_content(contact_value)),
                None => None,
            }
            &&& names_in(v) == seq!["hasCookie"@, "hasAuth"@] + (if public.next_contact_at is Some {
                seq!["nextContactAt"@]
            } else {
                Seq::empty()
            }) + if public.last_mam_contact is Some {
                seq!["lastMamContact"@]
            } else {
                Seq::empty()
            }
        }),
{
    lemma_member_names();
    assert(names_in(public_json(public@)) =~= seq!["hasCookie"@, "hasAuth"@] + (
    if public.next_contact_at is Some {
        seq!["nextContactAt"@]
    } else {
        Seq::empty()
    }) + if public.last_mam_contact is Some {
        seq!["lastMamContact"@]
    } else {
        Seq::empty()
    });
    let m = public_members(public@);
    assert(json::distinct_keys(m));
    json::lemma_lookup_at(m, 0);
    json::lemma_lookup_at(m, 1);
    match public@.next_contact_at {
        Some(_) => {
            json::lemma_lookup_at(m, 2);
        },
        None => {
            assert(!json::has_key(m, "nextContactAt"@));
            json::lemma_lookup_absent(m, "nextContactAt"@);
        },
    }
    match public@.last_mam_contact {
        Some(c) => {
            json::lemma_lookup_at(m, m.len() - 1);
        },
        None => {
            assert(!json::has_key(m, "lastMamContact"@));
            json::lemma_lookup_absent(m, "lastMamContact"@);
        },
    }
}

/// A document of the current version is taken as it stands: the cookie under
/// its name, and of the contact every part under its name. Missing and `null`
/// are none, and a cookie that is no text is refused.
pub proof fn law_current_document_is_taken_as_it_stands(
    v: &serde_json::Value,
    source_name: &str,
    r: Result<SerializedState, AppError>,
    content: JsonView,
)
    requires
        call_ensures(migrate_to_current, (v, source_name), r),
        content == json::json_content(*v),
        json::member_of(content, "version"@) == Some(JsonView::Unsigned(2)) || json::member_of(
            content,
            "version"@,
        ) == Some(JsonView::Float("2.0"@)),
    ensures
        r matches Ok(s) ==> {
            &&& s.version == 2
            &&& match json::member_of(content, "cookie"@) {
                None => s.cookie is None,
                Some(JsonView::Null) => s.cookie is None,
                Some(JsonView::Text(c)) => s@.cookie == Some(c),
                _ => false,
            }
            &&& match json::member_of(content, "lastMamContact"@) {
                None => s.last_mam_contact is None,
                Some(JsonView::Null) => s.last_mam_contact is None,
                Some(c) => s@.last_mam_contact matches Some(contact) && stands_in(contact, c),
            }
        },
        r matches Err(e) ==> e@.status == 500 && e@.body.error_type == "schema-error"@,
        match (
            json::member_of(content, "cookie"@),
            json::member_of(content, "lastMamContact"@),
        ) {
            (None, None) => r is Ok,
            (None, Some(JsonView::Null)) => r is Ok,
            (Some(JsonView::Text(_)), None) => r is Ok,
            (Some(JsonView::Text(_)), Some(JsonView::Null)) => r is Ok,
            _ => true,
        },
{
}

/// Every part of the contact stands in the document under its name.
pub open spec fn stands_in(contact: ContactView, c: JsonView) -> bool {
    match contact {
        ContactView::Unreached { at, reached, error_type, message } => {
            &&& !reached
            &&& json::member_of(c, "reached"@) == Some(JsonView::Bool(false))
            &&& json::member_of(c, "at"@) == Some(JsonView::Text(at))
            &&& json::member_of(c, "error"@) matches Some(e) && json::member_of(e, "type"@) == Some(
                JsonView::Text(error_type),
            ) && json::member_of(e, "message"@) == Some(JsonView::Text(message))
        },
        ContactView::Reached { at, reached, ip, asn, as_name, ip_update } => {
            &&& reached
            &&& json::member_of(c, "reached"@) == Some(JsonView::Bool(true))
            &&& json::member_of(c, "at"@) == Some(JsonView::Text(at))
            &&& json::member_of(c, "ip"@) == Some(JsonView::Text(ip))
            &&& json::member_of(c, "asn"@) matches Some(n) && json::whole_in(n) == Some(asn)
            &&& json::member_of(c, "as"@) == Some(JsonView::Text(as_name))
            &&& match json::member_of(c, "ipUpdate"@) {
                None => ip_update is None,
                Some(JsonView::Null) => ip_update is None,
                Some(w) => ip_update matches Some(u) && json::member_of(w, "success"@) == Some(
                    JsonView::Bool(u.success),
                ) && json::member_of(w, "msg"@) == Some(JsonView::Text(u.msg)) && json::member_of(
                    w,
                    "httpStatus"@,
                ) is Some && json::whole_in(json::member_of(w, "httpStatus"@)->0) == Some(
                    u.http_status as i64,
                ),
            }
        },
    }
}

/// A document of the current version that holds a contact with all its parts is
/// read, whatever else it holds, and as that contact.
pub proof fn law_complete_contact_is_read(
    v: &serde_json::Value,
    source_name: &str,
    r: Result<SerializedState, AppError>,
    content: JsonView,
    c: JsonView,
    contact: ContactView,
)
    requires
        call_ensures(migrate_to_current, (v, source_name), r),
        content == json::json_content(*v),
        json::member_of(content, "version"@) == Some(JsonView::Unsigned(2)) || json::member_of(
            content,
            "version"@,
        ) == Some(JsonView::Float("2.0"@)),
        json::member_of(content, "cookie"@) matches Some(k) ==> k is Text || k is Null,
        json::member_of(content, "lastMamContact"@) == Some(c),
        stands_in(contact, c),
    ensures
        r matches Ok(s) && s@.last_mam_contact == Some(contact),
{
    assert(c is Object);
    assert(contact.consistent());
    match contact {
        ContactView::Unreached { .. } => {
            assert(unreached_in(c)->0 =~= contact);
        },
        ContactView::Reached { .. } => {
            assert(reached_in(c)->0 =~= contact);
        },
    }
}

/// Of a document of any other version nothing is left but a cookie under its
/// old name, if it is a text and not empty; it is never refused.
pub proof fn law_old_document_leaves_its_cookie(
    v: &serde_json::Value,
    source_name: &str,
    r: Result<SerializedState, AppError>,
    content: JsonView,
)
    requires
        call_ensures(migrate_to_current, (v, source_name), r),
        content == json::json_content(*v),
        match json::member_of(content, "version"@) {
            None => true,
            Some(JsonView::Unsigned(n)) => n != 2,
            Some(JsonView::Float(words)) => words != "2.0"@,
            Some(_) => true,
        },
    ensures
        r matches Ok(s) && s.version == 2 && s.last_mam_contact is None && s@.cookie
            == match json::member_of(content, "currentCookie"@) {
            Some(JsonView::Text(c)) => if c.len() > 0 {
                Some(c)
            } else {
                None
            },
            _ => None,
        },
{
}

/// A stored state comes into memory with its cookie and its contact as they
/// are, at the time that was read; a time that cannot be read is an error.
pub proof fn law_restored_state_is_the_stored_one(
    s: SerializedState,
    reading: Result<ZonedTime, String>,
    r: Result<State, AppError>,
)
    requires
        call_ensures(restore_state, (s, reading), r),
    ensures
        r matches Ok(state) ==> state@.cookie == s@.cookie && match s@.last_mam_contact {
            None => state.last_mam_contact is None,
            Some(body) => state@.last_mam_contact == Some(
                MamContactView { at: reading->Ok_0@, body },
            ),
        },
        r is Ok <==> s.last_mam_contact is None || reading is Ok,
        r is Err ==> error::fails_with(r, 500, "unhandled-error"@),
{
}

/// What is read of the state file is what stands in it: no file is no state,
/// one that cannot be read, or that is no JSON, is an error of that type, and
/// a state has the cookie and the contact that the document says.
pub proof fn law_state_file_is_read_as_it_stands(
    store: &Store,
    contents: &FileContents,
    found: &str,
    document: Result<SerializedState, AppError>,
    r: Result<Option<State>, AppError>,
)
    requires
        call_ensures(Store::read_if_exists, (store, contents), r),
        call_ensures(Store::read_document, (store, found), document),
        contents matches FileContents::Text(t) ==> t@ == found@,
    ensures
        r matches Ok(None) <==> contents is Missing,
        contents is Unreadable ==> error::fails_with(r, 500, "file-read-error"@) && text::occurs_in(
            r->Err_0@.body.message,
            store@.path,
        ),
        json::parsed_json(vstd::utf8::encode_utf8(found@)) matches Err(words) ==> document is Err
            && text::occurs_in(document->Err_0@.body.message, store@.path)
            && document->Err_0@.body.cause is Some && document->Err_0@.body.cause->0.message
            == words,
        json::parsed_json(vstd::utf8::encode_utf8(found@)) is Err ==> error::fails_with(
            document,
            500,
            "json-parse-error"@,
        ),
        contents is Text && document is Err ==> r is Err && r->Err_0@ == document->Err_0@,
        document matches Ok(s) ==> contents is Text ==> {
            &&& r matches Ok(Some(state)) ==> {
                &&& state@.cookie == s@.cookie
                &&& state@.last_mam_contact is Some <==> s@.last_mam_contact is Some
                &&& state@.last_mam_contact matches Some(c) ==> Some(c.body) == s@.last_mam_contact
            }
            &&& s.last_mam_contact is None ==> r is Ok
            &&& r is Err ==> error::fails_with(r, 500, "unhandled-error"@)
        },
{
    let none = Seq::<char>::empty();
    text::lemma_part_occurs(
        "Error reading file: "@,
        store@.path,
        ". Check that it is readable and is not a directory."@,
    );
    text::lemma_part_occurs("Error parsing JSON from file at "@, store@.path, none);
    assert("Error parsing JSON from file at "@ + store@.path + none
        =~= "Error parsing JSON from file at "@ + store@.path);
}

/// The files after something was done to them.
pub open spec fn files_after(
    files: Map<Seq<char>, Seq<char>>,
    action: FileActionView,
) -> Map<Seq<char>, Seq<char>> {
    match action {
        FileActionView::CreateDirectory(_) => files,
        FileActionView::Write { path, contents } => files.insert(path, contents),
        FileActionView::Rename { from, to } => files.remove(from).insert(to, files[from]),
    }
}

/// The files after steps that were done in order.
pub open spec fn files_after_all(
    files: Map<Seq<char>, Seq<char>>,
    steps: Seq<WriteStepView>,
) -> Map<Seq<char>, Seq<char>>
    decreases steps.len(),
{
    if steps.len() == 0 {
        files
    } else {
        files_after(files_after_all(files, steps.drop_last()), steps.last().action)
    }
}

/// Once all its steps are done, a write has put the state's document into the
/// state file; before the last one the state file is as it was. The directory
/// is made first, and no file but the one beside the state file is touched.
pub proof fn law_write_puts_the_document_in_place(
    store: &Store,
    state: &SerializedState,
    value: serde_json::Value,
    r: Result<Vec<WriteStep>, AppError>,
    files: Map<Seq<char>, Seq<char>>,
    other: Seq<char>,
    k: int,
)
    requires
        call_ensures(Store::write, (store, state), r),
        call_ensures(SerializedState::to_value, (state,), value),
        other != store@.path,
        other != store@.path + ".tmp"@,
        0 <= k < 3,
    ensures
        r matches Ok(steps) && {
            let all = step_views(steps@);
            let after = files_after_all(files, all);
            let midway = files_after_all(files, all.take(k));
            &&& all.len() == 3
            &&& all[0].action == FileActionView::CreateDirectory(store@.dir)
            &&& all[0].failure.status == 500 && all[0].failure.body.error_type
                == "directory-create-error"@
            &&& all[1].failure.status == 500 && all[1].failure.body.error_type
                == "file-write-error"@
            &&& all[2].failure.status == 500 && all[2].failure.body.error_type
                == "file-write-error"@
            &&& text::occurs_in(all[0].failure.body.message, store@.dir)
            &&& all[1].failure == all[2].failure
            &&& all[1].failure.body.message == "Error writing file: "@ + store@.path
                + ". Check that the parent directory exists and is writable."@
            &&& after.contains_key(store@.path)
            &&& after[store@.path] == json::pretty_json(json::json_content(value))
            &&& after.contains_key(other) == files.contains_key(other)
            &&& after[other] == files[other]
            &&& midway.contains_key(store@.path) == files.contains_key(store@.path)
            &&& midway[store@.path] == files[store@.path]
        },
{
    reveal_strlit(".tmp");
    assert((store@.path + ".tmp"@).len() == store@.path.len() + 4);
    let all = write_steps(store@, json::pretty_json(state_json(state@)));
    reveal_with_fuel(files_after_all, 5);
    text::lemma_part_occurs(
        "Error creating directory: "@,
        store@.dir,
        ". Check that the parent directory exists and you have write permissions."@,
    );
    assert(all.drop_last() =~= all.take(2));
    assert(all.take(2).drop_last() =~= all.take(1));
    assert(all.take(1).drop_last() =~= all.take(0));
}

/// The state file is `state.json` in the directory that was given, and errors
/// and reads go by that path.
pub proof fn law_state_file_is_in_the_directory(dir: &str, r: Store, store: &Store, path: String)
    requires
        call_ensures(Store::new, (dir,), r),
        store@ == r@,
        call_ensures(Store::path_str, (store,), path),
    ensures
        r@.dir == dir@,
        path@ == r@.path,
        dir@.len() > 0 && dir@.last() != '/' ==> r@.path == dir@ + seq!['/'] + "state.json"@,
        dir@.len() > 0 && dir@.last() == '/' ==> r@.path == dir@ + "state.json"@,
        dir@.len() == 0 ==> r@.path == "state.json"@,
{
    reveal_strlit("/");
    assert("/"@ =~= seq!['/']);
}

/// A document of the current version that is refused tells why: a contact of
/// neither kind, or one whose `reached` does not go with the rest of it.
pub proof fn law_refused_documents_tell_why(
    v: &serde_json::Value,
    source_name: &str,
    r: Result<SerializedState, AppError>,
    content: JsonView,
    state: &SerializedState,
    checked: Result<(), AppError>,
)
    requires
        call_ensures(migrate_to_current, (v, source_name), r),
        call_ensures(validate_contact, (state, source_name), checked),
        content == json::json_content(*v),
        json::member_of(content, "version"@) == Some(JsonView::Unsigned(2)),
        json::member_of(content, "cookie"@) is None,
    ensures
        json::member_of(content, "lastMamContact"@) matches Some(c) ==> !(c is Null)
            && !(json::member_of(c, "at"@) matches Some(JsonView::Text(_))) ==> r is Err
            && r->Err_0@.body.issues == Some(
            seq![
                IssueView {
                    path: Seq::empty(),
                    message: "data did not match any variant of untagged enum SerializedMamContact"@,
                },
            ],
        ),
        checked is Err <==> match state@.last_mam_contact {
            Some(ContactView::Unreached { reached, .. }) => reached,
            Some(ContactView::Reached { reached, .. }) => !reached,
            None => false,
        },
        checked is Err ==> error::fails_with(checked, 500, "schema-error"@)
            && checked->Err_0@.body.issues == Some(
            seq![
                IssueView {
                    path: "lastMamContact.reached"@,
                    message: "reached flag does not match contact variant"@,
                },
            ],
        ),
        r matches Err(e) ==> text::occurs_in(e@.body.message, source_name@),
{
    if r is Err {
        let e = r->Err_0@;
        let rest = ": "@ + error::issue_summary(e.body.issues->0);
        text::lemma_part_occurs("Schema validation failed for data from "@, source_name@, rest);
        assert("Schema validation failed for data from "@ + source_name@ + rest
            =~= e.body.message);
    }
}

} // verus!
