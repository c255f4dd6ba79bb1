//! What is asked of MAM, and what its answers mean. The caller makes the
//! requests and hands back what came of them. Cookies are handled here and by
//! nothing else.

use crate::error;
use crate::error::{AppError, AppErrorView, Issue, IssueView};
use crate::json;
use crate::json::JsonView;
use crate::number::Double;
use crate::session;
use crate::text;
use vstd::prelude::*;

verus! {

pub const DEFAULT_BASE_URL: &'static str = "https://t.myanonamouse.net";

pub const USER_AGENT: &'static str = "mousehole-by-timtimtim/0.5.0";

/// Where MAM is, and how long to wait for it.
#[derive(Debug)]
pub struct MamClient {
    base_url: String,
    timeout_seconds: Double,
    timeout_text: String,
}

#[verifier::ext_equal]
pub struct MamClientView {
    pub base_url: Seq<char>,
    pub timeout_seconds: Double,
    pub timeout_text: Seq<char>,
}

impl View for MamClient {
    type V = MamClientView;

    closed spec fn view(&self) -> MamClientView {
        MamClientView {
            base_url: self.base_url@,
            timeout_seconds: self.timeout_seconds,
            timeout_text: self.timeout_text@,
        }
    }
}

#[derive(Debug, PartialEq)]
pub struct MamUpdateResult {
    pub ip: String,
    pub asn: i64,
    pub as_name: String,
    pub success: bool,
    pub msg: String,
    pub http_status: u16,
    pub rotated_cookie: Option<String>,
}

#[verifier::ext_equal]
pub struct MamUpdateView {
    pub ip: Seq<char>,
    pub asn: i64,
    pub as_name: Seq<char>,
    pub success: bool,
    pub msg: Seq<char>,
    pub http_status: u16,
    pub rotated_cookie: Option<Seq<char>>,
}

impl View for MamUpdateResult {
    type V = MamUpdateView;

    open spec fn view(&self) -> MamUpdateView {
        MamUpdateView {
            ip: self.ip@,
            asn: self.asn,
            as_name: self.as_name@,
            success: self.success,
            msg: self.msg@,
            http_status: self.http_status,
            rotated_cookie: self.rotated_cookie.deep_view(),
        }
    }
}

#[derive(Debug, PartialEq)]
pub struct HostInfo {
    pub ip: String,
    pub asn: i64,
    pub as_name: String,
}

#[verifier::ext_equal]
pub struct HostInfoView {
    pub ip: Seq<char>,
    pub asn: i64,
    pub as_name: Seq<char>,
}

impl View for HostInfo {
    type V = HostInfoView;

    open spec fn view(&self) -> HostInfoView {
        HostInfoView { ip: self.ip@, asn: self.asn, as_name: self.as_name@ }
    }
}

/// What came of reading an answer's body.
#[derive(Debug)]
pub enum FetchedBody {
    Failed { timeout: bool },
    Text(String),
}

/// What came of a request.
#[derive(Debug)]
pub enum Fetched {
    Failed { timeout: bool },
    Answered { status: u16, set_cookies: Vec<String>, body: FetchedBody },
}

pub enum FetchedBodyView {
    Failed { timeout: bool },
    Text(Seq<char>),
}

pub enum FetchedView {
    Failed { timeout: bool },
    Answered { status: u16, set_cookies: Seq<Seq<char>>, body: FetchedBodyView },
}

impl View for FetchedBody {
    type V = FetchedBodyView;

    open spec fn view(&self) -> FetchedBodyView {
        match self {
            FetchedBody::Failed { timeout } => FetchedBodyView::Failed { timeout: *timeout },
            FetchedBody::Text(t) => FetchedBodyView::Text(t@),
        }
    }
}

impl View for Fetched {
    type V = FetchedView;

    open spec fn view(&self) -> FetchedView {
        match self {
            Fetched::Failed { timeout } => FetchedView::Failed { timeout: *timeout },
            Fetched::Answered { status, set_cookies, body } => FetchedView::Answered {
                status: *status,
                set_cookies: set_cookies.deep_view(),
                body: body@,
            },
        }
    }
}

// Cookies.
/// Name and value of a Set-Cookie header: what stands around the first equals
/// sign before any attributes, trimmed, if there is a name.
pub open spec fn set_cookie_pair(header: Seq<char>) -> Option<(Seq<char>, Seq<char>)> {
    match text::split_once(text::split_at_each(header, ';')[0], '=') {
        Some((name, value)) => if text::trimmed(name).len() > 0 {
            Some((text::trimmed(name), text::trimmed(value)))
        } else {
            None
        },
        None => None,
    }
}

/// `cookie::Cookie::parse`, and the cookie's `name` and `value`: the pair
/// before the attributes, trimmed and otherwise as it stands; an error where
/// there is no pair or no name. Attributes never make it fail.
#[verifier::external_body]
fn parse_set_cookie(header: &str) -> (r: Option<(String, String)>)
    ensures
        r.deep_view() == set_cookie_pair(header@),
{
    let parsed = cookie::Cookie::parse(header.to_owned()).ok()?;
    Some((parsed.name().to_owned(), parsed.value().to_owned()))
}

/// The value of MAM's cookie in the first of these headers that sets it.
pub open spec fn rotated_cookie(headers: Seq<Seq<char>>) -> Option<Seq<char>>
    decreases headers.len(),
{
    if headers.len() == 0 {
        None
    } else {
        match set_cookie_pair(headers[0]) {
            Some((name, value)) => if name == "mam_id"@ {
                Some(
                    match session::percent_text(value) {
                        Some(decoded) => decoded,
                        None => value,
                    },
                )
            } else {
                rotated_cookie(headers.skip(1))
            },
            None => rotated_cookie(headers.skip(1)),
        }
    }
}

/// The cookie that MAM sets, if it does: the first of its name counts, and its
/// value is percent-decoded unless that makes no text.
pub fn rotated_cookie_from_headers(headers: &Vec<String>) -> (r: Option<String>)
    ensures
        r.deep_view() == rotated_cookie(headers.deep_view()),
{
    let ghost all = headers.deep_view();
    let mut i: usize = 0;
    assert(all.skip(0) =~= all);
    while i < headers.len()
        invariant
            i <= headers.len(),
            all == headers.deep_view(),
            rotated_cookie(all) == rotated_cookie(all.skip(i as int)),
        decreases headers.len() - i,
    {
        assert(all.skip(i as int)[0] == headers@[i as int]@);
        assert(all.skip(i as int).skip(1) =~= all.skip(i + 1));
        if let Some((name, value)) = parse_set_cookie(&headers[i]) {
            if text::same_text(&name, "mam_id") {
                return match session::percent_decode(&value) {
                    Some(decoded) => Some(decoded),
                    None => Some(value),
                };
            }
        }
        i = i + 1;
    }
    None
}

// Addresses.
/// A number of an address: up to 255, in at most three digits, without leading
/// zeros.
pub open spec fn is_octet(s: Seq<char>) -> bool {
    &&& 1 <= s.len() <= 3
    &&& text::all_digits(s)
    &&& s.len() > 1 ==> s[0] != '0'
    &&& text::decimal_value(s) <= 255
}

/// An IPv4 address: four numbers with dots between them.
pub open spec fn is_ipv4(s: Seq<char>) -> bool {
    let parts = text::split_at_each(s, '.');
    parts.len() == 4 && forall|i: int| 0 <= i < 4 ==> is_octet(#[trigger] parts[i])
}

fn octet(s: &str) -> (r: bool)
    ensures
        r == is_octet(s@),
{
    let len: usize = s.unicode_len();
    if len == 0 || len > 3 {
        return false;
    }
    let first = s.get_char(0);
    if first == '+' {
        assert(!text::is_digit(s@[0]));
        return false;
    }
    if len > 1 && first == '0' {
        return false;
    }
    text::parse_unsigned(s, 255).is_some()
}

fn ipv4(s: &str) -> (r: bool)
    ensures
        r == is_ipv4(s@),
{
    let parts = text::split(s, '.');
    let ghost all = text::split_at_each(s@, '.');
    assert(all.len() == parts.len());
    if parts.len() != 4 {
        return false;
    }
    let mut i: usize = 0;
    while i < 4
        invariant
            i <= 4,
            parts.len() == 4,
            all == parts.deep_view(),
            all == text::split_at_each(s@, '.'),
            forall|k: int| 0 <= k < i ==> is_octet(#[trigger] all[k]),
        decreases 4 - i,
    {
        assert(all[i as int] == parts@[i as int]@);
        if !octet(&parts[i]) {
            return false;
        }
        i = i + 1;
    }
    true
}

// Answers.
pub open spec fn issue_at(path: Seq<char>, message: Seq<char>) -> IssueView {
    IssueView { path, message }
}

pub open spec fn text_field(v: JsonView, key: Seq<char>) -> Result<Seq<char>, IssueView> {
    match json::member_of(v, key) {
        Some(JsonView::Text(s)) => Ok(s),
        other => Err(issue_at(key, json::wrong_type("string"@, other))),
    }
}

pub open spec fn bool_field(v: JsonView, key: Seq<char>) -> Result<bool, IssueView> {
    match json::member_of(v, key) {
        Some(JsonView::Bool(b)) => Ok(b),
        other => Err(issue_at(key, json::wrong_type("boolean"@, other))),
    }
}

/// A whole number under a name, written with or without a decimal point.
pub open spec fn integer_field(v: JsonView, key: Seq<char>) -> Result<i64, IssueView> {
    match json::member_of(v, key) {
        Some(m) => match json::whole_in(m) {
            Some(n) => Ok(n),
            None => if json::kind_name(Some(m)) == "number"@ {
                Err(issue_at(key, "Invalid input: expected int, received number"@))
            } else {
                Err(issue_at(key, json::wrong_type("number"@, Some(m))))
            },
        },
        None => Err(issue_at(key, json::wrong_type("number"@, None))),
    }
}

pub open spec fn object_check(v: JsonView) -> Result<(), IssueView> {
    if v is Object {
        Ok(())
    } else {
        Err(issue_at(Seq::empty(), json::wrong_type("object"@, Some(v))))
    }
}

/// What an answer says of where the request came from: address, number and
/// name of the network. Members beyond those are ignored.
pub open spec fn host_info_in(v: JsonView) -> Result<HostInfoView, IssueView> {
    match (text_field(v, "ip"@), integer_field(v, "ASN"@), text_field(v, "AS"@)) {
        (Err(issue), _, _) => Err(issue),
        (_, Err(issue), _) => Err(issue),
        (_, _, Err(issue)) => Err(issue),
        (Ok(ip), Ok(asn), Ok(as_name)) => if is_ipv4(ip) {
            Ok(HostInfoView { ip, asn, as_name })
        } else {
            Err(issue_at("ip"@, "must be an IPv4 address"@))
        },
    }
}

/// What an answer to an update says.
pub open spec fn update_in(v: JsonView) -> Result<(bool, Seq<char>, HostInfoView), IssueView> {
    match (bool_field(v, "Success"@), text_field(v, "msg"@), host_info_in(v)) {
        (Err(issue), _, _) => Err(issue),
        (_, Err(issue), _) => Err(issue),
        (_, _, Err(issue)) => Err(issue),
        (Ok(success), Ok(msg), Ok(info)) => Ok((success, msg, info)),
    }
}

/// The error that a request ends in when nothing comes back.
pub open spec fn transport_failure(client: MamClientView, url: Seq<char>, timeout: bool) -> AppErrorView {
    if timeout {
        error::timeout_failure(url, client.timeout_text)
    } else {
        error::network_failure(url)
    }
}

/// The error of an answer that does not say what it should.
pub open spec fn answer_error(url: Seq<char>, issue: IssueView) -> AppErrorView {
    error::schema_error_of(500, url, seq![issue])
}

/// The document in an answer.
pub open spec fn answer_document(
    client: MamClientView,
    url: Seq<char>,
    status: u16,
    body: FetchedBodyView,
) -> Result<JsonView, AppErrorView> {
    match body {
        FetchedBodyView::Failed { timeout } => Err(transport_failure(client, url, timeout)),
        FetchedBodyView::Text(t) => match json::parsed_json(vstd::utf8::encode_utf8(t)) {
            Err(_) => Err(error::response_json_error(status, url)),
            Ok(v) => match object_check(v) {
                Err(issue) => Err(answer_error(url, issue)),
                Ok(_) => Ok(v),
            },
        },
    }
}

pub open spec fn update_url(client: MamClientView) -> Seq<char> {
    client.base_url + "/json/dynamicSeedbox.php"@
}

pub open spec fn host_info_url(client: MamClientView) -> Seq<char> {
    client.base_url + "/json/jsonIp.php"@
}

/// What comes of an update. The body counts whatever the status, which is
/// recorded; a cookie that MAM sets rotates whatever the outcome.
pub open spec fn update_outcome(client: MamClientView, fetched: FetchedView) -> Result<
    MamUpdateView,
    AppErrorView,
> {
    let url = update_url(client);
    match fetched {
        FetchedView::Failed { timeout } => Err(transport_failure(client, url, timeout)),
        FetchedView::Answered { status, set_cookies, body } => match answer_document(
            client,
            url,
            status,
            body,
        ) {
            Err(e) => Err(e),
            Ok(v) => match update_in(v) {
                Err(issue) => Err(answer_error(url, issue)),
                Ok((success, msg, info)) => Ok(
                    MamUpdateView {
                        ip: info.ip,
                        asn: info.asn,
                        as_name: info.as_name,
                        success,
                        msg,
                        http_status: status,
                        rotated_cookie: rotated_cookie(set_cookies),
                    },
                ),
            },
        },
    }
}

/// What comes of a lookup, which asks for a success status first.
pub open spec fn host_info_outcome(client: MamClientView, fetched: FetchedView) -> Result<
    HostInfoView,
    AppErrorView,
> {
    let url = host_info_url(client);
    match fetched {
        FetchedView::Failed { timeout } => Err(transport_failure(client, url, timeout)),
        FetchedView::Answered { status, set_cookies, body } => if 200 <= status <= 299 {
            match answer_document(client, url, status, body) {
                Err(e) => Err(e),
                Ok(v) => match host_info_in(v) {
                    Err(issue) => Err(answer_error(url, issue)),
                    Ok(info) => Ok(info),
                },
            }
        } else {
            Err(
                error::unhandled_error(
                    "Failed to fetch host IP from "@ + url + ": "@ + text::decimal(status as nat),
                ),
            )
        },
    }
}

fn issue(path: &str, message: &str) -> (r: Issue)
    ensures
        r@ == issue_at(path@, message@),
{
    Issue { path: path.to_owned(), message: message.to_owned() }
}

fn read_text(v: &serde_json::Value, key: &str) -> (r: Result<String, Issue>)
    ensures
        match r {
            Ok(s) => text_field(json::json_content(*v), key@) == Ok::<Seq<char>, IssueView>(s@),
            Err(i) => text_field(json::json_content(*v), key@) == Err::<Seq<char>, IssueView>(i@),
        },
{
    let m = json::member(v, key);
    if let Some(value) = m {
        if let Some(s) = value.as_str() {
            return Ok(s.to_owned());
        }
    }
    Err(issue(key, &json::wrong_type_message("string", m)))
}

fn read_bool(v: &serde_json::Value, key: &str) -> (r: Result<bool, Issue>)
    ensures
        match r {
            Ok(b) => bool_field(json::json_content(*v), key@) == Ok::<bool, IssueView>(b),
            Err(i) => bool_field(json::json_content(*v), key@) == Err::<bool, IssueView>(i@),
        },
{
    let m = json::member(v, key);
    if let Some(value) = m {
        if let Some(b) = value.as_bool() {
            return Ok(b);
        }
    }
    Err(issue(key, &json::wrong_type_message("boolean", m)))
}

fn read_integer(v: &serde_json::Value, key: &str) -> (r: Result<i64, Issue>)
    ensures
        match r {
            Ok(n) => integer_field(json::json_content(*v), key@) == Ok::<i64, IssueView>(n),
            Err(i) => integer_field(json::json_content(*v), key@) == Err::<i64, IssueView>(i@),
        },
{
    let m = json::member(v, key);
    if let Some(value) = m {
        if let Some(n) = json::whole_number(value) {
            return Ok(n);
        }
        if text::same_text(json::zod_type(value), "number") {
            return Err(issue(key, "Invalid input: expected int, received number"));
        }
    }
    Err(issue(key, &json::wrong_type_message("number", m)))
}

fn read_host_info(v: &serde_json::Value) -> (r: Result<HostInfo, Issue>)
    ensures
        match r {
            Ok(info) => host_info_in(json::json_content(*v)) == Ok::<HostInfoView, IssueView>(
                info@,
            ),
            Err(i) => host_info_in(json::json_content(*v)) == Err::<HostInfoView, IssueView>(i@),
        },
{
    let ip = match read_text(v, "ip") {
        Ok(s) => s,
        Err(i) => {
            return Err(i);
        },
    };
    let asn: i64 = match read_integer(v, "ASN") {
        Ok(n) => n,
        Err(i) => {
            return Err(i);
        },
    };
    let as_name = match read_text(v, "AS") {
        Ok(s) => s,
        Err(i) => {
            return Err(i);
        },
    };
    if ipv4(&ip) {
        Ok(HostInfo { ip, asn, as_name })
    } else {
        Err(issue("ip", "must be an IPv4 address"))
    }
}

fn schema_failure(url: &str, problem: Issue) -> (r: AppError)
    ensures
        r@ == answer_error(url@, problem@),
{
    let mut issues: Vec<Issue> = Vec::new();
    issues.push(problem);
    assert(error::issue_views(issues@) =~= seq![problem@]);
    error::schema_error(500, url, issues)
}

/// A request to be made: a GET without redirects, under the library's user
/// agent, with this cookie header if there is one.
#[derive(Debug)]
pub struct MamRequest {
    pub url: String,
    pub cookie: Option<String>,
}

#[verifier::ext_equal]
pub struct MamRequestView {
    pub url: Seq<char>,
    pub cookie: Option<Seq<char>>,
}

impl View for MamRequest {
    type V = MamRequestView;

    open spec fn view(&self) -> MamRequestView {
        MamRequestView { url: self.url@, cookie: self.cookie.deep_view() }
    }
}

/// The request that a stored cookie calls for: an update that carries it as it
/// stands, or a lookup where there is none.
pub open spec fn request_for(client: MamClientView, cookie: Option<Seq<char>>) -> MamRequestView {
    match cookie {
        Some(c) => MamRequestView { url: update_url(client), cookie: Some("mam_id="@ + c) },
        None => MamRequestView { url: host_info_url(client), cookie: None },
    }
}

impl MamClient {
    /// `timeout_text` is the timeout as it is shown, e.g. `10` or `0.5`.
    pub fn new(timeout_seconds: Double, timeout_text: &str, base_url: Option<&str>) -> (r: Self)
        ensures
            r@ == (MamClientView {
                base_url: match base_url {
                    Some(url) => url@,
                    None => DEFAULT_BASE_URL@,
                },
                timeout_seconds,
                timeout_text: timeout_text@,
            }),
    {
        let base = match base_url {
            Some(url) => url.to_owned(),
            None => DEFAULT_BASE_URL.to_owned(),
        };
        MamClient { base_url: base, timeout_seconds, timeout_text: timeout_text.to_owned() }
    }

    /// How long to wait for a whole exchange.
    pub fn timeout(&self) -> (r: Double)
        ensures
            r == self@.timeout_seconds,
    {
        self.timeout_seconds
    }

    /// The request that a stored cookie calls for.
    pub fn request(&self, cookie: Option<&str>) -> (r: MamRequest)
        ensures
            r@ == request_for(self@, cookie.deep_view()),
    {
        match cookie {
            Some(c) => MamRequest {
                url: self.base_url.clone().concat("/json/dynamicSeedbox.php"),
                cookie: Some("mam_id=".to_owned().concat(c)),
            },
            None => MamRequest {
                url: self.base_url.clone().concat("/json/jsonIp.php"),
                cookie: None,
            },
        }
    }

    fn transport_error(&self, timeout: bool, url: &str) -> (r: AppError)
        ensures
            r@ == transport_failure(self@, url@, timeout),
    {
        if timeout {
            error::timeout_error(url, &self.timeout_text)
        } else {
            error::network_error(url)
        }
    }

    fn read_answer(&self, url: &str, status: u16, body: &FetchedBody) -> (r: Result<
        serde_json::Value,
        AppError,
    >)
        ensures
            match r {
                Ok(v) => answer_document(self@, url@, status, body@) == Ok::<
                    JsonView,
                    AppErrorView,
                >(json::json_content(v)),
                Err(e) => answer_document(self@, url@, status, body@) == Err::<
                    JsonView,
                    AppErrorView,
                >(e@),
            },
    {
        let contents = match body {
            FetchedBody::Failed { timeout } => {
                return Err(self.transport_error(*timeout, url));
            },
            FetchedBody::Text(t) => t,
        };
        match json::parse(contents.as_str().as_bytes()) {
            Err(_) => Err(error::json_parse_error_response(status, url)),
            Ok(v) => if v.is_object() {
                Ok(v)
            } else {
                proof {
                    reveal_strlit("");
                    assert(""@ =~= Seq::<char>::empty());
                }
                let problem = issue("", &json::wrong_type_message("object", Some(&v)));
                Err(schema_failure(url, problem))
            },
        }
    }

    /// What came of an update, which a cookie drives.
    pub fn update_mam_ip(&self, fetched: &Fetched) -> (r: Result<MamUpdateResult, AppError>)
        ensures
            error::viewed(r) == update_outcome(self@, fetched@),
    {
        let url = self.base_url.clone().concat("/json/dynamicSeedbox.php");
        let (status, set_cookies, body) = match fetched {
            Fetched::Failed { timeout } => {
                return Err(self.transport_error(*timeout, &url));
            },
            Fetched::Answered { status, set_cookies, body } => (*status, set_cookies, body),
        };
        let v = match self.read_answer(&url, status, body) {
            Ok(v) => v,
            Err(e) => {
                return Err(e);
            },
        };
        let success = match read_bool(&v, "Success") {
            Ok(b) => b,
            Err(i) => {
                return Err(schema_failure(&url, i));
            },
        };
        let msg = match read_text(&v, "msg") {
            Ok(s) => s,
            Err(i) => {
                return Err(schema_failure(&url, i));
            },
        };
        match read_host_info(&v) {
            Err(i) => Err(schema_failure(&url, i)),
            Ok(info) => Ok(
                MamUpdateResult {
                    ip: info.ip,
                    asn: info.asn,
                    as_name: info.as_name,
                    success,
                    msg,
                    http_status: status,
                    rotated_cookie: rotated_cookie_from_headers(set_cookies),
                },
            ),
        }
    }

    /// What came of a lookup, for which there is no cookie.
    pub fn get_host_info(&self, fetched: &Fetched) -> (r: Result<HostInfo, AppError>)
        ensures
            error::viewed(r) == host_info_outcome(self@, fetched@),
    {
        let url = self.base_url.clone().concat("/json/jsonIp.php");
        let (status, body) = match fetched {
            Fetched::Failed { timeout } => {
                return Err(self.transport_error(*timeout, &url));
            },
            Fetched::Answered { status, set_cookies: _, body } => (*status, body),
        };
        if !(200 <= status && status <= 299) {
            let message = "Failed to fetch host IP from ".to_owned().concat(&url).concat(
                ": ",
            ).concat(&text::decimal_text(status as u64));
            return Err(error::unhandled(&message));
        }
        match self.read_answer(&url, status, body) {
            Err(e) => Err(e),
            Ok(v) => match read_host_info(&v) {
                Err(i) => Err(schema_failure(&url, i)),
                Ok(info) => Ok(info),
            },
        }
    }
}

/// An answer that was read names an IPv4 address.
pub proof fn law_answers_name_an_ipv4_address(client: MamClientView, fetched: FetchedView)
    ensures
        update_outcome(client, fetched) matches Ok(u) ==> is_ipv4(u.ip),
        host_info_outcome(client, fetched) matches Ok(i) ==> is_ipv4(i.ip),
{
}

/// The status of an answer to an update decides nothing: the same cookies and
/// body say the same under any other.
pub proof fn law_update_status_is_only_recorded(
    client: MamClientView,
    set_cookies: Seq<Seq<char>>,
    body: FetchedBodyView,
    one: u16,
    other: u16,
)
    ensures
        update_outcome(client, (FetchedView::Answered { status: one, set_cookies, body })) matches Ok(
            u,
        ) ==> update_outcome(client, (FetchedView::Answered { status: other, set_cookies, body }))
            == Ok::<MamUpdateView, AppErrorView>(MamUpdateView { http_status: other, ..u }),
{
}

/// An answer that was read says what the result says: every part of the result
/// is the member of that name, the status is that of the answer, and whatever
/// came before has no say. The address is an IPv4 address.
pub proof fn law_update_says_what_the_answer_says(
    client: &MamClient,
    fetched: &Fetched,
    r: Result<MamUpdateResult, AppError>,
)
    requires
        call_ensures(MamClient::update_mam_ip, (client, fetched), r),
    ensures
        r matches Ok(u) ==> fetched@ matches FetchedView::Answered {
            status,
            set_cookies,
            body: FetchedBodyView::Text(t),
        } && json::parsed_json(vstd::utf8::encode_utf8(t)) matches Ok(v) && {
            &&& json::member_of(v, "Success"@) == Some(JsonView::Bool(u.success))
            &&& json::member_of(v, "msg"@) == Some(JsonView::Text(u.msg@))
            &&& json::member_of(v, "ip"@) == Some(JsonView::Text(u.ip@))
            &&& json::member_of(v, "ASN"@) matches Some(n) && json::whole_in(n) == Some(u.asn)
            &&& json::member_of(v, "AS"@) == Some(JsonView::Text(u.as_name@))
            &&& is_ipv4(u.ip@)
            &&& u.http_status == status
            &&& u.rotated_cookie.deep_view() == rotated_cookie(set_cookies)
        },
{
}

/// An answer with all the members that it should have is read, whatever its
/// status and whatever else it holds.
pub proof fn law_complete_update_is_read(
    client: &MamClient,
    fetched: &Fetched,
    r: Result<MamUpdateResult, AppError>,
    status: u16,
    set_cookies: Seq<Seq<char>>,
    body: Seq<char>,
    v: JsonView,
    asn: JsonView,
    u: MamUpdateView,
)
    requires
        call_ensures(MamClient::update_mam_ip, (client, fetched), r),
        fetched@ == (FetchedView::Answered {
            status,
            set_cookies,
            body: FetchedBodyView::Text(body),
        }),
        json::parsed_json(vstd::utf8::encode_utf8(body)) == Ok::<JsonView, Seq<char>>(v),
        json::member_of(v, "Success"@) == Some(JsonView::Bool(u.success)),
        json::member_of(v, "msg"@) == Some(JsonView::Text(u.msg)),
        json::member_of(v, "ip"@) == Some(JsonView::Text(u.ip)),
        json::member_of(v, "ASN"@) == Some(asn),
        json::whole_in(asn) == Some(u.asn),
        json::member_of(v, "AS"@) == Some(JsonView::Text(u.as_name)),
        is_ipv4(u.ip),
        u.http_status == status,
        u.rotated_cookie == rotated_cookie(set_cookies),
    ensures
        error::viewed(r) == Ok::<MamUpdateView, AppErrorView>(u),
{
}

/// A lookup that was read says what the answer says, and only a success status
/// is read at all.
pub proof fn law_lookup_says_what_the_answer_says(
    client: &MamClient,
    fetched: &Fetched,
    r: Result<HostInfo, AppError>,
)
    requires
        call_ensures(MamClient::get_host_info, (client, fetched), r),
    ensures
        r matches Ok(i) ==> fetched@ matches FetchedView::Answered {
            status,
            set_cookies,
            body: FetchedBodyView::Text(t),
        } && json::parsed_json(vstd::utf8::encode_utf8(t)) matches Ok(v) && {
            &&& 200 <= status < 300
            &&& json::member_of(v, "ip"@) == Some(JsonView::Text(i.ip@))
            &&& json::member_of(v, "ASN"@) matches Some(n) && json::whole_in(n) == Some(i.asn)
            &&& json::member_of(v, "AS"@) == Some(JsonView::Text(i.as_name@))
            &&& is_ipv4(i.ip@)
        },
{
}

/// A lookup with a success status and all the members that it should have is
/// read.
pub proof fn law_complete_lookup_is_read(
    client: &MamClient,
    fetched: &Fetched,
    r: Result<HostInfo, AppError>,
    status: u16,
    set_cookies: Seq<Seq<char>>,
    body: Seq<char>,
    v: JsonView,
    asn: JsonView,
    i: HostInfoView,
)
    requires
        call_ensures(MamClient::get_host_info, (client, fetched), r),
        fetched@ == (FetchedView::Answered {
            status,
            set_cookies,
            body: FetchedBodyView::Text(body),
        }),
        200 <= status < 300,
        json::parsed_json(vstd::utf8::encode_utf8(body)) == Ok::<JsonView, Seq<char>>(v),
        json::member_of(v, "ip"@) == Some(JsonView::Text(i.ip)),
        json::member_of(v, "ASN"@) == Some(asn),
        json::whole_in(asn) == Some(i.asn),
        json::member_of(v, "AS"@) == Some(JsonView::Text(i.as_name)),
        is_ipv4(i.ip),
    ensures
        error::viewed(r) == Ok::<HostInfoView, AppErrorView>(i),
{
}

/// What keeps an exchange from being read is told by the type of the error:
/// no answer in time, no answer at all, an answer that is no JSON, or one that
/// does not say what it should. The status of an update is no such thing.
pub proof fn law_failures_are_told_apart(
    client: &MamClient,
    fetched: &Fetched,
    update: Result<MamUpdateResult, AppError>,
    lookup: Result<HostInfo, AppError>,
)
    requires
        call_ensures(MamClient::update_mam_ip, (client, fetched), update),
        call_ensures(MamClient::get_host_info, (client, fetched), lookup),
    ensures
        fetched@ matches FetchedView::Failed { timeout } ==> {
            &&& timeout ==> error::fails_with(update, 504, "timeout-error"@)
            &&& timeout ==> error::fails_with(lookup, 504, "timeout-error"@)
            &&& !timeout ==> error::fails_with(update, 500, "network-error"@)
            &&& !timeout ==> error::fails_with(lookup, 500, "network-error"@)
        },
        fetched@ matches FetchedView::Answered { status, .. } ==> !(200 <= status < 300)
            ==> error::fails_with(lookup, 500, "unhandled-error"@),
        fetched@ matches FetchedView::Answered { status, set_cookies, body } ==> match body {
            FetchedBodyView::Failed { timeout: true } => {
                &&& error::fails_with(update, 504, "timeout-error"@)
                &&& 200 <= status < 300 ==> error::fails_with(lookup, 504, "timeout-error"@)
            },
            FetchedBodyView::Failed { timeout: false } => {
                &&& error::fails_with(update, 500, "network-error"@)
                &&& 200 <= status < 300 ==> error::fails_with(lookup, 500, "network-error"@)
            },
            FetchedBodyView::Text(t) => {
                let readable = json::parsed_json(vstd::utf8::encode_utf8(t)) is Ok;
                &&& !readable ==> error::fails_with(update, 500, "json-parse-error"@)
                &&& !readable && 200 <= status < 300 ==> error::fails_with(
                    lookup,
                    500,
                    "json-parse-error"@,
                )
                &&& readable && update is Err ==> error::fails_with(update, 500, "schema-error"@)
                &&& readable && 200 <= status < 300 && lookup is Err ==> error::fails_with(
                    lookup,
                    500,
                    "schema-error"@,
                )
            },
        },
{
}

/// An answer that does not say what it should is refused with the name of the
/// first member that is missing or of the wrong kind, and with what it is.
pub proof fn law_first_wrong_member_is_named(
    client: &MamClient,
    fetched: &Fetched,
    r: Result<MamUpdateResult, AppError>,
    status: u16,
    set_cookies: Seq<Seq<char>>,
    body: Seq<char>,
    v: JsonView,
)
    requires
        call_ensures(MamClient::update_mam_ip, (client, fetched), r),
        fetched@ == (FetchedView::Answered {
            status,
            set_cookies,
            body: FetchedBodyView::Text(body),
        }),
        json::parsed_json(vstd::utf8::encode_utf8(body)) == Ok::<JsonView, Seq<char>>(v),
    ensures
        ({
            let success = json::member_of(v, "Success"@) matches Some(JsonView::Bool(_));
            let msg = json::member_of(v, "msg"@) matches Some(JsonView::Text(_));
            let ip = json::member_of(v, "ip"@) matches Some(JsonView::Text(_));
            let asn = json::member_of(v, "ASN"@) matches Some(n) && json::whole_in(n) is Some;
            let name = json::member_of(v, "AS"@) matches Some(JsonView::Text(_));
            r matches Err(e) ==> e@.body.issues matches Some(issues) && issues.len() == 1
                && issues[0].path == if !(v is Object) {
                Seq::empty()
            } else if !success {
                "Success"@
            } else if !msg {
                "msg"@
            } else if !ip {
                "ip"@
            } else if !asn {
                "ASN"@
            } else if !name {
                "AS"@
            } else {
                "ip"@
            }
        }),
        r matches Err(e) ==> text::occurs_in(
            e@.body.message,
            client@.base_url + "/json/dynamicSeedbox.php"@,
        ),
        r matches Err(e) ==> {
            let issue = e@.body.issues->0[0];
            let member = json::member_of(v, issue.path);
            let received = "Invalid input: expected "@;
            &&& !(v is Object) ==> issue.message == received + "object"@ + ", received "@
                + json::kind_name(Some(v))
            &&& v is Object && (issue.path == "msg"@ || issue.path == "AS"@) ==> issue.message
                == received + "string"@ + ", received "@ + json::kind_name(member)
            &&& v is Object && issue.path == "Success"@ ==> issue.message == received + "boolean"@
                + ", received "@ + json::kind_name(member)
            &&& v is Object && issue.path == "ASN"@ && json::kind_name(member) != "number"@
                ==> issue.message == received + "number"@ + ", received "@ + json::kind_name(member)
            &&& v is Object && issue.path == "ASN"@ && json::kind_name(member) == "number"@
                ==> issue.message == "Invalid input: expected int, received number"@
            &&& v is Object && issue.path == "ip"@ && (member matches Some(JsonView::Text(_)))
                ==> issue.message == "must be an IPv4 address"@
            &&& v is Object && issue.path == "ip"@ && !(member matches Some(JsonView::Text(_)))
                ==> issue.message == received + "string"@ + ", received "@ + json::kind_name(member)
        },
{
    lemma_member_names();
    if r is Err {
        error::lemma_source_occurs(500, update_url(client@), r->Err_0@.body.issues->0);
    }
}

proof fn lemma_member_names()
    ensures
        "Success"@.len() == 7,
        "msg"@.len() == 3,
        "ip"@.len() == 2,
        "ASN"@.len() == 3,
        "AS"@.len() == 2,
        "msg"@ != "ASN"@,
        "ip"@ != "AS"@,
        "number"@.len() == 6,
        "undefined"@.len() == 9,
{
    reveal_strlit("Success");
    reveal_strlit("msg");
    reveal_strlit("ip");
    reveal_strlit("ASN");
    reveal_strlit("AS");
    reveal_strlit("number");
    reveal_strlit("undefined");
    assert("msg"@[0] == 'm' && "ASN"@[0] == 'A' && "ip"@[0] == 'i' && "AS"@[0] == 'A');
}

/// A cookie goes to MAM as it is stored, with an update; without one the
/// request is a lookup that carries none.
pub proof fn law_request_carries_the_cookie(client: &MamClient, cookie: Option<&str>, r: MamRequest)
    requires
        call_ensures(MamClient::request, (client, cookie), r),
    ensures
        match cookie {
            Some(c) => {
                &&& r.cookie.deep_view() == Some("mam_id="@ + c@)
                &&& r.url@ == client@.base_url + "/json/dynamicSeedbox.php"@
            },
            None => {
                &&& r.cookie is None
                &&& r.url@ == client@.base_url + "/json/jsonIp.php"@
            },
        },
{
}

/// A client asks where it was told to, else MAM itself, and waits as long as it
/// was told to.
pub proof fn law_client_is_as_configured(
    timeout_seconds: Double,
    timeout_text: &str,
    base_url: Option<&str>,
    r: MamClient,
)
    requires
        call_ensures(MamClient::new, (timeout_seconds, timeout_text, base_url), r),
    ensures
        base_url matches Some(url) ==> r@.base_url == url@,
        base_url is None ==> r@.base_url == "https://t.myanonamouse.net"@,
        r@.timeout_seconds == timeout_seconds,
        r@.timeout_text == timeout_text@,
{
}

/// The first header that sets MAM's cookie gives its new value, percent-decoded
/// where that makes a text; headers that set another are passed over.
pub proof fn law_first_mam_cookie_rotates(
    headers: &Vec<String>,
    r: Option<String>,
    i: int,
    value: Seq<char>,
)
    requires
        call_ensures(rotated_cookie_from_headers, (headers,), r),
        0 <= i < headers.len(),
        set_cookie_pair(headers@[i]@) == Some(("mam_id"@, value)),
        forall|k: int|
            0 <= k < i ==> !(set_cookie_pair((#[trigger] headers@[k])@) matches Some((name, _))
                && name == "mam_id"@),
    ensures
        r matches Some(cookie) && match session::percent_text(value) {
            Some(decoded) => cookie@ == decoded,
            None => cookie@ == value,
        },
{
    lemma_rotated_at(headers.deep_view(), i, value);
}

proof fn lemma_rotated_at(headers: Seq<Seq<char>>, i: int, value: Seq<char>)
    requires
        0 <= i < headers.len(),
        set_cookie_pair(headers[i]) == Some(("mam_id"@, value)),
        forall|k: int|
            0 <= k < i ==> !(set_cookie_pair(#[trigger] headers[k]) matches Some((name, _)) && name
                == "mam_id"@),
    ensures
        rotated_cookie(headers) == Some(
            match session::percent_text(value) {
                Some(decoded) => decoded,
                None => value,
            },
        ),
    decreases i,
{
    if i > 0 {
        let rest = headers.skip(1);
        assert(rest[i - 1] == headers[i]);
        assert forall|k: int| 0 <= k < i - 1 implies !(set_cookie_pair(
            #[trigger] rest[k],
        ) matches Some((name, _)) && name == "mam_id"@) by {
            assert(rest[k] == headers[k + 1]);
        }
        assert(!(set_cookie_pair(headers[0]) matches Some((name, _)) && name == "mam_id"@));
        lemma_rotated_at(rest, i - 1, value);
    }
}

/// Where no header sets MAM's cookie, it does not rotate.
pub proof fn law_other_cookies_do_not_rotate(headers: &Vec<String>, r: Option<String>)
    requires
        call_ensures(rotated_cookie_from_headers, (headers,), r),
        forall|k: int|
            0 <= k < headers.len() ==> !(set_cookie_pair((#[trigger] headers@[k])@) matches Some(
                (name, _),
            ) && name == "mam_id"@),
    ensures
        r is None,
{
    let all = headers.deep_view();
    assert forall|k: int| 0 <= k < all.len() implies !(set_cookie_pair(
        #[trigger] all[k],
    ) matches Some((name, _)) && name == "mam_id"@) by {
        assert(all[k] == headers@[k]@);
    }
    lemma_not_rotated(all);
}

proof fn lemma_not_rotated(headers: Seq<Seq<char>>)
    requires
        forall|k: int|
            0 <= k < headers.len() ==> !(set_cookie_pair(#[trigger] headers[k]) matches Some(
                (name, _),
            ) && name == "mam_id"@),
    ensures
        rotated_cookie(headers) is None,
    decreases headers.len(),
{
    if headers.len() > 0 {
        let rest = headers.skip(1);
        assert(!(set_cookie_pair(headers[0]) matches Some((name, _)) && name == "mam_id"@));
        assert forall|k: int| 0 <= k < rest.len() implies !(set_cookie_pair(
            #[trigger] rest[k],
        ) matches Some((name, _)) && name == "mam_id"@) by {
            assert(rest[k] == headers[k + 1]);
        }
        lemma_not_rotated(rest);
    }
}

/// A header sets the name and the value around its first equals sign, and
/// whatever attributes follow change nothing.
pub proof fn law_set_cookie_is_name_and_value(
    name: Seq<char>,
    value: Seq<char>,
    attributes: Seq<char>,
)
    requires
        name.len() > 0,
        text::trimmed(name) == name,
        text::trimmed(value) == value,
        !name.contains('='),
        !name.contains(';'),
        !value.contains(';'),
    ensures
        set_cookie_pair(name + seq!['='] + value) == Some((name, value)),
        set_cookie_pair(name + seq!['='] + value + seq![';'] + attributes) == Some((name, value)),
{
    let pair = name + seq!['='] + value;
    assert forall|i: int| 0 <= i < pair.len() implies pair[i] != ';' by {
        if i < name.len() {
            assert(name.contains(name[i]));
        } else if i > name.len() {
            assert(value.contains(value[i - name.len() - 1]));
        }
    }
    assert(!pair.contains(';'));
    text::lemma_split_one(pair, ';');
    text::lemma_split_around(pair, ';', attributes);
    assert(pair.take(name.len() as int) =~= name);
    assert(text::first_at(pair, '=', name.len() as int));
    text::lemma_first_at(pair, '=', name.len() as int);
    assert(pair.skip(name.len() as int + 1) =~= value);
}

/// The IPv4 addresses are the texts of four numbers up to 255 with dots
/// between them.
pub proof fn law_addresses_are_four_octets(a: nat, b: nat, c: nat, d: nat)
    ensures
        is_ipv4(
            text::decimal(a) + seq!['.'] + (text::decimal(b) + seq!['.'] + (text::decimal(c)
                + seq!['.'] + text::decimal(d))),
        ) <==> a <= 255 && b <= 255 && c <= 255 && d <= 255,
{
    let (w, x, y, z) = (text::decimal(a), text::decimal(b), text::decimal(c), text::decimal(d));
    lemma_octet(a);
    lemma_octet(b);
    lemma_octet(c);
    lemma_octet(d);
    text::lemma_split_one(w, '.');
    text::lemma_split_one(x, '.');
    text::lemma_split_one(y, '.');
    text::lemma_split_one(z, '.');
    text::lemma_split_around(y, '.', z);
    text::lemma_split_around(x, '.', y + seq!['.'] + z);
    text::lemma_split_around(w, '.', x + seq!['.'] + (y + seq!['.'] + z));
    let s = w + seq!['.'] + (x + seq!['.'] + (y + seq!['.'] + z));
    let parts = text::split_at_each(s, '.');
    assert(parts =~= seq![w, x, y, z]);
    assert(parts[0] == w && parts[1] == x && parts[2] == y && parts[3] == z);
}

proof fn lemma_octet(n: nat)
    ensures
        is_octet(text::decimal(n)) <==> n <= 255,
        !text::decimal(n).contains('.'),
{
    let s = text::decimal(n);
    text::law_decimal_denotes_the_number(n);
    if s.contains('.') {
        let k = choose|k: int| 0 <= k < s.len() && s[k] == '.';
        assert(text::is_digit(s[k]));
    }
    if n <= 255 {
        reveal_with_fuel(text::decimal, 4);
        if n == 0 {
            assert(s.len() == 1);
        }
    }
}

/// An address has four parts between its dots, each a number up to 255 in
/// decimal.
pub proof fn law_addresses_have_four_numbers(s: Seq<char>, i: int)
    requires
        is_ipv4(s),
        0 <= i < 4,
    ensures
        text::split_at_each(s, '.').len() == 4,
        text::joined(text::split_at_each(s, '.'), '.') == s,
        ({
            let part = text::split_at_each(s, '.')[i];
            &&& text::read_unsigned(part, 255) is Some
            &&& part.len() > 1 ==> part[0] != '0'
            &&& part[0] != '+'
        }),
{
    text::law_split_is_undone_by_joining(s, '.');
    let part = text::split_at_each(s, '.')[i];
    assert(is_octet(part));
    assert(text::is_digit(part[0]));
}

/// A request that nothing came back of is told of with the address that it went
/// to, and with how long was waited for it.
pub proof fn law_failures_tell_the_address(
    client: &MamClient,
    fetched: &Fetched,
    update: Result<MamUpdateResult, AppError>,
    lookup: Result<HostInfo, AppError>,
    timeout: bool,
)
    requires
        call_ensures(MamClient::update_mam_ip, (client, fetched), update),
        call_ensures(MamClient::get_host_info, (client, fetched), lookup),
        fetched@ == (FetchedView::Failed { timeout }),
    ensures
        update matches Err(e) && text::occurs_in(
            e@.body.message,
            client@.base_url + "/json/dynamicSeedbox.php"@,
        ) && (timeout ==> text::occurs_in(e@.body.message, client@.timeout_text)),
        lookup matches Err(e) && text::occurs_in(
            e@.body.message,
            client@.base_url + "/json/jsonIp.php"@,
        ) && (timeout ==> text::occurs_in(e@.body.message, client@.timeout_text)),
{
    lemma_failure_names(client@, update_url(client@), timeout);
    lemma_failure_names(client@, host_info_url(client@), timeout);
}

proof fn lemma_failure_names(client: MamClientView, url: Seq<char>, timeout: bool)
    ensures
        text::occurs_in(transport_failure(client, url, timeout).body.message, url),
        timeout ==> text::occurs_in(
            transport_failure(client, url, timeout).body.message,
            client.timeout_text,
        ),
{
    let message = transport_failure(client, url, timeout).body.message;
    if timeout {
        let rest = " timed out after "@ + client.timeout_text + "s. Is the network up?"@;
        text::lemma_part_occurs("Request to "@, url, rest);
        assert("Request to "@ + url + rest =~= message);
        text::lemma_part_occurs(
            "Request to "@ + url + " timed out after "@,
            client.timeout_text,
            "s. Is the network up?"@,
        );
    } else {
        text::lemma_part_occurs("Network request to "@, url, " failed"@);
    }
}

/// An answer that is no JSON, or a lookup without a success status, is told of
/// with its status and the address that it came from.
pub proof fn law_bad_answers_tell_status_and_address(
    client: &MamClient,
    fetched: &Fetched,
    update: Result<MamUpdateResult, AppError>,
    lookup: Result<HostInfo, AppError>,
    status: u16,
    set_cookies: Seq<Seq<char>>,
    body: FetchedBodyView,
    update_address: &str,
    lookup_address: &str,
    garbled_update: AppError,
    garbled_lookup: AppError,
)
    requires
        call_ensures(MamClient::update_mam_ip, (client, fetched), update),
        call_ensures(MamClient::get_host_info, (client, fetched), lookup),
        fetched@ == (FetchedView::Answered { status, set_cookies, body }),
        update_address@ == client@.base_url + "/json/dynamicSeedbox.php"@,
        lookup_address@ == client@.base_url + "/json/jsonIp.php"@,
        call_ensures(
            error::json_parse_error_response,
            (status, update_address),
            garbled_update,
        ),
        call_ensures(
            error::json_parse_error_response,
            (status, lookup_address),
            garbled_lookup,
        ),
    ensures
        (body matches FetchedBodyView::Text(t) && json::parsed_json(
            vstd::utf8::encode_utf8(t),
        ) is Err) ==> {
            &&& update is Err && update->Err_0@ == garbled_update@
            &&& 200 <= status < 300 ==> lookup is Err && lookup->Err_0@ == garbled_lookup@
        },
        !(200 <= status < 300) ==> lookup is Err && lookup->Err_0@.body.message
            == "Failed to fetch host IP from "@ + lookup_address@ + ": "@ + text::decimal(
            status as nat,
        ),
{
}

} // verus!
