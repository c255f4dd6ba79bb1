//! The error model: every failing JSON response, but for the login envelope,
//! carries an `ErrorBody`. The message templates are wire contract.

use crate::json;
use crate::json::JsonView;
use crate::text;
use vstd::prelude::*;

verus! {

#[derive(Debug)]
pub struct Issue {
    pub path: String,
    pub message: String,
}

#[verifier::ext_equal]
pub struct IssueView {
    pub path: Seq<char>,
    pub message: Seq<char>,
}

#[derive(Debug)]
pub struct ErrorBody {
    pub error_type: String,
    pub message: String,
    pub issues: Option<Vec<Issue>>,
    pub cause: Option<Box<ErrorBody>>,
}

#[verifier::ext_equal]
pub struct ErrorView {
    pub error_type: Seq<char>,
    pub message: Seq<char>,
    pub issues: Option<Seq<IssueView>>,
    pub cause: Option<Box<ErrorView>>,
}

/// A fully formed application error: status, wire body, extra headers.
#[derive(Debug)]
pub struct AppError {
    pub status: u16,
    pub body: ErrorBody,
    pub headers: Vec<(String, String)>,
}

#[verifier::ext_equal]
pub struct AppErrorView {
    pub status: u16,
    pub body: ErrorView,
    pub headers: Seq<(Seq<char>, Seq<char>)>,
}

impl View for Issue {
    type V = IssueView;

    open spec fn view(&self) -> IssueView {
        IssueView { path: self.path@, message: self.message@ }
    }
}

pub open spec fn issue_views(issues: Seq<Issue>) -> Seq<IssueView> {
    issues.map_values(|i: Issue| i@)
}

pub open spec fn error_view(body: ErrorBody) -> ErrorView
    decreases body,
{
    ErrorView {
        error_type: body.error_type@,
        message: body.message@,
        issues: match body.issues {
            Some(issues) => Some(issue_views(issues@)),
            None => None,
        },
        cause: match body.cause {
            Some(cause) => Some(Box::new(error_view(*cause))),
            None => None,
        },
    }
}

impl View for ErrorBody {
    type V = ErrorView;

    open spec fn view(&self) -> ErrorView {
        error_view(*self)
    }
}

impl View for AppError {
    type V = AppErrorView;

    open spec fn view(&self) -> AppErrorView {
        AppErrorView {
            status: self.status,
            body: self.body@,
            headers: self.headers.deep_view(),
        }
    }
}

impl DeepView for AppError {
    type V = AppErrorView;

    open spec fn deep_view(&self) -> AppErrorView {
        self@
    }
}

/// A result of the library, by the views of what it holds.
pub open spec fn viewed<T: View>(r: Result<T, AppError>) -> Result<T::V, AppErrorView> {
    match r {
        Ok(value) => Ok(value@),
        Err(e) => Err(e@),
    }
}

/// The result is an error of that type, answered with that status.
pub open spec fn fails_with<T>(r: Result<T, AppError>, status: u16, error_type: Seq<char>) -> bool {
    r matches Err(e) && e@.status == status && e@.body.error_type == error_type
}

/// A body of type and message alone.
pub open spec fn body_of(error_type: Seq<char>, message: Seq<char>) -> ErrorView {
    ErrorView { error_type, message, issues: None, cause: None }
}

/// An error of status, type and message alone.
pub open spec fn error_of(status: u16, error_type: Seq<char>, message: Seq<char>) -> AppErrorView {
    AppErrorView { status, body: body_of(error_type, message), headers: Seq::empty() }
}

/// The same error, with what brought it about as an unhandled error below it.
pub open spec fn caused_by(error: AppErrorView, message: Seq<char>) -> AppErrorView {
    AppErrorView {
        body: ErrorView {
            cause: Some(Box::new(body_of("unhandled-error"@, message))),
            ..error.body
        },
        ..error
    }
}

/// How a schema error sums up its issues: the first one, with its path before
/// it where it has one.
pub open spec fn issue_summary(issues: Seq<IssueView>) -> Seq<char> {
    if issues.len() == 0 {
        "invalid data"@
    } else if issues[0].path.len() > 0 {
        issues[0].path + ": "@ + issues[0].message
    } else {
        issues[0].message
    }
}

pub open spec fn schema_error_of(
    status: u16,
    source: Seq<char>,
    issues: Seq<IssueView>,
) -> AppErrorView {
    let e = error_of(
        status,
        "schema-error"@,
        "Schema validation failed for data from "@ + source + ": "@ + issue_summary(issues),
    );
    AppErrorView { body: ErrorView { issues: Some(issues), ..e.body }, ..e }
}

pub open spec fn payload_too_large_error() -> AppErrorView {
    error_of(413, "payload-too-large"@, "Request body must not exceed 8192 bytes."@)
}

pub open spec fn not_found_error() -> AppErrorView {
    error_of(404, "not-found"@, "Not Found"@)
}

pub open spec fn host_not_allowed_error(message: Seq<char>) -> AppErrorView {
    error_of(403, "host-not-allowed"@, message)
}

pub open spec fn origin_not_allowed_error(origin: Seq<char>) -> AppErrorView {
    error_of(
        403,
        "origin-not-allowed"@,
        "Origin \""@ + origin
            + "\" is not allowed. (Add to MOUSEHOLE_ALLOWED_ORIGINS to permit it.)"@,
    )
}

pub open spec fn authentication_required_error(message: Seq<char>) -> AppErrorView {
    AppErrorView {
        status: 401,
        body: body_of("authentication-required"@, message),
        headers: seq![("WWW-Authenticate"@, "Bearer realm=\"Mousehole\""@)],
    }
}

pub open spec fn auth_not_configured_error() -> AppErrorView {
    error_of(
        500,
        "auth-not-configured"@,
        "Mousehole authentication is not configured. Set MOUSEHOLE_AUTH_PASSWORD or MOUSEHOLE_AUTH_TOKEN to enable."@,
    )
}

pub open spec fn unsupported_media_type_error(raw: Seq<char>) -> AppErrorView {
    error_of(
        415,
        "unsupported-media-type"@,
        "Unsupported content type \""@ + raw + "\", must be \"application/json\""@,
    )
}

pub open spec fn request_json_error(
    method: Seq<char>,
    url: Seq<char>,
    cause: Seq<char>,
) -> AppErrorView {
    caused_by(
        error_of(
            400,
            "json-parse-error"@,
            "Error parsing JSON from request with method "@ + method + " and URL "@ + url,
        ),
        cause,
    )
}

pub open spec fn response_json_error(status: u16, url: Seq<char>) -> AppErrorView {
    error_of(
        500,
        "json-parse-error"@,
        "Error parsing JSON from response with status "@ + text::decimal(status as nat)
            + " and URL "@ + url,
    )
}

pub open spec fn file_json_error(path: Seq<char>, cause: Seq<char>) -> AppErrorView {
    caused_by(
        error_of(500, "json-parse-error"@, "Error parsing JSON from file at "@ + path),
        cause,
    )
}

pub open spec fn file_reading_error(path: Seq<char>) -> AppErrorView {
    error_of(
        500,
        "file-read-error"@,
        "Error reading file: "@ + path + ". Check that it is readable and is not a directory."@,
    )
}

pub open spec fn file_writing_error(path: Seq<char>) -> AppErrorView {
    error_of(
        500,
        "file-write-error"@,
        "Error writing file: "@ + path
            + ". Check that the parent directory exists and is writable."@,
    )
}

pub open spec fn directory_creation_error(path: Seq<char>) -> AppErrorView {
    error_of(
        500,
        "directory-create-error"@,
        "Error creating directory: "@ + path
            + ". Check that the parent directory exists and you have write permissions."@,
    )
}

pub open spec fn network_failure(url: Seq<char>) -> AppErrorView {
    error_of(500, "network-error"@, "Network request to "@ + url + " failed"@)
}

pub open spec fn timeout_failure(url: Seq<char>, seconds: Seq<char>) -> AppErrorView {
    error_of(
        504,
        "timeout-error"@,
        "Request to "@ + url + " timed out after "@ + seconds + "s. Is the network up?"@,
    )
}

pub open spec fn unhandled_error(message: Seq<char>) -> AppErrorView {
    error_of(500, "unhandled-error"@, message)
}

pub open spec fn issue_json(issue: IssueView) -> JsonView {
    JsonView::Object(
        seq![
            ("path"@, JsonView::Text(issue.path)),
            ("message"@, JsonView::Text(issue.message)),
        ],
    )
}

/// The body as it goes over the wire: type, message, then the issues and the
/// cause where there are any.
pub open spec fn error_json(body: ErrorView) -> JsonView
    decreases body,
{
    let head = seq![
        ("type"@, JsonView::Text(body.error_type)),
        ("message"@, JsonView::Text(body.message)),
    ];
    let issues = match body.issues {
        Some(issues) => Some(JsonView::List(issues.map_values(|i: IssueView| issue_json(i)))),
        None => None,
    };
    let cause = match body.cause {
        Some(cause) => Some(error_json(*cause)),
        None => None,
    };
    JsonView::Object(json::with_member(json::with_member(head, "issues"@, issues), "cause"@, cause))
}

proof fn lemma_keys()
    ensures
        "type"@ != "message"@,
        "type"@ != "issues"@,
        "type"@ != "cause"@,
        "message"@ != "issues"@,
        "message"@ != "cause"@,
        "issues"@ != "cause"@,
        "path"@ != "message"@,
{
    reveal_strlit("type");
    reveal_strlit("message");
    reveal_strlit("issues");
    reveal_strlit("cause");
    reveal_strlit("path");
    assert("type"@.len() == 4 && "path"@.len() == 4 && "cause"@.len() == 5);
    assert("issues"@.len() == 6 && "message"@.len() == 7);
}

impl Issue {
    fn to_value(&self) -> (r: serde_json::Value)
        ensures
            json::json_content(r) == issue_json(self@),
    {
        proof {
            lemma_keys();
        }
        let mut fields: Vec<(String, serde_json::Value)> = Vec::new();
        json::push_member(&mut fields, "path", json::text_value(&self.path));
        json::push_member(&mut fields, "message", json::text_value(&self.message));
        assert(json::members_of(fields@) =~= seq![
            ("path"@, JsonView::Text(self.path@)),
            ("message"@, JsonView::Text(self.message@)),
        ]);
        json::object_value(fields)
    }
}

impl ErrorBody {
    pub fn new(error_type: &str, message: &str) -> (r: Self)
        ensures
            r@ == body_of(error_type@, message@),
    {
        ErrorBody {
            error_type: error_type.to_owned(),
            message: message.to_owned(),
            issues: None,
            cause: None,
        }
    }

    /// The body as a JSON document.
    pub fn to_value(&self) -> (r: serde_json::Value)
        ensures
            json::json_content(r) == error_json(self@),
        decreases self,
    {
        proof {
            lemma_keys();
        }
        let mut fields: Vec<(String, serde_json::Value)> = Vec::new();
        json::push_member(&mut fields, "type", json::text_value(&self.error_type));
        json::push_member(&mut fields, "message", json::text_value(&self.message));
        let ghost head = seq![
            ("type"@, JsonView::Text(self.error_type@)),
            ("message"@, JsonView::Text(self.message@)),
        ];
        assert(json::members_of(fields@) =~= head);
        let ghost mut issues_part: Option<JsonView> = None;
        let ghost mut cause_part: Option<JsonView> = None;
        if let Some(issues) = &self.issues {
            let mut items: Vec<serde_json::Value> = Vec::new();
            let mut i: usize = 0;
            while i < issues.len()
                invariant
                    i <= issues.len(),
                    items@.len() == i,
                    forall|k: int|
                        0 <= k < i ==> json::json_content(#[trigger] items@[k]) == issue_json(
                            issues@[k]@,
                        ),
                decreases issues.len() - i,
            {
                items.push(issues[i].to_value());
                i = i + 1;
            }
            let ghost listed = issue_views(issues@).map_values(|i: IssueView| issue_json(i));
            assert(items@.map_values(|v: serde_json::Value| json::json_content(v)) =~= listed);
            json::push_member(&mut fields, "issues", json::list_value(items));
            proof {
                issues_part = Some(JsonView::List(listed));
            }
        }
        assert(json::members_of(fields@) =~= json::with_member(head, "issues"@, issues_part));
        if let Some(cause) = &self.cause {
            json::push_member(&mut fields, "cause", cause.to_value());
            proof {
                cause_part = Some(error_json(error_view(**cause)));
            }
        }
        assert(json::members_of(fields@) =~= json::with_member(
            json::with_member(head, "issues"@, issues_part),
            "cause"@,
            cause_part,
        ));
        json::object_value(fields)
    }
}

impl AppError {
    /// The error in one line, as logs show it.
    pub fn describe(&self) -> (r: String)
        ensures
            r@ == self@.body.error_type + ": "@ + self@.body.message,
    {
        self.body.error_type.clone().concat(": ").concat(&self.body.message)
    }
}

fn plain(status: u16, error_type: &str, message: &str) -> (r: AppError)
    ensures
        r@ == error_of(status, error_type@, message@),
{
    let r = AppError { status, body: ErrorBody::new(error_type, message), headers: Vec::new() };
    assert(r@ =~= error_of(status, error_type@, message@));
    r
}

fn with_cause(error: AppError, cause_message: &str) -> (r: AppError)
    ensures
        r@ == caused_by(error@, cause_message@),
{
    let AppError { status, body, headers } = error;
    let ErrorBody { error_type, message, issues, cause: _ } = body;
    AppError {
        status,
        body: ErrorBody {
            error_type,
            message,
            issues,
            cause: Some(Box::new(ErrorBody::new("unhandled-error", cause_message))),
        },
        headers,
    }
}

// The catalogue. The templates are contract; do not reword them.
pub fn payload_too_large() -> (r: AppError)
    ensures
        r@ == payload_too_large_error(),
{
    plain(413, "payload-too-large", "Request body must not exceed 8192 bytes.")
}

pub fn not_found() -> (r: AppError)
    ensures
        r@ == not_found_error(),
{
    plain(404, "not-found", "Not Found")
}

pub fn host_not_allowed(message: &str) -> (r: AppError)
    ensures
        r@ == host_not_allowed_error(message@),
{
    plain(403, "host-not-allowed", message)
}

pub fn origin_not_allowed(normalized_origin: &str) -> (r: AppError)
    ensures
        r@ == origin_not_allowed_error(normalized_origin@),
{
    let message = "Origin \"".to_owned().concat(normalized_origin).concat(
        "\" is not allowed. (Add to MOUSEHOLE_ALLOWED_ORIGINS to permit it.)",
    );
    plain(403, "origin-not-allowed", &message)
}

/// A 401, which always names the scheme that it asks for.
pub fn authentication_required(message: &str) -> (r: AppError)
    ensures
        r@ == authentication_required_error(message@),
{
    let mut headers: Vec<(String, String)> = Vec::new();
    headers.push(("WWW-Authenticate".to_owned(), "Bearer realm=\"Mousehole\"".to_owned()));
    let r = AppError {
        status: 401,
        body: ErrorBody::new("authentication-required", message),
        headers,
    };
    assert(r@.headers =~= seq![("WWW-Authenticate"@, "Bearer realm=\"Mousehole\""@)]);
    r
}

pub fn auth_not_configured() -> (r: AppError)
    ensures
        r@ == auth_not_configured_error(),
{
    plain(
        500,
        "auth-not-configured",
        "Mousehole authentication is not configured. Set MOUSEHOLE_AUTH_PASSWORD or MOUSEHOLE_AUTH_TOKEN to enable.",
    )
}

pub fn unsupported_media_type(raw_content_type: &str) -> (r: AppError)
    ensures
        r@ == unsupported_media_type_error(raw_content_type@),
{
    let message = "Unsupported content type \"".to_owned().concat(raw_content_type).concat(
        "\", must be \"application/json\"",
    );
    plain(415, "unsupported-media-type", &message)
}

/// `source` is e.g. "request body", or a file path or URL. The message carries
/// the first issue, path-prefixed only when the path is non-empty.
pub fn schema_error(status: u16, source: &str, issues: Vec<Issue>) -> (r: AppError)
    ensures
        r@ == schema_error_of(status, source@, issue_views(issues@)),
{
    let detail = if issues.len() == 0 {
        "invalid data".to_owned()
    } else if issues[0].path.unicode_len() > 0 {
        issues[0].path.clone().concat(": ").concat(&issues[0].message)
    } else {
        issues[0].message.clone()
    };
    assert(detail@ == issue_summary(issue_views(issues@)));
    let message = "Schema validation failed for data from ".to_owned().concat(source).concat(
        ": ",
    ).concat(&detail);
    let e = plain(status, "schema-error", &message);
    let AppError { status, body, headers } = e;
    let ErrorBody { error_type, message, issues: _, cause } = body;
    AppError {
        status,
        body: ErrorBody { error_type, message, issues: Some(issues), cause },
        headers,
    }
}

/// The parser's words ride along as a cause.
pub fn json_parse_error_request(method: &str, url: &str, cause_message: &str) -> (r: AppError)
    ensures
        r@ == request_json_error(method@, url@, cause_message@),
{
    let message = "Error parsing JSON from request with method ".to_owned().concat(method).concat(
        " and URL ",
    ).concat(url);
    with_cause(plain(400, "json-parse-error", &message), cause_message)
}

pub fn json_parse_error_response(status: u16, url: &str) -> (r: AppError)
    ensures
        r@ == response_json_error(status, url@),
{
    let message = "Error parsing JSON from response with status ".to_owned().concat(
        &text::decimal_text(status as u64),
    ).concat(" and URL ").concat(url);
    plain(500, "json-parse-error", &message)
}

/// The parser's words ride along as a cause.
pub fn json_parse_error_file(path: &str, cause_message: &str) -> (r: AppError)
    ensures
        r@ == file_json_error(path@, cause_message@),
{
    let message = "Error parsing JSON from file at ".to_owned().concat(path);
    with_cause(plain(500, "json-parse-error", &message), cause_message)
}

pub fn file_read_error(path: &str) -> (r: AppError)
    ensures
        r@ == file_reading_error(path@),
{
    let message = "Error reading file: ".to_owned().concat(path).concat(
        ". Check that it is readable and is not a directory.",
    );
    plain(500, "file-read-error", &message)
}

pub fn file_write_error(path: &str) -> (r: AppError)
    ensures
        r@ == file_writing_error(path@),
{
    let message = "Error writing file: ".to_owned().concat(path).concat(
        ". Check that the parent directory exists and is writable.",
    );
    plain(500, "file-write-error", &message)
}

pub fn directory_create_error(path: &str) -> (r: AppError)
    ensures
        r@ == directory_creation_error(path@),
{
    let message = "Error creating directory: ".to_owned().concat(path).concat(
        ". Check that the parent directory exists and you have write permissions.",
    );
    plain(500, "directory-create-error", &message)
}

pub fn network_error(url: &str) -> (r: AppError)
    ensures
        r@ == network_failure(url@),
{
    let message = "Network request to ".to_owned().concat(url).concat(" failed");
    plain(500, "network-error", &message)
}

/// `seconds` is the timeout as it is shown, e.g. `10` or `0.5`.
pub fn timeout_error(url: &str, seconds: &str) -> (r: AppError)
    ensures
        r@ == timeout_failure(url@, seconds@),
{
    let message = "Request to ".to_owned().concat(url).concat(" timed out after ").concat(
        seconds,
    ).concat("s. Is the network up?");
    plain(504, "timeout-error", &message)
}

pub fn unhandled(message: &str) -> (r: AppError)
    ensures
        r@ == unhandled_error(message@),
{
    plain(500, "unhandled-error", message)
}

// Laws.
/// The document of an error says its type and its message, its issues in order
/// where it has any, and what brought it about in the same form.
pub proof fn law_error_document(
    body: &ErrorBody,
    cause: &ErrorBody,
    cause_value: serde_json::Value,
    i: int,
    r: serde_json::Value,
)
    requires
        call_ensures(ErrorBody::to_value, (body,), r),
        call_ensures(ErrorBody::to_value, (cause,), cause_value),
        body@.cause matches Some(c) ==> *c == cause@,
    ensures
        ({
            let v = json::json_content(r);
            &&& json::member_of(v, "type"@) == Some(JsonView::Text(body.error_type@))
            &&& json::member_of(v, "message"@) == Some(JsonView::Text(body.message@))
            &&& body@.issues is None ==> json::member_of(v, "issues"@) is None
            &&& body@.issues matches Some(issues) ==> json::member_of(v, "issues"@) matches Some(
                JsonView::List(items),
            ) && items.len() == issues.len() && (0 <= i < items.len() ==> json::member_of(
                items[i],
                "path"@,
            ) == Some(JsonView::Text(issues[i].path)) && json::member_of(items[i], "message"@)
                == Some(JsonView::Text(issues[i].message)))
            &&& json::member_of(v, "cause"@) == match body@.cause {
                Some(_) => Some(json::json_content(cause_value)),
                None => None,
            }
        }),
{
    lemma_keys();
    let e = body@;
    let head = seq![
        ("type"@, JsonView::Text(e.error_type)),
        ("message"@, JsonView::Text(e.message)),
    ];
    let listed = match e.issues {
        Some(issues) => Some(JsonView::List(issues.map_values(|i: IssueView| issue_json(i)))),
        None => None,
    };
    let below = match e.cause {
        Some(c) => Some(error_json(*c)),
        None => None,
    };
    let m = json::with_member(json::with_member(head, "issues"@, listed), "cause"@, below);
    assert(json::json_content(r) == JsonView::Object(m));
    assert(json::distinct_keys(m));
    json::lemma_lookup_at(m, 0);
    json::lemma_lookup_at(m, 1);
    if e.issues is Some {
        json::lemma_lookup_at(m, 2);
        let issues = e.issues->0;
        if 0 <= i < issues.len() {
            let parts = seq![
                ("path"@, JsonView::Text(issues[i].path)),
                ("message"@, JsonView::Text(issues[i].message)),
            ];
            assert(json::distinct_keys(parts));
            json::lemma_lookup_at(parts, 0);
            json::lemma_lookup_at(parts, 1);
        }
    } else {
        assert(!json::has_key(m, "issues"@));
        json::lemma_lookup_absent(m, "issues"@);
    }
    if e.cause is Some {
        json::lemma_lookup_at(m, m.len() - 1);
    } else {
        assert(!json::has_key(m, "cause"@));
        json::lemma_lookup_absent(m, "cause"@);
    }
}

/// The error is of that status and type, and its message has that part.
pub open spec fn tells(e: AppError, status: u16, error_type: Seq<char>, part: Seq<char>) -> bool {
    e@.status == status && e@.body.error_type == error_type && text::occurs_in(
        e@.body.message,
        part,
    )
}

/// What is refused at the boundary is refused with the status that HTTP has for
/// it, and tells what was refused.
pub proof fn law_refusals_tell_what_was_refused(
    subject: &str,
    host: AppError,
    origin: AppError,
    media: AppError,
    auth: AppError,
    unset: AppError,
    missing: AppError,
    large: AppError,
)
    requires
        call_ensures(host_not_allowed, (subject,), host),
        call_ensures(origin_not_allowed, (subject,), origin),
        call_ensures(unsupported_media_type, (subject,), media),
        call_ensures(authentication_required, (subject,), auth),
        call_ensures(auth_not_configured, (), unset),
        call_ensures(not_found, (), missing),
        call_ensures(payload_too_large, (), large),
    ensures
        tells(host, 403, "host-not-allowed"@, subject@),
        host@.body.message == subject@,
        tells(origin, 403, "origin-not-allowed"@, subject@),
        tells(media, 415, "unsupported-media-type"@, subject@),
        tells(auth, 401, "authentication-required"@, subject@),
        auth@.body.message == subject@,
        auth@.headers == seq![("WWW-Authenticate"@, "Bearer realm=\"Mousehole\""@)],
        unset@.status == 500 && unset@.body.error_type == "auth-not-configured"@,
        missing@.status == 404 && missing@.body.error_type == "not-found"@,
        large@.status == 413 && large@.body.error_type == "payload-too-large"@,
        host@.headers.len() == 0 && origin@.headers.len() == 0 && media@.headers.len() == 0,
{
    let none = Seq::<char>::empty();
    text::lemma_part_occurs(none, subject@, none);
    assert(none + subject@ + none =~= subject@);
    text::lemma_part_occurs(
        "Origin \""@,
        subject@,
        "\" is not allowed. (Add to MOUSEHOLE_ALLOWED_ORIGINS to permit it.)"@,
    );
    text::lemma_part_occurs(
        "Unsupported content type \""@,
        subject@,
        "\", must be \"application/json\""@,
    );
}

/// What goes wrong with the network and with files is an error of the server,
/// and tells which address or path it was.
pub proof fn law_failures_tell_where(
    place: &str,
    seconds: &str,
    network: AppError,
    timeout: AppError,
    read: AppError,
    write: AppError,
    directory: AppError,
    other: AppError,
)
    requires
        call_ensures(network_error, (place,), network),
        call_ensures(timeout_error, (place, seconds), timeout),
        call_ensures(file_read_error, (place,), read),
        call_ensures(file_write_error, (place,), write),
        call_ensures(directory_create_error, (place,), directory),
        call_ensures(unhandled, (place,), other),
    ensures
        tells(network, 500, "network-error"@, place@),
        tells(timeout, 504, "timeout-error"@, place@),
        tells(timeout, 504, "timeout-error"@, seconds@),
        tells(read, 500, "file-read-error"@, place@),
        tells(write, 500, "file-write-error"@, place@),
        tells(directory, 500, "directory-create-error"@, place@),
        tells(other, 500, "unhandled-error"@, place@),
        other@.body.message == place@,
{
    let none = Seq::<char>::empty();
    text::lemma_part_occurs(none, place@, none);
    assert(none + place@ + none =~= place@);
    text::lemma_part_occurs("Network request to "@, place@, " failed"@);
    let rest = " timed out after "@ + seconds@ + "s. Is the network up?"@;
    text::lemma_part_occurs("Request to "@, place@, rest);
    assert("Request to "@ + place@ + rest =~= timeout@.body.message);
    text::lemma_part_occurs(
        "Request to "@ + place@ + " timed out after "@,
        seconds@,
        "s. Is the network up?"@,
    );
    text::lemma_part_occurs(
        "Error reading file: "@,
        place@,
        ". Check that it is readable and is not a directory."@,
    );
    text::lemma_part_occurs(
        "Error writing file: "@,
        place@,
        ". Check that the parent directory exists and is writable."@,
    );
    text::lemma_part_occurs(
        "Error creating directory: "@,
        place@,
        ". Check that the parent directory exists and you have write permissions."@,
    );
}

/// What is not JSON tells where it came from, and as its cause in which words
/// the parser refused it. Only what a client sent is the client's fault.
pub proof fn law_parse_errors_tell_the_source(
    method: &str,
    place: &str,
    words: &str,
    status: u16,
    request: AppError,
    response: AppError,
    file: AppError,
)
    requires
        call_ensures(json_parse_error_request, (method, place, words), request),
        call_ensures(json_parse_error_response, (status, place), response),
        call_ensures(json_parse_error_file, (place, words), file),
    ensures
        tells(request, 400, "json-parse-error"@, place@),
        tells(request, 400, "json-parse-error"@, method@),
        tells(response, 500, "json-parse-error"@, place@),
        tells(response, 500, "json-parse-error"@, text::decimal(status as nat)),
        tells(file, 500, "json-parse-error"@, place@),
        request@.body.cause matches Some(c) && c.message == words@ && c.error_type
            == "unhandled-error"@,
        file@.body.cause matches Some(c) && c.message == words@ && c.error_type
            == "unhandled-error"@,
        response@.body.cause is None,
{
    let none = Seq::<char>::empty();
    let front = "Error parsing JSON from request with method "@ + method@ + " and URL "@;
    text::lemma_part_occurs(front, place@, none);
    assert(front + place@ + none =~= request@.body.message);
    let back = " and URL "@ + place@;
    text::lemma_part_occurs("Error parsing JSON from request with method "@, method@, back);
    assert("Error parsing JSON from request with method "@ + method@ + back
        =~= request@.body.message);
    let code = text::decimal(status as nat);
    let answer = "Error parsing JSON from response with status "@ + code + " and URL "@;
    text::lemma_part_occurs(answer, place@, none);
    assert(answer + place@ + none =~= response@.body.message);
    text::lemma_part_occurs("Error parsing JSON from response with status "@, code, back);
    assert("Error parsing JSON from response with status "@ + code + back
        =~= response@.body.message);
    text::lemma_part_occurs("Error parsing JSON from file at "@, place@, none);
    assert("Error parsing JSON from file at "@ + place@ + none =~= file@.body.message);
}

/// A document that is not as it should be is told of with all its issues; the
/// message names the source and the first issue, with its path where it has
/// one.
pub proof fn law_schema_error_tells_the_first_issue(
    status: u16,
    source: &str,
    issues: Vec<Issue>,
    e: AppError,
)
    requires
        call_ensures(schema_error, (status, source, issues), e),
    ensures
        tells(e, status, "schema-error"@, source@),
        e@.body.issues == Some(issue_views(issues@)),
        e@.body.cause is None,
        issues@.len() > 0 ==> text::occurs_in(e@.body.message, issues@[0].message@),
        issues@.len() > 0 && issues@[0].path@.len() > 0 ==> text::occurs_in(
            e@.body.message,
            issues@[0].path@ + ": "@ + issues@[0].message@,
        ),
{
    let views = issue_views(issues@);
    lemma_source_occurs(status, source@, views);
    if issues@.len() > 0 {
        assert(views[0] == issues@[0]@);
        lemma_issue_occurs(status, source@, views);
    }
}

/// A schema error names its source.
pub proof fn lemma_source_occurs(status: u16, source: Seq<char>, issues: Seq<IssueView>)
    ensures
        text::occurs_in(schema_error_of(status, source, issues).body.message, source),
{
    let begin = "Schema validation failed for data from "@;
    let rest = ": "@ + issue_summary(issues);
    assert(begin + source + rest =~= begin + source + ": "@ + issue_summary(issues));
    text::lemma_part_occurs(begin, source, rest);
}

proof fn lemma_regroup(a: Seq<char>, b: Seq<char>, c: Seq<char>, d: Seq<char>)
    ensures
        a + (b + c + d) == (a + b + c) + d + Seq::empty(),
        a + d == a + d + Seq::empty(),
{
    assert(a + (b + c + d) =~= (a + b + c) + d + Seq::empty());
    assert(a + d =~= a + d + Seq::empty());
}

proof fn lemma_issue_occurs(status: u16, source: Seq<char>, issues: Seq<IssueView>)
    requires
        issues.len() > 0,
    ensures
        text::occurs_in(schema_error_of(status, source, issues).body.message, issues[0].message),
        issues[0].path.len() > 0 ==> text::occurs_in(
            schema_error_of(status, source, issues).body.message,
            issues[0].path + ": "@ + issues[0].message,
        ),
{
    let none = Seq::<char>::empty();
    let front = "Schema validation failed for data from "@ + source + ": "@;
    let (path, words) = (issues[0].path, issues[0].message);
    let summary = issue_summary(issues);
    lemma_regroup(front, path, ": "@, summary);
    lemma_regroup(front, path, ": "@, words);
    text::lemma_part_occurs(front, summary, none);
    text::lemma_part_occurs(front + path + ": "@, words, none);
}

/// In one line an error is its type and its message.
pub proof fn law_error_in_one_line(e: &AppError, r: String)
    requires
        call_ensures(AppError::describe, (e,), r),
    ensures
        (e@.body.error_type + ": "@).is_prefix_of(r@),
        e@.body.message.is_suffix_of(r@),
        r@.len() == e@.body.error_type.len() + ": "@.len() + e@.body.message.len(),
{
    let front = e@.body.error_type + ": "@;
    assert(r@.take(front.len() as int) =~= front);
    assert(r@.subrange(r@.len() - e@.body.message.len(), r@.len() as int) =~= e@.body.message);
}

} // verus!
