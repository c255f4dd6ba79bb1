//! The HTTP boundary: host allowlist, authentication, origin check and the
//! JSON content type, each a function of header values. The first check that
//! fails answers; routes list them in the order host, authentication, origin,
//! content type.

use crate::config::{
    AllowedHosts, AllowedHostsView, AllowedOrigins, AllowedOriginsView, AuthConfig, AuthView, Config,
};
use crate::error;
use crate::error::{AppError, AppErrorView};
use crate::session;
use crate::session::{SessionStore, SessionsView};
use crate::text;
use vstd::prelude::*;

verus! {

/// How a request cleared authentication.
#[derive(Debug, Clone, Copy, PartialEq, Eq, Structural)]
pub enum AuthMethod {
    NoAuth,
    Session,
    Token,
}

impl View for AuthMethod {
    type V = AuthMethod;

    open spec fn view(&self) -> AuthMethod {
        *self
    }
}

// URLs.
/// What a URL says of itself.
#[derive(Debug)]
pub struct UrlParts {
    pub host: Option<String>,
    pub port: Option<u16>,
    pub path: String,
    pub query: Option<String>,
    pub origin: String,
}

pub struct UrlView {
    pub host: Option<Seq<char>>,
    pub port: Option<u16>,
    pub path: Seq<char>,
    pub query: Option<Seq<char>>,
    pub origin: Seq<char>,
}

impl View for UrlParts {
    type V = UrlView;

    open spec fn view(&self) -> UrlView {
        UrlView {
            host: self.host.deep_view(),
            port: self.port,
            path: self.path@,
            query: self.query.deep_view(),
            origin: self.origin@,
        }
    }
}

/// What `url::Url::parse` makes of a text: the parts of the URL, if it is one.
pub uninterp spec fn parsed_url(text: Seq<char>) -> Option<UrlView>;

/// What `str::to_lowercase` makes of a text.
pub uninterp spec fn lowercased(text: Seq<char>) -> Seq<char>;

/// `url::Url::parse`, and the parsed URL's `host_str`, `port`, `path`, `query`
/// and `origin` in its ASCII serialization. All of them depend on the text
/// alone.
#[verifier::external_body]
fn parse_url(text: &str) -> (r: Option<UrlParts>)
    ensures
        (match r {
            Some(parts) => Some(parts@),
            None => None,
        }) == parsed_url(text@),
{
    let url = url::Url::parse(text).ok()?;
    Some(
        UrlParts {
            host: url.host_str().map(|h| h.to_owned()),
            port: url.port(),
            path: url.path().to_owned(),
            query: url.query().map(|q| q.to_owned()),
            origin: url.origin().ascii_serialization(),
        },
    )
}

/// `str::to_lowercase`: depends on the text alone, and on ASCII text is the
/// mapping of capital to small letters.
#[verifier::external_body]
fn to_lowercase(text: &str) -> (r: String)
    ensures
        r@ == lowercased(text@),
        vstd::utf8::is_ascii_chars(text@) ==> r@ == text::ascii_lower_all(text@),
{
    text.to_lowercase()
}

// Hosts.
/// The host and port that a URL names, if it names nothing else: a path or a
/// query beside them is refused.
pub open spec fn bare_host(url: Option<UrlView>) -> Option<(Seq<char>, Option<u16>)> {
    match url {
        Some(UrlView { host: Some(host), port, path, query, .. }) => if host.len() > 0 && path
            == "/"@ && query is None {
            Some((host, port))
        } else {
            None
        },
        _ => None,
    }
}

/// The host and port that a Host header or a rule names: it is trimmed,
/// lowercased and read as a URL of the `http` scheme, whose default port 80
/// counts as no port.
pub open spec fn host_and_port(value: Seq<char>) -> Option<(Seq<char>, Option<u16>)> {
    bare_host(parsed_url("http://"@ + lowercased(text::trimmed(value))))
}

/// A rule without a port fits any port of its host; one with a port only that.
pub open spec fn rule_fits(
    host: (Seq<char>, Option<u16>),
    rule: Option<(Seq<char>, Option<u16>)>,
) -> bool {
    match rule {
        None => false,
        Some((rule_host, rule_port)) => host.0 == rule_host && (rule_port is None || host.1
            == rule_port),
    }
}

pub open spec fn some_rule_fits(host: (Seq<char>, Option<u16>), rules: Seq<Seq<char>>) -> bool {
    exists|i: int| 0 <= i < rules.len() && rule_fits(host, host_and_port(#[trigger] rules[i]))
}

/// The host check.
pub open spec fn host_checked(raw_host: Option<Seq<char>>, allowed: AllowedHostsView) -> Result<
    (),
    AppErrorView,
> {
    match allowed {
        AllowedHostsView::All => Ok(()),
        AllowedHostsView::Allowlist(rules) => {
            let raw = match raw_host {
                Some(h) => h,
                None => Seq::empty(),
            };
            if raw.len() == 0 {
                Err(error::host_not_allowed_error("Request Host header is required."@))
            } else {
                match host_and_port(raw) {
                    None => Err(
                        error::host_not_allowed_error(
                            "Request Host \""@ + raw + "\" is invalid."@,
                        ),
                    ),
                    Some(host) => if some_rule_fits(host, rules) {
                        Ok(())
                    } else {
                        Err(
                            error::host_not_allowed_error(
                                "Host \""@ + raw
                                    + "\" not allowed. (Add to MOUSEHOLE_ALLOWED_HOSTS to permit it.)"@,
                            ),
                        )
                    },
                }
            }
        },
    }
}

/// The host and port of a parsed URL, if it has nothing else.
pub fn host_of_url(url: Option<UrlParts>) -> (r: Option<(String, Option<u16>)>)
    ensures
        r.deep_view() == bare_host(
            match url {
                Some(parts) => Some(parts@),
                None => None,
            },
        ),
{
    match url {
        None => None,
        Some(UrlParts { host, port, path, query, origin: _ }) => match host {
            None => None,
            Some(host) => if host.unicode_len() > 0 && text::same_text(&path, "/")
                && query.is_none() {
                Some((host, port))
            } else {
                None
            },
        },
    }
}

/// The host and port that a Host header or a rule names.
pub fn parse_host_and_port(value: &str) -> (r: Option<(String, Option<u16>)>)
    ensures
        r.deep_view() == host_and_port(value@),
{
    let candidate = "http://".to_owned().concat(&to_lowercase(text::trim(value)));
    host_of_url(parse_url(&candidate))
}

/// Whether a host fits a rule; a rule that cannot be read fits nothing.
pub fn host_matches_rule(host: &(String, Option<u16>), rule: &str) -> (r: bool)
    ensures
        r == rule_fits(host.deep_view(), host_and_port(rule@)),
{
    match parse_host_and_port(rule) {
        None => false,
        Some((rule_host, rule_port)) => {
            if !text::same_text(&host.0, &rule_host) {
                return false;
            }
            match rule_port {
                None => true,
                Some(p) => host.1 == Some(p),
            }
        },
    }
}

/// The host check. `raw_host` is the Host header, or the host of the request
/// URL where there is none.
pub fn host_allowed(raw_host: Option<&str>, config: &Config) -> (r: Result<(), AppError>)
    ensures
        error::viewed(r) == host_checked(raw_host.deep_view(), config@.allowed_hosts),
{
    let rules = match &config.allowed_hosts {
        AllowedHosts::All => {
            return Ok(());
        },
        AllowedHosts::Allowlist(rules) => rules,
    };
    let raw = match raw_host {
        Some(h) => h,
        None => {
            return Err(error::host_not_allowed("Request Host header is required."));
        },
    };
    if raw.unicode_len() == 0 {
        return Err(error::host_not_allowed("Request Host header is required."));
    }
    let host = match parse_host_and_port(raw) {
        Some(host) => host,
        None => {
            return Err(
                error::host_not_allowed(
                    &"Request Host \"".to_owned().concat(raw).concat("\" is invalid."),
                ),
            );
        },
    };
    let ghost list = rules.deep_view();
    let mut i: usize = 0;
    while i < rules.len()
        invariant
            i <= rules.len(),
            list == rules.deep_view(),
            config@.allowed_hosts == AllowedHostsView::Allowlist(list),
            raw_host.deep_view() == Some(raw@),
            raw@.len() > 0,
            host_and_port(raw@) == Some(host.deep_view()),
            forall|k: int|
                0 <= k < i ==> !rule_fits(host.deep_view(), host_and_port(#[trigger] list[k])),
        decreases rules.len() - i,
    {
        assert(list[i as int] == rules@[i as int]@);
        if host_matches_rule(&host, &rules[i]) {
            assert(some_rule_fits(host.deep_view(), list));
            return Ok(());
        }
        i = i + 1;
    }
    Err(
        error::host_not_allowed(
            &"Host \"".to_owned().concat(raw).concat(
                "\" not allowed. (Add to MOUSEHOLE_ALLOWED_HOSTS to permit it.)",
            ),
        ),
    )
}

// Bearer tokens.
/// White space as it separates the scheme from the token.
pub open spec fn separates(c: char) -> bool {
    ||| text::is_white_space(c) && c != '\u{85}'
    ||| c == '\u{FEFF}'
}

pub open spec fn ends_line(c: char) -> bool {
    c == '\n' || c == '\r' || c == '\u{2028}' || c == '\u{2029}'
}

/// Nothing ends the line.
pub open spec fn one_line(s: Seq<char>) -> bool {
    forall|i: int| 0 <= i < s.len() ==> !ends_line(#[trigger] s[i])
}

/// How many characters at the front separate.
pub open spec fn leading_separators(s: Seq<char>) -> nat
    decreases s.len(),
{
    if s.len() > 0 && separates(s[0]) {
        1 + leading_separators(s.skip(1))
    } else {
        0
    }
}

/// The token in an Authorization header: the word `Bearer` in any case, white
/// space, and the rest of the line as it stands. Of a rest that is white space
/// alone, the last character is the token, if there is one before it.
pub open spec fn bearer_token(header: Seq<char>) -> Option<Seq<char>> {
    if header.len() >= 6 && text::ascii_lower_all(header.take(6)) == "bearer"@ {
        let rest = header.skip(6);
        let blank = leading_separators(rest);
        let start = if blank == rest.len() && blank > 0 {
            blank - 1
        } else {
            blank as int
        };
        let token = rest.skip(start);
        if start > 0 && one_line(token) {
            Some(token)
        } else {
            None
        }
    } else {
        None
    }
}

fn is_separator(c: char) -> (r: bool)
    ensures
        r == separates(c),
{
    (text::white_space(c) && c != '\u{85}') || c == '\u{FEFF}'
}

proof fn lemma_bearer_is_lower()
    ensures
        text::ascii_lower_all("bearer"@) == "bearer"@,
{
    reveal_strlit("bearer");
    assert(text::ascii_lower_all("bearer"@) =~= "bearer"@);
}

/// The token in an Authorization header, untrimmed.
pub fn parse_bearer(header: &str) -> (r: Option<&str>)
    ensures
        r.deep_view() == bearer_token(header@),
{
    let chars = text::chars_of(header);
    let len: usize = chars.len();
    if len < 6 {
        return None;
    }
    let scheme = header.substring_char(0, 6);
    assert(scheme@ =~= header@.take(6));
    proof {
        lemma_bearer_is_lower();
    }
    if !text::eq_ignore_ascii_case(scheme, "bearer") {
        return None;
    }
    let ghost rest = header@.skip(6);
    let mut at: usize = 6;
    assert(header@.skip(6) =~= rest);
    while at < len && is_separator(chars[at])
        invariant
            chars@ == header@,
            len == chars.len(),
            6 <= at <= len,
            rest == header@.skip(6),
            leading_separators(rest) == (at - 6) + leading_separators(header@.skip(at as int)),
        decreases len - at,
    {
        assert(header@.skip(at as int).skip(1) =~= header@.skip(at + 1));
        assert(header@.skip(at as int)[0] == chars@[at as int]);
        at = at + 1;
    }
    assert(at < len ==> header@.skip(at as int)[0] == chars@[at as int]);
    assert(leading_separators(rest) == at - 6);
    if at == len && at > 6 {
        at = at - 1;
    }
    if at == 6 {
        return None;
    }
    let ghost token = rest.skip(at - 6);
    assert(token =~= header@.subrange(at as int, len as int));
    let mut i: usize = at;
    while i < len
        invariant
            chars@ == header@,
            len == chars.len(),
            at <= i <= len,
            token == header@.subrange(at as int, len as int),
            forall|k: int| 0 <= k < i - at ==> !ends_line(#[trigger] token[k]),
            header@.len() >= 6,
            text::ascii_lower_all(header@.take(6)) == "bearer"@,
            token == header@.skip(6).skip(at - 6),
            at - 6 == (if leading_separators(header@.skip(6)) == header@.skip(6).len()
                && leading_separators(header@.skip(6)) > 0 {
                leading_separators(header@.skip(6)) - 1
            } else {
                leading_separators(header@.skip(6)) as int
            }),
        decreases len - i,
    {
        let c = chars[i];
        assert(token[i - at] == c);
        if c == '\n' || c == '\r' || c == '\u{2028}' || c == '\u{2029}' {
            assert(!one_line(token));
            return None;
        }
        i = i + 1;
    }
    assert(one_line(token));
    Some(header.substring_char(at, len))
}

// Authentication.
/// What a rejected request is told, by what it presented.
pub open spec fn rejection_message(
    authorization: Option<Seq<char>>,
    cookie: Option<Seq<char>>,
) -> Seq<char> {
    if authorization is Some {
        "Rejected Bearer token (wrong value, or MOUSEHOLE_AUTH_TOKEN not set)"@
    } else if session::session_id_in(cookie) is Some {
        "Unknown or expired session cookie"@
    } else {
        "No credentials presented"@
    }
}

/// The request names a session that is live.
pub open spec fn by_session(sessions: SessionsView, cookie: Option<Seq<char>>, now: u64) -> bool {
    session::session_id_in(cookie) matches Some(id) && sessions.valid_at(id, now)
}

/// The request carries the configured token.
pub open spec fn by_token(auth: AuthView, authorization: Option<Seq<char>>) -> bool {
    match (authorization, auth.token()) {
        (Some(header), Some(expected)) => bearer_token(header) == Some(expected),
        _ => false,
    }
}

/// The authentication ladder: none asked for, session, token, rejection. The
/// session comes first, so that a token result says that no cookie had a part
/// in it.
pub open spec fn auth_checked(
    auth: AuthView,
    sessions: SessionsView,
    authorization: Option<Seq<char>>,
    cookie: Option<Seq<char>>,
    now: u64,
) -> Result<AuthMethod, AppErrorView> {
    match auth {
        AuthView::NoAuth { insecure_allow_no_auth: true } => Ok(AuthMethod::NoAuth),
        AuthView::NoAuth { insecure_allow_no_auth: false } => Err(
            error::auth_not_configured_error(),
        ),
        AuthView::Configured { .. } => if by_session(sessions, cookie, now) {
            Ok(AuthMethod::Session)
        } else if by_token(auth, authorization) {
            Ok(AuthMethod::Token)
        } else {
            Err(error::authentication_required_error(rejection_message(authorization, cookie)))
        },
    }
}

/// The sessions after the check: looked at, and so swept, only where a session
/// cookie was presented to a server that asks for credentials.
pub open spec fn sessions_after_auth(
    auth: AuthView,
    sessions: SessionsView,
    cookie: Option<Seq<char>>,
    now: u64,
) -> SessionsView {
    if auth is Configured && session::session_id_in(cookie) is Some {
        sessions.after_sweep(now)
    } else {
        sessions
    }
}

proof fn lemma_same_bytes_same_text(a: Seq<char>, b: Seq<char>)
    requires
        vstd::utf8::encode_utf8(a) == vstd::utf8::encode_utf8(b),
    ensures
        a == b,
{
    vstd::utf8::encode_utf8_decode_utf8(a);
    vstd::utf8::encode_utf8_decode_utf8(b);
}

fn carries_token(config: &Config, authorization: Option<&str>) -> (r: bool)
    ensures
        r == by_token(config@.auth, authorization.deep_view()),
{
    match (authorization, config.auth.token()) {
        (Some(header), Some(expected)) => match parse_bearer(header) {
            Some(presented) => {
                proof {
                    if vstd::utf8::encode_utf8(presented@) == vstd::utf8::encode_utf8(expected@) {
                        lemma_same_bytes_same_text(presented@, expected@);
                    }
                }
                session::safe_equal(presented.as_bytes(), expected.as_bytes())
            },
            None => false,
        },
        _ => false,
    }
}

/// The authentication check.
pub fn require_auth(
    config: &Config,
    sessions: &mut SessionStore,
    authorization: Option<&str>,
    cookie_header: Option<&str>,
    now: u64,
) -> (r: Result<AuthMethod, AppError>)
    ensures
        error::viewed(r) == auth_checked(
            config@.auth,
            old(sessions)@,
            authorization.deep_view(),
            cookie_header.deep_view(),
            now,
        ),
        final(sessions)@ == sessions_after_auth(
            config@.auth,
            old(sessions)@,
            cookie_header.deep_view(),
            now,
        ),
{
    match &config.auth {
        AuthConfig::NoAuth { insecure_allow_no_auth } => {
            if *insecure_allow_no_auth {
                return Ok(AuthMethod::NoAuth);
            } else {
                return Err(error::auth_not_configured());
            }
        },
        AuthConfig::Configured { .. } => {},
    }
    if let Some(id) = session::extract_session_id(cookie_header) {
        if sessions.is_valid(&id, now) {
            return Ok(AuthMethod::Session);
        }
    }
    if carries_token(config, authorization) {
        return Ok(AuthMethod::Token);
    }
    let message = if authorization.is_some() {
        "Rejected Bearer token (wrong value, or MOUSEHOLE_AUTH_TOKEN not set)"
    } else if session::presented_session_cookie(cookie_header) {
        "Unknown or expired session cookie"
    } else {
        "No credentials presented"
    };
    Err(error::authentication_required(message))
}

// Origins.
/// The origin that a URL belongs to, or the text itself where it is none.
pub open spec fn normalized_origin(origin: Seq<char>) -> Seq<char> {
    match parsed_url(origin) {
        Some(url) => url.origin,
        None => origin,
    }
}

/// The origin that a request's own host makes. Forwarded headers have no say,
/// and the scheme is always `http`.
pub open spec fn own_origin(raw_host: Option<Seq<char>>) -> Seq<char> {
    normalized_origin(
        "http://"@ + match raw_host {
            Some(h) => h,
            None => Seq::empty(),
        },
    )
}

/// An origin is let through by the configuration.
pub open spec fn origin_fits(
    origin: Seq<char>,
    raw_host: Option<Seq<char>>,
    allowed: AllowedOriginsView,
) -> bool {
    match allowed {
        AllowedOriginsView::All => true,
        AllowedOriginsView::SameOrigin => normalized_origin(origin) == own_origin(raw_host),
        AllowedOriginsView::Allowlist(list) => exists|i: int|
            0 <= i < list.len() && normalized_origin(#[trigger] list[i]) == normalized_origin(
                origin,
            ),
    }
}

/// The origin check: waived for a token, which no foreign page can attach, and
/// passed without an Origin header.
pub open spec fn origin_checked(
    method: AuthMethod,
    origin: Option<Seq<char>>,
    raw_host: Option<Seq<char>>,
    allowed: AllowedOriginsView,
) -> Result<(), AppErrorView> {
    match origin {
        Some(o) => if method == AuthMethod::Token || origin_fits(o, raw_host, allowed) {
            Ok(())
        } else {
            Err(error::origin_not_allowed_error(normalized_origin(o)))
        },
        None => Ok(()),
    }
}

/// The origin of a parsed URL, or the text itself where it is none.
pub fn origin_of_url(url: Option<UrlParts>, origin: &str) -> (r: String)
    ensures
        r@ == match url {
            Some(parts) => parts@.origin,
            None => origin@,
        },
{
    match url {
        Some(parts) => parts.origin,
        None => origin.to_owned(),
    }
}

/// The origin that a text belongs to.
pub fn normalize_origin(origin: &str) -> (r: String)
    ensures
        r@ == normalized_origin(origin@),
{
    origin_of_url(parse_url(origin), origin)
}

/// The origin check. `raw_host` is what the same-origin rule compares with.
pub fn origin_allowed(
    auth_method: AuthMethod,
    origin_header: Option<&str>,
    raw_host: Option<&str>,
    config: &Config,
) -> (r: Result<(), AppError>)
    ensures
        error::viewed(r) == origin_checked(
            auth_method,
            origin_header.deep_view(),
            raw_host.deep_view(),
            config@.allowed_origins,
        ),
{
    let origin = match origin_header {
        Some(o) => o,
        None => {
            return Ok(());
        },
    };
    if auth_method == AuthMethod::Token {
        return Ok(());
    }
    let request_origin = normalize_origin(origin);
    let allowed = match &config.allowed_origins {
        AllowedOrigins::All => true,
        AllowedOrigins::SameOrigin => {
            let host = match raw_host {
                Some(h) => h,
                None => "",
            };
            proof {
                reveal_strlit("");
                assert(""@ =~= Seq::<char>::empty());
            }
            let own = normalize_origin(&"http://".to_owned().concat(host));
            assert(own@ == own_origin(raw_host.deep_view()));
            text::same_text(&request_origin, &own)
        },
        AllowedOrigins::Allowlist(list) => {
            let ghost entries = list.deep_view();
            let mut found: bool = false;
            let mut i: usize = 0;
            while i < list.len()
                invariant
                    i <= list.len(),
                    entries == list.deep_view(),
                    found == exists|k: int|
                        0 <= k < i && normalized_origin(#[trigger] entries[k]) == request_origin@,
                decreases list.len() - i,
            {
                assert(entries[i as int] == list@[i as int]@);
                if text::same_text(&normalize_origin(&list[i]), &request_origin) {
                    found = true;
                }
                i = i + 1;
            }
            found
        },
    };
    assert(allowed == origin_fits(origin@, raw_host.deep_view(), config@.allowed_origins));
    if allowed {
        Ok(())
    } else {
        Err(error::origin_not_allowed(&request_origin))
    }
}

// Content type.
/// What stands before the parameters of a content type, trimmed.
pub open spec fn media_type(raw: Seq<char>) -> Seq<char> {
    text::trimmed(text::split_at_each(raw, ';')[0])
}

/// The content type check, given the media type in lower case.
pub open spec fn json_checked(raw: Seq<char>, lower: Seq<char>) -> Result<(), AppErrorView> {
    if lower == "application/json"@ {
        Ok(())
    } else {
        Err(error::unsupported_media_type_error(raw))
    }
}

pub open spec fn header_or_empty(header: Option<Seq<char>>) -> Seq<char> {
    match header {
        Some(h) => h,
        None => Seq::empty(),
    }
}

/// The content type check: the media type must be JSON, in any case and with
/// any parameters.
pub fn require_json_body(content_type: Option<&str>) -> (r: Result<(), AppError>)
    ensures
        ({
            let raw = header_or_empty(content_type.deep_view());
            &&& error::viewed(r) == json_checked(raw, lowercased(media_type(raw)))
            &&& vstd::utf8::is_ascii_chars(media_type(raw)) ==> error::viewed(r) == json_checked(
                raw,
                text::ascii_lower_all(media_type(raw)),
            )
        }),
{
    let raw = match content_type {
        Some(h) => h,
        None => "",
    };
    proof {
        reveal_strlit("");
        assert(""@ =~= Seq::<char>::empty());
        text::lemma_split_nonempty(raw@, ';');
    }
    let pieces = text::split(raw, ';');
    assert(pieces.deep_view()[0] == pieces@[0]@);
    let lower = to_lowercase(text::trim(&pieces[0]));
    if text::same_text(&lower, "application/json") {
        Ok(())
    } else {
        Err(error::unsupported_media_type(raw))
    }
}


// Laws.
/// A rule without a port lets its host through on every port, one with a port
/// on no other, and a rule that cannot be read lets nothing through.
pub proof fn law_rules_and_ports(host: Seq<char>, port: Option<u16>, rule_port: u16)
    ensures
        rule_fits((host, port), Some((host, None))),
        rule_fits((host, port), Some((host, Some(rule_port)))) <==> port == Some(rule_port),
        !rule_fits((host, port), None),
{
}

/// Where every host is allowed, no Host header is needed.
pub proof fn law_all_hosts_pass(raw_host: Option<Seq<char>>)
    ensures
        host_checked(raw_host, AllowedHostsView::All) is Ok,
{
}

/// A host check passes only for a host that some rule fits.
pub proof fn law_host_passes_by_a_rule(raw_host: Option<Seq<char>>, rules: Seq<Seq<char>>)
    requires
        host_checked(raw_host, AllowedHostsView::Allowlist(rules)) is Ok,
    ensures
        exists|i: int|
            0 <= i < rules.len() && rule_fits(
                host_and_port(raw_host->0)->0,
                host_and_port(#[trigger] rules[i]),
            ),
{
}

/// The ladder: a live session decides first, whatever token comes with it; a
/// token counts only if it is the configured one and no session decided; and
/// nothing passes without credentials but by the opt-out.
pub proof fn law_auth_ladder(
    auth: AuthView,
    sessions: SessionsView,
    authorization: Option<Seq<char>>,
    cookie: Option<Seq<char>>,
    now: u64,
)
    ensures
        ({
            let r = auth_checked(auth, sessions, authorization, cookie, now);
            &&& r == Ok::<AuthMethod, AppErrorView>(AuthMethod::Session) <==> auth is Configured
                && by_session(sessions, cookie, now)
            &&& r == Ok::<AuthMethod, AppErrorView>(AuthMethod::Token) <==> auth is Configured
                && !by_session(sessions, cookie, now) && by_token(auth, authorization)
            &&& r == Ok::<AuthMethod, AppErrorView>(AuthMethod::NoAuth) <==> auth == (
            AuthView::NoAuth { insecure_allow_no_auth: true })
        }),
{
}

/// A request that is turned away for want of credentials is told so with
/// status 401, and by which scheme to present them.
pub proof fn law_rejection_names_the_scheme(
    auth: AuthView,
    sessions: SessionsView,
    authorization: Option<Seq<char>>,
    cookie: Option<Seq<char>>,
    now: u64,
)
    requires
        auth is Configured,
    ensures
        auth_checked(auth, sessions, authorization, cookie, now) matches Err(e) ==> e.status == 401
            && e.headers == seq![("WWW-Authenticate"@, "Bearer realm=\"Mousehole\""@)],
{
}

/// Whoever logged in is let in by the cookie that the login set, until one
/// lifetime later and not beyond.
pub proof fn law_login_lets_in(
    auth: AuthView,
    sessions: SessionsView,
    id: Seq<char>,
    created: u64,
    now: u64,
)
    requires
        auth is Configured,
        sessions.wf(),
        session::is_id(id),
    ensures
        auth_checked(
            auth,
            sessions.after_create(id, created),
            None,
            Some(session::sent_back(id)),
            now,
        ) == if now < created + sessions.duration {
            Ok::<AuthMethod, AppErrorView>(AuthMethod::Session)
        } else {
            Err(error::authentication_required_error("Unknown or expired session cookie"@))
        },
{
    session::law_session_cookie_reads_back(id, Seq::empty(), Seq::empty());
    session::law_session_lives_its_lifetime(sessions, id, created, now);
}

/// Whoever logged out is not let in again by the same cookie.
pub proof fn law_logout_locks_out(auth: AuthView, sessions: SessionsView, id: Seq<char>, now: u64)
    requires
        auth is Configured,
        session::is_id(id),
    ensures
        auth_checked(
            auth,
            sessions.after_delete(id),
            None,
            Some(session::sent_back(id)),
            now,
        ) == Err::<AuthMethod, AppErrorView>(
            error::authentication_required_error("Unknown or expired session cookie"@),
        ),
{
    session::law_session_cookie_reads_back(id, Seq::empty(), Seq::empty());
    session::law_logout_ends_the_session(sessions, id, id, now);
}

/// A request by token, or without an Origin header, passes the origin check
/// whatever the configuration.
pub proof fn law_origin_check_is_waived(
    method: AuthMethod,
    origin: Option<Seq<char>>,
    raw_host: Option<Seq<char>>,
    allowed: AllowedOriginsView,
)
    requires
        method == AuthMethod::Token || origin is None || allowed is All,
    ensures
        origin_checked(method, origin, raw_host, allowed) is Ok,
{
}

/// How else a request was let in makes no difference to the origin check.
pub proof fn law_only_tokens_skip_the_origin_check(
    origin: Option<Seq<char>>,
    raw_host: Option<Seq<char>>,
    allowed: AllowedOriginsView,
)
    ensures
        origin_checked(AuthMethod::Session, origin, raw_host, allowed) == origin_checked(
            AuthMethod::NoAuth,
            origin,
            raw_host,
            allowed,
        ),
        origin_checked(AuthMethod::Session, origin, raw_host, allowed) is Ok <==> (origin matches Some(
            o,
        ) ==> origin_fits(o, raw_host, allowed)),
{
}

/// What a text is as an origin: that of the URL that it is, and else itself.
pub proof fn law_origin_is_that_of_the_url(origin: &str, r: String)
    requires
        call_ensures(normalize_origin, (origin,), r),
    ensures
        parsed_url(origin@) matches Some(url) ==> r@ == url.origin,
        parsed_url(origin@) is None ==> r@ == origin@,
{
}

/// In same-origin mode a request passes exactly where its Origin header and the
/// whole of its own host behind `http://`, with the port, are the same origin.
/// So a page that the server itself served at that host always passes.
pub proof fn law_same_origin_is_the_whole_host(
    method: AuthMethod,
    origin: &str,
    host: &str,
    own: &str,
    config: &Config,
    asked: String,
    served: String,
    r: Result<(), AppError>,
)
    requires
        call_ensures(origin_allowed, (method, Some(origin), Some(host), config), r),
        call_ensures(normalize_origin, (origin,), asked),
        call_ensures(normalize_origin, (own,), served),
        config@.allowed_origins is SameOrigin,
        own@ == "http://"@ + host@,
    ensures
        method != AuthMethod::Token ==> (r is Ok <==> asked@ == served@),
        origin@ == own@ ==> r is Ok,
        r is Err ==> error::fails_with(r, 403, "origin-not-allowed"@),
        r matches Err(e) ==> text::occurs_in(e@.body.message, asked@),
{
    text::lemma_part_occurs(
        "Origin \""@,
        asked@,
        "\" is not allowed. (Add to MOUSEHOLE_ALLOWED_ORIGINS to permit it.)"@,
    );
}

/// Without a Host header no origin but that of `http://` alone is the server's
/// own.
pub proof fn law_no_host_is_an_empty_one(
    method: AuthMethod,
    origin: Option<&str>,
    empty: &str,
    config: &Config,
    without: Result<(), AppError>,
    with: Result<(), AppError>,
)
    requires
        call_ensures(origin_allowed, (method, origin, None, config), without),
        call_ensures(origin_allowed, (method, origin, Some(empty), config), with),
        empty@.len() == 0,
    ensures
        error::viewed(without) == error::viewed(with),
{
    assert(empty@ =~= Seq::empty());
}

/// Under a list of origins a request passes exactly where its Origin header is
/// the same origin as some entry; where all are allowed, any passes; and
/// without an Origin header, or by token, every request does.
pub proof fn law_listed_origins_pass(
    method: AuthMethod,
    origin: Option<&str>,
    host: Option<&str>,
    config: &Config,
    r: Result<(), AppError>,
)
    requires
        call_ensures(origin_allowed, (method, origin, host, config), r),
    ensures
        origin is None || method == AuthMethod::Token || config@.allowed_origins is All ==> r is Ok,
        (config@.allowed_origins matches AllowedOriginsView::Allowlist(list) && origin matches Some(
            o,
        ) && method != AuthMethod::Token) ==> {
            let list = config@.allowed_origins->Allowlist_0;
            &&& r is Ok <==> exists|i: int|
                0 <= i < list.len() && normalized_origin(#[trigger] list[i]) == normalized_origin(
                    origin->0@,
                )
            &&& list.contains(origin->0@) ==> r is Ok
        },
        r is Err ==> error::fails_with(r, 403, "origin-not-allowed"@),
{
    if config@.allowed_origins is Allowlist && origin is Some {
        let list = config@.allowed_origins->Allowlist_0;
        if list.contains(origin->0@) {
            let i = choose|i: int| 0 <= i < list.len() && list[i] == origin->0@;
            assert(normalized_origin(list[i]) == normalized_origin(origin->0@));
        }
    }
}

/// A Host header or a rule names the host and the port of the URL that it makes
/// behind `http://`, trimmed and in lower case, and nothing where that URL has a
/// path or a query.
pub proof fn law_host_is_that_of_the_url(value: &str, r: Option<(String, Option<u16>)>)
    requires
        call_ensures(parse_host_and_port, (value,), r),
    ensures
        match parsed_url("http://"@ + lowercased(text::trimmed(value@))) {
            None => r is None,
            Some(url) => {
                &&& r is Some <==> url.host is Some && url.host->0.len() > 0 && url.path == "/"@
                    && url.query is None
                &&& r matches Some(named) ==> url.host == Some(named.0@) && url.port == named.1
            },
        },
{
}

/// A host fits a rule that names the same host, on any port where the rule names
/// none, and else on that port alone.
pub proof fn law_host_fits_its_rule(
    host: &(String, Option<u16>),
    rule: &str,
    named: Option<(String, Option<u16>)>,
    r: bool,
)
    requires
        call_ensures(host_matches_rule, (host, rule), r),
        call_ensures(parse_host_and_port, (rule,), named),
    ensures
        named is None ==> !r,
        named matches Some(n) ==> {
            &&& r ==> n.0@ == host.0@
            &&& n.0@ == host.0@ && n.1 is None ==> r
            &&& n.0@ == host.0@ && n.1 is Some ==> r == (host.1 == n.1)
        },
{
}

/// A rule names a host: the same one, with the same port or with none.
pub open spec fn names_host(rule: Seq<char>, host: Seq<char>) -> bool {
    match (host_and_port(rule), host_and_port(host)) {
        (Some((rule_host, rule_port)), Some((named, port))) => rule_host == named && (rule_port
            is None || rule_port == port),
        _ => false,
    }
}

/// Under a list of rules a request passes exactly where its host can be read
/// and some rule names it, with its port or with none. A host that is itself on
/// the list passes. What does not pass is refused with status 403.
pub proof fn law_listed_hosts_pass(
    raw_host: Option<&str>,
    config: &Config,
    rules: Seq<Seq<char>>,
    r: Result<(), AppError>,
)
    requires
        call_ensures(host_allowed, (raw_host, config), r),
        config@.allowed_hosts == AllowedHostsView::Allowlist(rules),
    ensures
        raw_host is None ==> r is Err,
        r matches Err(e) ==> e@.body.message == match raw_host {
            None => "Request Host header is required."@,
            Some(raw) => if raw@.len() == 0 {
                "Request Host header is required."@
            } else if host_and_port(raw@) is None {
                "Request Host \""@ + raw@ + "\" is invalid."@
            } else {
                "Host \""@ + raw@
                    + "\" not allowed. (Add to MOUSEHOLE_ALLOWED_HOSTS to permit it.)"@
            },
        },
        raw_host matches Some(raw) ==> {
            &&& r is Ok <==> raw@.len() > 0 && exists|i: int|
                0 <= i < rules.len() && names_host(#[trigger] rules[i], raw@)
            &&& raw@.len() > 0 && host_and_port(raw@) is Some && rules.contains(raw@) ==> r is Ok
        },
        r is Err ==> error::fails_with(r, 403, "host-not-allowed"@),
{
    if raw_host is Some {
        let raw = raw_host->0@;
        if rules.contains(raw) && host_and_port(raw) is Some {
            let i = choose|i: int| 0 <= i < rules.len() && rules[i] == raw;
            assert(rule_fits(host_and_port(raw)->0, host_and_port(rules[i])));
        }
        if exists|i: int| 0 <= i < rules.len() && names_host(#[trigger] rules[i], raw) {
            let i = choose|i: int| 0 <= i < rules.len() && names_host(#[trigger] rules[i], raw);
            assert(rule_fits(host_and_port(raw)->0, host_and_port(rules[i])));
        }
        if r is Ok {
            let i = choose|i: int|
                0 <= i < rules.len() && rule_fits(
                    host_and_port(raw)->0,
                    host_and_port(#[trigger] rules[i]),
                );
            assert(names_host(rules[i], raw));
        }
    }
}

/// What separates the scheme from the token is white space, as regular
/// expressions know it.
pub proof fn law_separators(c: char)
    ensures
        separates(c) <==> {
            ||| c == '\t' || c == '\n' || c == '\u{B}' || c == '\u{C}' || c == '\r' || c == ' '
            ||| c == '\u{A0}' || c == '\u{1680}' || c == '\u{FEFF}'
            ||| '\u{2000}' <= c && c <= '\u{200A}'
            ||| c == '\u{2028}' || c == '\u{2029}' || c == '\u{202F}' || c == '\u{205F}'
            ||| c == '\u{3000}'
        },
{
}

proof fn lemma_separators_in_front(gap: Seq<char>, token: Seq<char>)
    requires
        forall|i: int| 0 <= i < gap.len() ==> separates(#[trigger] gap[i]),
        token.len() > 0,
        !separates(token[0]),
    ensures
        leading_separators(gap + token) == gap.len(),
    decreases gap.len(),
{
    let all = gap + token;
    if gap.len() == 0 {
        assert(all =~= token);
    } else {
        assert(all[0] == gap[0]);
        assert(all.skip(1) =~= gap.skip(1) + token);
        assert forall|i: int| 0 <= i < gap.skip(1).len() implies separates(
            #[trigger] gap.skip(1)[i],
        ) by {
            assert(gap.skip(1)[i] == gap[i + 1]);
        }
        lemma_separators_in_front(gap.skip(1), token);
    }
}

/// The word `Bearer` in whatever case, white space and a token in one line give
/// that token, as it stands. Without white space behind the word, or without
/// the word, there is none.
pub proof fn law_bearer_gives_the_token(
    header: &str,
    scheme: Seq<char>,
    gap: Seq<char>,
    token: Seq<char>,
    r: Option<&str>,
)
    requires
        call_ensures(parse_bearer, (header,), r),
        header@ == scheme + gap + token,
        scheme.len() == 6,
        forall|i: int| 0 <= i < gap.len() ==> separates(#[trigger] gap[i]),
        token.len() > 0,
        !separates(token[0]),
        !token.contains('\n') && !token.contains('\r'),
        !token.contains('\u{2028}') && !token.contains('\u{2029}'),
    ensures
        text::ascii_lower_all(scheme) == "bearer"@ && gap.len() > 0 ==> r.deep_view() == Some(
            token,
        ),
        text::ascii_lower_all(scheme) != "bearer"@ || gap.len() == 0 ==> r is None,
{
    assert(header@.take(6) =~= scheme);
    assert(header@.skip(6) =~= gap + token);
    lemma_separators_in_front(gap, token);
    assert((gap + token).skip(gap.len() as int) =~= token);
    assert(one_line(token)) by {
        assert forall|i: int| 0 <= i < token.len() implies !ends_line(#[trigger] token[i]) by {
            assert(token.contains(token[i]));
        }
    }
}

/// A token is the rest of its header, in one line and not empty.
pub proof fn law_token_is_the_rest_of_the_header(header: &str, r: Option<&str>, i: int)
    requires
        call_ensures(parse_bearer, (header,), r),
    ensures
        r matches Some(t) ==> {
            &&& t@.len() > 0
            &&& header@.len() >= 7
            &&& t@.is_suffix_of(header@)
            &&& 0 <= i < t@.len() ==> t@[i] != '\n' && t@[i] != '\r'
        },
        header@.len() < 7 ==> r is None,
{
    if header@.len() >= 6 {
        let rest = header@.skip(6);
        lemma_separators_bounded(rest);
        let blank = leading_separators(rest);
        let start = if blank == rest.len() && blank > 0 {
            blank - 1
        } else {
            blank as int
        };
        if r is Some {
            let t = r->0@;
            assert(t == rest.skip(start));
            assert(header@.subrange(header@.len() - t.len(), header@.len() as int) =~= t);
            if 0 <= i < t.len() {
                assert(!ends_line(t[i]));
            }
        }
    }
}

proof fn lemma_separators_bounded(s: Seq<char>)
    ensures
        leading_separators(s) <= s.len(),
    decreases s.len(),
{
    if s.len() > 0 && separates(s[0]) {
        lemma_separators_bounded(s.skip(1));
    }
}

/// A request is let in by a live session that its cookie names, else by the
/// configured token that it carries, and else not at all: it is told so with
/// status 401. Only a server that was told to lets everyone in.
pub proof fn law_credentials_let_in(
    config: &Config,
    sessions: &mut SessionStore,
    authorization: Option<&str>,
    cookie_header: Option<&str>,
    now: u64,
    id: Option<String>,
    header: &str,
    token: Option<&str>,
    r: Result<AuthMethod, AppError>,
)
    requires
        call_ensures(require_auth, (config, sessions, authorization, cookie_header, now), r),
        call_ensures(session::extract_session_id, (cookie_header,), id),
        call_ensures(parse_bearer, (header,), token),
        authorization matches Some(h) ==> h@ == header@,
    ensures
        config@.auth == (AuthView::NoAuth { insecure_allow_no_auth: true }) ==> r == Ok::<
            AuthMethod,
            AppError,
        >(AuthMethod::NoAuth),
        config@.auth == (AuthView::NoAuth { insecure_allow_no_auth: false }) ==> error::fails_with(
            r,
            500,
            "auth-not-configured"@,
        ),
        config@.auth matches AuthView::Configured { password, token: expected } ==> {
            let live = old(sessions)@.live;
            let by_session = id is Some && exists|i: int|
                0 <= i < live.len() && (#[trigger] live[i]).0 == id->0@ && live[i].1 > now;
            let by_token = authorization is Some && token is Some && expected == Some(token->0@);
            &&& by_session ==> r == Ok::<AuthMethod, AppError>(AuthMethod::Session)
            &&& !by_session && by_token ==> r == Ok::<AuthMethod, AppError>(AuthMethod::Token)
            &&& !by_session && !by_token ==> error::fails_with(r, 401, "authentication-required"@)
                && r->Err_0@.body.message == if authorization is Some {
                "Rejected Bearer token (wrong value, or MOUSEHOLE_AUTH_TOKEN not set)"@
            } else if id is Some {
                "Unknown or expired session cookie"@
            } else {
                "No credentials presented"@
            }
            &&& id is Some ==> forall|i: int|
                0 <= i < final(sessions)@.live.len() ==> live.contains(
                    #[trigger] final(sessions)@.live[i],
                ) && final(sessions)@.live[i].1 > now
            &&& id is None ==> final(sessions)@ == old(sessions)@
        },
{
    let live = old(sessions)@.live;
    if id is Some {
        session::lemma_going_on(live, id->0@, now);
        session::lemma_swept_go_on(live, now);
    }
}

/// A body passes as JSON where the media type before its parameters says so, in
/// whatever case and with whatever parameters; else it is refused with status
/// 415.
pub proof fn law_json_media_type_passes(
    content_type: &str,
    media: Seq<char>,
    parameters: Seq<char>,
    r: Result<(), AppError>,
)
    requires
        call_ensures(require_json_body, (Some(content_type),), r),
        !media.contains(';'),
        content_type@ == media || content_type@ == media + seq![';'] + parameters,
        vstd::utf8::is_ascii_chars(text::trimmed(media)),
    ensures
        r is Ok <==> text::ascii_lower_all(text::trimmed(media)) == "application/json"@,
        r is Err ==> error::fails_with(r, 415, "unsupported-media-type"@),
{
    text::lemma_split_one(media, ';');
    text::lemma_split_around(media, ';', parameters);
}

/// A body without a content type is refused like one with an empty one.
pub proof fn law_missing_media_type_is_refused(r: Result<(), AppError>)
    requires
        call_ensures(require_json_body, (None,), r),
    ensures
        error::fails_with(r, 415, "unsupported-media-type"@),
{
    let none = Seq::<char>::empty();
    text::lemma_split_one(none, ';');
    assert(media_type(none) =~= none);
    assert(text::ascii_lower_all(none) =~= none);
    reveal_strlit("application/json");
    assert("application/json"@.len() == 16);
}

/// Where nothing but white space follows the word, the last of it is the token,
/// if there is more of it before, and does not end the line.
pub proof fn law_blank_token_is_the_last_blank(
    header: &str,
    scheme: Seq<char>,
    gap: Seq<char>,
    r: Option<&str>,
)
    requires
        call_ensures(parse_bearer, (header,), r),
        header@ == scheme + gap,
        scheme.len() == 6,
        text::ascii_lower_all(scheme) == "bearer"@,
        forall|i: int| 0 <= i < gap.len() ==> separates(#[trigger] gap[i]),
    ensures
        gap.len() < 2 ==> r is None,
        gap.len() >= 2 && !ends_line(gap.last()) ==> r.deep_view() == Some(seq![gap.last()]),
        gap.len() >= 2 && ends_line(gap.last()) ==> r is None,
        ends_line(gap.last()) <==> gap.last() == '\n' || gap.last() == '\r' || gap.last()
            == '\u{2028}' || gap.last() == '\u{2029}',
{
    assert(header@.take(6) =~= scheme);
    assert(header@.skip(6) =~= gap);
    lemma_all_separators(gap);
    if gap.len() >= 2 {
        let token = gap.skip(gap.len() - 1);
        assert(token =~= seq![gap.last()]);
        assert(one_line(token) <==> !ends_line(gap.last())) by {
            if one_line(token) {
                assert(!ends_line(token[0]));
            }
        }
    }
}

proof fn lemma_all_separators(gap: Seq<char>)
    requires
        forall|i: int| 0 <= i < gap.len() ==> separates(#[trigger] gap[i]),
    ensures
        leading_separators(gap) == gap.len(),
    decreases gap.len(),
{
    if gap.len() > 0 {
        assert(separates(gap[0]));
        assert forall|i: int| 0 <= i < gap.skip(1).len() implies separates(
            #[trigger] gap.skip(1)[i],
        ) by {
            assert(gap.skip(1)[i] == gap[i + 1]);
        }
        lemma_all_separators(gap.skip(1));
    }
}

} // verus!
