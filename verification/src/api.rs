//! What each route answers. Boundary checks run in a fixed order (host,
//! authentication, origin, content type) and the first that fails answers. The
//! caller reads requests, performs the contacts and file reads that a route
//! asks for, holds the event streams, and sends what is decided here.

use crate::boundary;
use crate::boundary::AuthMethod;
use crate::config::{Config, ConfigView};
use crate::error;
use crate::error::{AppError, AppErrorView, Issue, IssueView};
use crate::json;
use crate::json::JsonView;
use crate::scheduler::{Scheduler, SchedulerView};
use crate::session;
use crate::session::{SessionStore, SessionsView};
use crate::sse;
use crate::sse::{SseRegistry, StreamsView};
use crate::state;
use crate::state::{
    FileContents, PublicState, PublicStateView, SerializedState, State, StateView,
};
use crate::text;
use crate::timefmt;
use vstd::prelude::*;

verus! {

/// The most bytes that a request body may have.
pub const BODY_LIMIT: u64 = 8192;

/// The headers of a request that the routes look at, and the host of its URL
/// if that names one. A header that is no text counts as absent.
#[derive(Debug, Default)]
pub struct RequestHeaders {
    pub host: Option<String>,
    pub authority: Option<String>,
    pub accept: Option<String>,
    pub origin: Option<String>,
    pub content_type: Option<String>,
    pub authorization: Option<String>,
    pub cookie: Option<String>,
}

#[verifier::ext_equal]
pub struct HeadersView {
    pub host: Option<Seq<char>>,
    pub authority: Option<Seq<char>>,
    pub accept: Option<Seq<char>>,
    pub origin: Option<Seq<char>>,
    pub content_type: Option<Seq<char>>,
    pub authorization: Option<Seq<char>>,
    pub cookie: Option<Seq<char>>,
}

impl View for RequestHeaders {
    type V = HeadersView;

    open spec fn view(&self) -> HeadersView {
        HeadersView {
            host: self.host.deep_view(),
            authority: self.authority.deep_view(),
            accept: self.accept.deep_view(),
            origin: self.origin.deep_view(),
            content_type: self.content_type.deep_view(),
            authorization: self.authorization.deep_view(),
            cookie: self.cookie.deep_view(),
        }
    }
}

impl HeadersView {
    /// The host that a request is for: the Host header, or else the URL's.
    pub open spec fn effective_host(self) -> Option<Seq<char>> {
        if self.host is Some {
            self.host
        } else {
            self.authority
        }
    }
}

/// A response to be sent.
#[derive(Debug)]
pub struct Reply {
    pub status: u16,
    pub headers: Vec<(String, String)>,
    pub body: String,
}

#[verifier::ext_equal]
pub struct ReplyView {
    pub status: u16,
    pub headers: Seq<(Seq<char>, Seq<char>)>,
    pub body: Seq<char>,
}

impl View for Reply {
    type V = ReplyView;

    open spec fn view(&self) -> ReplyView {
        ReplyView { status: self.status, headers: self.headers.deep_view(), body: self.body@ }
    }
}

/// What a route comes to: an answer, or something to be done first.
#[derive(Debug)]
pub enum Step {
    Reply(Reply),
    /// Contact MAM, with this new cookie if there is one, then answer by
    /// `commit_reply`.
    Commit(Option<String>),
    /// Read the state file, then answer by `read_reply`.
    ReadState,
    /// Answer with this head, and keep the stream of that number open.
    Subscribe { stream: u64, head: Reply },
}

pub enum StepView {
    Reply(ReplyView),
    Commit(Option<Seq<char>>),
    ReadState,
    Subscribe { stream: u64, head: ReplyView },
}

impl View for Step {
    type V = StepView;

    open spec fn view(&self) -> StepView {
        match self {
            Step::Reply(reply) => StepView::Reply(reply@),
            Step::Commit(cookie) => StepView::Commit(cookie.deep_view()),
            Step::ReadState => StepView::ReadState,
            Step::Subscribe { stream, head } => StepView::Subscribe {
                stream: *stream,
                head: head@,
            },
        }
    }
}

/// All that the routes share. `closing` are the numbers of event streams whose
/// session ended, to be closed by the caller.
pub struct AppContext {
    pub config: Config,
    pub sessions: SessionStore,
    pub scheduler: Scheduler,
    pub sse: SseRegistry,
    pub closing: Vec<u64>,
}

// Replies.
/// A reply that carries a JSON document.
pub open spec fn json_reply(status: u16, content: JsonView) -> ReplyView {
    ReplyView {
        status,
        headers: seq![("Content-Type"@, "application/json"@)],
        body: json::compact_json(content),
    }
}

/// The reply that an error makes.
pub open spec fn error_reply_of(e: AppErrorView) -> ReplyView {
    let reply = json_reply(e.status, error::error_json(e.body));
    ReplyView { headers: reply.headers + e.headers, ..reply }
}

/// The login envelope, which is not the error envelope.
pub open spec fn ok_members(ok: bool, message: Option<Seq<char>>) -> Seq<(Seq<char>, JsonView)> {
    json::with_member(
        seq![("ok"@, JsonView::Bool(ok))],
        "message"@,
        match message {
            Some(m) => Some(JsonView::Text(m)),
            None => None,
        },
    )
}

pub open spec fn ok_reply_of(status: u16, ok: bool, message: Option<Seq<char>>) -> ReplyView {
    json_reply(status, JsonView::Object(ok_members(ok, message)))
}

/// The same reply, with a cookie set.
pub open spec fn with_set_cookie(reply: ReplyView, cookie: Seq<char>) -> ReplyView {
    ReplyView { headers: reply.headers.push(("Set-Cookie"@, cookie)), ..reply }
}

fn reply_with(status: u16, value: &serde_json::Value) -> (r: Reply)
    ensures
        r@ == json_reply(status, json::json_content(*value)),
{
    let body = match json::to_compact(value) {
        Ok(printed) => printed,
        Err(words) => words,
    };
    let mut headers: Vec<(String, String)> = Vec::new();
    headers.push(("Content-Type".to_owned(), "application/json".to_owned()));
    assert(headers.deep_view() =~= seq![("Content-Type"@, "application/json"@)]);
    Reply { status, headers, body }
}

/// The reply that an error makes.
pub fn error_reply(e: &AppError) -> (r: Reply)
    ensures
        r@ == error_reply_of(e@),
{
    let mut reply = reply_with(e.status, &e.body.to_value());
    let ghost first = reply.headers.deep_view();
    let mut i: usize = 0;
    assert(e@.headers.take(0) =~= Seq::empty());
    while i < e.headers.len()
        invariant
            i <= e.headers.len(),
            reply.status == e.status,
            reply.body@ == json::compact_json(error::error_json(e@.body)),
            reply.headers.deep_view() == first + e@.headers.take(i as int),
        decreases e.headers.len() - i,
    {
        let ghost before = reply.headers.deep_view();
        let (name, value) = (e.headers[i].0.clone(), e.headers[i].1.clone());
        reply.headers.push((name, value));
        assert(e@.headers[i as int] == (name@, value@));
        assert(reply.headers.deep_view() =~= before.push((name@, value@)));
        assert(e@.headers.take(i + 1) =~= e@.headers.take(i as int).push((name@, value@)));
        assert(first + e@.headers.take(i + 1) =~= before.push((name@, value@)));
        i = i + 1;
    }
    assert(e@.headers.take(i as int) =~= e@.headers);
    reply
}

fn ok_body(status: u16, ok: bool, message: Option<&str>) -> (r: Reply)
    ensures
        r@ == ok_reply_of(status, ok, message.deep_view()),
{
    proof {
        reveal_strlit("ok");
        reveal_strlit("message");
        assert("ok"@.len() == 2 && "message"@.len() == 7);
    }
    let mut fields: Vec<(String, serde_json::Value)> = Vec::new();
    json::push_member(&mut fields, "ok", json::bool_value(ok));
    if let Some(m) = message {
        json::push_member(&mut fields, "message", json::text_value(m));
    }
    assert(json::members_of(fields@) =~= ok_members(ok, message.deep_view()));
    reply_with(status, &json::object_value(fields))
}

fn add_set_cookie(reply: Reply, cookie: String) -> (r: Reply)
    ensures
        r@ == with_set_cookie(reply@, cookie@),
{
    let Reply { status, headers, body } = reply;
    let mut headers = headers;
    let ghost before = headers.deep_view();
    headers.push(("Set-Cookie".to_owned(), cookie));
    assert(headers.deep_view() =~= before.push(("Set-Cookie"@, cookie@)));
    Reply { status, headers, body }
}

// Sessions and streams.
/// The numbers of the streams that are closed when these sessions end.
pub open spec fn streams_closed(streams: StreamsView, ended: Seq<Seq<char>>) -> Set<u64> {
    streams.clients.dom().filter(
        |id: u64| streams.clients[id].len() > 0 && ended.contains(streams.clients[id]),
    )
}

/// The streams after these sessions ended.
pub open spec fn streams_after(streams: StreamsView, ended: Seq<Seq<char>>) -> StreamsView {
    StreamsView { clients: streams.clients.remove_keys(streams_closed(streams, ended)), ..streams }
}

/// These numbers were added to a list, in some order, each once.
pub open spec fn added(before: Seq<u64>, after: Seq<u64>, ids: Set<u64>) -> bool {
    &&& before.is_prefix_of(after)
    &&& sse::lists(after.skip(before.len() as int), ids)
}

/// One more session ends the streams that it has left.
proof fn lemma_one_more_ended(streams: StreamsView, ended: Seq<Seq<char>>, id: Seq<char>)
    ensures
        streams_after(streams, ended).after_close(id) == streams_after(streams, ended.push(id)),
        streams_closed(streams, ended.push(id)) == streams_closed(streams, ended).union(
            streams_after(streams, ended).ending_with(id),
        ),
        streams_closed(streams, ended).disjoint(streams_after(streams, ended).ending_with(id)),
{
    let more = ended.push(id);
    assert forall|s: Seq<char>| more.contains(s) <==> ended.contains(s) || s == id by {
        if ended.contains(s) {
            let k = choose|k: int| 0 <= k < ended.len() && ended[k] == s;
            assert(more[k] == s);
        }
        assert(more[ended.len() as int] == id);
        if more.contains(s) {
            let k = choose|k: int| 0 <= k < more.len() && more[k] == s;
            if k < ended.len() {
                assert(ended[k] == s);
            }
        }
    }
    assert(streams_closed(streams, more) =~= streams_closed(streams, ended).union(
        streams_after(streams, ended).ending_with(id),
    ));
    assert(streams_after(streams, ended).after_close(id).clients =~= streams_after(
        streams,
        more,
    ).clients);
}

/// Lists of numbers without one in common make a list of all of them.
proof fn lemma_lists_joined(a: Seq<u64>, first: Set<u64>, b: Seq<u64>, second: Set<u64>)
    requires
        sse::lists(a, first),
        sse::lists(b, second),
        first.disjoint(second),
    ensures
        sse::lists(a + b, first.union(second)),
{
    let both = a + b;
    assert forall|i: int, j: int| 0 <= i < both.len() && 0 <= j < both.len() && i != j implies both[i]
        != both[j] by {
        if i < a.len() && j >= a.len() {
            assert(a.contains(both[i]) && b.contains(b[j - a.len()]));
        }
        if j < a.len() && i >= a.len() {
            assert(a.contains(both[j]) && b.contains(b[i - a.len()]));
        }
    }
    assert forall|id: u64| #[trigger] both.contains(id) <==> first.union(second).contains(id) by {
        if both.contains(id) {
            let k = choose|k: int| 0 <= k < both.len() && both[k] == id;
            if k < a.len() {
                assert(a.contains(a[k]));
            } else {
                assert(b.contains(b[k - a.len()]));
            }
        }
        if a.contains(id) {
            let k = choose|k: int| 0 <= k < a.len() && a[k] == id;
            assert(both[k] == id);
        }
        if b.contains(id) {
            let k = choose|k: int| 0 <= k < b.len() && b[k] == id;
            assert(both[a.len() + k] == id);
        }
    }
}

impl AppContext {
    /// The context after the sessions came to stand as given: those that ended
    /// are reported and their streams are closed, and nothing else changed.
    pub open spec fn settled(self, after: AppContext, sessions: SessionsView) -> bool {
        &&& after.config == self.config
        &&& after.scheduler == self.scheduler
        &&& after.sessions@ == (SessionsView { ended: Seq::empty(), ..sessions })
        &&& after.sse@ == streams_after(self.sse@, sessions.ended)
        &&& added(self.closing@, after.closing@, streams_closed(self.sse@, sessions.ended))
    }

    /// Closes the streams of the sessions that ended.
    pub fn settle_sessions(&mut self)
        ensures
            old(self).settled(*final(self), old(self).sessions@),
    {
        let ended = self.sessions.take_ended();
        let ghost ids = ended.deep_view();
        let ghost streams = self.sse@;
        let ghost closing = self.closing@;
        let mut i: usize = 0;
        assert(ids.take(0) =~= Seq::empty());
        assert(streams_after(streams, ids.take(0)).clients =~= streams.clients);
        assert(closing.skip(closing.len() as int) =~= Seq::empty());
        while i < ended.len()
            invariant
                i <= ended.len(),
                ids == ended.deep_view(),
                self.config == old(self).config,
                self.scheduler == old(self).scheduler,
                self.sessions@ == (SessionsView { ended: Seq::empty(), ..old(self).sessions@ }),
                self.sse@ == streams_after(streams, ids.take(i as int)),
                added(closing, self.closing@, streams_closed(streams, ids.take(i as int))),
            decreases ended.len() - i,
        {
            let ghost id = ended@[i as int]@;
            let ghost open = self.sse@;
            let mut closed = self.sse.close_session_streams(&ended[i]);
            let ghost before = self.closing@;
            let ghost numbers = closed@;
            self.closing.append(&mut closed);
            proof {
                lemma_one_more_ended(streams, ids.take(i as int), id);
                assert(ids.take(i + 1) =~= ids.take(i as int).push(id));
                lemma_lists_joined(
                    before.skip(closing.len() as int),
                    streams_closed(streams, ids.take(i as int)),
                    numbers,
                    open.ending_with(id),
                );
                assert(self.closing@.skip(closing.len() as int) =~= before.skip(
                    closing.len() as int,
                ) + numbers);
            }
            i = i + 1;
        }
        assert(ids.take(i as int) =~= ids);
    }

    /// The numbers of the streams to be closed, which the caller then closes.
    pub fn take_closing(&mut self) -> (r: Vec<u64>)
        ensures
            r@ == old(self).closing@,
            final(self).closing@ == Seq::<u64>::empty(),
            final(self).config == old(self).config,
            final(self).sessions == old(self).sessions,
            final(self).scheduler == old(self).scheduler,
            final(self).sse == old(self).sse,
    {
        let mut list: Vec<u64> = Vec::new();
        std::mem::swap(&mut list, &mut self.closing);
        list
    }

    /// A session's timer went off.
    pub fn session_timer(&mut self, id: &str, now: u64)
        ensures
            old(self).settled(*final(self), old(self).sessions@.after_reap(id@, now)),
    {
        self.sessions.reap(id, now);
        self.settle_sessions();
    }
}

// Boundary stacks.
fn host_of(headers: &RequestHeaders) -> (r: Option<&str>)
    ensures
        r.deep_view() == headers@.effective_host(),
{
    match &headers.host {
        Some(h) => Some(h.as_str()),
        None => match &headers.authority {
            Some(a) => Some(a.as_str()),
            None => None,
        },
    }
}

fn header_str(header: &Option<String>) -> (r: Option<&str>)
    ensures
        r.deep_view() == header.deep_view(),
{
    match header {
        Some(h) => Some(h.as_str()),
        None => None,
    }
}

pub open spec fn host_stage(config: ConfigView, h: HeadersView) -> Result<(), AppErrorView> {
    boundary::host_checked(h.effective_host(), config.allowed_hosts)
}

pub open spec fn origin_stage(config: ConfigView, method: AuthMethod, h: HeadersView) -> Result<
    (),
    AppErrorView,
> {
    boundary::origin_checked(method, h.origin, h.effective_host(), config.allowed_origins)
}

pub open spec fn json_stage(h: HeadersView) -> Result<(), AppErrorView> {
    let raw = boundary::header_or_empty(h.content_type);
    boundary::json_checked(raw, boundary::lowercased(boundary::media_type(raw)))
}

/// The stack of a route that asks for no credentials: host, origin, and the
/// content type where it takes a document.
pub open spec fn open_stack(config: ConfigView, h: HeadersView, takes_json: bool) -> Result<
    (),
    AppErrorView,
> {
    if host_stage(config, h) is Err {
        host_stage(config, h)
    } else if origin_stage(config, AuthMethod::NoAuth, h) is Err {
        origin_stage(config, AuthMethod::NoAuth, h)
    } else if takes_json {
        json_stage(h)
    } else {
        Ok(())
    }
}

/// The stack of a route that asks for credentials: host, authentication, the
/// origin unless the route only reads, and the content type where it takes a
/// document.
pub open spec fn guarded_stack(
    config: ConfigView,
    sessions: SessionsView,
    h: HeadersView,
    now: u64,
    writes: bool,
    takes_json: bool,
) -> Result<AuthMethod, AppErrorView> {
    match host_stage(config, h) {
        Err(e) => Err(e),
        Ok(_) => match boundary::auth_checked(
            config.auth,
            sessions,
            h.authorization,
            h.cookie,
            now,
        ) {
            Err(e) => Err(e),
            Ok(method) => if writes && origin_stage(config, method, h) is Err {
                Err(origin_stage(config, method, h)->Err_0)
            } else if takes_json && json_stage(h) is Err {
                Err(json_stage(h)->Err_0)
            } else {
                Ok(method)
            },
        },
    }
}

/// The sessions after a guarded stack: looked at only where the host passed.
pub open spec fn sessions_after_stack(
    config: ConfigView,
    sessions: SessionsView,
    h: HeadersView,
    now: u64,
) -> SessionsView {
    match host_stage(config, h) {
        Err(_) => sessions,
        Ok(_) => boundary::sessions_after_auth(config.auth, sessions, h.cookie, now),
    }
}

fn pass_open(config: &Config, headers: &RequestHeaders, takes_json: bool) -> (r: Result<
    (),
    AppError,
>)
    ensures
        error::viewed(r) == open_stack(config@, headers@, takes_json),
{
    let host = host_of(headers);
    if let Err(e) = boundary::host_allowed(host, config) {
        return Err(e);
    }
    if let Err(e) = boundary::origin_allowed(
        AuthMethod::NoAuth,
        header_str(&headers.origin),
        host,
        config,
    ) {
        return Err(e);
    }
    if takes_json {
        return boundary::require_json_body(header_str(&headers.content_type));
    }
    Ok(())
}

/// The authentication check of a request.
fn run_auth(ctx: &mut AppContext, headers: &RequestHeaders, now: u64) -> (r: Result<
    AuthMethod,
    AppError,
>)
    ensures
        error::viewed(r) == boundary::auth_checked(
            old(ctx).config@.auth,
            old(ctx).sessions@,
            headers@.authorization,
            headers@.cookie,
            now,
        ),
        old(ctx).settled(
            *final(ctx),
            boundary::sessions_after_auth(
                old(ctx).config@.auth,
                old(ctx).sessions@,
                headers@.cookie,
                now,
            ),
        ),
{
    let r = boundary::require_auth(
        &ctx.config,
        &mut ctx.sessions,
        header_str(&headers.authorization),
        header_str(&headers.cookie),
        now,
    );
    ctx.settle_sessions();
    r
}

fn pass_guarded(
    ctx: &mut AppContext,
    headers: &RequestHeaders,
    now: u64,
    writes: bool,
    takes_json: bool,
) -> (r: Result<AuthMethod, AppError>)
    ensures
        error::viewed(r) == guarded_stack(
            old(ctx).config@,
            old(ctx).sessions@,
            headers@,
            now,
            writes,
            takes_json,
        ),
        old(ctx).settled(
            *final(ctx),
            sessions_after_stack(old(ctx).config@, old(ctx).sessions@, headers@, now),
        ),
{
    let host = host_of(headers);
    if let Err(e) = boundary::host_allowed(host, &ctx.config) {
        ctx.settle_sessions();
        return Err(e);
    }
    let method = match run_auth(ctx, headers, now) {
        Ok(m) => m,
        Err(e) => {
            return Err(e);
        },
    };
    if writes {
        if let Err(e) = boundary::origin_allowed(
            method,
            header_str(&headers.origin),
            host,
            &ctx.config,
        ) {
            return Err(e);
        }
    }
    if takes_json {
        if let Err(e) = boundary::require_json_body(header_str(&headers.content_type)) {
            return Err(e);
        }
    }
    Ok(method)
}


// Routes.
/// Which of the two a client would rather have.
pub open spec fn prefers_json(accept: Seq<char>) -> bool {
    match (text::find(accept, "application/json"@), text::find(accept, "text/html"@)) {
        (Some(j), Some(h)) => j < h,
        (Some(_), None) => true,
        _ => false,
    }
}

/// A redirect by status 302.
pub open spec fn redirect(target: Seq<char>) -> ReplyView {
    ReplyView { status: 302, headers: seq![("Location"@, target)], body: Seq::empty() }
}

/// `GET /`: to the page, or to the health report for a client that would
/// rather have JSON.
pub fn root(headers: &RequestHeaders) -> (r: Reply)
    ensures
        r@ == redirect(
            if prefers_json(boundary::header_or_empty(headers@.accept)) {
                "/health"@
            } else {
                "/web"@
            },
        ),
{
    let accept = match &headers.accept {
        Some(a) => a.as_str(),
        None => "",
    };
    proof {
        reveal_strlit("");
        assert(""@ =~= Seq::<char>::empty());
    }
    let prefer_json = match (
        text::find_text(accept, "application/json"),
        text::find_text(accept, "text/html"),
    ) {
        (Some(j), Some(h)) => j < h,
        (Some(_), None) => true,
        _ => false,
    };
    let target = if prefer_json {
        "/health"
    } else {
        "/web"
    };
    let mut list: Vec<(String, String)> = Vec::new();
    list.push(("Location".to_owned(), target.to_owned()));
    assert(list.deep_view() =~= seq![("Location"@, target@)]);
    Reply { status: 302, headers: list, body: String::new() }
}

/// The password that a login body presents.
pub open spec fn presented_password(v: JsonView) -> Option<Seq<char>> {
    match json::member_of(v, "password"@) {
        Some(p) => json::text_in(p),
        None => None,
    }
}

/// The checks of a login, in order; what refuses it answers.
pub open spec fn login_checked(config: ConfigView, h: HeadersView, body: Seq<u8>) -> Result<
    (),
    ReplyView,
> {
    match open_stack(config, h, true) {
        Err(e) => Err(error_reply_of(e)),
        Ok(_) => match config.auth.password() {
            None => Err(
                ok_reply_of(
                    500,
                    false,
                    Some(
                        "Browser login is unavailable: MOUSEHOLE_AUTH_PASSWORD is not set"@,
                    ),
                ),
            ),
            Some(password) => match json::parsed_json(body) {
                Err(_) => Err(
                    ok_reply_of(400, false, Some("Malformed JSON in request body"@)),
                ),
                Ok(v) => match presented_password(v) {
                    None => Err(
                        ok_reply_of(400, false, Some("Request body must match expected schema"@)),
                    ),
                    Some(presented) => if presented == password {
                        Ok(())
                    } else {
                        Err(ok_reply_of(401, false, Some("Incorrect password"@)))
                    },
                },
            },
        },
    }
}

/// The answer to a login that opened a session.
pub open spec fn login_reply(config: ConfigView, id: Seq<char>) -> ReplyView {
    with_set_cookie(
        ok_reply_of(200, true, None),
        session::login_cookie_text(
            id,
            config.session_duration_seconds as nat,
            config.https_only_cookies,
        ),
    )
}

/// The context after a login: one more session, and nothing else.
pub open spec fn logged_in(
    before: AppContext,
    after: AppContext,
    id: Seq<char>,
    now: u64,
) -> bool {
    &&& after.sessions@ == before.sessions@.after_create(id, now)
    &&& after.config == before.config
    &&& after.scheduler == before.scheduler
    &&& after.sse == before.sse
    &&& after.closing == before.closing
}

fn check_login(config: &Config, headers: &RequestHeaders, body: &[u8]) -> (r: Result<(), Reply>)
    ensures
        (match r {
            Ok(_) => Ok::<(), ReplyView>(()),
            Err(reply) => Err(reply@),
        }) == login_checked(config@, headers@, body@),
{
    if let Err(e) = pass_open(config, headers, true) {
        return Err(error_reply(&e));
    }
    let password = match config.auth.password() {
        Some(p) => p,
        None => {
            return Err(
                ok_body(
                    500,
                    false,
                    Some("Browser login is unavailable: MOUSEHOLE_AUTH_PASSWORD is not set"),
                ),
            );
        },
    };
    let value = match json::parse(body) {
        Ok(v) => v,
        Err(_) => {
            return Err(ok_body(400, false, Some("Malformed JSON in request body")));
        },
    };
    let presented = match json::member(&value, "password") {
        Some(p) => p.as_str(),
        None => None,
    };
    match presented {
        None => Err(ok_body(400, false, Some("Request body must match expected schema"))),
        Some(presented) => {
            proof {
                if vstd::utf8::encode_utf8(presented@) == vstd::utf8::encode_utf8(password@) {
                    vstd::utf8::encode_utf8_decode_utf8(presented@);
                    vstd::utf8::encode_utf8_decode_utf8(password@);
                }
            }
            if session::safe_equal(presented.as_bytes(), password.as_bytes()) {
                Ok(())
            } else {
                Err(ok_body(401, false, Some("Incorrect password")))
            }
        },
    }
}

fn answer_login(config: &Config, id: &str) -> (r: Reply)
    ensures
        r@ == login_reply(config@, id@),
{
    add_set_cookie(
        ok_body(200, true, None),
        session::login_cookie(id, config.session_duration_seconds, config.https_only_cookies),
    )
}

/// What came of a login: the reply, and the id of the session that it opened,
/// for the timer that ends the session.
pub struct Login {
    pub reply: Reply,
    pub opened: Option<String>,
}

/// `POST /login`: opens a session for whoever presents the password.
pub fn login(ctx: &mut AppContext, headers: &RequestHeaders, body: &[u8], now: u64) -> (r: Login)
    ensures
        match login_checked(old(ctx).config@, headers@, body@) {
            Err(reply) => r.reply@ == reply && r.opened is None && *final(ctx) == *old(ctx),
            Ok(_) => r.opened matches Some(id) && {
                &&& session::drawn(id@)
                &&& id@.len() == 43
                &&& session::is_id(id@)
                &&& r.reply@ == login_reply(old(ctx).config@, id@)
                &&& logged_in(*old(ctx), *final(ctx), id@, now)
            },
        },
{
    if let Err(reply) = check_login(&ctx.config, headers, body) {
        return Login { reply, opened: None };
    }
    let id = ctx.sessions.create(now);
    let reply = answer_login(&ctx.config, &id);
    Login { reply, opened: Some(id) }
}

/// `POST /login`, given the random bytes that make the session's id.
pub fn login_with(
    ctx: &mut AppContext,
    headers: &RequestHeaders,
    body: &[u8],
    now: u64,
    bytes: &[u8; 32],
) -> (r: Login)
    ensures
        match login_checked(old(ctx).config@, headers@, body@) {
            Err(reply) => r.reply@ == reply && r.opened is None && *final(ctx) == *old(ctx),
            Ok(_) => r.opened matches Some(id) && {
                &&& id@ == session::base64url(bytes@)
                &&& r.reply@ == login_reply(old(ctx).config@, id@)
                &&& logged_in(*old(ctx), *final(ctx), id@, now)
            },
        },
{
    if let Err(reply) = check_login(&ctx.config, headers, body) {
        return Login { reply, opened: None };
    }
    let id = ctx.sessions.create_with(bytes, now);
    let reply = answer_login(&ctx.config, &id);
    Login { reply, opened: Some(id) }
}

/// The sessions after a logout: without the one that the request names.
pub open spec fn sessions_after_logout(sessions: SessionsView, cookie: Option<Seq<char>>) -> SessionsView {
    match session::session_id_in(cookie) {
        Some(id) => sessions.after_delete(id),
        None => sessions,
    }
}

/// The answer to a logout, whether there was a session or not.
pub open spec fn logout_reply() -> ReplyView {
    with_set_cookie(ok_reply_of(200, true, None), "mousehole-session=; Max-Age=0; Path=/"@)
}

/// `POST /logout`: ends the session that the request names, if it is known, and
/// clears the cookie in any case.
pub fn logout(ctx: &mut AppContext, headers: &RequestHeaders) -> (r: Reply)
    ensures
        match open_stack(old(ctx).config@, headers@, false) {
            Err(e) => r@ == error_reply_of(e) && *final(ctx) == *old(ctx),
            Ok(_) => r@ == logout_reply() && old(ctx).settled(
                *final(ctx),
                sessions_after_logout(old(ctx).sessions@, headers@.cookie),
            ),
        },
{
    if let Err(e) = pass_open(&ctx.config, headers, false) {
        return error_reply(&e);
    }
    if let Some(id) = session::extract_session_id(header_str(&headers.cookie)) {
        ctx.sessions.delete(&id);
    }
    ctx.settle_sessions();
    add_set_cookie(ok_body(200, true, None), session::logout_cookie())
}

/// `POST /updates`: contact MAM now, with the cookie that is stored.
pub fn updates(ctx: &mut AppContext, headers: &RequestHeaders, now: u64) -> (r: Step)
    ensures
        r@ == match guarded_stack(
            old(ctx).config@,
            old(ctx).sessions@,
            headers@,
            now,
            true,
            false,
        ) {
            Err(e) => StepView::Reply(error_reply_of(e)),
            Ok(_) => StepView::Commit(None),
        },
        old(ctx).settled(
            *final(ctx),
            sessions_after_stack(old(ctx).config@, old(ctx).sessions@, headers@, now),
        ),
{
    match pass_guarded(ctx, headers, now, true, false) {
        Err(e) => Step::Reply(error_reply(&e)),
        Ok(_) => Step::Commit(None),
    }
}

/// `GET /state`: the state as clients see it. Reading is safe from foreign
/// pages, so the origin is not checked.
pub fn get_state(ctx: &mut AppContext, headers: &RequestHeaders, now: u64) -> (r: Step)
    ensures
        r@ == match guarded_stack(
            old(ctx).config@,
            old(ctx).sessions@,
            headers@,
            now,
            false,
            false,
        ) {
            Err(e) => StepView::Reply(error_reply_of(e)),
            Ok(_) => StepView::ReadState,
        },
        old(ctx).settled(
            *final(ctx),
            sessions_after_stack(old(ctx).config@, old(ctx).sessions@, headers@, now),
        ),
{
    match pass_guarded(ctx, headers, now, false, false) {
        Err(e) => Step::Reply(error_reply(&e)),
        Ok(_) => Step::ReadState,
    }
}

/// The error of a request body that is not what it should be.
pub open spec fn body_error(path: Seq<char>, message: Seq<char>) -> AppErrorView {
    error::schema_error_of(400, "request body"@, seq![IssueView { path, message }])
}

/// The cookie that a document gives, or what is wrong with it: it must be an
/// object with a `value` that is a text and not empty.
pub open spec fn cookie_in(v: Option<JsonView>) -> Result<Seq<char>, AppErrorView> {
    match v {
        Some(JsonView::Object(members)) => match json::lookup(members, "value"@) {
            Some(JsonView::Text(s)) => if s.len() > 0 {
                Ok(s)
            } else {
                Err(body_error("value"@, "Too small: expected string to have >=1 characters"@))
            },
            other => Err(body_error("value"@, json::wrong_type("string"@, other))),
        },
        other => Err(body_error(Seq::empty(), json::wrong_type("object"@, other))),
    }
}

/// The URL of a request, as errors name it.
pub open spec fn request_url(h: HeadersView, path: Seq<char>) -> Seq<char> {
    "http://"@ + boundary::header_or_empty(h.effective_host()) + path
}

/// The cookie that a request body gives, or what is wrong with it. No body at
/// all is no document, not a malformed one.
pub open spec fn new_cookie_in(h: HeadersView, path: Seq<char>, body: Seq<u8>) -> Result<
    Seq<char>,
    AppErrorView,
> {
    if body.len() == 0 {
        cookie_in(None)
    } else {
        match json::parsed_json(body) {
            Err(words) => Err(error::request_json_error("PUT"@, request_url(h, path), words)),
            Ok(v) => cookie_in(Some(v)),
        }
    }
}

fn schema_400(path: &str, message: &str) -> (r: AppError)
    ensures
        r@ == body_error(path@, message@),
{
    let mut issues: Vec<Issue> = Vec::new();
    issues.push(Issue { path: path.to_owned(), message: message.to_owned() });
    assert(error::issue_views(issues@) =~= seq![IssueView { path: path@, message: message@ }]);
    error::schema_error(400, "request body", issues)
}

/// The cookie that a document gives.
pub fn cookie_of_document(v: Option<&serde_json::Value>) -> (r: Result<String, AppError>)
    ensures
        error::viewed(r) == cookie_in(
            match v {
                Some(value) => Some(json::json_content(*value)),
                None => None,
            },
        ),
{
    proof {
        reveal_strlit("");
        assert(""@ =~= Seq::<char>::empty());
    }
    if let Some(value) = v {
        if value.is_object() {
            let member = json::member(value, "value");
            if let Some(m) = member {
                if let Some(s) = m.as_str() {
                    return if s.unicode_len() > 0 {
                        Ok(s.to_owned())
                    } else {
                        Err(
                            schema_400(
                                "value",
                                "Too small: expected string to have >=1 characters",
                            ),
                        )
                    };
                }
            }
            return Err(schema_400("value", &json::wrong_type_message("string", member)));
        }
    }
    Err(schema_400("", &json::wrong_type_message("object", v)))
}

fn read_new_cookie(headers: &RequestHeaders, path: &str, body: &[u8]) -> (r: Result<
    String,
    AppError,
>)
    ensures
        error::viewed(r) == new_cookie_in(headers@, path@, body@),
{
    if body.len() == 0 {
        return cookie_of_document(None);
    }
    match json::parse(body) {
        Ok(v) => cookie_of_document(Some(&v)),
        Err(words) => {
            proof {
                reveal_strlit("");
                assert(""@ =~= Seq::<char>::empty());
            }
            let host = match host_of(headers) {
                Some(h) => h,
                None => "",
            };
            let url = "http://".to_owned().concat(host).concat(path);
            Err(error::json_parse_error_request("PUT", &url, &words))
        },
    }
}

/// `PUT /cookie`: contact MAM with a new cookie, which is never empty.
pub fn put_cookie(
    ctx: &mut AppContext,
    headers: &RequestHeaders,
    path: &str,
    body: &[u8],
    now: u64,
) -> (r: Step)
    ensures
        r@ == match guarded_stack(
            old(ctx).config@,
            old(ctx).sessions@,
            headers@,
            now,
            true,
            true,
        ) {
            Err(e) => StepView::Reply(error_reply_of(e)),
            Ok(_) => match new_cookie_in(headers@, path@, body@) {
                Err(e) => StepView::Reply(error_reply_of(e)),
                Ok(cookie) => StepView::Commit(Some(cookie)),
            },
        },
        old(ctx).settled(
            *final(ctx),
            sessions_after_stack(old(ctx).config@, old(ctx).sessions@, headers@, now),
        ),
{
    if let Err(e) = pass_guarded(ctx, headers, now, true, true) {
        return Step::Reply(error_reply(&e));
    }
    match read_new_cookie(headers, path, body) {
        Err(e) => Step::Reply(error_reply(&e)),
        Ok(cookie) => Step::Commit(Some(cookie)),
    }
}

/// The head of an event stream.
pub open spec fn events_head() -> ReplyView {
    ReplyView {
        status: 200,
        headers: seq![
            ("Content-Type"@, "text/event-stream"@),
            ("Cache-Control"@, "no-cache"@),
            ("Connection"@, "keep-alive"@),
        ],
        body: Seq::empty(),
    }
}

/// The session that a stream belongs to: the one that let the request in, or
/// none.
pub open spec fn stream_session(method: AuthMethod, h: HeadersView) -> Seq<char> {
    match session::session_id_in(h.cookie) {
        Some(id) => if method == AuthMethod::Session {
            id
        } else {
            Seq::empty()
        },
        None => Seq::empty(),
    }
}

fn stream_head() -> (r: Reply)
    ensures
        r@ == events_head(),
{
    let mut list: Vec<(String, String)> = Vec::new();
    list.push(("Content-Type".to_owned(), "text/event-stream".to_owned()));
    list.push(("Cache-Control".to_owned(), "no-cache".to_owned()));
    list.push(("Connection".to_owned(), "keep-alive".to_owned()));
    assert(list.deep_view() =~= events_head().headers);
    Reply { status: 200, headers: list, body: String::new() }
}

/// `GET /events`: opens an event stream, on which nothing is sent at first.
pub fn events(ctx: &mut AppContext, headers: &RequestHeaders, now: u64) -> (r: Step)
    ensures
        ({
            let config = old(ctx).config@;
            let sessions = sessions_after_stack(config, old(ctx).sessions@, headers@, now);
            match guarded_stack(config, old(ctx).sessions@, headers@, now, true, false) {
                Err(e) => r@ == StepView::Reply(error_reply_of(e)) && old(ctx).settled(
                    *final(ctx),
                    sessions,
                ),
                Ok(method) => {
                    let streams = streams_after(old(ctx).sse@, sessions.ended);
                    &&& r@ == (StepView::Subscribe { stream: streams.next_id, head: events_head() })
                    &&& final(ctx).sse@ == streams.after_register(stream_session(method, headers@))
                    &&& final(ctx).sessions@ == (SessionsView { ended: Seq::empty(), ..sessions })
                    &&& added(
                        old(ctx).closing@,
                        final(ctx).closing@,
                        streams_closed(old(ctx).sse@, sessions.ended),
                    )
                    &&& final(ctx).config == old(ctx).config
                    &&& final(ctx).scheduler == old(ctx).scheduler
                },
            }
        }),
{
    let method = match pass_guarded(ctx, headers, now, true, false) {
        Ok(m) => m,
        Err(e) => {
            return Step::Reply(error_reply(&e));
        },
    };
    let mut session_id = String::new();
    if method == AuthMethod::Session {
        if let Some(id) = session::extract_session_id(header_str(&headers.cookie)) {
            session_id = id;
        }
    }
    assert(session_id@ =~= stream_session(method, headers@));
    let stream: u64 = ctx.sse.register(&session_id);
    Step::Subscribe { stream, head: stream_head() }
}

// Answers that the state file has a part in.
/// The state as clients see it.
pub open spec fn public_state_of(
    config: ConfigView,
    scheduler: SchedulerView,
    s: Option<StateView>,
) -> PublicStateView {
    PublicStateView {
        has_cookie: match s {
            Some(s) => state::usable_cookie(s.cookie) is Some,
            None => false,
        },
        has_auth: config.auth is Configured,
        next_contact_at: match scheduler.next_contact_at {
            Some(at) => Some(at.wire),
            None => None,
        },
        last_mam_contact: match s {
            Some(StateView { last_mam_contact: Some(c), .. }) => Some(c.body),
            _ => None,
        },
    }
}

/// The state as clients see it.
pub fn build_public_state(ctx: &AppContext, current: Option<State>) -> (r: PublicState)
    ensures
        r@ == public_state_of(
            ctx.config@,
            ctx.scheduler@,
            crate::scheduler::state_view(current),
        ),
{
    let has_cookie = match &current {
        Some(s) => s.effective_cookie().is_some(),
        None => false,
    };
    let next_contact_at = match ctx.scheduler.next_contact_at() {
        Some(at) => Some(timefmt::to_wire(at)),
        None => None,
    };
    let last_mam_contact = match current {
        Some(s) => match s.last_mam_contact {
            Some(c) => Some(c.body),
            None => None,
        },
        None => None,
    };
    PublicState {
        has_cookie,
        has_auth: ctx.config.auth.is_configured(),
        next_contact_at,
        last_mam_contact,
    }
}

/// The answer that a read of the state file makes.
pub open spec fn state_reply_of(
    config: ConfigView,
    scheduler: SchedulerView,
    read: Result<Option<StateView>, AppErrorView>,
) -> ReplyView {
    match read {
        Err(e) => error_reply_of(e),
        Ok(s) => json_reply(200, state::public_json(public_state_of(config, scheduler, s))),
    }
}

/// The answer that a read of the state file makes.
pub fn state_reply(ctx: &AppContext, read: Result<Option<State>, AppError>) -> (r: Reply)
    ensures
        r@ == state_reply_of(ctx.config@, ctx.scheduler@, state::optional_state(read)),
{
    match read {
        Err(e) => error_reply(&e),
        Ok(current) => reply_with(200, &build_public_state(ctx, current).to_value()),
    }
}

/// The answer with the state in the file's contents.
pub fn read_reply(ctx: &AppContext, contents: &FileContents) -> (r: Reply)
    ensures
        exists|read: Result<Option<StateView>, AppErrorView>|
            #[trigger] state::may_come_to(contents@, ctx.scheduler@.store.path, read) && r@
                == state_reply_of(ctx.config@, ctx.scheduler@, read),
{
    let read = ctx.scheduler.store().read_if_exists(contents);
    assert(state::may_come_to(
        contents@,
        ctx.scheduler@.store.path,
        state::optional_state(read),
    ));
    state_reply(ctx, read)
}

/// The answer after a contact: its error, or the state as it was stored. A
/// contact that did not reach MAM is no error here.
pub fn commit_reply(
    ctx: &AppContext,
    result: &Result<SerializedState, AppError>,
    contents: &FileContents,
) -> (r: Reply)
    ensures
        match error::viewed(*result) {
            Err(e) => r@ == error_reply_of(e),
            Ok(_) => exists|read: Result<Option<StateView>, AppErrorView>|
                #[trigger] state::may_come_to(contents@, ctx.scheduler@.store.path, read) && r@
                    == state_reply_of(ctx.config@, ctx.scheduler@, read),
        },
{
    match result {
        Err(e) => error_reply(e),
        Ok(_) => read_reply(ctx, contents),
    }
}

/// The health report that a read of the state file makes: how the last contact
/// went, which is no error of the server.
pub open spec fn health_reply_of(read: Result<Option<StateView>, AppErrorView>) -> ReplyView {
    match read {
        Err(e) => error_reply_of(e),
        Ok(s) => {
            let contact = match s {
                Some(StateView { last_mam_contact: Some(c), .. }) => Some(c.body),
                _ => None,
            };
            json_reply(
                200,
                JsonView::Object(
                    seq![("lastMamContactResult"@, JsonView::Text(state::contact_class(contact)))],
                ),
            )
        },
    }
}

/// The health report that a read of the state file makes.
pub fn health_reply(read: Result<Option<State>, AppError>) -> (r: Reply)
    ensures
        r@ == health_reply_of(state::optional_state(read)),
{
    match read {
        Err(e) => error_reply(&e),
        Ok(current) => {
            let status = match &current {
                Some(s) => match &s.last_mam_contact {
                    Some(c) => state::classify(Some(&c.body)),
                    None => state::classify(None),
                },
                None => state::classify(None),
            };
            let mut fields: Vec<(String, serde_json::Value)> = Vec::new();
            json::push_member(&mut fields, "lastMamContactResult", json::text_value(status));
            assert(json::members_of(fields@) =~= seq![
                ("lastMamContactResult"@, JsonView::Text(status@)),
            ]);
            reply_with(200, &json::object_value(fields))
        },
    }
}

/// `GET /health`: open to anyone, without any check.
pub fn health(ctx: &AppContext, contents: &FileContents) -> (r: Reply)
    ensures
        exists|read: Result<Option<StateView>, AppErrorView>|
            #[trigger] state::may_come_to(contents@, ctx.scheduler@.store.path, read) && r@
                == health_reply_of(read),
{
    let read = ctx.scheduler.store().read_if_exists(contents);
    assert(state::may_come_to(
        contents@,
        ctx.scheduler@.store.path,
        state::optional_state(read),
    ));
    health_reply(read)
}

// Around the routes.
/// A declared length over the limit is refused before any other check.
pub fn declared_over_limit(content_length: Option<&str>) -> (r: bool)
    ensures
        r == match content_length.deep_view() {
            Some(n) => text::number_above(n, BODY_LIMIT as nat),
            None => false,
        },
{
    match content_length {
        Some(n) => text::exceeds(n, BODY_LIMIT),
        None => false,
    }
}

/// Whether a content type is JSON.
pub fn is_json(content_type: Option<&str>) -> (r: bool)
    ensures
        r == match content_type.deep_view() {
            Some(t) => "application/json"@.is_prefix_of(t),
            None => false,
        },
{
    match content_type {
        Some(t) => text::starts_with(t, "application/json"),
        None => false,
    }
}

/// What takes the place of a bare status: a known path with another method is
/// not found, and a body that turns out too large is refused in JSON.
pub open spec fn replacement(status: u16, content_type: Option<Seq<char>>) -> Option<AppErrorView> {
    if status == 405 {
        Some(error::not_found_error())
    } else if status == 413 && !(content_type matches Some(t)
        && "application/json"@.is_prefix_of(t)) {
        Some(error::payload_too_large_error())
    } else {
        None
    }
}

/// What takes the place of a bare status.
pub fn normalize_status(status: u16, content_type: Option<&str>) -> (r: Option<AppError>)
    ensures
        (match r {
            Some(e) => Some(e@),
            None => None,
        }) == replacement(status, content_type.deep_view()),
{
    if status == 405 {
        Some(error::not_found())
    } else if status == 413 && !is_json(content_type) {
        Some(error::payload_too_large())
    } else {
        None
    }
}

/// What is logged of a request.
pub fn access_line(method: &str, path: &str, status: u16) -> (r: String)
    ensures
        r@ == method@ + " "@ + path@ + " → "@ + text::decimal(status as nat),
{
    method.to_owned().concat(" ").concat(path).concat(" → ").concat(
        &text::decimal_text(status as u64),
    )
}

// Laws.
/// The checks answer in order: a host that is refused is told so whatever
/// else is wrong, then a lack of credentials, then the origin, and the content
/// type last.
pub proof fn law_boundary_precedence(
    config: ConfigView,
    sessions: SessionsView,
    h: HeadersView,
    now: u64,
    writes: bool,
    takes_json: bool,
)
    ensures
        ({
            let auth = boundary::auth_checked(
                config.auth,
                sessions,
                h.authorization,
                h.cookie,
                now,
            );
            let r = guarded_stack(config, sessions, h, now, writes, takes_json);
            &&& host_stage(config, h) matches Err(e) ==> r == Err::<AuthMethod, AppErrorView>(e)
            &&& host_stage(config, h) is Ok && auth is Err ==> r == auth
            &&& host_stage(config, h) is Ok && auth is Ok ==> {
                let m = auth->Ok_0;
                &&& writes && origin_stage(config, m, h) is Err ==> r == Err::<
                    AuthMethod,
                    AppErrorView,
                >(origin_stage(config, m, h)->Err_0)
                &&& (!writes || origin_stage(config, m, h) is Ok) && takes_json && json_stage(
                    h,
                ) is Err ==> r == Err::<AuthMethod, AppErrorView>(json_stage(h)->Err_0)
                &&& r is Ok <==> (!writes || origin_stage(config, m, h) is Ok) && (!takes_json
                    || json_stage(h) is Ok)
            }
        }),
{
}

/// No guarded route lets a request through that the authentication check does
/// not.
pub proof fn law_guarded_routes_ask_for_credentials(
    config: ConfigView,
    sessions: SessionsView,
    h: HeadersView,
    now: u64,
    writes: bool,
    takes_json: bool,
)
    ensures
        guarded_stack(config, sessions, h, now, writes, takes_json) matches Ok(m) ==> {
            &&& boundary::auth_checked(config.auth, sessions, h.authorization, h.cookie, now)
                == Ok::<AuthMethod, AppErrorView>(m)
            &&& m == AuthMethod::NoAuth ==> config.auth == (
            crate::config::AuthView::NoAuth { insecure_allow_no_auth: true })
        },
{
}

/// A cookie that is accepted is never empty: there is no way to clear it.
pub proof fn law_new_cookies_are_not_empty(h: HeadersView, path: Seq<char>, body: Seq<u8>)
    ensures
        new_cookie_in(h, path, body) matches Ok(c) ==> c.len() > 0,
{
}

/// Of the stored cookie, clients learn only whether there is one: two states
/// that differ in nothing else look the same.
pub proof fn law_cookie_stays_secret(
    config: ConfigView,
    scheduler: SchedulerView,
    one: StateView,
    other: StateView,
)
    requires
        one.last_mam_contact == other.last_mam_contact,
        state::usable_cookie(one.cookie) is Some == state::usable_cookie(other.cookie) is Some,
    ensures
        state_reply_of(config, scheduler, Ok(Some(one))) == state_reply_of(
            config,
            scheduler,
            Ok(Some(other)),
        ),
{
}

/// A failure to reach MAM is reported in the state and in health with status
/// 200; only what is wrong with the server itself is an error.
pub proof fn law_readable_state_is_answered(
    config: ConfigView,
    scheduler: SchedulerView,
    s: Option<StateView>,
)
    ensures
        state_reply_of(config, scheduler, Ok(s)).status == 200,
        health_reply_of(Ok(s)).status == 200,
{
}

/// When sessions end, none of their streams stays open and all others do.
pub proof fn law_ended_sessions_lose_their_streams(
    streams: StreamsView,
    ended: Seq<Seq<char>>,
    id: u64,
)
    requires
        streams.clients.contains_key(id),
    ensures
        ({
            let after = streams_after(streams, ended);
            if streams.clients[id].len() > 0 && ended.contains(streams.clients[id]) {
                !after.clients.contains_key(id) && streams_closed(streams, ended).contains(id)
            } else {
                after.clients.contains_key(id) && after.clients[id] == streams.clients[id]
                    && !streams_closed(streams, ended).contains(id)
            }
        }),
{
}

/// A login that succeeds sets the cookie by which its session is found again,
/// and a logout with that cookie ends the session and closes its streams.
pub proof fn law_logout_undoes_login(sessions: SessionsView, id: Seq<char>, created: u64, now: u64)
    requires
        session::is_id(id),
    ensures
        ({
            let after = sessions_after_logout(
                sessions.after_create(id, created),
                Some(session::sent_back(id)),
            );
            &&& !after.valid_at(id, now)
            &&& after.ended == sessions.ended.push(id)
        }),
{
    let opened = sessions.after_create(id, created);
    session::law_session_cookie_reads_back(id, Seq::empty(), Seq::empty());
    session::law_logout_ends_the_session(opened, id, id, now);
    let kept = session::without(sessions.live, id);
    assert(opened.live[kept.len() as int].0 == id);
    assert(session::known(opened.live, id));
}

/// Clients are shown the contact on record, reached or not, as it is stored, and
/// none only where there is none; whether there is a cookie that is not empty;
/// whether credentials are asked for; and when the next contact is announced
/// for.
pub proof fn law_public_state_shows_what_is_stored(
    ctx: &AppContext,
    current: Option<State>,
    r: PublicState,
)
    requires
        call_ensures(build_public_state, (ctx, current), r),
    ensures
        current is None ==> r.last_mam_contact is None && !r.has_cookie,
        current matches Some(s) ==> {
            &&& r.last_mam_contact is Some <==> s.last_mam_contact is Some
            &&& s.last_mam_contact matches Some(c) ==> r@.last_mam_contact == Some(c.body@)
            &&& r.has_cookie <==> s.cookie is Some && s.cookie->0@.len() > 0
        },
        r.has_auth <==> ctx.config.auth is Configured,
        r.next_contact_at is Some <==> ctx.scheduler@.next_contact_at is Some,
        ctx.scheduler@.next_contact_at matches Some(at) ==> r.next_contact_at->0@ == at.wire,
{
}

/// A state that was read is answered with status 200 and the document of what
/// clients see of it; one that could not be read with its error.
pub proof fn law_state_is_answered_as_a_document(
    ctx: &AppContext,
    current: Option<State>,
    public: PublicState,
    shown: &PublicState,
    value: serde_json::Value,
    e: &AppError,
    refusal: Reply,
    r: Reply,
    failed: Reply,
)
    requires
        call_ensures(state_reply, (ctx, Ok(current)), r),
        call_ensures(build_public_state, (ctx, current), public),
        shown@ == public@,
        call_ensures(PublicState::to_value, (shown,), value),
        call_ensures(state_reply, (ctx, Err(*e)), failed),
        call_ensures(error_reply, (e,), refusal),
    ensures
        r.status == 200,
        r@.headers == seq![("Content-Type"@, "application/json"@)],
        r.body@ == json::compact_json(json::json_content(value)),
        failed@ == refusal@,
{
}

/// Health reports the class of the contact on record, whatever its kind, and
/// that none is pending only where there is none on record. A state that could
/// not be read is an error.
pub proof fn law_health_is_the_class_of_the_contact(
    current: Option<State>,
    contact: Option<&state::SerializedMamContact>,
    class: &'static str,
    e: &AppError,
    refusal: Reply,
    r: Reply,
    failed: Reply,
)
    requires
        call_ensures(health_reply, (Ok(current),), r),
        call_ensures(state::classify, (contact,), class),
        call_ensures(health_reply, (Err(*e),), failed),
        call_ensures(error_reply, (e,), refusal),
        match current {
            Some(s) => match s.last_mam_contact {
                Some(c) => contact matches Some(known) && known@ == c.body@,
                None => contact is None,
            },
            None => contact is None,
        },
    ensures
        r.status == 200,
        r@.headers == seq![("Content-Type"@, "application/json"@)],
        r.body@ == json::compact_json(
            JsonView::Object(seq![("lastMamContactResult"@, JsonView::Text(class@))]),
        ),
        failed@ == refusal@,
{
}

/// What a report on the state file says is what stands in the file: of a
/// missing one that there is nothing, of one that cannot be read the error, and
/// else its contact as it is stored and whether it holds a cookie.
pub proof fn law_reports_go_by_the_state_file(
    ctx: &AppContext,
    contents: &FileContents,
    state_report: Reply,
    health_report: Reply,
)
    requires
        call_ensures(read_reply, (ctx, contents), state_report),
        call_ensures(health, (ctx, contents), health_report),
    ensures
        ({
            let path = ctx.scheduler@.store.path;
            &&& contents is Missing ==> {
                &&& shows(state_report@, None, false)
                &&& reports(health_report@, None)
            }
            &&& contents is Unreadable ==> {
                &&& state_report@ == error_reply_of(error::file_reading_error(path))
                &&& health_report@ == error_reply_of(error::file_reading_error(path))
            }
            &&& contents matches FileContents::Text(t) ==> match state::document_read(t@, path) {
                Err(e) => state_report@ == error_reply_of(e) && health_report@ == error_reply_of(e),
                Ok(s) => {
                    let has_cookie = s.cookie matches Some(c) && c.len() > 0;
                    &&& state_report.status == 500 || shows(
                        state_report@,
                        s.last_mam_contact,
                        has_cookie,
                    )
                    &&& health_report.status == 500 || reports(health_report@, s.last_mam_contact)
                    &&& s.last_mam_contact is None ==> {
                        &&& shows(state_report@, None, has_cookie)
                        &&& reports(health_report@, None)
                    }
                },
            }
        }),
{
    let path = ctx.scheduler@.store.path;
    let one = choose|read: Result<Option<StateView>, AppErrorView>|
        #[trigger] state::may_come_to(contents@, path, read) && state_report@ == state_reply_of(
            ctx.config@,
            ctx.scheduler@,
            read,
        );
    if one is Ok {
        let p = public_state_of(ctx.config@, ctx.scheduler@, one->Ok_0);
        assert(state_report@ == json_reply(200, state::public_json(p)));
    }
    let two = choose|read: Result<Option<StateView>, AppErrorView>|
        #[trigger] state::may_come_to(contents@, path, read) && health_report@ == health_reply_of(
            read,
        );
}

/// The reply shows that contact, and whether there is a cookie.
pub open spec fn shows(
    reply: ReplyView,
    contact: Option<state::ContactView>,
    has_cookie: bool,
) -> bool {
    reply.status == 200 && exists|p: PublicStateView|
        p.last_mam_contact == contact && p.has_cookie == has_cookie && reply.body
            == json::compact_json(#[trigger] state::public_json(p))
}

/// The reply reports the class of that contact.
pub open spec fn reports(reply: ReplyView, contact: Option<state::ContactView>) -> bool {
    reply.status == 200 && reply.body == json::compact_json(
        JsonView::Object(
            seq![("lastMamContactResult"@, JsonView::Text(state::contact_class(contact)))],
        ),
    )
}

/// A contact that ended in an error is answered with it; any other with the
/// state as it was stored.
pub proof fn law_contact_is_answered_with_the_state(
    ctx: &AppContext,
    result: &Result<SerializedState, AppError>,
    contents: &FileContents,
    e: &AppError,
    refusal: Reply,
    r: Reply,
)
    requires
        call_ensures(commit_reply, (ctx, result, contents), r),
        call_ensures(error_reply, (e,), refusal),
        result matches Err(failure) ==> failure@ == e@,
    ensures
        result is Err ==> r@ == refusal@,
        result is Ok ==> {
            &&& contents is Missing ==> shows(r@, None, false)
            &&& contents matches FileContents::Text(t) ==> match state::document_read(
                t@,
                ctx.scheduler@.store.path,
            ) {
                Err(e) => r@ == error_reply_of(e),
                Ok(s) => r.status == 500 || shows(
                    r@,
                    s.last_mam_contact,
                    s.cookie matches Some(c) && c.len() > 0,
                ),
            }
        },
{
    if result is Ok {
        let path = ctx.scheduler@.store.path;
        let one = choose|read: Result<Option<StateView>, AppErrorView>|
            #[trigger] state::may_come_to(contents@, path, read) && r@ == state_reply_of(
                ctx.config@,
                ctx.scheduler@,
                read,
            );
        if one is Ok {
            let p = public_state_of(ctx.config@, ctx.scheduler@, one->Ok_0);
            assert(r@ == json_reply(200, state::public_json(p)));
        }
    }
}

/// An error is answered with its own status, its document as JSON, and its own
/// headers behind the content type.
pub proof fn law_error_is_answered_as_a_document(
    e: &AppError,
    body: &error::ErrorBody,
    value: serde_json::Value,
    r: Reply,
)
    requires
        call_ensures(error_reply, (e,), r),
        call_ensures(error::ErrorBody::to_value, (body,), value),
        body@ == e@.body,
    ensures
        r.status == e.status,
        r.body@ == json::compact_json(json::json_content(value)),
        r@.headers.len() == e@.headers.len() + 1,
        r@.headers[0] == ("Content-Type"@, "application/json"@),
        r@.headers.skip(1) == e@.headers,
{
    assert(r@.headers.skip(1) =~= e@.headers);
}

/// The start page leads to the health report exactly where the client names
/// JSON, and HTML not before it; else to the web page.
pub proof fn law_root_leads_by_preference(headers: &RequestHeaders, r: Reply)
    requires
        call_ensures(root, (headers,), r),
    ensures
        ({
            let accept = boundary::header_or_empty(headers@.accept);
            let json = text::find(accept, "application/json"@);
            let html = text::find(accept, "text/html"@);
            &&& r.status == 302
            &&& r.body@.len() == 0
            &&& r@.headers.len() == 1
            &&& r@.headers[0].0 == "Location"@
            &&& json is None ==> r@.headers[0].1 == "/web"@
            &&& json is Some && html is None ==> r@.headers[0].1 == "/health"@
            &&& json is Some && html is Some && json->0 < html->0 ==> r@.headers[0].1 == "/health"@
            &&& json is Some && html is Some && json->0 >= html->0 ==> r@.headers[0].1 == "/web"@
            &&& headers.accept is None ==> r@.headers[0].1 == "/web"@
        }),
{
    if headers.accept is None {
        reveal_strlit("application/json");
        text::law_find_is_the_first_occurrence(Seq::empty(), "application/json"@);
    }
}

/// A request is for the host of its Host header, and only without one for that
/// of its URL.
pub proof fn law_host_header_comes_first(h: HeadersView)
    ensures
        h.host is Some ==> h.effective_host() == h.host,
        h.host is None ==> h.effective_host() == h.authority,
{
}

/// What a route without credentials lets through: an allowed host and an
/// allowed origin, and a JSON content type where it takes a document. The first
/// of these that fails answers.
pub proof fn law_open_routes_check_host_and_origin(
    config: ConfigView,
    h: HeadersView,
    takes_json: bool,
    host: Option<Seq<char>>,
)
    requires
        h.host is Some ==> host == h.host,
        h.host is None ==> host == h.authority,
    ensures
        ({
            let by_host = boundary::host_checked(host, config.allowed_hosts);
            let by_origin = boundary::origin_checked(
                AuthMethod::NoAuth,
                h.origin,
                host,
                config.allowed_origins,
            );
            let r = open_stack(config, h, takes_json);
            &&& by_host is Err ==> r == by_host
            &&& by_host is Ok && by_origin is Err ==> r == by_origin
            &&& by_host is Ok && by_origin is Ok ==> (r is Err <==> takes_json && json_stage(h)
                is Err)
            &&& r is Err && by_host is Ok && by_origin is Ok ==> r == json_stage(h)
        }),
{
}

/// The step is a reply of that status.
pub open spec fn answered_with(step: StepView, status: u16) -> bool {
    step matches StepView::Reply(reply) && reply.status == status
}

/// `POST /updates` contacts MAM, with the cookie that is stored, exactly for a
/// request that passes host, credentials and origin; the first of them that
/// fails answers.
pub proof fn law_update_is_asked_for_by_who_may(
    ctx: &mut AppContext,
    headers: &RequestHeaders,
    now: u64,
    host: Option<Seq<char>>,
    r: Step,
)
    requires
        call_ensures(updates, (ctx, headers, now), r),
        headers.host is Some ==> host == headers@.host,
        headers.host is None ==> host == headers@.authority,
    ensures
        ({
            let config = old(ctx).config@;
            let h = headers@;
            let by_host = boundary::host_checked(host, config.allowed_hosts);
            let by_auth = boundary::auth_checked(
                config.auth,
                old(ctx).sessions@,
                h.authorization,
                h.cookie,
                now,
            );
            let by_origin = boundary::origin_checked(
                by_auth->Ok_0,
                h.origin,
                host,
                config.allowed_origins,
            );
            &&& by_host matches Err(e) ==> r@ == StepView::Reply(error_reply_of(e))
            &&& by_host is Ok && by_auth is Err ==> r@ == StepView::Reply(
                error_reply_of(by_auth->Err_0),
            )
            &&& by_host is Ok && by_auth is Ok && by_origin is Err ==> r@ == StepView::Reply(
                error_reply_of(by_origin->Err_0),
            )
            &&& by_host is Ok && by_auth is Ok && by_origin is Ok ==> r@ == StepView::Commit(None)
        }),
{
}

/// `GET /state` reads the state exactly for a request that passes host and
/// credentials, whatever its origin; the first of them that fails answers.
pub proof fn law_state_is_read_by_who_may(
    ctx: &mut AppContext,
    headers: &RequestHeaders,
    now: u64,
    host: Option<Seq<char>>,
    r: Step,
)
    requires
        call_ensures(get_state, (ctx, headers, now), r),
        headers.host is Some ==> host == headers@.host,
        headers.host is None ==> host == headers@.authority,
    ensures
        ({
            let config = old(ctx).config@;
            let h = headers@;
            let by_host = boundary::host_checked(host, config.allowed_hosts);
            let by_auth = boundary::auth_checked(
                config.auth,
                old(ctx).sessions@,
                h.authorization,
                h.cookie,
                now,
            );
            &&& by_host matches Err(e) ==> r@ == StepView::Reply(error_reply_of(e))
            &&& by_host is Ok && by_auth is Err ==> r@ == StepView::Reply(
                error_reply_of(by_auth->Err_0),
            )
            &&& by_host is Ok && by_auth is Ok ==> r@ is ReadState
        }),
{
}

/// `PUT /cookie` contacts MAM with the cookie that the body gives, exactly for a
/// request that passes host, credentials, origin and content type, and whose
/// body is an object with a `value` that is a text and not empty.
pub proof fn law_cookie_is_put_by_who_may(
    ctx: &mut AppContext,
    headers: &RequestHeaders,
    path: &str,
    body: &[u8],
    now: u64,
    host: Option<Seq<char>>,
    r: Step,
)
    requires
        call_ensures(put_cookie, (ctx, headers, path, body, now), r),
        headers.host is Some ==> host == headers@.host,
        headers.host is None ==> host == headers@.authority,
    ensures
        ({
            let config = old(ctx).config@;
            let h = headers@;
            let by_host = boundary::host_checked(host, config.allowed_hosts);
            let by_auth = boundary::auth_checked(
                config.auth,
                old(ctx).sessions@,
                h.authorization,
                h.cookie,
                now,
            );
            let by_origin = boundary::origin_checked(
                by_auth->Ok_0,
                h.origin,
                host,
                config.allowed_origins,
            );
            let raw = boundary::header_or_empty(h.content_type);
            let is_json = boundary::lowercased(boundary::media_type(raw)) == "application/json"@;
            &&& by_host matches Err(e) ==> r@ == StepView::Reply(error_reply_of(e))
            &&& by_host is Ok && by_auth is Err ==> r@ == StepView::Reply(
                error_reply_of(by_auth->Err_0),
            )
            &&& by_host is Ok && by_auth is Ok && by_origin is Err ==> r@ == StepView::Reply(
                error_reply_of(by_origin->Err_0),
            )
            &&& by_host is Ok && by_auth is Ok && by_origin is Ok && !is_json ==> answered_with(
                r@,
                415,
            )
            &&& by_host is Ok && by_auth is Ok && by_origin is Ok && is_json ==> {
                let document = json::parsed_json(body@);
                &&& body@.len() == 0 ==> answered_with(r@, 400)
                &&& body@.len() > 0 && document is Err ==> r@ == StepView::Reply(
                    error_reply_of(
                        error::request_json_error(
                            "PUT"@,
                            "http://"@ + boundary::header_or_empty(host) + path@,
                            document->Err_0,
                        ),
                    ),
                ) && answered_with(r@, 400)
                &&& body@.len() > 0 && document is Ok ==> match json::member_of(
                    document->Ok_0,
                    "value"@,
                ) {
                    Some(JsonView::Text(c)) => if c.len() > 0 {
                        r@ == StepView::Commit(Some(c))
                    } else {
                        answered_with(r@, 400)
                    },
                    _ => answered_with(r@, 400),
                }
            }
        }),
{
}

/// `GET /events` opens a stream exactly for a request that passes host,
/// credentials and origin. Its number is a new one, and it belongs to the
/// session that let the request in, and to none where a token or nothing did.
pub proof fn law_stream_is_opened_by_who_may(
    ctx: &mut AppContext,
    headers: &RequestHeaders,
    now: u64,
    host: Option<Seq<char>>,
    r: Step,
)
    requires
        call_ensures(events, (ctx, headers, now), r),
        headers.host is Some ==> host == headers@.host,
        headers.host is None ==> host == headers@.authority,
    ensures
        ({
            let config = old(ctx).config@;
            let h = headers@;
            let by_host = boundary::host_checked(host, config.allowed_hosts);
            let by_auth = boundary::auth_checked(
                config.auth,
                old(ctx).sessions@,
                h.authorization,
                h.cookie,
                now,
            );
            let by_origin = boundary::origin_checked(
                by_auth->Ok_0,
                h.origin,
                host,
                config.allowed_origins,
            );
            &&& by_host matches Err(e) ==> r@ == StepView::Reply(error_reply_of(e))
            &&& by_host is Ok && by_auth is Err ==> r@ == StepView::Reply(
                error_reply_of(by_auth->Err_0),
            )
            &&& by_host is Ok && by_auth is Ok && by_origin is Err ==> r@ == StepView::Reply(
                error_reply_of(by_origin->Err_0),
            )
            &&& by_host is Ok && by_auth is Ok && by_origin is Ok ==> {
                let open = final(ctx).sse@.clients;
                &&& r@ matches StepView::Subscribe { stream, head } && stream == old(ctx).sse@.next_id
                    && head.status == 200 && head.body.len() == 0 && head.headers == seq![
                    ("Content-Type"@, "text/event-stream"@),
                    ("Cache-Control"@, "no-cache"@),
                    ("Connection"@, "keep-alive"@),
                ] && open.contains_key(stream)
                &&& by_auth->Ok_0 == AuthMethod::Session ==> Some(
                    open[old(ctx).sse@.next_id],
                ) == session::session_id_in(h.cookie)
                &&& by_auth->Ok_0 != AuthMethod::Session ==> open[old(ctx).sse@.next_id].len() == 0
            }
        }),
{
}

/// The checks of a route are those of the boundary: its host against the
/// configured hosts, its origin against the configured origins and that host,
/// and its content type.
pub proof fn law_stages_are_the_boundary_checks(
    config: ConfigView,
    method: AuthMethod,
    h: HeadersView,
    host: Option<Seq<char>>,
)
    requires
        h.host is Some ==> host == h.host,
        h.host is None ==> host == h.authority,
    ensures
        host_stage(config, h) == boundary::host_checked(host, config.allowed_hosts),
        origin_stage(config, method, h) == boundary::origin_checked(
            method,
            h.origin,
            host,
            config.allowed_origins,
        ),
        json_stage(h) is Ok <==> boundary::lowercased(
            boundary::media_type(boundary::header_or_empty(h.content_type)),
        ) == "application/json"@,
        json_stage(h) matches Err(e) ==> e.status == 415,
{
}

/// A document gives a cookie exactly where it is an object whose `value` is a
/// text and not empty, and gives that text. Else it is refused with status 400,
/// and where it is an object, with the name of the member.
pub proof fn law_cookie_is_the_value_of_the_document(
    v: &serde_json::Value,
    r: Result<String, AppError>,
    missing: Result<String, AppError>,
)
    requires
        call_ensures(cookie_of_document, (Some(v),), r),
        call_ensures(cookie_of_document, (None,), missing),
    ensures
        ({
            let content = json::json_content(*v);
            &&& r matches Ok(c) ==> json::member_of(content, "value"@) == Some(JsonView::Text(c@))
                && c@.len() > 0
            &&& json::member_of(content, "value"@) matches Some(JsonView::Text(c)) ==> (r is Ok
                <==> c.len() > 0)
            &&& r is Err ==> error::fails_with(r, 400, "schema-error"@)
            &&& r matches Err(e) ==> e@.body.issues matches Some(issues) && issues.len() == 1
                && issues[0].path == (if content is Object {
                "value"@
            } else {
                Seq::empty()
            }) && issues[0].message == if !(content is Object) {
                "Invalid input: expected object, received "@ + json::kind_name(Some(content))
            } else if json::member_of(content, "value"@) matches Some(JsonView::Text(_)) {
                "Too small: expected string to have >=1 characters"@
            } else {
                "Invalid input: expected string, received "@ + json::kind_name(
                    json::member_of(content, "value"@),
                )
            }
        }),
        error::fails_with(missing, 400, "schema-error"@),
{
    reveal_strlit("Invalid input: expected ");
    reveal_strlit("string");
    reveal_strlit("object");
    reveal_strlit(", received ");
    reveal_strlit("Invalid input: expected string, received ");
    reveal_strlit("Invalid input: expected object, received ");
    assert("Invalid input: expected "@ + "string"@ + ", received "@
        =~= "Invalid input: expected string, received "@);
    assert("Invalid input: expected "@ + "object"@ + ", received "@
        =~= "Invalid input: expected object, received "@);
}

/// The reply refuses a login with that status and in these words, and sets no
/// cookie.
pub open spec fn refuses_login(reply: ReplyView, status: u16, words: Seq<char>) -> bool {
    &&& reply.status == status
    &&& reply.headers == seq![("Content-Type"@, "application/json"@)]
    &&& reply.body == json::compact_json(
        JsonView::Object(
            seq![("ok"@, JsonView::Bool(false)), ("message"@, JsonView::Text(words))],
        ),
    )
}

proof fn lemma_refusal(status: u16, words: Seq<char>)
    ensures
        refuses_login(ok_reply_of(status, false, Some(words)), status, words),
{
    assert(ok_members(false, Some(words)) =~= seq![
        ("ok"@, JsonView::Bool(false)),
        ("message"@, JsonView::Text(words)),
    ]);
}

/// A login opens a session exactly where the host, the origin and the content
/// type pass, a password is configured, and the body is a document whose
/// `password` is that password. The session lasts one lifetime from then on,
/// and the reply sets its cookie.
pub proof fn law_login_takes_the_password(
    ctx: &mut AppContext,
    headers: &RequestHeaders,
    body: &[u8],
    now: u64,
    bytes: &[u8; 32],
    host: Option<Seq<char>>,
    id: &str,
    cookie: String,
    r: Login,
)
    requires
        call_ensures(login_with, (ctx, headers, body, now, bytes), r),
        headers.host is Some ==> host == headers@.host,
        headers.host is None ==> host == headers@.authority,
        id@ == session::base64url(bytes@),
        call_ensures(
            session::login_cookie,
            (id, old(ctx).config.session_duration_seconds, old(ctx).config.https_only_cookies),
            cookie,
        ),
    ensures
        ({
            let config = old(ctx).config@;
            let h = headers@;
            let by_host = boundary::host_checked(host, config.allowed_hosts);
            let by_origin = boundary::origin_checked(
                AuthMethod::NoAuth,
                h.origin,
                host,
                config.allowed_origins,
            );
            let raw = boundary::header_or_empty(h.content_type);
            let is_json = boundary::lowercased(boundary::media_type(raw)) == "application/json"@;
            let passes = by_host is Ok && by_origin is Ok && is_json;
            let password = config.auth.password();
            let document = json::parsed_json(body@);
            let presented = json::member_of(document->Ok_0, "password"@);
            let right = document is Ok && password is Some && presented == Some(
                JsonView::Text(password->0),
            );
            &&& r.opened is Some <==> passes && right
            &&& r.opened matches Some(opened) ==> {
                &&& opened@ == id@
                &&& final(ctx).sessions@.live.contains(
                    (id@, (now + old(ctx).sessions@.duration) as u128),
                )
                &&& final(ctx).config == old(ctx).config
                &&& final(ctx).scheduler == old(ctx).scheduler
                &&& final(ctx).sse == old(ctx).sse
                &&& final(ctx).closing == old(ctx).closing
                &&& r.reply.status == 200
                &&& r.reply@.headers.contains(("Set-Cookie"@, cookie@))
                &&& r.reply.body@ == json::compact_json(
                    JsonView::Object(seq![("ok"@, JsonView::Bool(true))]),
                )
            }
            &&& r.opened is None ==> *final(ctx) == *old(ctx)
            &&& by_host matches Err(e) ==> r.reply@ == error_reply_of(e)
            &&& by_host is Ok && by_origin is Err ==> r.reply@ == error_reply_of(
                by_origin->Err_0,
            )
            &&& by_host is Ok && by_origin is Ok && !is_json ==> r.reply.status == 415
            &&& passes && password is None ==> refuses_login(
                r.reply@,
                500,
                "Browser login is unavailable: MOUSEHOLE_AUTH_PASSWORD is not set"@,
            )
            &&& passes && password is Some && document is Err ==> refuses_login(
                r.reply@,
                400,
                "Malformed JSON in request body"@,
            )
            &&& passes && password is Some && document is Ok && !(presented matches Some(
                JsonView::Text(_),
            )) ==> refuses_login(r.reply@, 400, "Request body must match expected schema"@)
            &&& presented matches Some(JsonView::Text(p)) ==> passes && password is Some && document
                is Ok && p != password->0 ==> refuses_login(r.reply@, 401, "Incorrect password"@)
        }),
{
    let live = final(ctx).sessions@.live;
    if r.opened is Some {
        let entry = (id@, (now + old(ctx).sessions@.duration) as u128);
        assert(live.last() == entry);
        assert(live[live.len() - 1] == entry);
        let reply = login_reply(old(ctx).config@, id@);
        assert(reply.headers[1] == ("Set-Cookie"@, cookie@));
        assert(ok_members(true, None) =~= seq![("ok"@, JsonView::Bool(true))]);
    }
    lemma_refusal(500, "Browser login is unavailable: MOUSEHOLE_AUTH_PASSWORD is not set"@);
    lemma_refusal(400, "Malformed JSON in request body"@);
    lemma_refusal(400, "Request body must match expected schema"@);
    lemma_refusal(401, "Incorrect password"@);
}

/// A login by chance is one by the bytes that were drawn: it opens a session
/// exactly where any bytes would.
pub proof fn law_login_opens_as_with_given_bytes(
    ctx: &mut AppContext,
    again: &mut AppContext,
    headers: &RequestHeaders,
    body: &[u8],
    now: u64,
    bytes: &[u8; 32],
    r: Login,
    q: Login,
)
    requires
        call_ensures(login, (ctx, headers, body, now), r),
        call_ensures(login_with, (again, headers, body, now, bytes), q),
        *old(ctx) == *old(again),
    ensures
        r.opened is Some <==> q.opened is Some,
        r.opened is None ==> r.reply@ == q.reply@ && *final(ctx) == *old(ctx),
        r.opened matches Some(id) ==> {
            &&& r.reply.status == 200
            &&& final(ctx).sessions@ == old(ctx).sessions@.after_create(id@, now)
        },
{
}

/// A logout that passes host and origin ends the session that its cookie names,
/// so that it is valid at no time any more, and clears the cookie; one that
/// does not is refused and changes nothing.
pub proof fn law_logout_ends_the_named_session(
    ctx: &mut AppContext,
    headers: &RequestHeaders,
    host: Option<Seq<char>>,
    later: u64,
    other: Seq<char>,
    r: Reply,
)
    requires
        call_ensures(logout, (ctx, headers), r),
        headers.host is Some ==> host == headers@.host,
        headers.host is None ==> host == headers@.authority,
    ensures
        ({
            let config = old(ctx).config@;
            let h = headers@;
            let by_host = boundary::host_checked(host, config.allowed_hosts);
            let by_origin = boundary::origin_checked(
                AuthMethod::NoAuth,
                h.origin,
                host,
                config.allowed_origins,
            );
            let id = session::session_id_in(h.cookie);
            &&& by_host matches Err(e) ==> r@ == error_reply_of(e) && *final(ctx) == *old(ctx)
            &&& by_host is Ok && by_origin is Err ==> r@ == error_reply_of(by_origin->Err_0)
                && *final(ctx) == *old(ctx)
            &&& by_host is Ok && by_origin is Ok ==> {
                &&& r.status == 200
                &&& r@.headers.contains(
                    ("Set-Cookie"@, "mousehole-session=; Max-Age=0; Path=/"@),
                )
                &&& final(ctx).config == old(ctx).config
                &&& final(ctx).scheduler == old(ctx).scheduler
                &&& id is Some ==> !final(ctx).sessions@.valid_at(id->0, later)
                &&& id != Some(other) ==> final(ctx).sessions@.valid_at(other, later) == old(
                    ctx,
                ).sessions@.valid_at(other, later)
            }
        }),
{
    if session::session_id_in(headers@.cookie) is Some {
        session::law_logout_ends_the_session(
            old(ctx).sessions@,
            session::session_id_in(headers@.cookie)->0,
            other,
            later,
        );
    }
    assert(logout_reply().headers[1] == (
        "Set-Cookie"@,
        "mousehole-session=; Max-Age=0; Path=/"@,
    ));
}

/// When sessions are settled, the streams of those that ended are no longer
/// registered and are to be closed; all other streams stay, and nothing that
/// was to be closed is forgotten.
pub proof fn law_settling_closes_the_streams_of_ended_sessions(ctx: &mut AppContext, stream: u64)
    requires
        call_ensures(AppContext::settle_sessions, (ctx,), ()),
    ensures
        ({
            let before = old(ctx).sse@.clients;
            let after = final(ctx).sse@.clients;
            let ended = old(ctx).sessions@.ended;
            let ends = before.contains_key(stream) && before[stream].len() > 0 && ended.contains(
                before[stream],
            );
            &&& ends ==> !after.contains_key(stream) && final(ctx).closing@.contains(stream)
            &&& !ends && before.contains_key(stream) ==> after.contains_key(stream)
                && after[stream] == before[stream]
            &&& !before.contains_key(stream) ==> !after.contains_key(stream)
            &&& old(ctx).closing@.contains(stream) ==> final(ctx).closing@.contains(stream)
            &&& final(ctx).closing@.contains(stream) ==> ends || old(ctx).closing@.contains(stream)
            &&& final(ctx).sessions@.live == old(ctx).sessions@.live
            &&& final(ctx).sessions@.ended.len() == 0
        }),
{
    let before = old(ctx).closing@;
    let after = final(ctx).closing@;
    let more = after.skip(before.len() as int);
    let closed = streams_closed(old(ctx).sse@, old(ctx).sessions@.ended);
    assert(after =~= before + more);
    if closed.contains(stream) {
        assert(more.contains(stream));
        let k = choose|k: int| 0 <= k < more.len() && more[k] == stream;
        assert(after[before.len() + k] == stream);
    }
    if before.contains(stream) {
        let k = choose|k: int| 0 <= k < before.len() && before[k] == stream;
        assert(after[k] == stream);
    }
    if after.contains(stream) && !before.contains(stream) {
        let k = choose|k: int| 0 <= k < after.len() && after[k] == stream;
        if k < before.len() {
            assert(before[k] == stream);
        } else {
            assert(more[k - before.len()] == stream);
            assert(more.contains(stream));
        }
    }
}

/// A declared length is over the limit where it is a number above 8192, and a
/// bare status is replaced where the path has no such method, or the body was
/// too large and is not yet refused in JSON.
pub proof fn law_limits_and_bare_statuses(
    content_length: Option<&str>,
    n: nat,
    over: bool,
    status: u16,
    content_type: Option<&str>,
    is_json_type: bool,
    r: Option<AppError>,
)
    requires
        call_ensures(declared_over_limit, (content_length,), over),
        call_ensures(normalize_status, (status, content_type), r),
        call_ensures(is_json, (content_type,), is_json_type),
    ensures
        content_length is None ==> !over,
        content_length matches Some(words) ==> words@ == text::decimal(n) ==> over == (n > 8192),
        is_json_type <==> (content_type matches Some(t) && "application/json"@.is_prefix_of(t@)),
        r is Some <==> status == 405 || (status == 413 && !is_json_type),
        r matches Some(e) ==> {
            &&& status == 405 ==> e.status == 404 && e@.body.error_type == "not-found"@
            &&& status == 413 ==> e.status == 413 && e@.body.error_type == "payload-too-large"@
        },
{
    text::law_numbers_are_read(n, 8192, Seq::empty());
}

/// What is logged of a request names its method, its path and its status.
pub proof fn law_access_line(method: &str, path: &str, status: u16, r: String)
    requires
        call_ensures(access_line, (method, path, status), r),
    ensures
        (method@ + " "@ + path@).is_prefix_of(r@),
        text::decimal(status as nat).is_suffix_of(r@),
{
    let front = method@ + " "@ + path@;
    let back = text::decimal(status as nat);
    assert(r@.take(front.len() as int) =~= front);
    assert(r@.subrange(r@.len() - back.len(), r@.len() as int) =~= back);
}

/// A request that is checked ends no session before its time and keeps none
/// beyond it: which sessions are valid from then on is as it was.
pub proof fn law_checks_leave_live_sessions_alone(
    config: ConfigView,
    sessions: SessionsView,
    h: HeadersView,
    now: u64,
    id: Seq<char>,
    later: u64,
)
    requires
        now <= later,
    ensures
        ({
            let after = sessions_after_stack(config, sessions, h, now);
            &&& after.valid_at(id, later) == sessions.valid_at(id, later)
            &&& after.duration == sessions.duration
            &&& sessions.ended.is_prefix_of(after.ended)
        }),
{
    session::law_no_sliding_renewal(sessions, id, now, later);
}

/// What is guarded changes nothing but what time did to the sessions: settings
/// and schedule stay, and of the sessions and streams only what was over goes.
pub proof fn law_guarded_routes_change_nothing_else(
    ctx: &mut AppContext,
    headers: &RequestHeaders,
    path: &str,
    body: &[u8],
    now: u64,
    r: Step,
    id: Seq<char>,
    later: u64,
    stream: u64,
)
    requires
        call_ensures(updates, (ctx, headers, now), r) || call_ensures(
            get_state,
            (ctx, headers, now),
            r,
        ) || call_ensures(put_cookie, (ctx, headers, path, body, now), r) || call_ensures(
            events,
            (ctx, headers, now),
            r,
        ),
        now <= later,
    ensures
        final(ctx).config == old(ctx).config,
        final(ctx).scheduler == old(ctx).scheduler,
        final(ctx).sessions@.valid_at(id, later) == old(ctx).sessions@.valid_at(id, later),
        final(ctx).sessions@.duration == old(ctx).sessions@.duration,
        old(ctx).sse@.clients.contains_key(stream) && old(ctx).sse@.clients[stream].len() == 0
            ==> final(ctx).sse@.clients.contains_key(stream),
        final(ctx).sse@.clients.contains_key(stream) ==> old(ctx).sse@.clients.contains_key(stream)
            || (r is Subscribe && stream == old(ctx).sse@.next_id),
{
    law_checks_leave_live_sessions_alone(
        old(ctx).config@,
        old(ctx).sessions@,
        headers@,
        now,
        id,
        later,
    );
}

/// A session's timer ends it and its streams where it is over by then, and else
/// nothing.
pub proof fn law_session_timer_ends_what_is_over(
    ctx: &mut AppContext,
    id: &str,
    now: u64,
    stream: u64,
)
    requires
        call_ensures(AppContext::session_timer, (ctx, id, now), ()),
        old(ctx).sessions@.ended.len() == 0,
        id@.len() > 0,
    ensures
        ({
            let live = old(ctx).sessions@.live;
            let there = exists|i: int| 0 <= i < live.len() && (#[trigger] live[i]).0 == id@;
            let goes_on = exists|i: int|
                0 <= i < live.len() && (#[trigger] live[i]).0 == id@ && live[i].1 > now;
            let before = old(ctx).sse@.clients;
            let after = final(ctx).sse@.clients;
            &&& there && !goes_on ==> !session::known(final(ctx).sessions@.live, id@)
            &&& there && !goes_on && before.contains_key(stream) && before[stream] == id@
                ==> !after.contains_key(stream)
            &&& !there || goes_on ==> final(ctx).sessions@.live == live && after.contains_key(
                stream,
            ) == before.contains_key(stream)
            &&& before.contains_key(stream) && before[stream] != id@ ==> after.contains_key(stream)
        }),
{
    let sessions = old(ctx).sessions@;
    session::lemma_going_on(sessions.live, id@, now);
    session::law_logout_ends_the_session(sessions, id@, id@, now);
    let reaped = sessions.after_reap(id@, now);
    let none = Seq::<Seq<char>>::empty();
    assert(sessions.ended =~= none);
    if session::known(sessions.live, id@) && !session::known(
        session::going_on(sessions.live, now),
        id@,
    ) {
        assert(reaped.ended =~= seq![id@]);
        assert(reaped.ended[0] == id@);
        session::lemma_logged_out_is_unknown(sessions, id@);
    } else {
        assert(reaped.ended =~= none);
    }
}

/// The streams to be closed are handed out once, and nothing else changes.
pub proof fn law_closing_is_handed_out_once(ctx: &mut AppContext, r: Vec<u64>)
    requires
        call_ensures(AppContext::take_closing, (ctx,), r),
    ensures
        r@ == old(ctx).closing@,
        final(ctx).closing@.len() == 0,
        final(ctx).sessions == old(ctx).sessions,
        final(ctx).sse == old(ctx).sse,
{
}

} // verus!
