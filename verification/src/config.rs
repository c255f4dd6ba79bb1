//! Configuration from environment variables, built once at startup: any value
//! that does not fit is an error before the listener binds, and the process
//! refuses to start rather than run half-configured. The error strings are
//! user-facing; do not reword them.

use crate::logger::LogLevel;
use crate::logger;
use crate::number;
use crate::number::Double;
use crate::numeral;
use crate::text;
use vstd::arithmetic::power2::*;
use vstd::prelude::*;

verus! {

/// Environment variables by name. A name set again keeps its last value.
pub struct Environment {
    entries: Vec<(String, String)>,
}

spec fn entries_map(entries: Seq<(String, String)>) -> Map<Seq<char>, Seq<char>>
    decreases entries.len(),
{
    if entries.len() == 0 {
        Map::empty()
    } else {
        entries_map(entries.drop_last()).insert(entries.last().0@, entries.last().1@)
    }
}

impl View for Environment {
    type V = Map<Seq<char>, Seq<char>>;

    closed spec fn view(&self) -> Map<Seq<char>, Seq<char>> {
        entries_map(self.entries@)
    }
}

impl Environment {
    pub fn new() -> (r: Self)
        ensures
            r@ == Map::<Seq<char>, Seq<char>>::empty(),
    {
        Environment { entries: Vec::new() }
    }

    pub fn insert(&mut self, name: &str, value: &str)
        ensures
            final(self)@ == old(self)@.insert(name@, value@),
    {
        self.entries.push((name.to_owned(), value.to_owned()));
        assert(self.entries@.drop_last() =~= old(self).entries@);
    }

    pub fn get(&self, name: &str) -> (r: Option<&str>)
        ensures
            r.deep_view() == if self@.contains_key(name@) {
                Some(self@[name@])
            } else {
                None
            },
    {
        let mut i: usize = self.entries.len();
        assert(self.entries@.take(i as int) =~= self.entries@);
        while i > 0
            invariant
                i <= self.entries.len(),
                self@.contains_key(name@) == entries_map(
                    self.entries@.take(i as int),
                ).contains_key(name@),
                self@.contains_key(name@) ==> self@[name@] == entries_map(
                    self.entries@.take(i as int),
                )[name@],
            decreases i,
        {
            let ghost upto = self.entries@.take(i as int);
            assert(upto.drop_last() =~= self.entries@.take(i - 1));
            let entry = &self.entries[i - 1];
            if text::same_text(&entry.0, name) {
                return Some(entry.1.as_str());
            }
            i = i - 1;
        }
        None
    }
}

/// A credential. It has no `Debug`, so that it cannot leak through logs.
pub struct Secret(String);

impl View for Secret {
    type V = Seq<char>;

    closed spec fn view(&self) -> Seq<char> {
        self.0@
    }
}

impl DeepView for Secret {
    type V = Seq<char>;

    open spec fn deep_view(&self) -> Seq<char> {
        self@
    }
}

impl Secret {
    fn new(value: &str) -> (r: Self)
        ensures
            r@ == value@,
    {
        Secret(value.to_owned())
    }

    pub fn as_str(&self) -> (r: &str)
        ensures
            r@ == self@,
    {
        self.0.as_str()
    }

    pub fn as_bytes(&self) -> (r: &[u8])
        ensures
            r@ == vstd::utf8::encode_utf8(self@),
    {
        self.0.as_str().as_bytes()
    }
}

pub enum AuthConfig {
    /// At least one of the two is there.
    Configured { password: Option<Secret>, token: Option<Secret> },
    NoAuth { insecure_allow_no_auth: bool },
}

pub enum AuthView {
    Configured { password: Option<Seq<char>>, token: Option<Seq<char>> },
    NoAuth { insecure_allow_no_auth: bool },
}

impl View for AuthConfig {
    type V = AuthView;

    open spec fn view(&self) -> AuthView {
        match self {
            AuthConfig::Configured { password, token } => AuthView::Configured {
                password: password.deep_view(),
                token: token.deep_view(),
            },
            AuthConfig::NoAuth { insecure_allow_no_auth } => AuthView::NoAuth {
                insecure_allow_no_auth: *insecure_allow_no_auth,
            },
        }
    }
}

impl AuthView {
    /// Configured means that there is a credential.
    pub open spec fn valid(self) -> bool {
        self matches AuthView::Configured { password, token } ==> password is Some || token is Some
    }

    pub open spec fn password(self) -> Option<Seq<char>> {
        match self {
            AuthView::Configured { password, .. } => password,
            AuthView::NoAuth { .. } => None,
        }
    }

    pub open spec fn token(self) -> Option<Seq<char>> {
        match self {
            AuthView::Configured { token, .. } => token,
            AuthView::NoAuth { .. } => None,
        }
    }
}

impl AuthConfig {
    pub fn is_configured(&self) -> (r: bool)
        ensures
            r == (self@ is Configured),
    {
        match self {
            AuthConfig::Configured { .. } => true,
            AuthConfig::NoAuth { .. } => false,
        }
    }

    pub fn password(&self) -> (r: Option<&Secret>)
        ensures
            r.deep_view() == self@.password(),
    {
        match self {
            AuthConfig::Configured { password, .. } => match password {
                Some(p) => Some(p),
                None => None,
            },
            AuthConfig::NoAuth { .. } => None,
        }
    }

    pub fn token(&self) -> (r: Option<&Secret>)
        ensures
            r.deep_view() == self@.token(),
    {
        match self {
            AuthConfig::Configured { token, .. } => match token {
                Some(t) => Some(t),
                None => None,
            },
            AuthConfig::NoAuth { .. } => None,
        }
    }
}

#[derive(Debug)]
pub enum AllowedHosts {
    All,
    Allowlist(Vec<String>),
}

pub enum AllowedHostsView {
    All,
    Allowlist(Seq<Seq<char>>),
}

impl View for AllowedHosts {
    type V = AllowedHostsView;

    open spec fn view(&self) -> AllowedHostsView {
        match self {
            AllowedHosts::All => AllowedHostsView::All,
            AllowedHosts::Allowlist(hosts) => AllowedHostsView::Allowlist(hosts.deep_view()),
        }
    }
}

#[derive(Debug)]
pub enum AllowedOrigins {
    SameOrigin,
    All,
    Allowlist(Vec<String>),
}

pub enum AllowedOriginsView {
    SameOrigin,
    All,
    Allowlist(Seq<Seq<char>>),
}

impl View for AllowedOrigins {
    type V = AllowedOriginsView;

    open spec fn view(&self) -> AllowedOriginsView {
        match self {
            AllowedOrigins::SameOrigin => AllowedOriginsView::SameOrigin,
            AllowedOrigins::All => AllowedOriginsView::All,
            AllowedOrigins::Allowlist(origins) => AllowedOriginsView::Allowlist(
                origins.deep_view(),
            ),
        }
    }
}

pub struct Config {
    pub log_level: LogLevel,
    pub state_dir_path: String,
    pub update_interval_seconds: Double,
    pub mam_request_timeout_seconds: Double,
    pub session_duration_seconds: u64,
    pub port: u16,
    pub https_only_cookies: bool,
    pub auth: AuthConfig,
    pub allowed_hosts: AllowedHosts,
    pub allowed_origins: AllowedOrigins,
}

#[verifier::ext_equal]
pub struct ConfigView {
    pub log_level: LogLevel,
    pub state_dir_path: Seq<char>,
    pub update_interval_seconds: Double,
    pub mam_request_timeout_seconds: Double,
    pub session_duration_seconds: u64,
    pub port: u16,
    pub https_only_cookies: bool,
    pub auth: AuthView,
    pub allowed_hosts: AllowedHostsView,
    pub allowed_origins: AllowedOriginsView,
}

impl View for Config {
    type V = ConfigView;

    open spec fn view(&self) -> ConfigView {
        ConfigView {
            log_level: self.log_level,
            state_dir_path: self.state_dir_path@,
            update_interval_seconds: self.update_interval_seconds,
            mam_request_timeout_seconds: self.mam_request_timeout_seconds,
            session_duration_seconds: self.session_duration_seconds,
            port: self.port,
            https_only_cookies: self.https_only_cookies,
            auth: self.auth@,
            allowed_hosts: self.allowed_hosts@,
            allowed_origins: self.allowed_origins@,
        }
    }
}

#[derive(Debug)]
pub struct ConfigError(pub String);

impl View for ConfigError {
    type V = Seq<char>;

    open spec fn view(&self) -> Seq<char> {
        self.0@
    }
}

/// A result of this module, by the views of what it holds.
pub open spec fn viewed<T: View>(r: Result<T, ConfigError>) -> Result<T::V, Seq<char>> {
    match r {
        Ok(value) => Ok(value@),
        Err(e) => Err(e@),
    }
}

// What a variable says.
pub open spec fn invalid_value(name: Seq<char>, raw: Seq<char>, message: Seq<char>) -> Seq<char> {
    "Invalid environment variable "@ + name + "=\""@ + raw + "\": "@ + message
}

/// A variable's value without surrounding white space; one that is nothing but
/// white space counts as unset.
pub open spec fn env_value(env: Map<Seq<char>, Seq<char>>, name: Seq<char>) -> Option<Seq<char>> {
    if env.contains_key(name) && text::trimmed(env[name]).len() > 0 {
        Some(text::trimmed(env[name]))
    } else {
        None
    }
}

pub open spec fn bool_flag(env: Map<Seq<char>, Seq<char>>, name: Seq<char>) -> Result<
    bool,
    Seq<char>,
> {
    match env_value(env, name) {
        None => Ok(false),
        Some(raw) => if raw == "true"@ {
            Ok(true)
        } else if raw == "false"@ {
            Ok(false)
        } else {
            Err(invalid_value(name, raw, "must be \"true\" or \"false\""@))
        },
    }
}

/// A number above zero. `reading` is what the value says as a double, if it
/// says one.
pub open spec fn positive_number(
    env: Map<Seq<char>, Seq<char>>,
    name: Seq<char>,
    reading: Option<Double>,
    default: Double,
) -> Result<Double, Seq<char>> {
    match env_value(env, name) {
        None => Ok(default),
        Some(raw) => match reading {
            None => Err(
                invalid_value(name, raw, "Invalid input: expected number, received NaN"@),
            ),
            Some(n) => if n.nan() {
                Err(invalid_value(name, raw, "Invalid input: expected number, received NaN"@))
            } else if n.finite() && n.scaled() > 0 {
                Ok(n)
            } else {
                Err(invalid_value(name, raw, "Too small: expected number to be >0"@))
            },
        },
    }
}

/// A whole number above zero, however it is written. Beyond the range of `u64`
/// there is none; just at its edge, where doubles are coarse, the largest.
pub open spec fn positive_int(
    env: Map<Seq<char>, Seq<char>>,
    name: Seq<char>,
    reading: Option<Double>,
    default: u64,
) -> Result<u64, Seq<char>> {
    match env_value(env, name) {
        None => Ok(default),
        Some(raw) => {
            let not_a_number = Err(
                invalid_value(name, raw, "Invalid input: expected number, received NaN"@),
            );
            match reading {
                None => not_a_number,
                Some(n) => if !n.finite() || n.scaled() > 0x1_0000_0000_0000_0000
                    * number::unit() {
                    not_a_number
                } else if !n.whole() {
                    Err(invalid_value(name, raw, "Invalid input: expected int, received number"@))
                } else if n.scaled() <= 0 {
                    Err(invalid_value(name, raw, "Too small: expected number to be >0"@))
                } else if n.scaled() / (number::unit() as int) <= u64::MAX {
                    Ok((n.scaled() / (number::unit() as int)) as u64)
                } else {
                    Ok(u64::MAX)
                },
            }
        },
    }
}

/// A port: a whole number from 1 to 65535, however it is written.
pub open spec fn port_number(
    env: Map<Seq<char>, Seq<char>>,
    name: Seq<char>,
    reading: Option<Double>,
    default: u16,
) -> Result<u16, Seq<char>> {
    match env_value(env, name) {
        None => Ok(default),
        Some(raw) => {
            let not_a_number = Err(
                invalid_value(name, raw, "Invalid input: expected number, received NaN"@),
            );
            match reading {
                None => not_a_number,
                Some(n) => if !n.finite() {
                    not_a_number
                } else if !n.whole() {
                    Err(invalid_value(name, raw, "Invalid input: expected int, received number"@))
                } else if n.scaled() < number::unit() {
                    Err(invalid_value(name, raw, "Too small: expected number to be >=1"@))
                } else if n.scaled() > 65535 * number::unit() {
                    Err(invalid_value(name, raw, "Too big: expected number to be <=65535"@))
                } else {
                    Ok((n.scaled() / (number::unit() as int)) as u16)
                },
            }
        },
    }
}

/// A credential. Where a file is named for it, the plain variable is ignored
/// altogether: the file's trimmed contents count, none if they are empty, and
/// a file that cannot be read is an error. `file` is what reading it gave.
pub open spec fn secret_value(
    env: Map<Seq<char>, Seq<char>>,
    name: Seq<char>,
    file: Result<Seq<char>, Seq<char>>,
) -> Result<Option<Seq<char>>, Seq<char>> {
    let file_var = name + "_FILE"@;
    match env_value(env, file_var) {
        None => Ok(env_value(env, name)),
        Some(path) => match file {
            Err(reason) => Err(
                "Invalid environment variable "@ + file_var + "=\""@ + path
                    + "\": could not read file ("@ + reason + ")"@,
            ),
            Ok(contents) => if text::trimmed(contents).len() > 0 {
                Ok(Some(text::trimmed(contents)))
            } else {
                Ok(None)
            },
        },
    }
}

pub open spec fn auth_of(
    password: Option<Seq<char>>,
    token: Option<Seq<char>>,
    insecure_allow_no_auth: bool,
) -> Result<AuthView, Seq<char>> {
    if insecure_allow_no_auth && (password is Some || token is Some) {
        let credential = if password is Some {
            "MOUSEHOLE_AUTH_PASSWORD"@
        } else {
            "MOUSEHOLE_AUTH_TOKEN"@
        };
        Err(
            "MOUSEHOLE_INSECURE_ALLOW_NO_AUTH=true cannot be combined with "@ + credential
                + ": turning off authentication and configuring a credential are mutually exclusive. Unset one of them."@,
        )
    } else if password is Some || token is Some {
        Ok(AuthView::Configured { password, token })
    } else {
        Ok(AuthView::NoAuth { insecure_allow_no_auth })
    }
}

/// The entries of a comma-separated list, trimmed, without the empty ones.
pub open spec fn csv_entries(raw: Seq<char>) -> Seq<Seq<char>> {
    text::split_at_each(raw, ',').map_values(|s: Seq<char>| text::trimmed(s)).filter(
        |s: Seq<char>| s.len() > 0,
    )
}

pub open spec fn hosts_of(env: Map<Seq<char>, Seq<char>>) -> Result<AllowedHostsView, Seq<char>> {
    match env_value(env, "MOUSEHOLE_ALLOWED_HOSTS"@) {
        None => Ok(
            AllowedHostsView::Allowlist(seq!["localhost"@, "127.0.0.1"@, "[::1]"@]),
        ),
        Some(raw) => if raw == "*"@ {
            Ok(AllowedHostsView::All)
        } else if csv_entries(raw).len() == 0 {
            Err(
                "Invalid environment variable MOUSEHOLE_ALLOWED_HOSTS: must not be empty; use * to allow all hosts"@,
            )
        } else {
            Ok(AllowedHostsView::Allowlist(csv_entries(raw)))
        },
    }
}

pub open spec fn origins_of(env: Map<Seq<char>, Seq<char>>) -> Result<
    AllowedOriginsView,
    Seq<char>,
> {
    match env_value(env, "MOUSEHOLE_ALLOWED_ORIGINS"@) {
        None => Ok(AllowedOriginsView::SameOrigin),
        Some(raw) => if raw == "*"@ {
            Ok(AllowedOriginsView::All)
        } else if csv_entries(raw).len() == 0 {
            Err(
                "Invalid environment variable MOUSEHOLE_ALLOWED_ORIGINS: must not be empty; use * to allow all origins"@,
            )
        } else {
            Ok(AllowedOriginsView::Allowlist(csv_entries(raw)))
        },
    }
}

pub open spec fn level_of(env: Map<Seq<char>, Seq<char>>) -> Result<LogLevel, Seq<char>> {
    match env_value(env, "MOUSEHOLE_LOG_LEVEL"@) {
        None => Ok(LogLevel::Info),
        Some(raw) => match logger::named_level(raw) {
            Some(level) => Ok(level),
            None => Err(
                invalid_value(
                    "MOUSEHOLE_LOG_LEVEL"@,
                    raw,
                    "must be one of debug, info, warn, error"@,
                ),
            ),
        },
    }
}

/// What the world outside says about the variables: the doubles that the
/// numeric ones spell, and the contents of the secret files. A reading counts
/// only where its variable is set.
pub struct Readings {
    pub update_interval: Option<Double>,
    pub request_timeout: Option<Double>,
    pub session_duration: Option<Double>,
    pub port: Option<Double>,
    pub password_file: Result<String, String>,
    pub token_file: Result<String, String>,
}

pub struct ReadingsView {
    pub update_interval: Option<Double>,
    pub request_timeout: Option<Double>,
    pub session_duration: Option<Double>,
    pub port: Option<Double>,
    pub password_file: Result<Seq<char>, Seq<char>>,
    pub token_file: Result<Seq<char>, Seq<char>>,
}

pub open spec fn file_view(file: Result<String, String>) -> Result<Seq<char>, Seq<char>> {
    match file {
        Ok(contents) => Ok(contents@),
        Err(reason) => Err(reason@),
    }
}

impl View for Readings {
    type V = ReadingsView;

    open spec fn view(&self) -> ReadingsView {
        ReadingsView {
            update_interval: self.update_interval,
            request_timeout: self.request_timeout,
            session_duration: self.session_duration,
            port: self.port,
            password_file: file_view(self.password_file),
            token_file: file_view(self.token_file),
        }
    }
}

/// Three hundred seconds.
pub open spec fn default_interval() -> Double {
    Double { bits: 0x4072_C000_0000_0000 }
}

/// Ten seconds.
pub open spec fn default_timeout() -> Double {
    Double { bits: 0x4024_0000_0000_0000 }
}

/// The authentication that the variables ask for: both credentials first, then
/// how they go together with the opt-out.
pub open spec fn resolved_auth(
    env: Map<Seq<char>, Seq<char>>,
    readings: ReadingsView,
    insecure_allow_no_auth: bool,
) -> Result<AuthView, Seq<char>> {
    match secret_value(env, "MOUSEHOLE_AUTH_PASSWORD"@, readings.password_file) {
        Err(e) => Err(e),
        Ok(password) => match secret_value(env, "MOUSEHOLE_AUTH_TOKEN"@, readings.token_file) {
            Err(e) => Err(e),
            Ok(token) => auth_of(password, token, insecure_allow_no_auth),
        },
    }
}

/// The configuration that the variables say, or the first complaint.
pub open spec fn config_of(env: Map<Seq<char>, Seq<char>>, readings: ReadingsView) -> Result<
    ConfigView,
    Seq<char>,
> {
    let level = level_of(env);
    let interval = positive_number(
        env,
        "MOUSEHOLE_UPDATE_INTERVAL_SECONDS"@,
        readings.update_interval,
        default_interval(),
    );
    let timeout = positive_number(
        env,
        "MOUSEHOLE_MAM_REQUEST_TIMEOUT_SECONDS"@,
        readings.request_timeout,
        default_timeout(),
    );
    let session = positive_int(
        env,
        "MOUSEHOLE_SESSION_DURATION_SECONDS"@,
        readings.session_duration,
        604_800,
    );
    let port = port_number(env, "MOUSEHOLE_PORT"@, readings.port, 5010);
    let https_only = bool_flag(env, "MOUSEHOLE_HTTPS_ONLY_COOKIES"@);
    let insecure = bool_flag(env, "MOUSEHOLE_INSECURE_ALLOW_NO_AUTH"@);
    if level is Err {
        Err(level->Err_0)
    } else if interval is Err {
        Err(interval->Err_0)
    } else if timeout is Err {
        Err(timeout->Err_0)
    } else if session is Err {
        Err(session->Err_0)
    } else if port is Err {
        Err(port->Err_0)
    } else if https_only is Err {
        Err(https_only->Err_0)
    } else if insecure is Err {
        Err(insecure->Err_0)
    } else if resolved_auth(env, readings, insecure->Ok_0) is Err {
        Err(resolved_auth(env, readings, insecure->Ok_0)->Err_0)
    } else if hosts_of(env) is Err {
        Err(hosts_of(env)->Err_0)
    } else if origins_of(env) is Err {
        Err(origins_of(env)->Err_0)
    } else {
        Ok(
            ConfigView {
                log_level: level->Ok_0,
                state_dir_path: match env_value(env, "MOUSEHOLE_STATE_DIR_PATH"@) {
                    Some(path) => path,
                    None => "/var/lib/mousehole"@,
                },
                update_interval_seconds: interval->Ok_0,
                mam_request_timeout_seconds: timeout->Ok_0,
                session_duration_seconds: session->Ok_0,
                port: port->Ok_0,
                https_only_cookies: https_only->Ok_0,
                auth: resolved_auth(env, readings, insecure->Ok_0)->Ok_0,
                allowed_hosts: hosts_of(env)->Ok_0,
                allowed_origins: origins_of(env)->Ok_0,
            },
        )
    }
}

fn invalid(name: &str, raw: &str, message: &str) -> (r: ConfigError)
    ensures
        r@ == invalid_value(name@, raw@, message@),
{
    ConfigError(
        "Invalid environment variable ".to_owned().concat(name).concat("=\"").concat(raw).concat(
            "\": ",
        ).concat(message),
    )
}

/// Trimmed read; empty or whitespace-only is identical to unset.
pub fn get_env<'a>(env: &'a Environment, name: &str) -> (r: Option<&'a str>)
    ensures
        r.deep_view() == env_value(env@, name@),
{
    match env.get(name) {
        None => None,
        Some(raw) => {
            let value = text::trim(raw);
            if value.unicode_len() > 0 {
                Some(value)
            } else {
                None
            }
        },
    }
}

pub fn parse_bool_flag(env: &Environment, name: &str) -> (r: Result<bool, ConfigError>)
    ensures
        viewed(r) == bool_flag(env@, name@),
{
    match get_env(env, name) {
        None => Ok(false),
        Some(raw) => if text::same_text(raw, "true") {
            Ok(true)
        } else if text::same_text(raw, "false") {
            Ok(false)
        } else {
            Err(invalid(name, raw, "must be \"true\" or \"false\""))
        },
    }
}

pub fn parse_positive_number(
    env: &Environment,
    name: &str,
    reading: Option<Double>,
    default: Double,
) -> (r: Result<Double, ConfigError>)
    ensures
        match r {
            Ok(n) => positive_number(env@, name@, reading, default) == Ok::<Double, Seq<char>>(n),
            Err(e) => positive_number(env@, name@, reading, default) == Err::<Double, Seq<char>>(e@),
        },
{
    match get_env(env, name) {
        None => Ok(default),
        Some(raw) => match reading {
            None => Err(invalid(name, raw, "Invalid input: expected number, received NaN")),
            Some(n) => if n.is_nan() {
                Err(invalid(name, raw, "Invalid input: expected number, received NaN"))
            } else if n.is_finite() && n.is_positive() {
                Ok(n)
            } else {
                Err(invalid(name, raw, "Too small: expected number to be >0"))
            },
        },
    }
}

pub fn parse_positive_int(
    env: &Environment,
    name: &str,
    reading: Option<Double>,
    default: u64,
) -> (r: Result<u64, ConfigError>)
    ensures
        viewed(r) == positive_int(env@, name@, reading, default),
{
    match get_env(env, name) {
        None => Ok(default),
        Some(raw) => match reading {
            None => Err(invalid(name, raw, "Invalid input: expected number, received NaN")),
            Some(n) => if !n.is_finite() || n.exceeds(0x1_0000_0000_0000_0000) {
                Err(invalid(name, raw, "Invalid input: expected number, received NaN"))
            } else if !n.is_whole() {
                Err(invalid(name, raw, "Invalid input: expected int, received number"))
            } else if !n.is_positive() {
                Err(invalid(name, raw, "Too small: expected number to be >0"))
            } else {
                Ok(n.whole_part())
            },
        },
    }
}

pub fn parse_port(env: &Environment, name: &str, reading: Option<Double>, default: u16) -> (r:
    Result<u16, ConfigError>)
    ensures
        viewed(r) == port_number(env@, name@, reading, default),
{
    match get_env(env, name) {
        None => Ok(default),
        Some(raw) => match reading {
            None => Err(invalid(name, raw, "Invalid input: expected number, received NaN")),
            Some(n) => if !n.is_finite() {
                Err(invalid(name, raw, "Invalid input: expected number, received NaN"))
            } else if !n.is_whole() {
                Err(invalid(name, raw, "Invalid input: expected int, received number"))
            } else if n.below_one() {
                Err(invalid(name, raw, "Too small: expected number to be >=1"))
            } else if n.exceeds(65535) {
                Err(invalid(name, raw, "Too big: expected number to be <=65535"))
            } else {
                let whole: u64 = n.whole_part();
                proof {
                    number::lemma_at_most(n.scaled(), 65535);
                }
                Ok(whole as u16)
            },
        },
    }
}


/// A credential, from its variable or from the file named for it. `file` is
/// what reading that file gave, if one is named.
pub fn resolve_secret(env: &Environment, name: &str, file: &Result<String, String>) -> (r: Result<
    Option<Secret>,
    ConfigError,
>)
    ensures
        match r {
            Ok(secret) => secret_value(env@, name@, file_view(*file)) == Ok::<
                Option<Seq<char>>,
                Seq<char>,
            >(secret.deep_view()),
            Err(e) => secret_value(env@, name@, file_view(*file)) == Err::<
                Option<Seq<char>>,
                Seq<char>,
            >(e@),
        },
{
    let file_var = name.to_owned().concat("_FILE");
    match get_env(env, &file_var) {
        None => match get_env(env, name) {
            Some(value) => Ok(Some(Secret::new(value))),
            None => Ok(None),
        },
        Some(path) => match file {
            Err(reason) => Err(
                ConfigError(
                    "Invalid environment variable ".to_owned().concat(&file_var).concat(
                        "=\"",
                    ).concat(path).concat("\": could not read file (").concat(reason).concat(")"),
                ),
            ),
            Ok(contents) => {
                let value = text::trim(contents);
                if value.unicode_len() > 0 {
                    Ok(Some(Secret::new(value)))
                } else {
                    Ok(None)
                }
            },
        },
    }
}

/// Credentials and the opt-out exclude each other; what is configured has a
/// credential.
pub fn resolve_auth_config(
    password: Option<Secret>,
    token: Option<Secret>,
    insecure_allow_no_auth: bool,
) -> (r: Result<AuthConfig, ConfigError>)
    ensures
        viewed(r) == auth_of(password.deep_view(), token.deep_view(), insecure_allow_no_auth),
        r matches Ok(auth) ==> auth@.valid(),
{
    if insecure_allow_no_auth && (password.is_some() || token.is_some()) {
        let credential = if password.is_some() {
            "MOUSEHOLE_AUTH_PASSWORD"
        } else {
            "MOUSEHOLE_AUTH_TOKEN"
        };
        return Err(
            ConfigError(
                "MOUSEHOLE_INSECURE_ALLOW_NO_AUTH=true cannot be combined with ".to_owned().concat(
                    credential,
                ).concat(
                    ": turning off authentication and configuring a credential are mutually exclusive. Unset one of them.",
                ),
            ),
        );
    }
    if password.is_some() || token.is_some() {
        Ok(AuthConfig::Configured { password, token })
    } else {
        Ok(AuthConfig::NoAuth { insecure_allow_no_auth })
    }
}

/// The entries of a comma-separated list; none where the value is `*`.
pub fn parse_csv_or_all(raw: &str) -> (r: Option<Vec<String>>)
    ensures
        r.deep_view() == if raw@ == "*"@ {
            None
        } else {
            Some(csv_entries(raw@))
        },
{
    if text::same_text(raw, "*") {
        return None;
    }
    let pieces = text::split(raw, ',');
    let ghost trims = text::split_at_each(raw@, ',').map_values(|s: Seq<char>| text::trimmed(s));
    let ghost keep = |s: Seq<char>| s.len() > 0;
    let mut out: Vec<String> = Vec::new();
    let mut i: usize = 0;
    assert(out.deep_view() =~= Seq::empty());
    assert(trims.take(0).filter(keep) =~= Seq::empty()) by {
        reveal(Seq::filter);
    }
    while i < pieces.len()
        invariant
            i <= pieces.len(),
            trims.len() == pieces.len(),
            forall|k: int| 0 <= k < trims.len() ==> #[trigger] trims[k] == text::trimmed(pieces@[k]@),
            keep == (|s: Seq<char>| s.len() > 0),
            out.deep_view() == trims.take(i as int).filter(keep),
        decreases pieces.len() - i,
    {
        let piece = text::trim(&pieces[i]);
        let ghost before = out.deep_view();
        proof {
            reveal(Seq::filter);
            assert(trims.take(i + 1).drop_last() =~= trims.take(i as int));
            assert(trims.take(i + 1).last() == trims[i as int]);
        }
        if piece.unicode_len() > 0 {
            out.push(piece.to_owned());
            assert(out.deep_view() =~= before.push(piece@));
        }
        i = i + 1;
    }
    assert(trims.take(i as int) =~= trims);
    Some(out)
}

fn resolve_hosts(env: &Environment) -> (r: Result<AllowedHosts, ConfigError>)
    ensures
        viewed(r) == hosts_of(env@),
{
    match get_env(env, "MOUSEHOLE_ALLOWED_HOSTS") {
        None => {
            let mut hosts: Vec<String> = Vec::new();
            hosts.push("localhost".to_owned());
            hosts.push("127.0.0.1".to_owned());
            hosts.push("[::1]".to_owned());
            assert(hosts.deep_view() =~= seq!["localhost"@, "127.0.0.1"@, "[::1]"@]);
            Ok(AllowedHosts::Allowlist(hosts))
        },
        Some(raw) => match parse_csv_or_all(raw) {
            None => Ok(AllowedHosts::All),
            Some(hosts) => {
                assert(hosts.deep_view().len() == hosts.len());
                if hosts.len() == 0 {
                    Err(
                        ConfigError(
                            "Invalid environment variable MOUSEHOLE_ALLOWED_HOSTS: must not be empty; use * to allow all hosts".to_owned(),
                        ),
                    )
                } else {
                    Ok(AllowedHosts::Allowlist(hosts))
                }
            },
        },
    }
}

fn resolve_origins(env: &Environment) -> (r: Result<AllowedOrigins, ConfigError>)
    ensures
        viewed(r) == origins_of(env@),
{
    match get_env(env, "MOUSEHOLE_ALLOWED_ORIGINS") {
        None => Ok(AllowedOrigins::SameOrigin),
        Some(raw) => match parse_csv_or_all(raw) {
            None => Ok(AllowedOrigins::All),
            Some(origins) => {
                assert(origins.deep_view().len() == origins.len());
                if origins.len() == 0 {
                    Err(
                        ConfigError(
                            "Invalid environment variable MOUSEHOLE_ALLOWED_ORIGINS: must not be empty; use * to allow all origins".to_owned(),
                        ),
                    )
                } else {
                    Ok(AllowedOrigins::Allowlist(origins))
                }
            },
        },
    }
}

fn resolve_level(env: &Environment) -> (r: Result<LogLevel, ConfigError>)
    ensures
        match r {
            Ok(level) => level_of(env@) == Ok::<LogLevel, Seq<char>>(level),
            Err(e) => level_of(env@) == Err::<LogLevel, Seq<char>>(e@),
        },
{
    match get_env(env, "MOUSEHOLE_LOG_LEVEL") {
        None => Ok(LogLevel::Info),
        Some(raw) => match LogLevel::parse(raw) {
            Some(level) => Ok(level),
            None => Err(
                invalid("MOUSEHOLE_LOG_LEVEL", raw, "must be one of debug, info, warn, error"),
            ),
        },
    }
}

/// What a variable may mean as a number, to a reader of decimal numbers.
pub open spec fn number_read<N: Fn(&str) -> Option<Double>>(
    env: Map<Seq<char>, Seq<char>>,
    name: Seq<char>,
    reader: N,
    reading: Option<Double>,
) -> bool {
    env_value(env, name) matches Some(raw) ==> numeral::may_mean(raw, reader, reading)
}

/// What a reader of files may have said of the file that a variable names.
pub open spec fn file_read<R: Fn(&str) -> Result<String, String>>(
    env: Map<Seq<char>, Seq<char>>,
    name: Seq<char>,
    reader: R,
    reading: Result<Seq<char>, Seq<char>>,
) -> bool {
    env_value(env, name) matches Some(path) ==> exists|t: &str, file: Result<String, String>|
        t@ == path && file_view(file) == reading && #[trigger] reader.ensures((t,), file)
}

/// The readings are what the two readers may have said of the variables.
pub open spec fn readings_from<
    R: Fn(&str) -> Result<String, String>,
    N: Fn(&str) -> Option<Double>,
>(
    env: Map<Seq<char>, Seq<char>>,
    read_file: R,
    read_number: N,
    readings: ReadingsView,
) -> bool {
    &&& number_read(
        env,
        "MOUSEHOLE_UPDATE_INTERVAL_SECONDS"@,
        read_number,
        readings.update_interval,
    )
    &&& number_read(
        env,
        "MOUSEHOLE_MAM_REQUEST_TIMEOUT_SECONDS"@,
        read_number,
        readings.request_timeout,
    )
    &&& number_read(
        env,
        "MOUSEHOLE_SESSION_DURATION_SECONDS"@,
        read_number,
        readings.session_duration,
    )
    &&& number_read(env, "MOUSEHOLE_PORT"@, read_number, readings.port)
    &&& file_read(
        env,
        "MOUSEHOLE_AUTH_PASSWORD_FILE"@,
        read_file,
        readings.password_file,
    )
    &&& file_read(env, "MOUSEHOLE_AUTH_TOKEN_FILE"@, read_file, readings.token_file)
}

fn ask_number<N: Fn(&str) -> Option<Double>>(env: &Environment, name: &str, reader: &N) -> (r:
    Option<Double>)
    requires
        forall|t: &str| reader.requires((t,)),
    ensures
        number_read(env@, name@, *reader, r),
{
    match get_env(env, name) {
        Some(raw) => numeral::meaning(raw, reader),
        None => None,
    }
}

fn ask_file<R: Fn(&str) -> Result<String, String>>(env: &Environment, name: &str, reader: &R) -> (r:
    Result<String, String>)
    requires
        forall|t: &str| reader.requires((t,)),
    ensures
        file_read(env@, name@, *reader, file_view(r)),
{
    match get_env(env, name) {
        Some(path) => {
            let r = reader(path);
            assert(path@ == path@ && file_view(r) == file_view(r) && reader.ensures((path,), r));
            r
        },
        None => Err(String::new()),
    }
}

impl Config {
    /// The configuration that the environment says. The two readers are the
    /// world outside: `read_file` gives a file's text or the reason why not,
    /// and `read_number` the double nearest to a decimal number. Each is asked
    /// only of a variable that is set.
    pub fn from_env<R: Fn(&str) -> Result<String, String>, N: Fn(&str) -> Option<Double>>(
        env: &Environment,
        read_file: R,
        read_number: N,
    ) -> (r: Result<Self, ConfigError>)
        requires
            forall|t: &str| read_file.requires((t,)),
            forall|t: &str| read_number.requires((t,)),
        ensures
            exists|readings: ReadingsView|
                readings_from(env@, read_file, read_number, readings) && viewed(r) == config_of(
                    env@,
                    readings,
                ),
            r matches Ok(config) ==> config@.auth.valid(),
    {
        let readings = Readings {
            update_interval: ask_number(env, "MOUSEHOLE_UPDATE_INTERVAL_SECONDS", &read_number),
            request_timeout: ask_number(
                env,
                "MOUSEHOLE_MAM_REQUEST_TIMEOUT_SECONDS",
                &read_number,
            ),
            session_duration: ask_number(env, "MOUSEHOLE_SESSION_DURATION_SECONDS", &read_number),
            port: ask_number(env, "MOUSEHOLE_PORT", &read_number),
            password_file: ask_file(env, "MOUSEHOLE_AUTH_PASSWORD_FILE", &read_file),
            token_file: ask_file(env, "MOUSEHOLE_AUTH_TOKEN_FILE", &read_file),
        };
        let r = Config::from_readings(env, &readings);
        assert(readings_from(env@, read_file, read_number, readings@) && viewed(r) == config_of(
            env@,
            readings@,
        ));
        r
    }

    /// The configuration that the environment says, given what the world
    /// outside said of it.
    pub fn from_readings(env: &Environment, readings: &Readings) -> (r: Result<Self, ConfigError>)
        ensures
            viewed(r) == config_of(env@, readings@),
            r matches Ok(config) ==> config@.auth.valid(),
    {
        let log_level = match resolve_level(env) {
            Ok(level) => level,
            Err(e) => {
                return Err(e);
            },
        };
        let state_dir_path = match get_env(env, "MOUSEHOLE_STATE_DIR_PATH") {
            Some(path) => path.to_owned(),
            None => "/var/lib/mousehole".to_owned(),
        };
        let update_interval_seconds = match parse_positive_number(
            env,
            "MOUSEHOLE_UPDATE_INTERVAL_SECONDS",
            readings.update_interval,
            Double { bits: 0x4072_C000_0000_0000 },
        ) {
            Ok(n) => n,
            Err(e) => {
                return Err(e);
            },
        };
        let mam_request_timeout_seconds = match parse_positive_number(
            env,
            "MOUSEHOLE_MAM_REQUEST_TIMEOUT_SECONDS",
            readings.request_timeout,
            Double { bits: 0x4024_0000_0000_0000 },
        ) {
            Ok(n) => n,
            Err(e) => {
                return Err(e);
            },
        };
        let session_duration_seconds: u64 = match parse_positive_int(
            env,
            "MOUSEHOLE_SESSION_DURATION_SECONDS",
            readings.session_duration,
            604_800,
        ) {
            Ok(n) => n,
            Err(e) => {
                return Err(e);
            },
        };
        let port: u16 = match parse_port(env, "MOUSEHOLE_PORT", readings.port, 5010) {
            Ok(n) => n,
            Err(e) => {
                return Err(e);
            },
        };
        let https_only_cookies = match parse_bool_flag(env, "MOUSEHOLE_HTTPS_ONLY_COOKIES") {
            Ok(flag) => flag,
            Err(e) => {
                return Err(e);
            },
        };
        let insecure_allow_no_auth = match parse_bool_flag(
            env,
            "MOUSEHOLE_INSECURE_ALLOW_NO_AUTH",
        ) {
            Ok(flag) => flag,
            Err(e) => {
                return Err(e);
            },
        };
        let password = match resolve_secret(
            env,
            "MOUSEHOLE_AUTH_PASSWORD",
            &readings.password_file,
        ) {
            Ok(secret) => secret,
            Err(e) => {
                return Err(e);
            },
        };
        let token = match resolve_secret(env, "MOUSEHOLE_AUTH_TOKEN", &readings.token_file) {
            Ok(secret) => secret,
            Err(e) => {
                return Err(e);
            },
        };
        let auth = match resolve_auth_config(password, token, insecure_allow_no_auth) {
            Ok(auth) => auth,
            Err(e) => {
                return Err(e);
            },
        };
        let allowed_hosts = match resolve_hosts(env) {
            Ok(hosts) => hosts,
            Err(e) => {
                return Err(e);
            },
        };
        let allowed_origins = match resolve_origins(env) {
            Ok(origins) => origins,
            Err(e) => {
                return Err(e);
            },
        };
        Ok(
            Config {
                log_level,
                state_dir_path,
                update_interval_seconds,
                mam_request_timeout_seconds,
                session_duration_seconds,
                port,
                https_only_cookies,
                auth,
                allowed_hosts,
                allowed_origins,
            },
        )
    }
}

// Startup checks.
/// What is said at startup of settings that let more through than most setups
/// need.
pub open spec fn security_warnings(config: ConfigView) -> Seq<Seq<char>> {
    let hosts = if config.allowed_hosts is All {
        seq![
            "MOUSEHOLE_ALLOWED_HOSTS allows any Host header. This is less secure and almost always avoidable. Set it to your specific host(s) or IP(s)."@,
        ]
    } else {
        Seq::empty()
    };
    let origins = if config.allowed_origins is All {
        seq![
            "MOUSEHOLE_ALLOWED_ORIGINS allows any Origin Header for cross-origin requests. This is less secure and almost always avoidable. Set it to your specific allowed origins."@,
        ]
    } else {
        Seq::empty()
    };
    let auth = match config.auth {
        AuthView::Configured { password: None, token: Some(_) } => seq![
            "Browser login will be unavailable. Set MOUSEHOLE_AUTH_PASSWORD to enable it."@,
        ],
        AuthView::NoAuth { insecure_allow_no_auth: true } => seq![
            "Running without authentication (MOUSEHOLE_INSECURE_ALLOW_NO_AUTH=true). Do not expose Mousehole to mixed-trust LAN, VPN, or public interfaces."@,
        ],
        _ => Seq::empty(),
    };
    hosts + origins + auth
}

/// Without a credential, and without the opt-out, the server does not run.
pub open spec fn security_verdict(config: ConfigView) -> Result<(), Seq<char>> {
    if config.auth == (AuthView::NoAuth { insecure_allow_no_auth: false }) {
        Err(
            "Mousehole authentication is not configured. Set MOUSEHOLE_AUTH_PASSWORD and/or MOUSEHOLE_AUTH_TOKEN, or set MOUSEHOLE_INSECURE_ALLOW_NO_AUTH=true to opt out."@,
        )
    } else {
        Ok(())
    }
}

/// The warnings to log, in order, and whether the server may run.
pub fn validate_runtime_security_config(config: &Config) -> (r: (
    Vec<String>,
    Result<(), ConfigError>,
))
    ensures
        r.0.deep_view() == security_warnings(config@),
        viewed(r.1) == security_verdict(config@),
{
    let mut warnings: Vec<String> = Vec::new();
    if let AllowedHosts::All = &config.allowed_hosts {
        warnings.push(
            "MOUSEHOLE_ALLOWED_HOSTS allows any Host header. This is less secure and almost always avoidable. Set it to your specific host(s) or IP(s).".to_owned(),
        );
    }
    if let AllowedOrigins::All = &config.allowed_origins {
        warnings.push(
            "MOUSEHOLE_ALLOWED_ORIGINS allows any Origin Header for cross-origin requests. This is less secure and almost always avoidable. Set it to your specific allowed origins.".to_owned(),
        );
    }
    let verdict = match &config.auth {
        AuthConfig::Configured { password: None, token: Some(_) } => {
            warnings.push(
                "Browser login will be unavailable. Set MOUSEHOLE_AUTH_PASSWORD to enable it.".to_owned(),
            );
            Ok(())
        },
        AuthConfig::Configured { .. } => Ok(()),
        AuthConfig::NoAuth { insecure_allow_no_auth } => if *insecure_allow_no_auth {
            warnings.push(
                "Running without authentication (MOUSEHOLE_INSECURE_ALLOW_NO_AUTH=true). Do not expose Mousehole to mixed-trust LAN, VPN, or public interfaces.".to_owned(),
            );
            Ok(())
        } else {
            Err(
                ConfigError(
                    "Mousehole authentication is not configured. Set MOUSEHOLE_AUTH_PASSWORD and/or MOUSEHOLE_AUTH_TOKEN, or set MOUSEHOLE_INSECURE_ALLOW_NO_AUTH=true to opt out.".to_owned(),
                ),
            )
        },
    };
    assert(warnings.deep_view() =~= security_warnings(config@));
    (warnings, verdict)
}

// Laws.
/// With nothing set, a contact comes every three hundred seconds and waits ten
/// for its answer, sessions last a week, the server listens on port 5010 for
/// requests to the machine itself and from its own pages, and it does not run,
/// since no credential is configured.
pub proof fn law_defaults(env: Map<Seq<char>, Seq<char>>, readings: ReadingsView)
    requires
        forall|name: Seq<char>| #[trigger] env_value(env, name) is None,
    ensures
        config_of(env, readings) matches Ok(config) && {
            &&& config.log_level == LogLevel::Info
            &&& config.state_dir_path == "/var/lib/mousehole"@
            &&& config.update_interval_seconds.scaled() == 300 * number::unit()
            &&& config.mam_request_timeout_seconds.scaled() == 10 * number::unit()
            &&& config.session_duration_seconds == 7 * 24 * 60 * 60
            &&& config.port == 5010
            &&& !config.https_only_cookies
            &&& config.allowed_hosts == AllowedHostsView::Allowlist(
                seq!["localhost"@, "127.0.0.1"@, "[::1]"@],
            )
            &&& config.allowed_origins == AllowedOriginsView::SameOrigin
            &&& security_verdict(config) is Err
        },
{
    lemma2_to64_rest();
    number::lemma_whole_double(default_interval(), 300, 44);
    number::lemma_whole_double(default_timeout(), 10, 49);
}

/// A configuration that resolves never turns authentication off beside a
/// credential, and calls itself configured only with one.
pub proof fn law_auth_is_resolved_soundly(
    env: Map<Seq<char>, Seq<char>>,
    readings: ReadingsView,
)
    ensures
        config_of(env, readings) matches Ok(config) ==> {
            &&& config.auth.valid()
            &&& bool_flag(env, "MOUSEHOLE_INSECURE_ALLOW_NO_AUTH"@) == Ok::<bool, Seq<char>>(true)
                ==> config.auth == (AuthView::NoAuth { insecure_allow_no_auth: true })
        },
{
}

/// Where a file is named for a credential, the plain variable has no say.
pub proof fn law_secret_file_takes_precedence(
    env: Map<Seq<char>, Seq<char>>,
    name: Seq<char>,
    plain: Seq<char>,
    file: Result<Seq<char>, Seq<char>>,
)
    requires
        env_value(env, name + "_FILE"@) is Some,
    ensures
        secret_value(env.insert(name, plain), name, file) == secret_value(env, name, file),
        secret_value(env, name, file) is Ok <==> file is Ok,
{
    reveal_strlit("_FILE");
    assert((name + "_FILE"@).len() == name.len() + 5);
}

/// Of the environment, only trimmed values count: where two environments have
/// the same ones, the same readings serve both, and give the same
/// configuration or the same complaint.
pub proof fn law_only_trimmed_values_count<
    R: Fn(&str) -> Result<String, String>,
    N: Fn(&str) -> Option<Double>,
>(
    one: Map<Seq<char>, Seq<char>>,
    other: Map<Seq<char>, Seq<char>>,
    read_file: R,
    read_number: N,
    readings: ReadingsView,
)
    requires
        forall|name: Seq<char>| #[trigger] env_value(one, name) == env_value(other, name),
    ensures
        readings_from(one, read_file, read_number, readings) == readings_from(
            other,
            read_file,
            read_number,
            readings,
        ),
        config_of(one, readings) == config_of(other, readings),
{
}

/// A variable of nothing but white space is as good as none, to itself, to the
/// readers and to the whole configuration.
pub proof fn law_blank_is_unset<
    R: Fn(&str) -> Result<String, String>,
    N: Fn(&str) -> Option<Double>,
>(
    env: Map<Seq<char>, Seq<char>>,
    name: Seq<char>,
    blank: Seq<char>,
    read_file: R,
    read_number: N,
    readings: ReadingsView,
)
    requires
        forall|i: int| 0 <= i < blank.len() ==> text::is_white_space(#[trigger] blank[i]),
    ensures
        env_value(env.insert(name, blank), name) is None,
        readings_from(env.insert(name, blank), read_file, read_number, readings) == readings_from(
            env.remove(name),
            read_file,
            read_number,
            readings,
        ),
        config_of(env.insert(name, blank), readings) == config_of(env.remove(name), readings),
{
    text::lemma_blank_trims_to_nothing(blank);
    law_only_trimmed_values_count(
        env.insert(name, blank),
        env.remove(name),
        read_file,
        read_number,
        readings,
    );
}

/// A server that passed the startup check asks for a credential, or was told
/// not to.
pub proof fn law_running_server_is_protected_or_opted_out(
    env: Map<Seq<char>, Seq<char>>,
    readings: ReadingsView,
)
    ensures
        config_of(env, readings) matches Ok(config) ==> security_verdict(config) is Ok ==> {
            ||| config.auth.password() is Some
            ||| config.auth.token() is Some
            ||| bool_flag(env, "MOUSEHOLE_INSECURE_ALLOW_NO_AUTH"@) == Ok::<bool, Seq<char>>(true)
        },
{
}

/// A variable says a value where that, and not nothing, is left of it when white
/// space is trimmed off; else it says nothing.
pub proof fn law_variable_says_its_trimmed_value(env: &Environment, name: &str, r: Option<&str>)
    requires
        call_ensures(get_env, (env, name), r),
    ensures
        env_value(env@, name@) == r.deep_view(),
        !env@.contains_key(name@) ==> r is None,
        env@.contains_key(name@) ==> {
            &&& r is Some <==> text::trimmed(env@[name@]).len() > 0
            &&& r matches Some(value) ==> value@ == text::trimmed(env@[name@])
        },
{
}

/// A variable that was set is read as it was set last, and setting it changes
/// no other.
pub proof fn law_last_setting_counts(
    env: &mut Environment,
    after: &Environment,
    before: &Environment,
    name: &str,
    value: &str,
    other: &str,
    r: Option<&str>,
    q: Option<&str>,
)
    requires
        call_ensures(Environment::insert, (env, name, value), ()),
        *before == *old(env),
        *after == *final(env),
        call_ensures(Environment::get, (after, other), r),
        call_ensures(Environment::get, (before, other), q),
    ensures
        name@ == other@ ==> r.deep_view() == Some(value@),
        name@ != other@ ==> r.deep_view() == q.deep_view(),
{
}

/// The state lies in the directory that its variable says, and only where the
/// variable says nothing in the default one.
pub proof fn law_state_directory_is_the_configured_one(
    env: &Environment,
    readings: &Readings,
    r: Result<Config, ConfigError>,
)
    requires
        call_ensures(Config::from_readings, (env, readings), r),
    ensures
        r matches Ok(config) ==> {
            let name = "MOUSEHOLE_STATE_DIR_PATH"@;
            let said = text::trimmed(env@[name]);
            &&& env@.contains_key(name) && said.len() > 0 ==> config.state_dir_path@ == said
            &&& !env@.contains_key(name) || said.len() == 0 ==> config.state_dir_path@
                == "/var/lib/mousehole"@
        },
{
}

/// Numbers are taken as they were read: a duration is the number that its
/// variable spells, which is above zero, a lifetime and a port are such whole
/// numbers, a port up to 65535. A variable that says nothing leaves the default.
pub proof fn law_numbers_are_taken_as_read(
    env: &Environment,
    readings: &Readings,
    r: Result<Config, ConfigError>,
)
    requires
        call_ensures(Config::from_readings, (env, readings), r),
    ensures
        r matches Ok(config) ==> {
            let interval = env_value(env@, "MOUSEHOLE_UPDATE_INTERVAL_SECONDS"@);
            let timeout = env_value(env@, "MOUSEHOLE_MAM_REQUEST_TIMEOUT_SECONDS"@);
            let session = env_value(env@, "MOUSEHOLE_SESSION_DURATION_SECONDS"@);
            let port = env_value(env@, "MOUSEHOLE_PORT"@);
            &&& interval is None ==> config.update_interval_seconds.scaled() == 300
                * number::unit()
            &&& interval is Some ==> readings.update_interval == Some(
                config.update_interval_seconds,
            )
            &&& config.update_interval_seconds.finite()
            &&& config.update_interval_seconds.scaled() > 0
            &&& timeout is None ==> config.mam_request_timeout_seconds.scaled() == 10
                * number::unit()
            &&& timeout is Some ==> readings.request_timeout == Some(
                config.mam_request_timeout_seconds,
            )
            &&& config.mam_request_timeout_seconds.finite()
            &&& config.mam_request_timeout_seconds.scaled() > 0
            &&& session is None ==> config.session_duration_seconds == 7 * 24 * 60 * 60
            &&& session is Some ==> readings.session_duration is Some && (
            readings.session_duration->0.scaled() == config.session_duration_seconds
                * number::unit() || (config.session_duration_seconds == u64::MAX
                && readings.session_duration->0.scaled() == 0x1_0000_0000_0000_0000
                * number::unit()))
            &&& config.session_duration_seconds > 0
            &&& port is None ==> config.port == 5010
            &&& port is Some ==> readings.port is Some && readings.port->0.scaled() == config.port
                * number::unit()
            &&& config.port > 0
        },
{
    lemma2_to64_rest();
    lemma_pow2_pos(1074);
    number::lemma_whole_double(default_interval(), 300, 44);
    number::lemma_whole_double(default_timeout(), 10, 49);
    let unit = number::unit() as int;
    assert(300 * unit > 0 && 10 * unit > 0) by (nonlinear_arith)
        requires
            unit > 0,
    ;
    if r is Ok {
        if env_value(env@, "MOUSEHOLE_SESSION_DURATION_SECONDS"@) is Some {
            lemma_whole_is_multiple(readings.session_duration->0);
            number::lemma_at_most_or_none(
                readings.session_duration->0.scaled(),
                0x1_0000_0000_0000_0000,
            );
        }
        if env_value(env@, "MOUSEHOLE_PORT"@) is Some {
            lemma_whole_is_multiple(readings.port->0);
            number::lemma_at_most(readings.port->0.scaled(), 65535);
        }
    }
}

proof fn lemma_whole_is_multiple(n: Double)
    requires
        n.whole(),
    ensures
        n.scaled() == (n.scaled() / (number::unit() as int)) * number::unit(),
        n.scaled() > 0 ==> n.scaled() / (number::unit() as int) > 0,
{
    lemma_pow2_pos(1074);
    let (a, d) = (n.scaled(), number::unit() as int);
    vstd::arithmetic::div_mod::lemma_fundamental_div_mod(a, d);
    assert(d * (a / d) == (a / d) * d) by (nonlinear_arith);
    if a > 0 && a / d <= 0 {
        assert((a / d) * d <= 0) by (nonlinear_arith)
            requires
                a / d <= 0,
                d > 0,
        ;
    }
}

/// Switches and the log level are what their variables say, and off, or `info`,
/// where they say nothing.
pub proof fn law_switches_are_as_said(
    env: &Environment,
    readings: &Readings,
    r: Result<Config, ConfigError>,
)
    requires
        call_ensures(Config::from_readings, (env, readings), r),
    ensures
        r matches Ok(config) ==> {
            let https = env_value(env@, "MOUSEHOLE_HTTPS_ONLY_COOKIES"@);
            let insecure = env_value(env@, "MOUSEHOLE_INSECURE_ALLOW_NO_AUTH"@);
            let level = env_value(env@, "MOUSEHOLE_LOG_LEVEL"@);
            &&& config.https_only_cookies <==> https == Some("true"@)
            &&& https is Some && https != Some("true"@) ==> https == Some("false"@)
            &&& insecure is Some && insecure != Some("true"@) ==> insecure == Some("false"@)
            &&& config.auth@ is NoAuth ==> config.auth@->insecure_allow_no_auth == (insecure
                == Some("true"@))
            &&& level is None ==> config.log_level == LogLevel::Info
            &&& level is Some ==> logger::named_level(level->0) == Some(config.log_level)
        },
{
    reveal_strlit("true");
    reveal_strlit("false");
    assert("true"@.len() == 4 && "false"@.len() == 5);
}

/// A credential is what its file holds, trimmed, where one is named, and else
/// what its variable says. With any credential the server asks for it, with
/// none it does not, and with one it was not told that it need not.
pub proof fn law_credentials_are_as_said(
    env: &Environment,
    readings: &Readings,
    r: Result<Config, ConfigError>,
)
    requires
        call_ensures(Config::from_readings, (env, readings), r),
    ensures
        r matches Ok(config) ==> {
            let password = env_value(env@, "MOUSEHOLE_AUTH_PASSWORD"@);
            let password_file = env_value(env@, "MOUSEHOLE_AUTH_PASSWORD_FILE"@);
            let token = env_value(env@, "MOUSEHOLE_AUTH_TOKEN"@);
            let token_file = env_value(env@, "MOUSEHOLE_AUTH_TOKEN_FILE"@);
            let auth = config.auth@;
            &&& password_file is None ==> auth.password() == password
            &&& token_file is None ==> auth.token() == token
            &&& password_file is Some ==> readings.password_file is Ok && auth.password() == unless_empty(
                text::trimmed(readings.password_file->Ok_0@),
            )
            &&& token_file is Some ==> readings.token_file is Ok && auth.token() == unless_empty(
                text::trimmed(readings.token_file->Ok_0@),
            )
            &&& auth is Configured <==> auth.password() is Some || auth.token() is Some
            &&& auth is Configured ==> env_value(env@, "MOUSEHOLE_INSECURE_ALLOW_NO_AUTH"@) != Some(
                "true"@,
            )
        },
{
    reveal_strlit("_FILE");
    reveal_strlit("MOUSEHOLE_AUTH_PASSWORD");
    reveal_strlit("MOUSEHOLE_AUTH_PASSWORD_FILE");
    reveal_strlit("MOUSEHOLE_AUTH_TOKEN");
    reveal_strlit("MOUSEHOLE_AUTH_TOKEN_FILE");
    reveal_strlit("true");
    reveal_strlit("false");
    assert("true"@.len() == 4 && "false"@.len() == 5);
    assert("MOUSEHOLE_AUTH_PASSWORD"@ + "_FILE"@ =~= "MOUSEHOLE_AUTH_PASSWORD_FILE"@);
    assert("MOUSEHOLE_AUTH_TOKEN"@ + "_FILE"@ =~= "MOUSEHOLE_AUTH_TOKEN_FILE"@);
}

/// A text, unless it is empty.
pub open spec fn unless_empty(s: Seq<char>) -> Option<Seq<char>> {
    if s.len() > 0 {
        Some(s)
    } else {
        None
    }
}

/// The hosts and origins that are let through are the entries of their lists,
/// all where a list is a star, and where nothing is said the machine itself and
/// the server's own pages. A list without entries is refused.
pub proof fn law_lists_are_as_said(
    env: &Environment,
    readings: &Readings,
    r: Result<Config, ConfigError>,
)
    requires
        call_ensures(Config::from_readings, (env, readings), r),
    ensures
        r matches Ok(config) ==> {
            let hosts = env_value(env@, "MOUSEHOLE_ALLOWED_HOSTS"@);
            let origins = env_value(env@, "MOUSEHOLE_ALLOWED_ORIGINS"@);
            &&& hosts is None ==> config@.allowed_hosts == AllowedHostsView::Allowlist(
                seq!["localhost"@, "127.0.0.1"@, "[::1]"@],
            )
            &&& config@.allowed_hosts is All <==> hosts == Some("*"@)
            &&& hosts is Some && hosts != Some("*"@) ==> config@.allowed_hosts
                == AllowedHostsView::Allowlist(csv_entries(hosts->0)) && csv_entries(
                hosts->0,
            ).len() > 0
            &&& config@.allowed_origins is SameOrigin <==> origins is None
            &&& config@.allowed_origins is All <==> origins == Some("*"@)
            &&& origins is Some && origins != Some("*"@) ==> config@.allowed_origins
                == AllowedOriginsView::Allowlist(csv_entries(origins->0)) && csv_entries(
                origins->0,
            ).len() > 0
        },
{
}

/// The entries of a list are those before a comma and those behind it, in
/// order; without a comma there is one, trimmed, or none where that is empty.
pub proof fn law_entries_stand_between_commas(a: Seq<char>, b: Seq<char>)
    ensures
        csv_entries(a + seq![','] + b) == csv_entries(a) + csv_entries(b),
        !a.contains(',') && text::trimmed(a).len() > 0 ==> csv_entries(a) == seq![text::trimmed(a)],
        !a.contains(',') && text::trimmed(a).len() == 0 ==> csv_entries(a).len() == 0,
{
    let trims = |s: Seq<char>| text::trimmed(s);
    let keep = |s: Seq<char>| s.len() > 0;
    let (x, y) = (text::split_at_each(a, ','), text::split_at_each(b, ','));
    text::lemma_split_around(a, ',', b);
    assert((x + y).map_values(trims) =~= x.map_values(trims) + y.map_values(trims));
    Seq::filter_distributes_over_add(x.map_values(trims), y.map_values(trims), keep);
    if !a.contains(',') {
        text::lemma_split_one(a, ',');
        assert(x.map_values(trims) =~= seq![text::trimmed(a)]);
        reveal(Seq::filter);
        assert(seq![text::trimmed(a)].drop_last() =~= Seq::empty());
        assert(Seq::<Seq<char>>::empty().filter(keep) =~= Seq::empty());
        if text::trimmed(a).len() > 0 {
            assert(csv_entries(a) =~= seq![text::trimmed(a)]);
        }
    }
}

/// A list is read as its entries, unless it is a star.
pub proof fn law_star_is_no_list(raw: &str, r: Option<Vec<String>>)
    requires
        call_ensures(parse_csv_or_all, (raw,), r),
    ensures
        r is None <==> raw@ == "*"@,
        r matches Some(entries) ==> entries.deep_view() == csv_entries(raw@),
{
}

/// A configuration resolves exactly where every variable that says something
/// says something that fits.
pub proof fn law_fitting_values_resolve(
    env: &Environment,
    readings: &Readings,
    r: Result<Config, ConfigError>,
)
    requires
        call_ensures(Config::from_readings, (env, readings), r),
    ensures
        ({
            let level = env_value(env@, "MOUSEHOLE_LOG_LEVEL"@);
            let https = env_value(env@, "MOUSEHOLE_HTTPS_ONLY_COOKIES"@);
            let insecure = env_value(env@, "MOUSEHOLE_INSECURE_ALLOW_NO_AUTH"@);
            let hosts = env_value(env@, "MOUSEHOLE_ALLOWED_HOSTS"@);
            let origins = env_value(env@, "MOUSEHOLE_ALLOWED_ORIGINS"@);
            let password_file = env_value(env@, "MOUSEHOLE_AUTH_PASSWORD_FILE"@);
            let token_file = env_value(env@, "MOUSEHOLE_AUTH_TOKEN_FILE"@);
            let password = if password_file is Some {
                unless_empty(text::trimmed(readings.password_file->Ok_0@))
            } else {
                env_value(env@, "MOUSEHOLE_AUTH_PASSWORD"@)
            };
            let token = if token_file is Some {
                unless_empty(text::trimmed(readings.token_file->Ok_0@))
            } else {
                env_value(env@, "MOUSEHOLE_AUTH_TOKEN"@)
            };
            r is Ok <==> {
                &&& level is Some ==> logger::named_level(level->0) is Some
                &&& env_value(env@, "MOUSEHOLE_UPDATE_INTERVAL_SECONDS"@) is Some ==> above_zero(
                    readings.update_interval,
                )
                &&& env_value(env@, "MOUSEHOLE_MAM_REQUEST_TIMEOUT_SECONDS"@) is Some ==> above_zero(
                    readings.request_timeout,
                )
                &&& env_value(env@, "MOUSEHOLE_SESSION_DURATION_SECONDS"@) is Some ==> above_zero(
                    readings.session_duration,
                ) && readings.session_duration->0.whole() && readings.session_duration->0.scaled()
                    <= 0x1_0000_0000_0000_0000 * number::unit()
                &&& env_value(env@, "MOUSEHOLE_PORT"@) is Some ==> above_zero(readings.port)
                    && readings.port->0.whole() && number::unit() <= readings.port->0.scaled()
                    <= 65535 * number::unit()
                &&& https is None || https == Some("true"@) || https == Some("false"@)
                &&& insecure is None || insecure == Some("true"@) || insecure == Some("false"@)
                &&& password_file is Some ==> readings.password_file is Ok
                &&& token_file is Some ==> readings.token_file is Ok
                &&& insecure == Some("true"@) ==> password is None && token is None
                &&& hosts is None || hosts == Some("*"@) || csv_entries(hosts->0).len() > 0
                &&& origins is None || origins == Some("*"@) || csv_entries(origins->0).len() > 0
            }
        }),
{
    lemma_pow2_pos(1074);
    reveal_strlit("_FILE");
    reveal_strlit("MOUSEHOLE_AUTH_PASSWORD");
    reveal_strlit("MOUSEHOLE_AUTH_PASSWORD_FILE");
    reveal_strlit("MOUSEHOLE_AUTH_TOKEN");
    reveal_strlit("MOUSEHOLE_AUTH_TOKEN_FILE");
    reveal_strlit("true");
    reveal_strlit("false");
    assert("true"@.len() == 4 && "false"@.len() == 5);
    assert("MOUSEHOLE_AUTH_PASSWORD"@ + "_FILE"@ =~= "MOUSEHOLE_AUTH_PASSWORD_FILE"@);
    assert("MOUSEHOLE_AUTH_TOKEN"@ + "_FILE"@ =~= "MOUSEHOLE_AUTH_TOKEN_FILE"@);
}

/// The reading is a number above zero, and not an infinity.
pub open spec fn above_zero(reading: Option<Double>) -> bool {
    reading matches Some(n) && n.finite() && n.scaled() > 0
}

/// What a complaint about a variable begins with: the variable and what it says.
pub open spec fn complains_of(e: Seq<char>, name: Seq<char>, raw: Seq<char>) -> bool {
    ("Invalid environment variable "@ + name + "=\""@ + raw + "\": "@).is_prefix_of(e)
}

/// A switch is on where it says so, off where it says so or nothing, and what
/// says anything else is complained of by name.
pub proof fn law_switch_is_true_or_false(
    env: &Environment,
    name: &str,
    r: Result<bool, ConfigError>,
)
    requires
        call_ensures(parse_bool_flag, (env, name), r),
    ensures
        ({
            let said = env_value(env@, name@);
            &&& said is None ==> r == Ok::<bool, ConfigError>(false)
            &&& said == Some("true"@) ==> r == Ok::<bool, ConfigError>(true)
            &&& said == Some("false"@) ==> r == Ok::<bool, ConfigError>(false)
            &&& said is Some && said != Some("true"@) && said != Some("false"@) ==> r is Err
                && complains_of(r->Err_0@, name@, said->0) && "must be \"true\" or \"false\""@.is_suffix_of(
                r->Err_0@,
            )
        }),
{
    reveal_strlit("true");
    reveal_strlit("false");
    assert("true"@.len() == 4 && "false"@.len() == 5);
    let front = "Invalid environment variable "@ + name@ + "=\""@ + env_value(env@, name@)->0
        + "\": "@;
    if r is Err {
        assert(r->Err_0@.take(front.len() as int) =~= front);
        lemma_ends_in(front, "must be \"true\" or \"false\""@);
    }
}

proof fn lemma_ends_in(front: Seq<char>, words: Seq<char>)
    ensures
        words.is_suffix_of(front + words),
{
    let all = front + words;
    assert(all.subrange(all.len() - words.len(), all.len() as int) =~= words);
}

/// A number is the default where its variable says nothing, and else what was
/// read, where that is above zero; anything else is complained of by name.
pub proof fn law_number_is_the_reading_or_the_default(
    env: &Environment,
    name: &str,
    reading: Option<Double>,
    default: Double,
    r: Result<Double, ConfigError>,
)
    requires
        call_ensures(parse_positive_number, (env, name, reading, default), r),
    ensures
        ({
            let said = env_value(env@, name@);
            &&& said is None ==> r == Ok::<Double, ConfigError>(default)
            &&& said is Some && above_zero(reading) ==> r == Ok::<Double, ConfigError>(reading->0)
            &&& said is Some && !above_zero(reading) ==> r is Err && complains_of(
                r->Err_0@,
                name@,
                said->0,
            )
            &&& said is Some && (reading is None || reading->0.nan())
                ==> "received NaN"@.is_suffix_of(r->Err_0@)
            &&& said is Some && reading is Some && !reading->0.nan() && !above_zero(reading)
                ==> "expected number to be >0"@.is_suffix_of(r->Err_0@)
        }),
{
    let front = "Invalid environment variable "@ + name@ + "=\""@ + env_value(env@, name@)->0
        + "\": "@;
    if r is Err {
        assert(r->Err_0@.take(front.len() as int) =~= front);
        lemma_number_words(front);
    }
}

proof fn lemma_number_words(front: Seq<char>)
    ensures
        "received NaN"@.is_suffix_of(front + "Invalid input: expected number, received NaN"@),
        "expected number to be >0"@.is_suffix_of(front + "Too small: expected number to be >0"@),
        "expected int, received number"@.is_suffix_of(
            front + "Invalid input: expected int, received number"@,
        ),
        "expected number to be >=1"@.is_suffix_of(front + "Too small: expected number to be >=1"@),
        "expected number to be <=65535"@.is_suffix_of(
            front + "Too big: expected number to be <=65535"@,
        ),
{
    reveal_strlit("received NaN");
    reveal_strlit("Invalid input: expected number, received NaN");
    reveal_strlit("expected number to be >0");
    reveal_strlit("Too small: expected number to be >0");
    reveal_strlit("expected int, received number");
    reveal_strlit("Invalid input: expected int, received number");
    reveal_strlit("expected number to be >=1");
    reveal_strlit("Too small: expected number to be >=1");
    reveal_strlit("expected number to be <=65535");
    reveal_strlit("Too big: expected number to be <=65535");
    lemma_suffix(front, "Invalid input: expected number, received NaN"@, "received NaN"@);
    lemma_suffix(front, "Too small: expected number to be >0"@, "expected number to be >0"@);
    lemma_suffix(
        front,
        "Invalid input: expected int, received number"@,
        "expected int, received number"@,
    );
    lemma_suffix(front, "Too small: expected number to be >=1"@, "expected number to be >=1"@);
    lemma_suffix(
        front,
        "Too big: expected number to be <=65535"@,
        "expected number to be <=65535"@,
    );
}

proof fn lemma_suffix(front: Seq<char>, words: Seq<char>, end: Seq<char>)
    requires
        end.len() <= words.len(),
        forall|i: int|
            0 <= i < end.len() ==> #[trigger] end[i] == words[words.len() - end.len() + i],
    ensures
        end.is_suffix_of(front + words),
{
    let all = front + words;
    assert(all.subrange(all.len() - end.len(), all.len() as int) =~= end);
}

/// A whole number and a port are the default where their variable says nothing,
/// and else the whole number that was read, where it is one in range; anything
/// else is complained of by name.
pub proof fn law_whole_number_is_the_reading_or_the_default(
    env: &Environment,
    name: &str,
    reading: Option<Double>,
    value: u64,
    default: u64,
    default_port: u16,
    r: Result<u64, ConfigError>,
    port: Result<u16, ConfigError>,
)
    requires
        call_ensures(parse_positive_int, (env, name, reading, default), r),
        call_ensures(parse_port, (env, name, reading, default_port), port),
    ensures
        ({
            let said = env_value(env@, name@);
            &&& said is None ==> r == Ok::<u64, ConfigError>(default) && port == Ok::<
                u16,
                ConfigError,
            >(default_port)
            &&& said is Some && reading is Some && reading->0.finite() && reading->0.scaled()
                == value * number::unit() ==> {
                &&& value > 0 ==> r == Ok::<u64, ConfigError>(value)
                &&& value == 0 ==> r is Err
                &&& 1 <= value <= 65535 ==> port == Ok::<u16, ConfigError>(value as u16)
                &&& value == 0 || value > 65535 ==> port is Err
            }
            &&& said is Some && (reading is None || !reading->0.finite() || !reading->0.whole()
                || reading->0.scaled() <= 0) ==> r is Err && port is Err
            &&& r is Err ==> said is Some && complains_of(r->Err_0@, name@, said->0)
            &&& port is Err ==> said is Some && complains_of(port->Err_0@, name@, said->0)
            &&& said is Some && (reading is None || !reading->0.finite())
                ==> "received NaN"@.is_suffix_of(r->Err_0@) && "received NaN"@.is_suffix_of(
                port->Err_0@,
            )
            &&& said is Some && reading is Some && reading->0.finite() && !reading->0.whole() ==> {
                &&& "expected int, received number"@.is_suffix_of(port->Err_0@)
                &&& reading->0.scaled() <= 0 ==> "expected int, received number"@.is_suffix_of(
                    r->Err_0@,
                )
            }
            &&& said is Some && reading is Some && reading->0.finite() && reading->0.whole()
                && reading->0.scaled() <= 0 ==> {
                &&& "expected number to be >0"@.is_suffix_of(r->Err_0@)
                &&& "expected number to be >=1"@.is_suffix_of(port->Err_0@)
            }
            &&& said is Some && reading is Some && reading->0.finite() && reading->0.whole()
                && reading->0.scaled() > 65535 * number::unit()
                ==> "expected number to be <=65535"@.is_suffix_of(port->Err_0@)
        }),
{
    lemma_pow2_pos(1074);
    let unit = number::unit() as int;
    let front = "Invalid environment variable "@ + name@ + "=\""@ + env_value(env@, name@)->0
        + "\": "@;
    if r is Err {
        assert(r->Err_0@.take(front.len() as int) =~= front);
    }
    if port is Err {
        assert(port->Err_0@.take(front.len() as int) =~= front);
    }
    lemma_number_words(front);
    if reading is Some && reading->0.scaled() == value * number::unit() {
        let a = reading->0.scaled();
        vstd::arithmetic::div_mod::lemma_fundamental_div_mod_converse(a, unit, value as int, 0);
        assert(value * unit <= 0x1_0000_0000_0000_0000 * unit) by (nonlinear_arith)
            requires
                value <= 0x1_0000_0000_0000_0000,
                unit > 0,
        ;
        assert(value > 0 ==> value * unit >= unit) by (nonlinear_arith)
            requires
                unit > 0,
        ;
        assert((value <= 65535) == (value * unit <= 65535 * unit)) by (nonlinear_arith)
            requires
                unit > 0,
        ;
    }
}

/// A credential is what its file holds, trimmed, where one is named, and that
/// it cannot be read is complained of; else what its variable says. An empty
/// one is none.
pub proof fn law_secret_is_from_its_file_or_its_variable(
    env: &Environment,
    name: &str,
    file: &Result<String, String>,
    r: Result<Option<Secret>, ConfigError>,
)
    requires
        call_ensures(resolve_secret, (env, name, file), r),
    ensures
        ({
            let named = env_value(env@, name@ + "_FILE"@);
            &&& named is None ==> r is Ok && r->Ok_0.deep_view() == env_value(env@, name@)
            &&& named is Some && file is Ok ==> r is Ok && r->Ok_0.deep_view() == unless_empty(
                text::trimmed(file->Ok_0@),
            )
            &&& named is Some && file is Err ==> r is Err && complains_of(
                r->Err_0@,
                name@ + "_FILE"@,
                named->0,
            ) && text::occurs_in(r->Err_0@, file->Err_0@)
        }),
{
    let named = env_value(env@, name@ + "_FILE"@);
    if named is Some && file is Err {
        let e = r->Err_0@;
        reveal_strlit("\": ");
        reveal_strlit("\": could not read file (");
        let front = "Invalid environment variable "@ + (name@ + "_FILE"@) + "=\""@ + named->0
            + "\": "@;
        assert(e.take(front.len() as int) =~= front);
        let n = ("Invalid environment variable "@ + (name@ + "_FILE"@) + "=\""@ + named->0
            + "\": could not read file ("@).len() as int;
        assert(e.subrange(n, n + file->Err_0@.len()) =~= file->Err_0@);
    }
}

/// Credentials are configured as they are given; none are given beside the
/// opt-out, which is refused with the name of the credential.
pub proof fn law_auth_is_as_given(
    password: Option<Secret>,
    token: Option<Secret>,
    insecure_allow_no_auth: bool,
    r: Result<AuthConfig, ConfigError>,
)
    requires
        call_ensures(resolve_auth_config, (password, token, insecure_allow_no_auth), r),
    ensures
        r is Err <==> insecure_allow_no_auth && (password is Some || token is Some),
        r matches Ok(auth) ==> {
            &&& auth@.password() == password.deep_view()
            &&& auth@.token() == token.deep_view()
            &&& auth@ is Configured <==> password is Some || token is Some
            &&& auth@ is NoAuth ==> auth@->insecure_allow_no_auth == insecure_allow_no_auth
        },
{
}

/// A server without credentials does not run unless it was told to. Settings
/// that let more through than most need are warned of, each by its variable and
/// no others.
pub proof fn law_startup_check(
    config: &Config,
    r: (Vec<String>, Result<(), ConfigError>),
)
    requires
        call_ensures(validate_runtime_security_config, (config,), r),
    ensures
        r.1 is Err <==> config@.auth == (AuthView::NoAuth { insecure_allow_no_auth: false }),
        r.0.len() == (if config.allowed_hosts is All {
            1int
        } else {
            0
        }) + (if config.allowed_origins is All {
            1int
        } else {
            0
        }) + (if (config@.auth.password() is None && config@.auth.token() is Some) || config@.auth
            == (AuthView::NoAuth { insecure_allow_no_auth: true }) {
            1int
        } else {
            0
        }),
        config.allowed_hosts is All ==> "MOUSEHOLE_ALLOWED_HOSTS"@.is_prefix_of(r.0@[0]@),
        config.allowed_origins is All ==> "MOUSEHOLE_ALLOWED_ORIGINS"@.is_prefix_of(
            r.0@[if config.allowed_hosts is All {
                1int
            } else {
                0
            }]@,
        ),
        config@.auth == (AuthView::NoAuth { insecure_allow_no_auth: true })
            ==> "Running without authentication"@.is_prefix_of(r.0@[r.0@.len() - 1]@),
        config@.auth.password() is None && config@.auth.token() is Some
            ==> "Browser login will be unavailable."@.is_prefix_of(r.0@[r.0@.len() - 1]@),
        r.1 matches Err(e) ==> "Mousehole authentication is not configured."@.is_prefix_of(e@),
{
    reveal_strlit("MOUSEHOLE_ALLOWED_HOSTS");
    reveal_strlit("MOUSEHOLE_ALLOWED_ORIGINS");
    reveal_strlit("Running without authentication");
    reveal_strlit(
        "Running without authentication (MOUSEHOLE_INSECURE_ALLOW_NO_AUTH=true). Do not expose Mousehole to mixed-trust LAN, VPN, or public interfaces.",
    );
    reveal_strlit("Browser login will be unavailable.");
    reveal_strlit("Browser login will be unavailable. Set MOUSEHOLE_AUTH_PASSWORD to enable it.");
    reveal_strlit("Mousehole authentication is not configured.");
    reveal_strlit(
        "Mousehole authentication is not configured. Set MOUSEHOLE_AUTH_PASSWORD and/or MOUSEHOLE_AUTH_TOKEN, or set MOUSEHOLE_INSECURE_ALLOW_NO_AUTH=true to opt out.",
    );
    reveal_strlit(
        "MOUSEHOLE_ALLOWED_HOSTS allows any Host header. This is less secure and almost always avoidable. Set it to your specific host(s) or IP(s).",
    );
    reveal_strlit(
        "MOUSEHOLE_ALLOWED_ORIGINS allows any Origin Header for cross-origin requests. This is less secure and almost always avoidable. Set it to your specific allowed origins.",
    );
    let all = r.0.deep_view();
    assert(all.len() == r.0.len());
    if config.allowed_hosts is All {
        assert(all[0] == r.0@[0]@);
    }
    if config.allowed_origins is All {
        let i = if config.allowed_hosts is All {
            1int
        } else {
            0
        };
        assert(all[i] == r.0@[i]@);
    }
    if all.len() > 0 {
        assert(all[all.len() - 1] == r.0@[r.0@.len() - 1]@);
    }
}

/// What does not rest on a reader is configured from the environment as it
/// stands: the directory, the log level, switches and lists, and credentials
/// without a file. What rests on one is what that reader said: of a number its
/// variable's value, of a credential the contents of the file that its variable
/// names.
pub proof fn law_environment_is_the_configuration<
    R: Fn(&str) -> Result<String, String>,
    N: Fn(&str) -> Option<Double>,
>(env: &Environment, read_file: R, read_number: N, r: Result<Config, ConfigError>)
    requires
        call_ensures(Config::from_env::<R, N>, (env, read_file, read_number), r),
    ensures
        r matches Ok(config) ==> {
            let dir = env_value(env@, "MOUSEHOLE_STATE_DIR_PATH"@);
            let level = env_value(env@, "MOUSEHOLE_LOG_LEVEL"@);
            let https = env_value(env@, "MOUSEHOLE_HTTPS_ONLY_COOKIES"@);
            let hosts = env_value(env@, "MOUSEHOLE_ALLOWED_HOSTS"@);
            let origins = env_value(env@, "MOUSEHOLE_ALLOWED_ORIGINS"@);
            let interval = env_value(env@, "MOUSEHOLE_UPDATE_INTERVAL_SECONDS"@);
            let password_file = env_value(env@, "MOUSEHOLE_AUTH_PASSWORD_FILE"@);
            let token_file = env_value(env@, "MOUSEHOLE_AUTH_TOKEN_FILE"@);
            &&& dir is Some ==> config.state_dir_path@ == dir->0
            &&& level is Some ==> logger::named_level(level->0) == Some(config.log_level)
            &&& config.https_only_cookies <==> https == Some("true"@)
            &&& config@.allowed_hosts is All <==> hosts == Some("*"@)
            &&& hosts is Some && hosts != Some("*"@) ==> config@.allowed_hosts
                == AllowedHostsView::Allowlist(csv_entries(hosts->0))
            &&& config@.allowed_origins is All <==> origins == Some("*"@)
            &&& config@.allowed_origins is SameOrigin <==> origins is None
            &&& origins is Some && origins != Some("*"@) ==> config@.allowed_origins
                == AllowedOriginsView::Allowlist(csv_entries(origins->0))
            &&& interval is Some ==> numeral::may_mean(
                interval->0,
                read_number,
                Some(config.update_interval_seconds),
            )
            &&& password_file is None ==> config.auth@.password() == env_value(
                env@,
                "MOUSEHOLE_AUTH_PASSWORD"@,
            )
            &&& password_file is Some ==> exists|t: &str, file: Result<String, String>|
                t@ == password_file->0 && file is Ok && config.auth@.password() == unless_empty(
                    text::trimmed(file->Ok_0@),
                ) && #[trigger] read_file.ensures((t,), file)
            &&& token_file is None ==> config.auth@.token() == env_value(
                env@,
                "MOUSEHOLE_AUTH_TOKEN"@,
            )
            &&& token_file is Some ==> exists|t: &str, file: Result<String, String>|
                t@ == token_file->0 && file is Ok && config.auth@.token() == unless_empty(
                    text::trimmed(file->Ok_0@),
                ) && #[trigger] read_file.ensures((t,), file)
        },
{
    reveal_strlit("_FILE");
    reveal_strlit("MOUSEHOLE_AUTH_PASSWORD");
    reveal_strlit("MOUSEHOLE_AUTH_PASSWORD_FILE");
    reveal_strlit("MOUSEHOLE_AUTH_TOKEN");
    reveal_strlit("MOUSEHOLE_AUTH_TOKEN_FILE");
    reveal_strlit("true");
    reveal_strlit("false");
    assert("true"@.len() == 4 && "false"@.len() == 5);
    assert("MOUSEHOLE_AUTH_PASSWORD"@ + "_FILE"@ =~= "MOUSEHOLE_AUTH_PASSWORD_FILE"@);
    assert("MOUSEHOLE_AUTH_TOKEN"@ + "_FILE"@ =~= "MOUSEHOLE_AUTH_TOKEN_FILE"@);
}

/// The first variable that does not fit is the one that is complained of, in
/// this order: log level, interval, timeout, lifetime, port, and the switches.
pub proof fn law_first_misfit_is_complained_of(
    env: &Environment,
    readings: &Readings,
    r: Result<Config, ConfigError>,
    interval: Result<Double, ConfigError>,
    timeout: Result<Double, ConfigError>,
    session: Result<u64, ConfigError>,
    port: Result<u16, ConfigError>,
    https: Result<bool, ConfigError>,
    insecure: Result<bool, ConfigError>,
    names: (&str, &str, &str, &str, &str, &str),
    defaults: (Double, Double),
)
    requires
        call_ensures(Config::from_readings, (env, readings), r),
        call_ensures(
            parse_positive_number,
            (env, names.0, readings.update_interval, defaults.0),
            interval,
        ),
        call_ensures(
            parse_positive_number,
            (env, names.1, readings.request_timeout, defaults.1),
            timeout,
        ),
        call_ensures(parse_positive_int, (env, names.2, readings.session_duration, 604_800), session),
        call_ensures(parse_port, (env, names.3, readings.port, 5010), port),
        call_ensures(parse_bool_flag, (env, names.4), https),
        call_ensures(parse_bool_flag, (env, names.5), insecure),
        names.0@ == "MOUSEHOLE_UPDATE_INTERVAL_SECONDS"@,
        names.1@ == "MOUSEHOLE_MAM_REQUEST_TIMEOUT_SECONDS"@,
        names.2@ == "MOUSEHOLE_SESSION_DURATION_SECONDS"@,
        names.3@ == "MOUSEHOLE_PORT"@,
        names.4@ == "MOUSEHOLE_HTTPS_ONLY_COOKIES"@,
        names.5@ == "MOUSEHOLE_INSECURE_ALLOW_NO_AUTH"@,
    ensures
        ({
            let level = env_value(env@, "MOUSEHOLE_LOG_LEVEL"@);
            let fits = level is None || logger::named_level(level->0) is Some;
            &&& !fits ==> r is Err && complains_of(r->Err_0@, "MOUSEHOLE_LOG_LEVEL"@, level->0)
            &&& fits && interval is Err ==> r is Err && r->Err_0@ == interval->Err_0@
            &&& fits && interval is Ok && timeout is Err ==> r is Err && r->Err_0@
                == timeout->Err_0@
            &&& fits && interval is Ok && timeout is Ok && session is Err ==> r is Err
                && r->Err_0@ == session->Err_0@
            &&& fits && interval is Ok && timeout is Ok && session is Ok && port is Err ==> r is Err
                && r->Err_0@ == port->Err_0@
            &&& fits && interval is Ok && timeout is Ok && session is Ok && port is Ok && https
                is Err ==> r is Err && r->Err_0@ == https->Err_0@
            &&& fits && interval is Ok && timeout is Ok && session is Ok && port is Ok && https
                is Ok && insecure is Err ==> r is Err && r->Err_0@ == insecure->Err_0@
        }),
{
    let level = env_value(env@, "MOUSEHOLE_LOG_LEVEL"@);
    let front = "Invalid environment variable "@ + "MOUSEHOLE_LOG_LEVEL"@ + "=\""@ + level->0
        + "\": "@;
    if level is Some && logger::named_level(level->0) is None {
        assert(r->Err_0@.take(front.len() as int) =~= front);
    }
}

} // verus!
