use mousehole::config::{
    get_env, parse_bool_flag, parse_csv_or_all, parse_positive_number, resolve_auth_config,
    resolve_secret,
    validate_runtime_security_config, AllowedHosts, AllowedOrigins, AuthConfig, Config,
    ConfigError, Environment,
};
use mousehole::logger::LogLevel;
use mousehole::number::Double;

fn env(pairs: &[(&str, &str)]) -> Environment {
    let mut env = Environment::new();
    for (name, value) in pairs {
        env.insert(name, value);
    }
    env
}

fn no_files(_: &str) -> Result<String, String> {
    Err("no such file".to_string())
}

fn numbers(raw: &str) -> Option<Double> {
    raw.parse::<f64>().ok().map(|n| Double { bits: n.to_bits() })
}

fn load(pairs: &[(&str, &str)]) -> Result<Config, ConfigError> {
    Config::from_env(&env(pairs), no_files, numbers)
}

fn loaded(pairs: &[(&str, &str)]) -> Config {
    load(pairs).ok().unwrap()
}

fn refused(pairs: &[(&str, &str)]) -> String {
    load(pairs).err().unwrap().0
}

#[test]
fn defaults() {
    let c = loaded(&[("MOUSEHOLE_AUTH_PASSWORD", "pw")]);
    assert_eq!(c.port, 5010);
    assert_eq!(c.session_duration_seconds, 604_800);
    assert_eq!(f64::from_bits(c.update_interval_seconds.bits), 300.0);
    assert!(matches!(c.allowed_origins, AllowedOrigins::SameOrigin));
    match &c.allowed_hosts {
        AllowedHosts::Allowlist(h) => assert_eq!(h, &["localhost", "127.0.0.1", "[::1]"]),
        _ => panic!(),
    }
    assert_eq!(f64::from_bits(c.mam_request_timeout_seconds.bits), 10.0);
    assert_eq!(c.state_dir_path, "/var/lib/mousehole");
    assert!(!c.https_only_cookies);
    assert!(matches!(c.log_level, LogLevel::Info));
}

#[test]
fn empty_env_var_is_unset() {
    let c = loaded(&[("MOUSEHOLE_PORT", "   "), ("MOUSEHOLE_AUTH_TOKEN", "t")]);
    assert_eq!(c.port, 5010);
}

#[test]
fn floats_allowed_where_speced() {
    let c = loaded(&[
        ("MOUSEHOLE_UPDATE_INTERVAL_SECONDS", "0.5"),
        ("MOUSEHOLE_AUTH_PASSWORD", "pw"),
    ]);
    assert_eq!(f64::from_bits(c.update_interval_seconds.bits), 0.5);
    assert!(load(&[
        ("MOUSEHOLE_SESSION_DURATION_SECONDS", "0.5"),
        ("MOUSEHOLE_AUTH_PASSWORD", "pw"),
    ])
    .is_err());
}

#[test]
fn invalid_value_error_frame() {
    let e = refused(&[("MOUSEHOLE_PORT", "eleventy"), ("MOUSEHOLE_AUTH_TOKEN", "t")]);
    assert_eq!(
        e,
        "Invalid environment variable MOUSEHOLE_PORT=\"eleventy\": Invalid input: expected number, received NaN"
    );
}

#[test]
fn file_variant_precedence_and_empty_file() {
    let read = |p: &str| -> Result<String, String> {
        match p {
            "/s/full" => Ok("  filepw  \n".to_string()),
            "/s/empty" => Ok("   \n".to_string()),
            _ => Err("no such file".to_string()),
        }
    };
    let c = Config::from_env(
        &env(&[
            ("MOUSEHOLE_AUTH_PASSWORD", "plain"),
            ("MOUSEHOLE_AUTH_PASSWORD_FILE", "/s/full"),
        ]),
        read,
        numbers,
    )
    .ok()
    .unwrap();
    assert_eq!(c.auth.password().unwrap().as_str(), "filepw");
    let c = Config::from_env(
        &env(&[
            ("MOUSEHOLE_AUTH_PASSWORD", "plain"),
            ("MOUSEHOLE_AUTH_PASSWORD_FILE", "/s/empty"),
        ]),
        read,
        numbers,
    )
    .ok()
    .unwrap();
    assert!(!c.auth.is_configured());
    let e = Config::from_env(
        &env(&[("MOUSEHOLE_AUTH_PASSWORD_FILE", "/s/missing")]),
        read,
        numbers,
    )
    .err()
    .unwrap();
    assert!(e.0.starts_with(
        "Invalid environment variable MOUSEHOLE_AUTH_PASSWORD_FILE=\"/s/missing\": could not read file ("
    ));
}

#[test]
fn mutual_exclusion() {
    let e = refused(&[
        ("MOUSEHOLE_INSECURE_ALLOW_NO_AUTH", "true"),
        ("MOUSEHOLE_AUTH_PASSWORD", "pw"),
        ("MOUSEHOLE_AUTH_TOKEN", "t"),
    ]);
    assert!(e.contains("MOUSEHOLE_AUTH_PASSWORD"));
    assert!(e.starts_with("MOUSEHOLE_INSECURE_ALLOW_NO_AUTH=true cannot be combined"));
}

#[test]
fn hosts_origins_star_and_empty() {
    let c = loaded(&[
        ("MOUSEHOLE_ALLOWED_HOSTS", "*"),
        ("MOUSEHOLE_ALLOWED_ORIGINS", " a.example ,, b.example "),
        ("MOUSEHOLE_AUTH_PASSWORD", "pw"),
    ]);
    assert!(matches!(c.allowed_hosts, AllowedHosts::All));
    match &c.allowed_origins {
        AllowedOrigins::Allowlist(o) => assert_eq!(o, &["a.example", "b.example"]),
        _ => panic!(),
    }
    let e = refused(&[("MOUSEHOLE_ALLOWED_HOSTS", ",,"), ("MOUSEHOLE_AUTH_TOKEN", "t")]);
    assert_eq!(
        e,
        "Invalid environment variable MOUSEHOLE_ALLOWED_HOSTS: must not be empty; use * to allow all hosts"
    );
}

#[test]
fn empty_origin_list_is_refused() {
    assert_eq!(
        refused(&[("MOUSEHOLE_ALLOWED_ORIGINS", " , "), ("MOUSEHOLE_AUTH_TOKEN", "t")]),
        "Invalid environment variable MOUSEHOLE_ALLOWED_ORIGINS: must not be empty; use * to allow all origins"
    );
}

#[test]
fn a_name_set_again_keeps_its_last_value() {
    let mut e = Environment::new();
    e.insert("A", "one");
    e.insert("B", "other");
    e.insert("A", " two ");
    assert_eq!(e.get("A"), Some(" two "));
    assert_eq!(get_env(&e, "A"), Some("two"));
    assert_eq!(e.get("C"), None);
    assert_eq!(get_env(&e, "C"), None);
}

#[test]
fn bool_flags_are_exactly_true_or_false() {
    assert_eq!(parse_bool_flag(&env(&[]), "F").unwrap(), false);
    assert_eq!(parse_bool_flag(&env(&[("F", " true ")]), "F").unwrap(), true);
    assert_eq!(parse_bool_flag(&env(&[("F", "false")]), "F").unwrap(), false);
    assert_eq!(
        parse_bool_flag(&env(&[("F", "TRUE")]), "F").unwrap_err().0,
        "Invalid environment variable F=\"TRUE\": must be \"true\" or \"false\""
    );
}

fn number_error(name: &str, raw: &str) -> String {
    let e = refused(&[(name, raw), ("MOUSEHOLE_AUTH_TOKEN", "t")]);
    let frame = format!("Invalid environment variable {name}=\"{raw}\": ");
    assert!(e.starts_with(&frame), "{e}");
    e[frame.len()..].to_string()
}

#[test]
fn numbers_are_checked_with_their_own_messages() {
    let nan = "Invalid input: expected number, received NaN";
    let int = "Invalid input: expected int, received number";
    let interval = "MOUSEHOLE_UPDATE_INTERVAL_SECONDS";
    let session = "MOUSEHOLE_SESSION_DURATION_SECONDS";
    let port = "MOUSEHOLE_PORT";
    for raw in ["0", "-0", "-1.5", "Infinity", "-Infinity", "1e400", "0x0"] {
        assert_eq!(number_error(interval, raw), "Too small: expected number to be >0");
    }
    for raw in ["soon", "nan", "NaN", "inf", "-inf", "infinity", "1_000", "0x", "0xg", "-0x1", "1e", "."] {
        assert_eq!(number_error(interval, raw), nan);
    }
    assert_eq!(number_error("MOUSEHOLE_MAM_REQUEST_TIMEOUT_SECONDS", "x"), nan);
    for raw in ["week", "Infinity", "inf", "nan", "18446744073709555712"] {
        assert_eq!(number_error(session, raw), nan);
    }
    for raw in ["1.5", "-0.25", "1e-300", "4503599627370495.5"] {
        assert_eq!(number_error(session, raw), int);
    }
    for raw in ["0", "-0.0", "-3", "-1e300"] {
        assert_eq!(number_error(session, raw), "Too small: expected number to be >0");
    }
    for raw in ["Infinity", "-Infinity", "nan", "port"] {
        assert_eq!(number_error(port, raw), nan);
    }
    assert_eq!(number_error(port, "80.5"), int);
    assert_eq!(number_error(port, "0"), "Too small: expected number to be >=1");
    assert_eq!(number_error(port, "-80"), "Too small: expected number to be >=1");
    assert_eq!(number_error(port, "65536"), "Too big: expected number to be <=65535");
    assert_eq!(number_error(port, "1e300"), "Too big: expected number to be <=65535");
}

#[test]
fn numbers_are_read_exactly() {
    let session = |raw: &str| {
        loaded(&[("MOUSEHOLE_SESSION_DURATION_SECONDS", raw), ("MOUSEHOLE_AUTH_TOKEN", "t")])
            .session_duration_seconds
    };
    assert_eq!(session("12.0"), 12);
    assert_eq!(session("1e3"), 1000);
    assert_eq!(session("9007199254740993"), 9007199254740992);
    assert_eq!(session("18446744073709549568"), 18446744073709549568);
    assert_eq!(session("18446744073709551616"), u64::MAX);
    let port = |raw: &str| {
        loaded(&[("MOUSEHOLE_PORT", raw), ("MOUSEHOLE_AUTH_TOKEN", "t")]).port
    };
    assert_eq!(port("1"), 1);
    assert_eq!(port("8080.0"), 8080);
    assert_eq!(port("0x1F90"), 8080);
    assert_eq!(port("0O17620"), 8080);
    assert_eq!(port("0b1111110010000"), 8080);
    assert_eq!(port("65535"), 65535);
    let interval = |raw: &str| {
        loaded(&[("MOUSEHOLE_UPDATE_INTERVAL_SECONDS", raw), ("MOUSEHOLE_AUTH_TOKEN", "t")])
            .update_interval_seconds
    };
    assert_eq!(f64::from_bits(interval("5e-324").bits), 5e-324);
    assert_eq!(f64::from_bits(interval("1e300").bits), 1e300);
}

#[test]
fn a_reading_that_is_no_number_is_told_so() {
    let set = env(&[("N", "nan")]);
    let of = |n: f64| Some(Double { bits: n.to_bits() });
    let message = |reading: Option<Double>| {
        parse_positive_number(&set, "N", reading, Double { bits: 0 }).unwrap_err().0
    };
    for reading in [None, of(f64::NAN), of(-f64::NAN)] {
        assert_eq!(
            message(reading),
            "Invalid environment variable N=\"nan\": Invalid input: expected number, received NaN"
        );
    }
    assert_eq!(
        message(of(f64::INFINITY)),
        "Invalid environment variable N=\"nan\": Too small: expected number to be >0"
    );
}

#[test]
fn log_level_is_read_in_any_case() {
    let c = loaded(&[("MOUSEHOLE_LOG_LEVEL", "WaRn"), ("MOUSEHOLE_AUTH_TOKEN", "t")]);
    assert!(matches!(c.log_level, LogLevel::Warn));
    assert_eq!(
        refused(&[("MOUSEHOLE_LOG_LEVEL", "loud")]),
        "Invalid environment variable MOUSEHOLE_LOG_LEVEL=\"loud\": must be one of debug, info, warn, error"
    );
}

#[test]
fn first_complaint_comes_in_order() {
    let e = refused(&[
        ("MOUSEHOLE_ALLOWED_HOSTS", ","),
        ("MOUSEHOLE_AUTH_TOKEN_FILE", "/missing"),
        ("MOUSEHOLE_HTTPS_ONLY_COOKIES", "maybe"),
        ("MOUSEHOLE_PORT", "x"),
        ("MOUSEHOLE_LOG_LEVEL", "loud"),
    ]);
    assert!(e.starts_with("Invalid environment variable MOUSEHOLE_LOG_LEVEL="));
    let e = refused(&[
        ("MOUSEHOLE_ALLOWED_HOSTS", ","),
        ("MOUSEHOLE_AUTH_TOKEN_FILE", "/missing"),
        ("MOUSEHOLE_HTTPS_ONLY_COOKIES", "maybe"),
    ]);
    assert!(e.starts_with("Invalid environment variable MOUSEHOLE_HTTPS_ONLY_COOKIES="));
    let e = refused(&[
        ("MOUSEHOLE_ALLOWED_HOSTS", ","),
        ("MOUSEHOLE_AUTH_TOKEN_FILE", "/missing"),
    ]);
    assert_eq!(
        e,
        "Invalid environment variable MOUSEHOLE_AUTH_TOKEN_FILE=\"/missing\": could not read file (no such file)"
    );
}

#[test]
fn secrets_and_auth_resolve() {
    let e = env(&[("P", " pw "), ("T_FILE", "/t")]);
    let password = resolve_secret(&e, "P", &Err(String::new())).ok().unwrap();
    assert_eq!(password.as_ref().unwrap().as_str(), "pw");
    assert_eq!(password.as_ref().unwrap().as_bytes(), b"pw");
    let token = resolve_secret(&e, "T", &Ok("\ttok\n".to_string())).ok().unwrap();
    let auth = resolve_auth_config(password, token, false).ok().unwrap();
    assert!(auth.is_configured());
    assert_eq!(auth.password().unwrap().as_str(), "pw");
    assert_eq!(auth.token().unwrap().as_str(), "tok");
    let none = resolve_auth_config(None, None, true).ok().unwrap();
    assert!(matches!(none, AuthConfig::NoAuth { insecure_allow_no_auth: true }));
    assert!(none.password().is_none() && none.token().is_none());
    let token = resolve_secret(&e, "T", &Ok("tok".to_string())).ok().unwrap();
    let clash = resolve_auth_config(None, token, true).err().unwrap();
    assert_eq!(
        clash.0,
        "MOUSEHOLE_INSECURE_ALLOW_NO_AUTH=true cannot be combined with MOUSEHOLE_AUTH_TOKEN: turning off authentication and configuring a credential are mutually exclusive. Unset one of them."
    );
}

#[test]
fn csv_lists_drop_what_is_empty() {
    assert_eq!(parse_csv_or_all("*"), None);
    assert_eq!(parse_csv_or_all("a, b ,,c"), Some(vec!["a".into(), "b".into(), "c".into()]));
    assert_eq!(parse_csv_or_all(""), Some(vec![]));
    assert_eq!(parse_csv_or_all("*,a"), Some(vec!["*".into(), "a".into()]));
}

#[test]
fn startup_check_warns_and_refuses() {
    let (warnings, verdict) = validate_runtime_security_config(&loaded(&[
        ("MOUSEHOLE_ALLOWED_HOSTS", "*"),
        ("MOUSEHOLE_ALLOWED_ORIGINS", "*"),
        ("MOUSEHOLE_AUTH_TOKEN", "t"),
    ]));
    assert!(verdict.is_ok());
    assert_eq!(
        warnings,
        vec![
            "MOUSEHOLE_ALLOWED_HOSTS allows any Host header. This is less secure and almost always avoidable. Set it to your specific host(s) or IP(s).",
            "MOUSEHOLE_ALLOWED_ORIGINS allows any Origin Header for cross-origin requests. This is less secure and almost always avoidable. Set it to your specific allowed origins.",
            "Browser login will be unavailable. Set MOUSEHOLE_AUTH_PASSWORD to enable it.",
        ]
    );
    let (warnings, verdict) =
        validate_runtime_security_config(&loaded(&[("MOUSEHOLE_AUTH_PASSWORD", "pw")]));
    assert!(verdict.is_ok() && warnings.is_empty());
    let (warnings, verdict) =
        validate_runtime_security_config(&loaded(&[("MOUSEHOLE_INSECURE_ALLOW_NO_AUTH", "true")]));
    assert!(verdict.is_ok());
    assert_eq!(
        warnings,
        vec!["Running without authentication (MOUSEHOLE_INSECURE_ALLOW_NO_AUTH=true). Do not expose Mousehole to mixed-trust LAN, VPN, or public interfaces."]
    );
    let (warnings, verdict) = validate_runtime_security_config(&loaded(&[]));
    assert!(warnings.is_empty());
    assert_eq!(
        verdict.unwrap_err().0,
        "Mousehole authentication is not configured. Set MOUSEHOLE_AUTH_PASSWORD and/or MOUSEHOLE_AUTH_TOKEN, or set MOUSEHOLE_INSECURE_ALLOW_NO_AUTH=true to opt out."
    );
}

#[test]
fn only_trimmed_values_count() {
    let plain = loaded(&[
        ("MOUSEHOLE_AUTH_PASSWORD", "pw"),
        ("MOUSEHOLE_PORT", "8080"),
        ("MOUSEHOLE_ALLOWED_HOSTS", "a.example,b.example"),
    ]);
    let padded = loaded(&[
        ("MOUSEHOLE_AUTH_PASSWORD", " pw\n"),
        ("MOUSEHOLE_PORT", "\t8080 "),
        ("MOUSEHOLE_ALLOWED_HOSTS", "\u{a0}a.example,b.example\r\n"),
        ("MOUSEHOLE_AUTH_TOKEN", " \t "),
        ("MOUSEHOLE_LOG_LEVEL", ""),
    ]);
    assert_eq!(plain.auth.password().unwrap().as_str(), "pw");
    assert_eq!(padded.auth.password().unwrap().as_str(), "pw");
    assert!(plain.auth.token().is_none() && padded.auth.token().is_none());
    assert_eq!((plain.port, padded.port), (8080, 8080));
    for c in [&plain, &padded] {
        match &c.allowed_hosts {
            AllowedHosts::Allowlist(hosts) => assert_eq!(hosts, &["a.example", "b.example"]),
            AllowedHosts::All => panic!(),
        }
    }
    assert_eq!(
        refused(&[("MOUSEHOLE_PORT", " x ")]),
        refused(&[("MOUSEHOLE_PORT", "x")])
    );
}
