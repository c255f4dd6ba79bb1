use mousehole::error::{
    auth_not_configured, authentication_required, directory_create_error, file_read_error,
    file_write_error, host_not_allowed, json_parse_error_file, json_parse_error_request,
    json_parse_error_response, network_error, not_found, origin_not_allowed, payload_too_large,
    schema_error, timeout_error, unhandled, unsupported_media_type, ErrorBody, Issue,
};

#[test]
fn wire_shape() {
    let e = schema_error(
        400,
        "request body",
        vec![Issue {
            path: "value".into(),
            message: "must not be empty".into(),
        }],
    );
    let json = e.body.to_value();
    assert_eq!(json["type"], "schema-error");
    assert_eq!(
        json["message"],
        "Schema validation failed for data from request body: value: must not be empty"
    );
    assert_eq!(json["issues"][0]["path"], "value");
    assert!(json.get("cause").is_none());
}

#[test]
fn schema_error_without_path_has_no_prefix() {
    let e = schema_error(
        400,
        "request body",
        vec![Issue {
            path: String::new(),
            message: "expected object".into(),
        }],
    );
    assert_eq!(
        e.body.message,
        "Schema validation failed for data from request body: expected object"
    );
}

#[test]
fn cause_chain_nests() {
    let mut e = unhandled("outer");
    e.body.cause = Some(Box::new(ErrorBody::new(
        "unhandled-error",
        "Unhandled error: boom",
    )));
    let json = e.body.to_value();
    assert_eq!(json["cause"]["type"], "unhandled-error");
    assert!(json["cause"].get("cause").is_none());
}

#[test]
fn timeout_message_formats_float_like_js() {
    assert_eq!(
        timeout_error("https://x", &format!("{}", 10.0_f64)).body.message,
        "Request to https://x timed out after 10s. Is the network up?"
    );
    assert_eq!(
        timeout_error("https://x", &format!("{}", 0.5_f64)).body.message,
        "Request to https://x timed out after 0.5s. Is the network up?"
    );
}

#[test]
fn auth_required_carries_www_authenticate() {
    let e = authentication_required("No credentials presented");
    assert_eq!(
        e.headers,
        vec![(
            "WWW-Authenticate".to_string(),
            "Bearer realm=\"Mousehole\"".to_string()
        )]
    );
    assert_eq!(e.status, 401);
}

#[test]
fn no_issues_are_invalid_data() {
    let e = schema_error(500, "here", vec![]);
    assert_eq!(
        e.body.message,
        "Schema validation failed for data from here: invalid data"
    );
    let json = e.body.to_value();
    assert!(json["issues"].as_array().unwrap().is_empty());
}

#[test]
fn members_come_in_order_and_only_if_present() {
    let e = json_parse_error_request("PUT", "http://h/cookie", "expected value");
    assert_eq!(
        serde_json::to_string(&e.body.to_value()).unwrap(),
        "{\"type\":\"json-parse-error\",\"message\":\"Error parsing JSON from request with method PUT and URL http://h/cookie\",\"cause\":{\"type\":\"unhandled-error\",\"message\":\"expected value\"}}"
    );
    let e = schema_error(
        400,
        "request body",
        vec![
            Issue { path: "a".into(), message: "b".into() },
            Issue { path: "c".into(), message: "d".into() },
        ],
    );
    assert_eq!(
        serde_json::to_string(&e.body.to_value()).unwrap(),
        "{\"type\":\"schema-error\",\"message\":\"Schema validation failed for data from request body: a: b\",\"issues\":[{\"path\":\"a\",\"message\":\"b\"},{\"path\":\"c\",\"message\":\"d\"}]}"
    );
}

#[test]
fn catalogue_of_templates() {
    let rows = vec![
        (payload_too_large(), 413, "payload-too-large", "Request body must not exceed 8192 bytes."),
        (not_found(), 404, "not-found", "Not Found"),
        (host_not_allowed("m"), 403, "host-not-allowed", "m"),
        (
            origin_not_allowed("https://o"),
            403,
            "origin-not-allowed",
            "Origin \"https://o\" is not allowed. (Add to MOUSEHOLE_ALLOWED_ORIGINS to permit it.)",
        ),
        (authentication_required("m"), 401, "authentication-required", "m"),
        (
            auth_not_configured(),
            500,
            "auth-not-configured",
            "Mousehole authentication is not configured. Set MOUSEHOLE_AUTH_PASSWORD or MOUSEHOLE_AUTH_TOKEN to enable.",
        ),
        (
            unsupported_media_type("text/plain"),
            415,
            "unsupported-media-type",
            "Unsupported content type \"text/plain\", must be \"application/json\"",
        ),
        (
            json_parse_error_response(429, "https://u"),
            500,
            "json-parse-error",
            "Error parsing JSON from response with status 429 and URL https://u",
        ),
        (
            json_parse_error_file("/f", "w"),
            500,
            "json-parse-error",
            "Error parsing JSON from file at /f",
        ),
        (
            file_read_error("/f"),
            500,
            "file-read-error",
            "Error reading file: /f. Check that it is readable and is not a directory.",
        ),
        (
            file_write_error("/f"),
            500,
            "file-write-error",
            "Error writing file: /f. Check that the parent directory exists and is writable.",
        ),
        (
            directory_create_error("/d"),
            500,
            "directory-create-error",
            "Error creating directory: /d. Check that the parent directory exists and you have write permissions.",
        ),
        (network_error("https://u"), 500, "network-error", "Network request to https://u failed"),
        (
            timeout_error("https://u", "10"),
            504,
            "timeout-error",
            "Request to https://u timed out after 10s. Is the network up?",
        ),
        (unhandled("m"), 500, "unhandled-error", "m"),
    ];
    for (e, status, error_type, message) in rows {
        assert_eq!(e.status, status);
        assert_eq!(e.body.error_type, error_type);
        assert_eq!(e.body.message, message);
        assert_eq!(e.describe(), format!("{error_type}: {message}"));
    }
    assert_eq!(json_parse_error_file("/f", "w").body.cause.unwrap().message, "w");
}
