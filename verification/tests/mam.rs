use mousehole::mam::{
    rotated_cookie_from_headers, Fetched, FetchedBody, HostInfo, MamClient, MamUpdateResult,
    DEFAULT_BASE_URL, USER_AGENT,
};
use mousehole::number::Double;

fn strings(list: &[&str]) -> Vec<String> {
    list.iter().map(|s| s.to_string()).collect()
}

#[test]
fn first_mam_id_wins_and_is_percent_decoded() {
    let headers = strings(&[
        "other=x; Path=/",
        "mam_id=abc%3D%3D123; Path=/; HttpOnly",
        "mam_id=second",
    ]);
    assert_eq!(
        rotated_cookie_from_headers(&headers),
        Some("abc==123".to_string())
    );
}

#[test]
fn no_mam_id_means_no_rotation() {
    let headers = strings(&["session=x; Path=/"]);
    assert_eq!(rotated_cookie_from_headers(&headers), None);
}

#[test]
fn set_cookie_headers_are_read_leniently() {
    let one = |h: &str| rotated_cookie_from_headers(&strings(&[h]));
    assert_eq!(one(" mam_id = a b ; Expires=never"), Some("a b".to_string()));
    assert_eq!(one("mam_id=\"q\""), Some("\"q\"".to_string()));
    assert_eq!(one("mam_id=%ff"), Some("%ff".to_string()));
    assert_eq!(one("mam_id=a=b"), Some("a=b".to_string()));
    assert_eq!(one("mam_id"), None);
    assert_eq!(one("=mam_id"), None);
    assert_eq!(one("x; mam_id=1"), None);
    assert_eq!(one("MAM_ID=1"), None);
    assert_eq!(rotated_cookie_from_headers(&vec![]), None);
}

fn client() -> MamClient {
    let timeout: f64 = 10.0;
    MamClient::new(Double { bits: timeout.to_bits() }, &format!("{timeout}"), Some("https://mam"))
}

fn answered(status: u16, body: &str) -> Fetched {
    Fetched::Answered {
        status,
        set_cookies: vec![],
        body: FetchedBody::Text(body.to_string()),
    }
}

const UPDATE: &str =
    r#"{"Success":true,"msg":"Completed","ip":"203.0.113.7","ASN":64496,"AS":"TEST-AS","x":1}"#;

#[test]
fn requests_carry_the_cookie_as_it_stands() {
    let r = client().request(Some("a%3D b"));
    assert_eq!(r.url, "https://mam/json/dynamicSeedbox.php");
    assert_eq!(r.cookie.as_deref(), Some("mam_id=a%3D b"));
    let r = client().request(None);
    assert_eq!(r.url, "https://mam/json/jsonIp.php");
    assert_eq!(r.cookie, None);
    let default = MamClient::new(client().timeout(), "10", None);
    assert_eq!(
        default.request(None).url,
        "https://t.myanonamouse.net/json/jsonIp.php"
    );
    assert_eq!(DEFAULT_BASE_URL, "https://t.myanonamouse.net");
    assert_eq!(USER_AGENT, "mousehole-by-timtimtim/0.5.0");
    assert_eq!(f64::from_bits(default.timeout().bits), 10.0);
}

#[test]
fn update_answers_count_whatever_the_status() {
    for status in [200, 429, 403, 302] {
        assert_eq!(
            client().update_mam_ip(&answered(status, UPDATE)).unwrap(),
            MamUpdateResult {
                ip: "203.0.113.7".into(),
                asn: 64496,
                as_name: "TEST-AS".into(),
                success: true,
                msg: "Completed".into(),
                http_status: status,
                rotated_cookie: None,
            }
        );
    }
    let rotated = client()
        .update_mam_ip(&Fetched::Answered {
            status: 403,
            set_cookies: strings(&["mam_id=new%21"]),
            body: FetchedBody::Text(UPDATE.to_string()),
        })
        .unwrap();
    assert_eq!(rotated.rotated_cookie.as_deref(), Some("new!"));
}

#[test]
fn transport_failures_have_their_types() {
    let url = "https://mam/json/dynamicSeedbox.php";
    let e = client().update_mam_ip(&Fetched::Failed { timeout: true }).unwrap_err();
    assert_eq!(
        e.describe(),
        format!("timeout-error: Request to {url} timed out after 10s. Is the network up?")
    );
    let e = client().update_mam_ip(&Fetched::Failed { timeout: false }).unwrap_err();
    assert_eq!(e.describe(), format!("network-error: Network request to {url} failed"));
    let e = client()
        .update_mam_ip(&Fetched::Answered {
            status: 200,
            set_cookies: vec![],
            body: FetchedBody::Failed { timeout: true },
        })
        .unwrap_err();
    assert_eq!(e.body.error_type, "timeout-error");
    let e = client().get_host_info(&Fetched::Failed { timeout: false }).unwrap_err();
    assert_eq!(
        e.body.message,
        "Network request to https://mam/json/jsonIp.php failed"
    );
}

fn update_error(body: &str) -> String {
    client().update_mam_ip(&answered(200, body)).unwrap_err().describe()
}

#[test]
fn update_answers_are_checked() {
    let url = "https://mam/json/dynamicSeedbox.php";
    assert_eq!(
        client().update_mam_ip(&answered(502, "<html>")).unwrap_err().describe(),
        format!("json-parse-error: Error parsing JSON from response with status 502 and URL {url}")
    );
    let frame = format!("schema-error: Schema validation failed for data from {url}: ");
    assert_eq!(
        update_error("[1]"),
        format!("{frame}Invalid input: expected object, received array")
    );
    assert_eq!(
        update_error("{}"),
        format!("{frame}Success: Invalid input: expected boolean, received undefined")
    );
    assert_eq!(
        update_error(r#"{"Success":true,"msg":null}"#),
        format!("{frame}msg: Invalid input: expected string, received null")
    );
    assert_eq!(
        update_error(r#"{"Success":true,"msg":"m","ip":{}}"#),
        format!("{frame}ip: Invalid input: expected string, received object")
    );
    assert_eq!(
        update_error(r#"{"Success":true,"msg":"m","ip":"1.2.3.4","ASN":"1"}"#),
        format!("{frame}ASN: Invalid input: expected number, received string")
    );
    assert_eq!(
        update_error(r#"{"Success":true,"msg":"m","ip":"1.2.3.4","ASN":1.5}"#),
        format!("{frame}ASN: Invalid input: expected int, received number")
    );
    assert_eq!(
        update_error(r#"{"Success":true,"msg":"m","ip":"1.2.3.4","ASN":1,"AS":false}"#),
        format!("{frame}AS: Invalid input: expected string, received boolean")
    );
    for ip in ["2001:db8::1", "1.2.3", "1.2.3.4.5", "1.2.3.256", "1.2.3.04", "1.2.3.+4", "", "1..2.3"] {
        let body = format!(r#"{{"Success":true,"msg":"m","ip":"{ip}","ASN":1,"AS":"a"}}"#);
        assert_eq!(update_error(&body), format!("{frame}ip: must be an IPv4 address"));
    }
    for (asn, read) in [("64496.0", 64496), ("-1.0", -1), ("6.4496e4", 64496), ("-0.0", 0)] {
        let body = format!(r#"{{"Success":true,"msg":"m","ip":"1.2.3.4","ASN":{asn},"AS":"a"}}"#);
        assert_eq!(client().update_mam_ip(&answered(200, &body)).unwrap().asn, read);
    }
    for ip in ["0.0.0.0", "255.255.255.255", "10.20.30.40"] {
        let body = format!(r#"{{"Success":false,"msg":"m","ip":"{ip}","ASN":-1,"AS":"a"}}"#);
        let r = client().update_mam_ip(&answered(200, &body)).unwrap();
        assert_eq!((r.ip.as_str(), r.asn, r.success), (ip, -1, false));
    }
}

#[test]
fn lookups_ask_for_success_first() {
    let body = r#"{"ip":"203.0.113.7","ASN":64496,"AS":"TEST-AS","time":1}"#;
    let url = "https://mam/json/jsonIp.php";
    for status in [200, 204, 299] {
        assert_eq!(
            client().get_host_info(&answered(status, body)).unwrap(),
            HostInfo { ip: "203.0.113.7".into(), asn: 64496, as_name: "TEST-AS".into() }
        );
    }
    for status in [199, 300, 404, 503] {
        assert_eq!(
            client().get_host_info(&answered(status, body)).unwrap_err().describe(),
            format!("unhandled-error: Failed to fetch host IP from {url}: {status}")
        );
    }
    assert_eq!(
        client().get_host_info(&answered(200, "no")).unwrap_err().body.error_type,
        "json-parse-error"
    );
    assert_eq!(
        client().get_host_info(&answered(200, r#"{"ip":"::1","ASN":1,"AS":"a"}"#)).unwrap_err().describe(),
        format!("schema-error: Schema validation failed for data from {url}: ip: must be an IPv4 address")
    );
}
