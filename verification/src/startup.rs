//! What the program says and asks when it starts: the banner, and the probe by
//! which a container finds out whether its server is up.

use crate::text;
use vstd::prelude::*;

verus! {

pub const VERSION: &'static str = "0.5.0";

/// What the probe sends.
pub const PROBE_REQUEST: &'static str = "GET /health HTTP/1.1\r\nHost: 127.0.0.1\r\nConnection: close\r\n\r\n";

/// The commit that is shown: the one fixed at build time, else the one in the
/// environment, and `unknown` where that is empty or missing.
pub open spec fn shown_hash(build: Option<Seq<char>>, runtime: Option<Seq<char>>) -> Seq<char> {
    let hash = if build is Some {
        build
    } else {
        runtime
    };
    match hash {
        Some(h) => if h.len() > 0 {
            h
        } else {
            "unknown"@
        },
        None => "unknown"@,
    }
}

pub fn git_hash(build: Option<&str>, runtime: Option<&str>) -> (r: String)
    ensures
        r@ == shown_hash(build.deep_view(), runtime.deep_view()),
{
    let hash = match build {
        Some(h) => Some(h),
        None => runtime,
    };
    match hash {
        Some(h) => if h.unicode_len() > 0 {
            h.to_owned()
        } else {
            "unknown".to_owned()
        },
        None => "unknown".to_owned(),
    }
}

/// What is logged once the listener is bound.
pub fn banner(git_hash: &str, address: &str) -> (r: String)
    ensures
        r@ == "Mousehole v"@ + VERSION@ + " ("@ + git_hash@ + ") running at http://"@ + address@
            + "/"@,
{
    "Mousehole v".to_owned().concat(VERSION).concat(" (").concat(git_hash).concat(
        ") running at http://",
    ).concat(address).concat("/")
}

/// The port that the probe asks: the configured one where it is a port number,
/// else the default.
pub open spec fn probed_port(variable: Option<Seq<char>>) -> u16 {
    match variable {
        Some(v) => match text::read_unsigned(text::trimmed(v), u16::MAX as nat) {
            Some(n) => n as u16,
            None => 5010,
        },
        None => 5010,
    }
}

pub fn healthcheck_port(variable: Option<&str>) -> (r: u16)
    ensures
        r == probed_port(variable.deep_view()),
{
    match variable {
        Some(v) => match text::parse_unsigned(text::trim(v), u16::MAX as u64) {
            Some(n) => n as u16,
            None => 5010,
        },
        None => 5010,
    }
}

/// Whether the beginning of an answer says that the server is up: it holds the
/// status 200 between blanks.
pub fn healthcheck_ok(answer: &[u8]) -> (r: bool)
    ensures
        r == text::occurs_in(answer@, seq![0x20u8, 0x32u8, 0x30u8, 0x30u8, 0x20u8]),
{
    let needle: [u8; 5] = [0x20, 0x32, 0x30, 0x30, 0x20];
    assert(needle@ =~= seq![0x20u8, 0x32u8, 0x30u8, 0x30u8, 0x20u8]);
    text::bytes_contain(answer, &needle)
}

// Laws.
/// The commit that is shown is that of the build, else that of the environment;
/// it is never empty.
pub proof fn law_commit_is_shown(build: Option<&str>, runtime: Option<&str>, r: String)
    requires
        call_ensures(git_hash, (build, runtime), r),
    ensures
        build matches Some(h) ==> h@.len() > 0 ==> r@ == h@,
        build is None ==> (runtime matches Some(h) ==> h@.len() > 0 ==> r@ == h@),
        build matches Some(h) ==> h@.len() == 0 ==> r@ == "unknown"@,
        build is None && runtime is None ==> r@ == "unknown"@,
        r@.len() > 0,
{
    reveal_strlit("unknown");
    assert("unknown"@.len() == 7);
}

/// The banner names the version, the commit and the address.
pub proof fn law_banner_names_commit_and_address(hash: &str, address: &str, r: String)
    requires
        call_ensures(banner, (hash, address), r),
    ensures
        text::occurs_in(r@, hash@),
        text::occurs_in(r@, "http://"@ + address@ + "/"@),
        text::occurs_in(r@, VERSION@),
{
    reveal_strlit(") running at http://");
    reveal_strlit("http://");
    let front = "Mousehole v"@ + VERSION@ + " ("@;
    let n = front.len() as int;
    assert(r@.subrange(n, n + hash@.len()) =~= hash@);
    let m = "Mousehole v"@.len() as int;
    assert(r@.subrange(m, m + VERSION@.len()) =~= VERSION@);
    let url = "http://"@ + address@ + "/"@;
    let k = n + hash@.len() + 13;
    assert(r@.subrange(k, k + url.len()) =~= url);
}

/// The probe asks the port that is configured, where that is a number that a
/// port can have, and else the default.
pub proof fn law_probe_asks_the_configured_port(
    variable: Option<&str>,
    n: nat,
    r: u16,
)
    requires
        call_ensures(healthcheck_port, (variable,), r),
    ensures
        variable is None ==> r == 5010,
        variable matches Some(v) ==> text::trimmed(v@) == text::decimal(n) ==> r == (if n <= 65535 {
            n as int
        } else {
            5010
        }),
        variable matches Some(v) ==> text::read_unsigned(text::trimmed(v@), 65535) is None ==> r
            == 5010,
{
    text::law_numbers_are_read(n, 65535, Seq::empty());
}

/// The server is up where its answer holds the status 200 between blanks,
/// wherever that stands.
pub proof fn law_probe_wants_status_200(answer: &[u8], at: int, r: bool)
    requires
        call_ensures(healthcheck_ok, (answer,), r),
    ensures
        0 <= at && at + 5 <= answer@.len() && answer@[at] == 0x20 && answer@[at + 1] == 0x32
            && answer@[at + 2] == 0x30 && answer@[at + 3] == 0x30 && answer@[at + 4] == 0x20 ==> r,
        answer@.len() < 5 ==> !r,
        (forall|i: int| 0 <= i < answer@.len() ==> #[trigger] answer@[i] != 0x32) ==> !r,
{
    let needle = seq![0x20u8, 0x32u8, 0x30u8, 0x30u8, 0x20u8];
    if 0 <= at && at + 5 <= answer@.len() && answer@[at] == 0x20 && answer@[at + 1] == 0x32
        && answer@[at + 2] == 0x30 && answer@[at + 3] == 0x30 && answer@[at + 4] == 0x20 {
        assert(answer@.subrange(at, at + needle.len()) =~= needle);
    }
    if r {
        let i = choose|i: int|
            0 <= i <= answer@.len() - needle.len() && #[trigger] answer@.subrange(
                i,
                i + needle.len(),
            ) == needle;
        assert(answer@.subrange(i, i + needle.len())[1] == 0x32);
        assert(answer@[i + 1] == 0x32);
    }
}

} // verus!
