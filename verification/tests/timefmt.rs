use mousehole::timefmt::{now_zoned, parse_wire, plus_seconds, to_wire};

#[test]
fn wire_form_has_bracketed_zone() {
    let z = parse_wire("2026-08-18T09:05:00.123-05:00[America/Chicago]").unwrap();
    let s = to_wire(&z);
    assert!(s.contains("[America/Chicago]"), "{s}");
    assert!(s.starts_with("2026-08-18T09:05:00.123-05:00"), "{s}");
    // round-trip
    assert_eq!(parse_wire(&s).unwrap(), z);
}

fn nanoseconds(seconds: f64) -> i64 {
    (seconds * 1e9) as i64
}

#[test]
fn plus_seconds_advances_and_keeps_zone() {
    let z = parse_wire("2026-08-18T09:00:00-05:00[America/Chicago]").unwrap();
    let later = plus_seconds(&z, nanoseconds(300.0)).unwrap();
    assert_eq!(to_wire(&later), "2026-08-18T09:05:00-05:00[America/Chicago]");
    let frac = plus_seconds(&z, nanoseconds(0.5)).unwrap();
    assert!(to_wire(&frac).starts_with("2026-08-18T09:00:00.5"));
}

#[test]
fn time_zone_rules_apply_across_a_change() {
    let z = parse_wire("2026-11-01T01:30:00-05:00[America/Chicago]").unwrap();
    let later = plus_seconds(&z, nanoseconds(3600.0)).unwrap();
    assert_eq!(to_wire(&later), "2026-11-01T01:30:00-06:00[America/Chicago]");
}

#[test]
fn now_is_bracketed_and_reads_back() {
    let s = to_wire(&now_zoned());
    assert!(s.ends_with(']') && s.contains('['), "{s}");
    assert_eq!(to_wire(&parse_wire(&s).unwrap()), s);
}

#[test]
fn what_is_no_timestamp_is_refused_in_words() {
    assert!(!parse_wire("yesterday").unwrap_err().is_empty());
    assert!(parse_wire("2026-08-18T09:00:00-05:00").is_err());
}

#[test]
fn beyond_the_range_of_timestamps_there_is_none() {
    let z = parse_wire("9999-12-30T00:00:00+00:00[UTC]").unwrap();
    assert!(plus_seconds(&z, i64::MAX).is_none());
}
