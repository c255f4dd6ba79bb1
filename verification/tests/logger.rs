use mousehole::logger::{debug, error, info, log, set_level, warn, LogLevel, Logger};

#[test]
fn lines_are_tagged_with_their_level() {
    let plain = Logger::new(false, false);
    assert_eq!(info(&plain, "hi").as_deref(), Some("[INFO] hi"));
    assert_eq!(warn(&plain, "hi").as_deref(), Some("[WARN] hi"));
    assert_eq!(error(&plain, "hi").as_deref(), Some("[ERROR] hi"));
    assert_eq!(debug(&plain, "hi"), None);
    let colored = Logger::new(true, false);
    assert_eq!(info(&colored, "hi").as_deref(), Some("\u{1b}[36m[INFO]\u{1b}[0m hi"));
    assert_eq!(warn(&colored, "hi").as_deref(), Some("\u{1b}[33m[WARN]\u{1b}[0m hi"));
    assert_eq!(error(&colored, "hi").as_deref(), Some("\u{1b}[31m[ERROR]\u{1b}[0m hi"));
    assert_eq!(info(&Logger::new(true, true), "hi").as_deref(), Some("[INFO] hi"));
}

#[test]
fn the_threshold_hides_what_is_below() {
    let mut logger = Logger::new(true, false);
    set_level(&mut logger, LogLevel::Debug);
    assert_eq!(debug(&logger, "x").as_deref(), Some("\u{1b}[90m[DEBUG]\u{1b}[0m x"));
    set_level(&mut logger, LogLevel::Error);
    assert_eq!(warn(&logger, "x"), None);
    assert_eq!(log(&logger, LogLevel::Info, "x"), None);
    assert!(log(&logger, LogLevel::Error, "x").is_some());
}

#[test]
fn levels_are_read_in_any_case() {
    assert_eq!(LogLevel::parse("DEBUG"), Some(LogLevel::Debug));
    assert_eq!(LogLevel::parse("Info"), Some(LogLevel::Info));
    assert_eq!(LogLevel::parse("warn"), Some(LogLevel::Warn));
    assert_eq!(LogLevel::parse("eRRor"), Some(LogLevel::Error));
    assert_eq!(LogLevel::parse("warning"), None);
    assert_eq!(LogLevel::parse(" warn"), None);
    assert_eq!(LogLevel::parse(""), None);
}
