//! Log lines: `[LEVEL] message`, dropped below a threshold, with an ANSI
//! colour on the prefix where the terminal takes one. The caller prints what
//! comes back.

use crate::text;
use vstd::prelude::*;

verus! {

#[derive(Debug, Clone, Copy, PartialEq, Eq, Structural)]
pub enum LogLevel {
    Debug,
    Info,
    Warn,
    Error,
}

/// Where log lines go through: what is shown, and how.
#[derive(Debug, Clone, Copy, PartialEq, Eq, Structural)]
pub struct Logger {
    pub threshold: LogLevel,
    pub color: bool,
}

impl LogLevel {
    /// Severity, most verbose first.
    pub open spec fn severity(self) -> int {
        match self {
            LogLevel::Debug => 2,
            LogLevel::Info => 3,
            LogLevel::Warn => 4,
            LogLevel::Error => 5,
        }
    }

    pub open spec fn name(self) -> Seq<char> {
        match self {
            LogLevel::Debug => "DEBUG"@,
            LogLevel::Info => "INFO"@,
            LogLevel::Warn => "WARN"@,
            LogLevel::Error => "ERROR"@,
        }
    }

    pub open spec fn color_code(self) -> Seq<char> {
        match self {
            LogLevel::Debug => "\x1b[90m"@,
            LogLevel::Info => "\x1b[36m"@,
            LogLevel::Warn => "\x1b[33m"@,
            LogLevel::Error => "\x1b[31m"@,
        }
    }
}

/// The level that a configured name stands for, whatever its case.
pub open spec fn named_level(name: Seq<char>) -> Option<LogLevel> {
    let lower = text::ascii_lower_all(name);
    if lower == "debug"@ {
        Some(LogLevel::Debug)
    } else if lower == "info"@ {
        Some(LogLevel::Info)
    } else if lower == "warn"@ {
        Some(LogLevel::Warn)
    } else if lower == "error"@ {
        Some(LogLevel::Error)
    } else {
        None
    }
}

/// The line that a message becomes.
pub open spec fn log_line(color: bool, level: LogLevel, message: Seq<char>) -> Seq<char> {
    if color {
        level.color_code() + "["@ + level.name() + "]\x1b[0m "@ + message
    } else {
        "["@ + level.name() + "] "@ + message
    }
}

/// What a logger prints for a message: a line at or above the threshold,
/// nothing below it.
pub open spec fn logged(logger: Logger, level: LogLevel, message: Seq<char>) -> Option<Seq<char>> {
    if level.severity() < logger.threshold.severity() {
        None
    } else {
        Some(log_line(logger.color, level, message))
    }
}

proof fn lemma_level_names_are_lower()
    ensures
        text::ascii_lower_all("debug"@) == "debug"@,
        text::ascii_lower_all("info"@) == "info"@,
        text::ascii_lower_all("warn"@) == "warn"@,
        text::ascii_lower_all("error"@) == "error"@,
{
    reveal_strlit("debug");
    reveal_strlit("info");
    reveal_strlit("warn");
    reveal_strlit("error");
    assert(text::ascii_lower_all("debug"@) =~= "debug"@);
    assert(text::ascii_lower_all("info"@) =~= "info"@);
    assert(text::ascii_lower_all("warn"@) =~= "warn"@);
    assert(text::ascii_lower_all("error"@) =~= "error"@);
}

impl LogLevel {
    pub fn parse(s: &str) -> (r: Option<Self>)
        ensures
            r == named_level(s@),
    {
        proof {
            lemma_level_names_are_lower();
        }
        if text::eq_ignore_ascii_case(s, "debug") {
            Some(LogLevel::Debug)
        } else if text::eq_ignore_ascii_case(s, "info") {
            Some(LogLevel::Info)
        } else if text::eq_ignore_ascii_case(s, "warn") {
            Some(LogLevel::Warn)
        } else if text::eq_ignore_ascii_case(s, "error") {
            Some(LogLevel::Error)
        } else {
            None
        }
    }

    fn label(self) -> (r: &'static str)
        ensures
            r@ == self.name(),
    {
        match self {
            LogLevel::Debug => "DEBUG",
            LogLevel::Info => "INFO",
            LogLevel::Warn => "WARN",
            LogLevel::Error => "ERROR",
        }
    }

    fn color(self) -> (r: &'static str)
        ensures
            r@ == self.color_code(),
    {
        match self {
            LogLevel::Debug => "\x1b[90m",
            LogLevel::Info => "\x1b[36m",
            LogLevel::Warn => "\x1b[33m",
            LogLevel::Error => "\x1b[31m",
        }
    }

    fn rank(self) -> (r: u8)
        ensures
            r == self.severity(),
    {
        match self {
            LogLevel::Debug => 2,
            LogLevel::Info => 3,
            LogLevel::Warn => 4,
            LogLevel::Error => 5,
        }
    }
}

impl Logger {
    /// A logger as it is before configuration resolves: from `info` on, with
    /// colour on a terminal unless `NO_COLOR` is present, even empty.
    pub fn new(stdout_is_terminal: bool, no_color_present: bool) -> (r: Logger)
        ensures
            r.threshold == LogLevel::Info,
            r.color == (stdout_is_terminal && !no_color_present),
    {
        Logger {
            threshold: LogLevel::Info,
            color: use_color(stdout_is_terminal, no_color_present),
        }
    }
}

fn use_color(stdout_is_terminal: bool, no_color_present: bool) -> (r: bool)
    ensures
        r == (stdout_is_terminal && !no_color_present),
{
    stdout_is_terminal && !no_color_present
}

pub fn set_level(logger: &mut Logger, level: LogLevel)
    ensures
        final(logger).threshold == level,
        final(logger).color == old(logger).color,
{
    logger.threshold = level;
}

pub fn log(logger: &Logger, level: LogLevel, message: &str) -> (r: Option<String>)
    ensures
        r.deep_view() == logged(*logger, level, message@),
{
    if level.rank() < logger.threshold.rank() {
        return None;
    }
    let line = if logger.color {
        level.color().to_owned().concat("[").concat(level.label()).concat("]\x1b[0m ").concat(
            message,
        )
    } else {
        "[".to_owned().concat(level.label()).concat("] ").concat(message)
    };
    Some(line)
}

pub fn debug(logger: &Logger, message: &str) -> (r: Option<String>)
    ensures
        r.deep_view() == logged(*logger, LogLevel::Debug, message@),
{
    log(logger, LogLevel::Debug, message)
}

pub fn info(logger: &Logger, message: &str) -> (r: Option<String>)
    ensures
        r.deep_view() == logged(*logger, LogLevel::Info, message@),
{
    log(logger, LogLevel::Info, message)
}

pub fn warn(logger: &Logger, message: &str) -> (r: Option<String>)
    ensures
        r.deep_view() == logged(*logger, LogLevel::Warn, message@),
{
    log(logger, LogLevel::Warn, message)
}

pub fn error(logger: &Logger, message: &str) -> (r: Option<String>)
    ensures
        r.deep_view() == logged(*logger, LogLevel::Error, message@),
{
    log(logger, LogLevel::Error, message)
}

/// Raising the threshold never shows more: what a stricter logger prints, a
/// more verbose one prints too, in the same words.
pub proof fn law_threshold_is_monotone(
    strict: Logger,
    verbose: Logger,
    level: LogLevel,
    message: Seq<char>,
)
    requires
        verbose.threshold.severity() <= strict.threshold.severity(),
        verbose.color == strict.color,
    ensures
        logged(strict, level, message) is Some ==> logged(verbose, level, message) == logged(
            strict,
            level,
            message,
        ),
{
}

/// A message is printed exactly where its level is not below the threshold, by
/// the order debug, info, warn, error; and as the level in brackets, a blank and
/// the message, with the level's colour around the brackets alone.
pub proof fn law_lines_are_tagged(
    logger: &Logger,
    level: LogLevel,
    message: &str,
    r: Option<String>,
)
    requires
        call_ensures(log, (logger, level, message), r),
    ensures
        ({
            let tag = match level {
                LogLevel::Debug => "[DEBUG]"@,
                LogLevel::Info => "[INFO]"@,
                LogLevel::Warn => "[WARN]"@,
                LogLevel::Error => "[ERROR]"@,
            };
            let code = match level {
                LogLevel::Debug => "\x1b[90m"@,
                LogLevel::Info => "\x1b[36m"@,
                LogLevel::Warn => "\x1b[33m"@,
                LogLevel::Error => "\x1b[31m"@,
            };
            &&& r is Some <==> match logger.threshold {
                LogLevel::Debug => true,
                LogLevel::Info => level != LogLevel::Debug,
                LogLevel::Warn => level == LogLevel::Warn || level == LogLevel::Error,
                LogLevel::Error => level == LogLevel::Error,
            }
            &&& r matches Some(line) ==> {
                &&& !logger.color ==> line@ == tag + " "@ + message@
                &&& logger.color ==> line@ == code + tag + "\x1b[0m "@ + message@
            }
        }),
{
    reveal_strlit("[DEBUG]");
    reveal_strlit("[INFO]");
    reveal_strlit("[WARN]");
    reveal_strlit("[ERROR]");
    reveal_strlit("DEBUG");
    reveal_strlit("INFO");
    reveal_strlit("WARN");
    reveal_strlit("ERROR");
    reveal_strlit("[");
    reveal_strlit("] ");
    reveal_strlit(" ");
    reveal_strlit("]\x1b[0m ");
    reveal_strlit("\x1b[0m ");
    let tag = match level {
        LogLevel::Debug => "[DEBUG]"@,
        LogLevel::Info => "[INFO]"@,
        LogLevel::Warn => "[WARN]"@,
        LogLevel::Error => "[ERROR]"@,
    };
    assert("["@ + level.name() + "] "@ =~= tag + " "@);
    let code = level.color_code();
    assert(code + "["@ + level.name() + "]\x1b[0m "@ + message@ =~= code + tag + "\x1b[0m "@
        + message@);
}

/// Each level has its own way of logging, which is that of its level.
pub proof fn law_levels_log_as_themselves(
    logger: &Logger,
    message: &str,
    level: LogLevel,
    r: Option<String>,
    by_debug: Option<String>,
    by_info: Option<String>,
    by_warn: Option<String>,
    by_error: Option<String>,
)
    requires
        call_ensures(log, (logger, level, message), r),
        call_ensures(debug, (logger, message), by_debug),
        call_ensures(info, (logger, message), by_info),
        call_ensures(warn, (logger, message), by_warn),
        call_ensures(error, (logger, message), by_error),
    ensures
        r.deep_view() == match level {
            LogLevel::Debug => by_debug.deep_view(),
            LogLevel::Info => by_info.deep_view(),
            LogLevel::Warn => by_warn.deep_view(),
            LogLevel::Error => by_error.deep_view(),
        },
{
}

/// A level goes by its name in whatever case, and by no other.
pub proof fn law_levels_go_by_their_names(s: &str, r: Option<LogLevel>)
    requires
        call_ensures(LogLevel::parse, (s,), r),
    ensures
        ({
            let name = text::ascii_lower_all(s@);
            &&& r == Some(LogLevel::Debug) <==> name == "debug"@
            &&& r == Some(LogLevel::Info) <==> name == "info"@
            &&& r == Some(LogLevel::Warn) <==> name == "warn"@
            &&& r == Some(LogLevel::Error) <==> name == "error"@
        }),
{
    reveal_strlit("debug");
    reveal_strlit("info");
    reveal_strlit("warn");
    reveal_strlit("error");
    assert("debug"@.len() == 5 && "info"@.len() == 4 && "warn"@.len() == 4 && "error"@.len() == 5);
    assert("debug"@[0] == 'd' && "error"@[0] == 'e' && "info"@[0] == 'i' && "warn"@[0] == 'w');
}

/// A logger starts from `info`, with colour on a terminal unless that is turned
/// off, and a change of its level changes nothing else.
pub proof fn law_logger_as_set(
    stdout_is_terminal: bool,
    no_color_present: bool,
    fresh: Logger,
    logger: &mut Logger,
    level: LogLevel,
)
    requires
        call_ensures(Logger::new, (stdout_is_terminal, no_color_present), fresh),
        call_ensures(set_level, (logger, level), ()),
    ensures
        fresh.threshold == LogLevel::Info,
        fresh.color <==> stdout_is_terminal && !no_color_present,
        final(logger).threshold == level,
        final(logger).color == old(logger).color,
{
}

} // verus!
