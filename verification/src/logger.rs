//! Log levels, level filters and the text of log lines.

use std::sync::Arc;

use vstd::prelude::*;
use vstd::string::*;

use crate::text::join3;

verus! {

/// Log levels, ordered by increasing severity.
#[derive(Debug, Clone, Copy, PartialEq, Eq, PartialOrd, Ord, Structural)]
pub enum LogLevel {
    Debug,
    Info,
    Warn,
    Error,
}

impl LogLevel {
    /// The name of a level.
    pub open spec fn text(self) -> Seq<char> {
        match self {
            LogLevel::Debug => "DEBUG"@,
            LogLevel::Info => "INFO"@,
            LogLevel::Warn => "WARN"@,
            LogLevel::Error => "ERROR"@,
        }
    }

    pub fn as_str(self) -> (res: &'static str)
        ensures
            res@ == self.text(),
            match self {
                LogLevel::Debug => res@ == "DEBUG"@,
                LogLevel::Info => res@ == "INFO"@,
                LogLevel::Warn => res@ == "WARN"@,
                LogLevel::Error => res@ == "ERROR"@,
            },
    {
        match self {
            LogLevel::Debug => "DEBUG",
            LogLevel::Info => "INFO",
            LogLevel::Warn => "WARN",
            LogLevel::Error => "ERROR",
        }
    }

    /// Severity as a number, the least severe level being 0.
    pub open spec fn severity(self) -> u8 {
        match self {
            LogLevel::Debug => 0u8,
            LogLevel::Info => 1u8,
            LogLevel::Warn => 2u8,
            LogLevel::Error => 3u8,
        }
    }

    pub fn rank(self) -> (res: u8)
        ensures
            res == self.severity(),
    {
        match self {
            LogLevel::Debug => 0u8,
            LogLevel::Info => 1u8,
            LogLevel::Warn => 2u8,
            LogLevel::Error => 3u8,
        }
    }
}

/// The logger service contract.
pub trait Logger: Send + Sync + 'static {
    fn log(&self, level: LogLevel, message: String);

    /// Structured record; folded into [`Logger::log`] unless overridden.
    fn log_event(&self, level: LogLevel, event: String, code: Option<String>, message: String) {
        let line: String = event_line(event.as_str(), &code, message.as_str());
        self.log(level, line)
    }
}

/// The text of a structured record: the event in brackets, the message, and
/// the code in parentheses where there is one.
pub open spec fn event_text(event: Seq<char>, code: Option<Seq<char>>, message: Seq<char>) -> Seq<
    char,
> {
    match code {
        Some(c) => "["@ + event + "] "@ + message + (" ("@ + c + ")"@),
        None => "["@ + event + "] "@ + message,
    }
}

pub fn event_line(event: &str, code: &Option<String>, message: &str) -> (res: String)
    ensures
        res@ == event_text(
            event@,
            match *code {
                Some(c) => Some(c@),
                None => None,
            },
            message@,
        ),
        match *code {
            Some(c) => res@ == "["@ + event@ + "] "@ + message@ + (" ("@ + c@ + ")"@),
            None => res@ == "["@ + event@ + "] "@ + message@,
        },
{
    let mut res: String = join3("[", event, "] ");
    res.append(message);
    if let Some(c) = code {
        let tail: String = join3(" (", c.as_str(), ")");
        res.append(tail.as_str());
    }
    res
}

/// Minimum level filter shared by default loggers.
#[derive(Debug)]
pub struct LevelFilter(pub u8);

impl LevelFilter {
    pub fn new(min: LogLevel) -> (res: LevelFilter)
        ensures
            res.0 == min.severity(),
    {
        LevelFilter(min.rank())
    }

    /// Whether a record of `level` passes: it is at least as severe as the
    /// minimum.
    pub fn allows(&self, level: LogLevel) -> (res: bool)
        ensures
            res == (self.0 <= level.severity()),
    {
        self.0 <= level.rank()
    }
}

/// Line logger used by the root context out of the box.
pub struct DefaultLogger {
    pub filter: LevelFilter,
}

impl DefaultLogger {
    /// A logger that drops what is less severe than `Info`.
    pub fn new() -> (res: DefaultLogger)
        ensures
            res.filter.0 == LogLevel::Info.severity(),
    {
        DefaultLogger { filter: LevelFilter::new(LogLevel::Info) }
    }

    pub fn with_min_level(min: LogLevel) -> (res: DefaultLogger)
        ensures
            res.filter.0 == min.severity(),
    {
        DefaultLogger { filter: LevelFilter::new(min) }
    }

    /// The line to print for a record, or nothing where the filter drops it.
    pub fn line(&self, level: LogLevel, message: &str) -> (res: Option<String>)
        ensures
            match res {
                Some(line) => self.filter.0 <= level.severity() && line@ == "["@ + level.text()
                    + "] "@ + message@,
                None => level.severity() < self.filter.0,
            },
    {
        if !self.filter.allows(level) {
            return None;
        }
        let mut line: String = join3("[", level.as_str(), "] ");
        line.append(message);
        Some(line)
    }
}

impl Default for DefaultLogger {
    fn default() -> (res: DefaultLogger)
        ensures
            res.filter.0 == LogLevel::Info.severity(),
    {
        DefaultLogger::new()
    }
}

/// Logger object stored as a service value.
pub struct LoggerHandle(pub Arc<dyn Logger>);

/// Levels are ordered by severity: debug, info, warning, error. So a filter that
/// lets a level pass lets every more severe one pass, and one that drops a
/// level drops every less severe one.
pub proof fn law_levels_are_ordered(level: LogLevel, other: LogLevel, filter: LevelFilter)
    ensures
        LogLevel::Debug.severity() < LogLevel::Info.severity(),
        LogLevel::Info.severity() < LogLevel::Warn.severity(),
        LogLevel::Warn.severity() < LogLevel::Error.severity(),
        level.severity() == other.severity() <==> level == other,
        filter.0 <= level.severity() && level.severity() <= other.severity() ==> filter.0
            <= other.severity(),
{
}

} // verus!
