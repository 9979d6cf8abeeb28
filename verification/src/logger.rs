//! Timestamped, colored log lines.

use std::cmp::Ordering;
use vstd::prelude::*;

use crate::outside;
use crate::outside::{local_time, TIMESTAMP_FORMAT};
use crate::text;
use crate::text::decimal_text;

verus! {

pub const RED: &'static str = "\x1b[0;31m";

pub const YELLOW: &'static str = "\x1b[0;33m";

pub const CYAN: &'static str = "\x1b[0;36m";

pub const PURPLE: &'static str = "\x1b[0;35m";

pub const RESET: &'static str = "\x1b[0m";

/// Severity of a log message, from most to least important.
#[derive(Debug, Clone, Copy, PartialEq, Eq, Ord, Structural)]
pub enum Level {
    Error,
    Warn,
    Info,
    Debug,
}

impl Level {
    /// The place of the level when levels are ordered from most to least important.
    pub open spec fn rank(self) -> int {
        match self {
            Level::Error => 0,
            Level::Warn => 1,
            Level::Info => 2,
            Level::Debug => 3,
        }
    }

    fn place(self) -> (place: u8)
        ensures
            place == self.rank(),
    {
        match self {
            Level::Error => 0,
            Level::Warn => 1,
            Level::Info => 2,
            Level::Debug => 3,
        }
    }

    /// The name of the level in a log line.
    pub open spec fn label_text(self) -> Seq<char> {
        match self {
            Level::Error => "ERROR"@,
            Level::Warn => "WARN"@,
            Level::Info => "INFO"@,
            Level::Debug => "DEBUG"@,
        }
    }

    /// The escape sequence that switches to the color of the level.
    pub open spec fn color_code(self) -> Seq<char> {
        match self {
            Level::Error => RED@,
            Level::Warn => YELLOW@,
            Level::Info => CYAN@,
            Level::Debug => PURPLE@,
        }
    }

    /// The name of the level in a log line.
    pub fn label(self) -> (label: &'static str)
        ensures
            label@ == self.label_text(),
    {
        match self {
            Level::Error => "ERROR",
            Level::Warn => "WARN",
            Level::Info => "INFO",
            Level::Debug => "DEBUG",
        }
    }

    /// The escape sequence that switches to the color of the level.
    pub fn color(self) -> (code: &'static str)
        ensures
            code@ == self.color_code(),
    {
        match self {
            Level::Error => RED,
            Level::Warn => YELLOW,
            Level::Info => CYAN,
            Level::Debug => PURPLE,
        }
    }
}

impl PartialOrd for Level {
    fn partial_cmp(&self, other: &Level) -> (result: Option<Ordering>) {
        let a: u8 = self.place();
        let b: u8 = other.place();
        if a < b {
            Some(Ordering::Less)
        } else if a == b {
            Some(Ordering::Equal)
        } else {
            Some(Ordering::Greater)
        }
    }
}

impl vstd::std_specs::cmp::PartialOrdSpecImpl for Level {
    open spec fn obeys_partial_cmp_spec() -> bool {
        true
    }

    open spec fn partial_cmp_spec(&self, other: &Level) -> Option<Ordering> {
        if self.rank() < other.rank() {
            Some(Ordering::Less)
        } else if self.rank() == other.rank() {
            Some(Ordering::Equal)
        } else {
            Some(Ordering::Greater)
        }
    }
}

/// The value of a hexadecimal digit.
pub open spec fn hex_value(c: char) -> Option<int> {
    if '0' <= c <= '9' {
        Some(c as int - '0' as int)
    } else if 'a' <= c <= 'f' {
        Some(c as int - 'a' as int + 10)
    } else if 'A' <= c <= 'F' {
        Some(c as int - 'A' as int + 10)
    } else {
        None
    }
}

/// The value of two characters: two hexadecimal digits, or a plus sign and one.
pub open spec fn hex_byte(high: char, low: char) -> Option<u8> {
    match (hex_value(high), hex_value(low)) {
        (Some(h), Some(l)) => Some((16 * h + l) as u8),
        (None, Some(l)) => if high == '+' {
            Some(l as u8)
        } else {
            None
        },
        _ => None,
    }
}

/// The color that `#` and three two-character values denote.
pub open spec fn rgb(color: Seq<char>) -> Option<(u8, u8, u8)> {
    if color.len() == 7 && color[0] == '#' {
        match (
            hex_byte(color[1], color[2]),
            hex_byte(color[3], color[4]),
            hex_byte(color[5], color[6]),
        ) {
            (Some(red), Some(green), Some(blue)) => Some((red, green, blue)),
            _ => None,
        }
    } else {
        None
    }
}

fn hex_digit(c: char) -> (value: Option<u8>)
    ensures
        match value {
            Some(v) => hex_value(c) == Some(v as int) && v < 16,
            None => hex_value(c) is None,
        },
{
    let code: u32 = c as u32;
    if '0' <= c && c <= '9' {
        Some((code - 48) as u8)
    } else if 'a' <= c && c <= 'f' {
        Some((code - 87) as u8)
    } else if 'A' <= c && c <= 'F' {
        Some((code - 55) as u8)
    } else {
        None
    }
}

fn hex_pair(high: char, low: char) -> (value: Option<u8>)
    ensures
        value == hex_byte(high, low),
{
    match (hex_digit(high), hex_digit(low)) {
        (Some(h), Some(l)) => Some(16 * h + l),
        (None, Some(l)) => if high == '+' {
            Some(l)
        } else {
            None
        },
        _ => None,
    }
}

/// The red, green and blue values of a color such as `#74ACDF`.
pub fn parse_rgb(color: &str) -> (result: Option<(u8, u8, u8)>)
    ensures
        result == rgb(color@),
{
    if color.unicode_len() != 7 || color.get_char(0) != '#' {
        return None;
    }
    match (
        hex_pair(color.get_char(1), color.get_char(2)),
        hex_pair(color.get_char(3), color.get_char(4)),
        hex_pair(color.get_char(5), color.get_char(6)),
    ) {
        (Some(red), Some(green), Some(blue)) => Some((red, green, blue)),
        _ => None,
    }
}

/// The log line for a message of a level.
pub open spec fn level_line(level: Level, timestamp: Seq<char>, message: Seq<char>) -> Seq<char> {
    prefixed_line(level.color_code(), timestamp, level.label_text(), message)
}

/// A log line: the timestamp and the source in color, then the message.
pub open spec fn prefixed_line(
    color_code: Seq<char>,
    timestamp: Seq<char>,
    source: Seq<char>,
    message: Seq<char>,
) -> Seq<char> {
    color_code + timestamp + " ["@ + source + "]:"@ + RESET@ + " "@ + message
}

/// The escape sequence for the color of a service: its own where it is a color, else cyan.
pub open spec fn service_color_code(color: Option<Seq<char>>) -> Seq<char> {
    match color {
        Some(name) => match rgb(name) {
            Some((red, green, blue)) => "\x1b[38;2;"@ + text::decimal(red as nat) + ";"@
                + text::decimal(green as nat) + ";"@ + text::decimal(blue as nat) + "m"@,
            None => CYAN@,
        },
        None => CYAN@,
    }
}

/// The text of an optional string slice.
pub open spec fn optional_text(value: Option<&str>) -> Option<Seq<char>> {
    match value {
        Some(s) => Some(s@),
        None => None,
    }
}

/// Build a log line from its parts.
pub fn format_line(color_code: &str, timestamp: &str, source: &str, message: &str) -> (line:
    String)
    ensures
        line@ == prefixed_line(color_code@, timestamp@, source@, message@),
{
    let mut line = color_code.to_owned();
    line.append(timestamp);
    line.append(" [");
    line.append(source);
    line.append("]:");
    line.append(RESET);
    line.append(" ");
    line.append(message);
    line
}

/// The escape sequence for the color of a service.
pub fn service_color(color: Option<&str>) -> (code: String)
    ensures
        code@ == service_color_code(optional_text(color)),
{
    match color {
        Some(name) => match parse_rgb(name) {
            Some((red, green, blue)) => {
                let mut code = "\x1b[38;2;".to_owned();
                code.append(decimal_text(red as u64).as_str());
                code.append(";");
                code.append(decimal_text(green as u64).as_str());
                code.append(";");
                code.append(decimal_text(blue as u64).as_str());
                code.append("m");
                code
            },
            None => CYAN.to_owned(),
        },
        None => CYAN.to_owned(),
    }
}

/// Renders messages at or above a configured level as log lines.
#[derive(Debug, Clone, Copy)]
pub struct Logger {
    level: Level,
}

impl Logger {
    /// The least important level that is logged.
    pub closed spec fn level(self) -> Level {
        self.level
    }

    /// Messages of `level` are logged.
    pub open spec fn logs(self, level: Level) -> bool {
        level.rank() <= self.level().rank()
    }

    /// `line` is what a message of `level` becomes at some time of day: nothing where the level is
    /// not logged, else its log line.
    pub open spec fn renders(self, level: Level, message: Seq<char>, line: Option<String>) -> bool {
        match line {
            Some(text) => self.logs(level) && exists|timestamp: Seq<char>| #[trigger]
                outside::is_timestamp(timestamp) && text@ == level_line(level, timestamp, message),
            None => !self.logs(level),
        }
    }

    /// Create a logger that drops messages below `level`.
    #[must_use]
    pub fn new(level: Level) -> (logger: Self)
        ensures
            logger.level() == level,
    {
        Self { level }
    }

    /// The log line of an error message.
    pub fn error(&self, message: &str) -> (line: Option<String>)
        ensures
            self.renders(Level::Error, message@, line),
    {
        self.log(Level::Error, message)
    }

    /// The log line of a warning message.
    pub fn warn(&self, message: &str) -> (line: Option<String>)
        ensures
            self.renders(Level::Warn, message@, line),
    {
        self.log(Level::Warn, message)
    }

    /// The log line of an informational message.
    pub fn info(&self, message: &str) -> (line: Option<String>)
        ensures
            self.renders(Level::Info, message@, line),
    {
        self.log(Level::Info, message)
    }

    /// The log line of a debug message.
    pub fn debug(&self, message: &str) -> (line: Option<String>)
        ensures
            self.renders(Level::Debug, message@, line),
    {
        self.log(Level::Debug, message)
    }

    /// The log line of an informational message with `service` in place of the severity label.
    pub fn service(&self, service: &str, color: Option<&str>, message: &str) -> (line: Option<
        String,
    >)
        ensures
            match line {
                Some(text) => self.logs(Level::Info) && exists|timestamp: Seq<char>| #[trigger]
                    outside::is_timestamp(timestamp) && text@ == prefixed_line(
                        service_color_code(optional_text(color)),
                        timestamp,
                        service@,
                        message@,
                    ),
                None => !self.logs(Level::Info),
            },
    {
        if Level::Info > self.level {
            return None;
        }
        let timestamp = local_time(TIMESTAMP_FORMAT);
        self.service_at(service, color, message, timestamp.as_str())
    }

    /// The log line of a message of a service at a given time.
    pub fn service_at(
        &self,
        service: &str,
        color: Option<&str>,
        message: &str,
        timestamp: &str,
    ) -> (line: Option<String>)
        ensures
            match line {
                Some(text) => self.logs(Level::Info) && text@ == prefixed_line(
                    service_color_code(optional_text(color)),
                    timestamp@,
                    service@,
                    message@,
                ),
                None => !self.logs(Level::Info),
            },
    {
        if Level::Info > self.level {
            return None;
        }
        let code = service_color(color);
        Some(format_line(code.as_str(), timestamp, service, message))
    }

    fn log(self, level: Level, message: &str) -> (line: Option<String>)
        ensures
            self.renders(level, message@, line),
    {
        if level > self.level {
            return None;
        }
        let timestamp = local_time(TIMESTAMP_FORMAT);
        self.log_at(level, message, timestamp.as_str())
    }

    /// The log line of a message of `level` at a given time.
    pub fn log_at(&self, level: Level, message: &str, timestamp: &str) -> (line: Option<String>)
        ensures
            match line {
                Some(text) => self.logs(level) && text@ == level_line(level, timestamp@, message@),
                None => !self.logs(level),
            },
    {
        if level > self.level {
            return None;
        }
        Some(format_line(level.color(), timestamp, level.label(), message))
    }
}

/// A level is logged together with every level that is more important.
pub proof fn lemma_more_important_levels_are_logged(logger: Logger, level: Level, other: Level)
    requires
        logger.logs(level),
        other.rank() <= level.rank(),
    ensures
        logger.logs(other),
{
}

/// Errors are always logged.
pub proof fn lemma_errors_are_logged(logger: Logger)
    ensures
        logger.logs(Level::Error),
{
}

} // verus!
