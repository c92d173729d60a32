//! Syslog protocol values: severity, facility and the priority that combines
//! them.

use vstd::prelude::*;

pub mod header;

verus! {

/// Log importance, from most (0) to least (7) severe.
#[allow(non_camel_case_types)]
#[derive(Copy, Clone, Debug, PartialEq, Eq, Structural)]
pub enum Severity {
    /// system is unusable
    LOG_EMERG,
    /// action must be taken immediately
    LOG_ALERT,
    /// critical conditions
    LOG_CRIT,
    /// error conditions
    LOG_ERR,
    /// warning conditions
    LOG_WARNING,
    /// normal but significant condition
    LOG_NOTICE,
    /// informational
    LOG_INFO,
    /// debug-level messages
    LOG_DEBUG,
}

/// Facility code, indicating the source of a log record.
#[allow(non_camel_case_types)]
#[derive(Copy, Clone, Debug, PartialEq, Eq, Structural)]
pub enum Facility {
    /// Kernel
    LOG_KERN,
    /// User space application (default)
    LOG_USER,
    /// Mail system
    LOG_MAIL,
    /// System daemon
    LOG_DAEMON,
    /// Security
    LOG_AUTH,
    /// Internal syslogd
    LOG_SYSLOG,
    /// Line printer
    LOG_LPR,
    /// News
    LOG_NEWS,
    /// Unix-to-Unix Copy
    LOG_UUCP,
    /// Cron daemon
    LOG_CRON,
    /// Security (private)
    LOG_AUTHPRIV,
    /// FTP daemon
    LOG_FTP,
    /// Reserved for local use
    LOG_LOCAL0,
    /// Reserved for local use
    LOG_LOCAL1,
    /// Reserved for local use
    LOG_LOCAL2,
    /// Reserved for local use
    LOG_LOCAL3,
    /// Reserved for local use
    LOG_LOCAL4,
    /// Reserved for local use
    LOG_LOCAL5,
    /// Reserved for local use
    LOG_LOCAL6,
    /// Reserved for local use
    LOG_LOCAL7,
}

/// Level of a record as logging facades name it, most severe first.
#[derive(Copy, Clone, Debug, PartialEq, Eq, Structural)]
pub enum LogLevel {
    /// Serious errors
    Error,
    /// Hazardous situations
    Warn,
    /// Useful information
    Info,
    /// Lower priority information
    Debug,
    /// Very low priority, often extremely verbose, information
    Trace,
}

impl Severity {
    /// Ordinal of the severity, 0 to 7.
    pub open spec fn level(self) -> nat {
        match self {
            Severity::LOG_EMERG => 0,
            Severity::LOG_ALERT => 1,
            Severity::LOG_CRIT => 2,
            Severity::LOG_ERR => 3,
            Severity::LOG_WARNING => 4,
            Severity::LOG_NOTICE => 5,
            Severity::LOG_INFO => 6,
            Severity::LOG_DEBUG => 7,
        }
    }

    /// Priority of a record of this severity logged by `fac`.
    pub open spec fn spec_priority(self, fac: Facility) -> nat {
        fac.number() * 8 + self.level()
    }

    /// Severity that a facade level is logged with.
    pub open spec fn of_level(level: LogLevel) -> Severity {
        match level {
            LogLevel::Error => Severity::LOG_ERR,
            LogLevel::Warn => Severity::LOG_WARNING,
            LogLevel::Info => Severity::LOG_NOTICE,
            LogLevel::Debug => Severity::LOG_INFO,
            LogLevel::Trace => Severity::LOG_DEBUG,
        }
    }

    /// Numeric code of the severity.
    pub fn code(self) -> (c: u8)
        ensures
            c == self.level(),
    {
        match self {
            Severity::LOG_EMERG => 0,
            Severity::LOG_ALERT => 1,
            Severity::LOG_CRIT => 2,
            Severity::LOG_ERR => 3,
            Severity::LOG_WARNING => 4,
            Severity::LOG_NOTICE => 5,
            Severity::LOG_INFO => 6,
            Severity::LOG_DEBUG => 7,
        }
    }

    /// Encodes severity into priority with corresponding facility.
    pub fn priority(self, fac: Facility) -> (pri: u8)
        ensures
            pri == self.spec_priority(fac),
            pri / 8 == fac.number(),
            pri % 8 == self.level(),
    {
        let f: u8 = fac.code();
        let s: u8 = self.code();
        assert(f | s == f + s) by (bit_vector)
            requires
                f % 8 == 0,
                f <= 184,
                s < 8,
        ;
        f | s
    }

    /// Maps a facade level onto the severity it is logged with.
    pub fn from_level(level: LogLevel) -> (s: Severity)
        ensures
            s == Severity::of_level(level),
    {
        match level {
            LogLevel::Error => Severity::LOG_ERR,
            LogLevel::Warn => Severity::LOG_WARNING,
            LogLevel::Info => Severity::LOG_NOTICE,
            LogLevel::Debug => Severity::LOG_INFO,
            LogLevel::Trace => Severity::LOG_DEBUG,
        }
    }
}

impl Facility {
    /// Number of the facility, before it is shifted into the priority.
    pub open spec fn number(self) -> nat {
        match self {
            Facility::LOG_KERN => 0,
            Facility::LOG_USER => 1,
            Facility::LOG_MAIL => 2,
            Facility::LOG_DAEMON => 3,
            Facility::LOG_AUTH => 4,
            Facility::LOG_SYSLOG => 5,
            Facility::LOG_LPR => 6,
            Facility::LOG_NEWS => 7,
            Facility::LOG_UUCP => 8,
            Facility::LOG_CRON => 9,
            Facility::LOG_AUTHPRIV => 10,
            Facility::LOG_FTP => 11,
            Facility::LOG_LOCAL0 => 16,
            Facility::LOG_LOCAL1 => 17,
            Facility::LOG_LOCAL2 => 18,
            Facility::LOG_LOCAL3 => 19,
            Facility::LOG_LOCAL4 => 20,
            Facility::LOG_LOCAL5 => 21,
            Facility::LOG_LOCAL6 => 22,
            Facility::LOG_LOCAL7 => 23,
        }
    }

    /// Code of the facility as it stands in a priority: its number times 8.
    pub fn code(self) -> (c: u8)
        ensures
            c == self.number() * 8,
            c % 8 == 0,
            c <= 184,
    {
        match self {
            Facility::LOG_KERN => 0,
            Facility::LOG_USER => 8,
            Facility::LOG_MAIL => 16,
            Facility::LOG_DAEMON => 24,
            Facility::LOG_AUTH => 32,
            Facility::LOG_SYSLOG => 40,
            Facility::LOG_LPR => 48,
            Facility::LOG_NEWS => 56,
            Facility::LOG_UUCP => 64,
            Facility::LOG_CRON => 72,
            Facility::LOG_AUTHPRIV => 80,
            Facility::LOG_FTP => 88,
            Facility::LOG_LOCAL0 => 128,
            Facility::LOG_LOCAL1 => 136,
            Facility::LOG_LOCAL2 => 144,
            Facility::LOG_LOCAL3 => 152,
            Facility::LOG_LOCAL4 => 160,
            Facility::LOG_LOCAL5 => 168,
            Facility::LOG_LOCAL6 => 176,
            Facility::LOG_LOCAL7 => 184,
        }
    }
}

impl Default for Facility {
    fn default() -> (f: Self)
        ensures
            f == Facility::LOG_USER,
    {
        Facility::LOG_USER
    }
}

} // verus!
