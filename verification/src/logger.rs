//! The logger's decision logic: which records are kept, and the stored
//! message record. The host-facing sink (the global logger object, its lock,
//! and console output) is ordinary glue around this.

use vstd::prelude::*;

verus! {

/// The severity of a log record, most severe first.
#[derive(Debug, Clone, Copy, PartialEq, Eq, Structural)]
pub enum LogLevel {
    Error,
    Warn,
    Info,
    Debug,
    Trace,
}

impl LogLevel {
    /// The numeric severity rank: lower is more severe.
    pub open spec fn rank(self) -> nat {
        match self {
            LogLevel::Error => 0,
            LogLevel::Warn => 1,
            LogLevel::Info => 2,
            LogLevel::Debug => 3,
            LogLevel::Trace => 4,
        }
    }

    /// Whether this level is at least as severe as another.
    pub fn at_least(&self, other: &LogLevel) -> (r: bool)
        ensures
            r == (self.rank() <= other.rank()),
    {
        self.rank_code() <= other.rank_code()
    }

    /// Returns the numeric severity rank.
    fn rank_code(&self) -> (r: u8)
        ensures
            r == self.rank(),
    {
        match self {
            LogLevel::Error => 0,
            LogLevel::Warn => 1,
            LogLevel::Info => 2,
            LogLevel::Debug => 3,
            LogLevel::Trace => 4,
        }
    }
}

/// One kept log record: its severity and its rendered message.
#[derive(Debug)]
pub struct LoggerMessage {
    pub level: LogLevel,
    pub message: String,
}

impl LoggerMessage {
    /// Builds a record from a severity and a rendered message.
    pub fn new(level: LogLevel, message: String) -> (r: Self)
        ensures
            r.level == level,
            r.message@ == message@,
    {
        Self { level, message }
    }

    /// The record's severity.
    pub fn level(&self) -> (r: LogLevel)
        ensures
            r == self.level,
    {
        self.level
    }

    /// The record's rendered message.
    pub fn message(&self) -> (r: &String)
        ensures
            r@ == self.message@,
    {
        &self.message
    }
}

/// Whether a module path begins with the graphics backend's prefix, whose
/// chatter is kept only at warning severity or above.
pub open spec fn targets_gfx_backend(t: Seq<char>) -> bool {
    t.len() >= 4 && t.subrange(0, 4) == "wgpu"@
}

/// Whether a record is kept: everything, except low-severity chatter from
/// the graphics backend.
pub open spec fn spec_enabled(target: Seq<char>, level: LogLevel) -> bool {
    !targets_gfx_backend(target) || level.rank() <= LogLevel::Warn.rank()
}

/// Decides whether a record is kept, exactly as [`spec_enabled`].
pub fn enabled(target: &str, level: &LogLevel) -> (r: bool)
    ensures
        r == spec_enabled(target@, *level),
{
    if level.at_least(&LogLevel::Warn) {
        return true;
    }
    if target.unicode_len() < 4 {
        return true;
    }
    let head = target.substring_char(0, 4);
    !crate::wire::str_eq(head, "wgpu")
}

/// The message sink: the records that were kept, in arrival order.
#[derive(Debug)]
pub struct Logger {
    messages: Vec<LoggerMessage>,
}

impl Logger {
    /// The kept records.
    pub closed spec fn records(self) -> Seq<LoggerMessage> {
        self.messages@
    }

    /// An empty sink.
    pub fn new() -> (r: Self)
        ensures
            r.records() == Seq::<LoggerMessage>::empty(),
    {
        Self { messages: Vec::new() }
    }

    /// Keeps one record when its target and severity pass the filter, and
    /// drops it otherwise.
    pub fn log(&mut self, target: &str, level: LogLevel, message: String)
        ensures
            spec_enabled(target@, level) ==> final(self).records() == old(self).records().push(
                LoggerMessage { level, message },
            ),
            !spec_enabled(target@, level) ==> final(self).records() == old(self).records(),
    {
        if enabled(target, &level) {
            self.messages.push(LoggerMessage { level, message });
        }
    }

    /// How many records were kept.
    pub fn len(&self) -> (r: usize)
        ensures
            r == self.records().len(),
    {
        self.messages.len()
    }

    /// One kept record, by position.
    pub fn at(&self, i: usize) -> (r: &LoggerMessage)
        requires
            i < self.records().len(),
        ensures
            *r == self.records()[i as int],
    {
        &self.messages[i]
    }
}

} // verus!
