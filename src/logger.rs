use vstd::prelude::*;
use vstd::string::*;

verus! {

/// Severity of a log message, from least to most severe.
#[derive(Debug, Clone, Copy, PartialEq, Eq, Structural)]
pub enum LogLevel {
    Debug,
    Info,
    Warning,
    Error,
}

impl LogLevel {
    /// Position of the level in the order of severity.
    pub open spec fn rank(self) -> nat {
        match self {
            LogLevel::Debug => 0,
            LogLevel::Info => 1,
            LogLevel::Warning => 2,
            LogLevel::Error => 3,
        }
    }

    /// The level's name as it appears in a log line.
    pub open spec fn label(self) -> Seq<char> {
        match self {
            LogLevel::Debug => "Debug"@,
            LogLevel::Info => "Info"@,
            LogLevel::Warning => "Warning"@,
            LogLevel::Error => "Error"@,
        }
    }

    fn severity(&self) -> (r: u8)
        ensures
            r == self.rank(),
    {
        match self {
            LogLevel::Debug => 0,
            LogLevel::Info => 1,
            LogLevel::Warning => 2,
            LogLevel::Error => 3,
        }
    }

    fn name(&self) -> (r: &'static str)
        ensures
            r@ == self.label(),
    {
        match self {
            LogLevel::Debug => "Debug",
            LogLevel::Info => "Info",
            LogLevel::Warning => "Warning",
            LogLevel::Error => "Error",
        }
    }
}

/// The line recorded for `message` at `level`: the level in brackets, then the message.
pub open spec fn log_line(level: LogLevel, message: Seq<char>) -> Seq<char> {
    "["@ + level.label() + "] "@ + message
}

/// A logger that keeps the lines of the messages at or above its level.
#[derive(Debug)]
pub struct Logger {
    logs: Vec<String>,
    level: LogLevel,
}

impl Logger {
    /// The lines recorded so far, oldest first.
    pub closed spec fn lines(&self) -> Seq<Seq<char>> {
        self.logs@.map_values(|s: String| s@)
    }

    pub closed spec fn level(&self) -> LogLevel {
        self.level
    }

    /// A logger at level Info with nothing recorded.
    pub fn new() -> (r: Logger)
        ensures
            r.lines() == Seq::<Seq<char>>::empty(),
            r.level() == LogLevel::Info,
    {
        let r = Logger { logs: Vec::new(), level: LogLevel::Info };
        assert(r.lines() =~= Seq::<Seq<char>>::empty());
        r
    }

    /// Records `message` when `level` is at least the logger's level; a
    /// message below it is dropped.
    pub fn log(&mut self, level: LogLevel, message: &str)
        ensures
            final(self).level() == old(self).level(),
            level.rank() >= old(self).level().rank() ==> final(self).lines() == old(
                self,
            ).lines().push(log_line(level, message@)),
            level.rank() < old(self).level().rank() ==> final(self).lines() == old(self).lines(),
    {
        if level.severity() >= self.level.severity() {
            let mut entry = String::from_str("[");
            entry.append(level.name());
            entry.append("] ");
            entry.append(message);
            self.logs.push(entry);
            assert(self.lines() =~= old(self).lines().push(log_line(level, message@)));
        }
    }

    /// Sets the level below which messages are dropped.
    pub fn set_level(&mut self, level: LogLevel)
        ensures
            final(self).level() == level,
            final(self).lines() == old(self).lines(),
    {
        self.level = level;
    }

    pub fn get_logs(&self) -> (r: &[String])
        ensures
            r@.map_values(|s: String| s@) == self.lines(),
    {
        self.logs.as_slice()
    }

    pub fn get_level(&self) -> (r: LogLevel)
        ensures
            r == self.level(),
    {
        self.level
    }
}

} // verus!
