//! The log: formatted lines waiting for the task that writes them out.
use vstd::prelude::*;
use crate::util::push_char;

verus! {

/// Relies on `time::now` and `Tm::strftime`: the current local time, formatted by the
/// strftime pattern `fmt`; empty if the pattern is not valid.
#[verifier::external_body]
pub(crate) fn local_time(fmt: &str) -> String {
    let tm = time::now();
    match tm.strftime(fmt) {
        Ok(t) => format!("{}", t),
        Err(_) => String::new(),
    }
}

/// Time stamps of log lines: `day/month/year:hour:minute:second zone`.
pub const LOG_TIME_FORMAT: &'static str = "%d/%b/%Y:%H:%M:%S %z";

/// Severity of a log line, from the most to the least severe.
#[derive(PartialEq, Eq, Structural, Clone, Copy, Debug)]
pub enum LogLevel {
    Error,
    Warning,
    Info,
    Debug,
}

pub open spec fn level_rank(l: LogLevel) -> int {
    match l {
        LogLevel::Error => 0,
        LogLevel::Warning => 1,
        LogLevel::Info => 2,
        LogLevel::Debug => 3,
    }
}

pub open spec fn level_name(l: LogLevel) -> Seq<char> {
    match l {
        LogLevel::Error => "Error"@,
        LogLevel::Warning => "Warning"@,
        LogLevel::Info => "Info"@,
        LogLevel::Debug => "Debug"@,
    }
}

/// `[<timestamp>] <Level>: <text>`.
pub open spec fn log_line(ts: Seq<char>, level: LogLevel, text: Seq<char>) -> Seq<char> {
    seq!['['] + ts + seq![']', ' '] + level_name(level) + seq![':', ' '] + text
}

impl LogLevel {
    /// The name of the level.
    pub fn name(&self) -> (r: String)
        ensures
            r@ == level_name(*self),
    {
        match self {
            LogLevel::Error => "Error".to_owned(),
            LogLevel::Warning => "Warning".to_owned(),
            LogLevel::Info => "Info".to_owned(),
            LogLevel::Debug => "Debug".to_owned(),
        }
    }

    /// Whether lines of this level pass a filter set to `threshold`.
    pub fn passes(&self, threshold: LogLevel) -> (r: bool)
        ensures
            r == (level_rank(*self) <= level_rank(threshold)),
    {
        let a: u8 = match self {
            LogLevel::Error => 0,
            LogLevel::Warning => 1,
            LogLevel::Info => 2,
            LogLevel::Debug => 3,
        };
        let b: u8 = match threshold {
            LogLevel::Error => 0,
            LogLevel::Warning => 1,
            LogLevel::Info => 2,
            LogLevel::Debug => 3,
        };
        a <= b
    }
}

/// Formats one log line.
pub fn format_line(ts: &str, level: LogLevel, text: &str) -> (r: String)
    ensures
        r@ == log_line(ts@, level, text@),
{
    let mut r = String::new();
    push_char(&mut r, '[');
    r.append(ts);
    push_char(&mut r, ']');
    push_char(&mut r, ' ');
    let name = level.name();
    r.append(name.as_str());
    push_char(&mut r, ':');
    push_char(&mut r, ' ');
    r.append(text);
    assert(r@ =~= log_line(ts@, level, text@));
    r
}

/// The log: lines at or above the threshold level wait here, oldest first.
pub struct Logger {
    pub queue: Vec<String>,
    pub level: LogLevel,
}

impl View for Logger {
    type V = Seq<Seq<char>>;

    open spec fn view(&self) -> Seq<Seq<char>> {
        self.queue@.map_values(|s: String| s@)
    }
}

impl Logger {
    /// A log with the given threshold, holding the line that announces it.
    pub fn new(level: LogLevel) -> (r: Logger)
        ensures
            r.level == level,
            level_rank(level) >= 2 ==> r@.len() == 1,
            level_rank(level) < 2 ==> r@.len() == 0,
    {
        let mut logger = Logger { queue: Vec::new(), level };
        assert(logger@ =~= Seq::<Seq<char>>::empty());
        let mut text = "Initialised logging with level ".to_owned();
        let name = level.name();
        text.append(name.as_str());
        logger.log(LogLevel::Info, text.as_str());
        logger
    }

    /// Adds a line, stamped with the current time, if its level passes the threshold.
    pub fn log(&mut self, level: LogLevel, text: &str)
        ensures
            final(self).level == old(self).level,
            level_rank(level) <= level_rank(old(self).level) ==> exists|ts: Seq<char>|
                final(self)@ == old(self)@.push(#[trigger] log_line(ts, level, text@)),
            level_rank(level) > level_rank(old(self).level) ==> final(self)@ == old(self)@,
    {
        if level.passes(self.level) {
            let ts = local_time(LOG_TIME_FORMAT);
            let line = format_line(ts.as_str(), level, text);
            let ghost before = self.queue@;
            self.queue.push(line);
            assert(self@ =~= before.map_values(|s: String| s@).push(log_line(ts@, level, text@)));
        }
    }

    /// Takes the oldest line, for the task that writes the log out.
    pub fn pop(&mut self) -> (r: Option<String>)
        ensures
            final(self).level == old(self).level,
            old(self)@.len() == 0 ==> r is None && final(self)@ == old(self)@,
            old(self)@.len() > 0 ==> (r matches Some(s) && s@ == old(self)@[0] && final(self)@ == old(self)@.drop_first()),
    {
        if self.queue.len() == 0 {
            None
        } else {
            let ghost before = self.queue@;
            let s = self.queue.remove(0);
            assert(self@ =~= before.map_values(|s: String| s@).drop_first());
            Some(s)
        }
    }
}

} // verus!
