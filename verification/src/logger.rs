//! Log levels: which messages reach the serial line and the screen.

use vstd::prelude::*;

verus! {

/// How serious a message is, from least to most.
#[derive(Clone, Copy, Debug, PartialEq, Eq, Structural)]
pub enum Severity {
    Debug,
    Info,
    Note,
    Warn,
    Error,
    Fatal,
}

/// The rank of a severity: 0 for debug up to 5 for fatal.
pub open spec fn rank(s: Severity) -> u64 {
    match s {
        Severity::Debug => 0,
        Severity::Info => 1,
        Severity::Note => 2,
        Severity::Warn => 3,
        Severity::Error => 4,
        Severity::Fatal => 5,
    }
}

/// Where a message goes.
#[derive(Clone, Copy, Debug, PartialEq, Eq, Structural)]
pub struct LogRoute {
    pub serial: bool,
    pub screen: bool,
}

/// The logger's settings: the least rank that is still reported, counted
/// so that a message of rank `r` is reported when `level <= r`, and whether
/// messages are echoed on the screen.
pub struct Logger {
    pub level: u64,
    pub enable_screen: bool,
}

impl Logger {
    /// Everything reported, nothing on the screen.
    pub fn new() -> (r: Self)
        ensures
            r.level == 0,
            !r.enable_screen,
    {
        Logger { level: 0, enable_screen: false }
    }

    /// Where a message of severity `s` goes: debug messages go to the serial
    /// line only, and only at level 0; any other goes to the serial line when
    /// the level is at most its rank, and to the screen as well when the
    /// screen is enabled.
    pub fn route(&self, s: Severity) -> (r: LogRoute)
        ensures
            r.serial == (self.level <= rank(s)),
            r.screen == (s != Severity::Debug && self.level <= rank(s) && self.enable_screen),
    {
        match s {
            Severity::Debug => LogRoute { serial: self.level == 0, screen: false },
            _ => {
                let reported = self.level <= severity_rank(s);
                LogRoute { serial: reported, screen: reported && self.enable_screen }
            },
        }
    }
}

/// The rank of `s`.
pub fn severity_rank(s: Severity) -> (r: u64)
    ensures
        r == rank(s),
{
    match s {
        Severity::Debug => 0,
        Severity::Info => 1,
        Severity::Note => 2,
        Severity::Warn => 3,
        Severity::Error => 4,
        Severity::Fatal => 5,
    }
}

/// The tag a message of severity `s` is printed behind.
pub fn prefix(s: Severity) -> (r: &'static str)
    ensures
        s == Severity::Debug ==> r@ == "[DEBUG] "@,
        s == Severity::Info ==> r@ == "[INFO] "@,
        s == Severity::Note ==> r@ == "[NOTE] "@,
        s == Severity::Warn ==> r@ == "[WARN] "@,
        s == Severity::Error ==> r@ == "[ERROR] "@,
        s == Severity::Fatal ==> r@ == "[FATAL] "@,
{
    match s {
        Severity::Debug => "[DEBUG] ",
        Severity::Info => "[INFO] ",
        Severity::Note => "[NOTE] ",
        Severity::Warn => "[WARN] ",
        Severity::Error => "[ERROR] ",
        Severity::Fatal => "[FATAL] ",
    }
}

/// Sets the log level. A level above 5 is stored as given too: the reset to
/// 0 it would get is overwritten at once.
pub fn set_log_level(logger: &mut Logger, level: u64)
    ensures
        final(logger).level == level,
        final(logger).enable_screen == old(logger).enable_screen,
{
    if level > 5 {
        logger.level = 0;
    }
    logger.level = level;
}

/// A message reported at one level is reported at every lower level, and
/// a more serious message is reported wherever a less serious one is.
pub proof fn lemma_reporting_monotone(level: u64, lower: u64, s: Severity, t: Severity)
    requires
        lower <= level,
        rank(s) <= rank(t),
    ensures
        level <= rank(s) ==> lower <= rank(s),
        level <= rank(s) ==> level <= rank(t),
{
}

} // verus!
