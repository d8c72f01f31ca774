//! Leveled log entries and the sink that takes them.

use crate::error::Error;
use vstd::prelude::*;

verus! {

/// The level of a log entry.
#[derive(Clone, Copy, Debug, PartialEq, Eq, Structural)]
pub enum LogVariant {
    Notif,
    Error,
    Warn,
}

/// A sink for log entries. The window manager only ever hands entries to it.
pub trait Logger {
    fn log(&mut self, log: &Log);
}

/// One leveled message.
#[derive(Debug)]
pub struct Log {
    pub variant: LogVariant,
    pub message: String,
}

impl LogVariant {
    /// The tag that starts a line of this level.
    pub open spec fn tag(self) -> Seq<char> {
        match self {
            LogVariant::Notif => "[INFO]: "@,
            LogVariant::Warn => "[WARNING]: "@,
            LogVariant::Error => "[ERROR]: "@,
        }
    }
}

impl Log {
    /// An entry of the given level.
    pub fn new(variant: LogVariant, message: &str) -> (log: Self)
        ensures
            log.variant == variant,
            log.message@ == message@,
    {
        Self { variant, message: message.to_owned() }
    }

    /// The line that records this entry: the tag of its level, the message,
    /// and a line feed.
    pub fn line(&self) -> (s: String)
        ensures
            s@ == self.variant.tag() + self.message@ + seq!['\n'],
    {
        let tag = match self.variant {
            LogVariant::Notif => "[INFO]: ",
            LogVariant::Warn => "[WARNING]: ",
            LogVariant::Error => "[ERROR]: ",
        };
        let mut s = tag.to_owned();
        s.append(self.message.as_str());
        s.push('\n');
        s
    }
    /// The entry that records a fatal start-up failure.
    pub fn failure(error: &Error) -> (log: Self)
        ensures
            log.variant == LogVariant::Error,
            log.message@ == error.text(),
    {
        Self { variant: LogVariant::Error, message: error.message() }
    }

    /// The entry that records a successful start.
    pub fn started() -> (log: Self)
        ensures
            log.variant == LogVariant::Notif,
            log.message@ == "FPWM Successfully Started!"@,
    {
        Self::new(LogVariant::Notif, "FPWM Successfully Started!")
    }
}

} // verus!