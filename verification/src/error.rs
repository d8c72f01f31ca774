//! The failures that end start-up.

use vstd::prelude::*;

verus! {

/// Why one line of a configuration was refused.
#[derive(Clone, Copy, Debug, PartialEq, Eq, Structural)]
pub enum ParseFault {
    /// The first word of the line is neither `set` nor `bind`.
    InvalidCommand,
    /// `set` was not given exactly a name and a value.
    SetArguments,
    /// `bind` was not given a trigger and a command.
    BindArguments,
    /// A bound `exec` names no program.
    MissingProgram,
    /// A `$name` reference names a variable that was never set.
    InvalidVariable,
    /// The trigger does not name exactly one main key beside modifiers.
    InvalidKeybindSpec,
    /// The trigger and modifiers are already bound.
    DuplicateKeybind,
}

/// A fatal start-up failure.
#[derive(Clone, Copy, Debug, PartialEq, Eq, Structural)]
pub enum Error {
    /// The display server could not be reached.
    ConnectionFailed,
    /// Another window manager already controls the display.
    AlreadyRunning,
    /// No configuration file was found.
    ConfigNotFound,
    /// The configuration is malformed at `line` (counted from one).
    ConfigParseError { line: usize, fault: ParseFault },
}

impl ParseFault {
    /// The text shown for this fault.
    pub open spec fn text(self) -> Seq<char> {
        match self {
            ParseFault::InvalidCommand => "Invalid Command"@,
            ParseFault::SetArguments => "Invalid argument count (requires 2)"@,
            ParseFault::BindArguments => "Invalid argument count (requires >=2)"@,
            ParseFault::MissingProgram => "Invalid argument count"@,
            ParseFault::InvalidVariable => "Invalid variable"@,
            ParseFault::InvalidKeybindSpec => "Invalid Keybind"@,
            ParseFault::DuplicateKeybind => "Key combination already bound"@,
        }
    }

    /// The text shown for this fault.
    pub fn message(&self) -> (s: String)
        ensures
            s@ == self.text(),
    {
        let lit = match self {
            ParseFault::InvalidCommand => "Invalid Command",
            ParseFault::SetArguments => "Invalid argument count (requires 2)",
            ParseFault::BindArguments => "Invalid argument count (requires >=2)",
            ParseFault::MissingProgram => "Invalid argument count",
            ParseFault::InvalidVariable => "Invalid variable",
            ParseFault::InvalidKeybindSpec => "Invalid Keybind",
            ParseFault::DuplicateKeybind => "Key combination already bound",
        };
        lit.to_owned()
    }
}

impl Error {
    /// The text shown for this failure. A malformed configuration is shown
    /// as its fault and the number of its line.
    pub open spec fn text(self) -> Seq<char> {
        match self {
            Error::ConnectionFailed => "Failed to connect to X server, is it running?"@,
            Error::AlreadyRunning => "Failed to ascend fpwm, is another window manager already running?"@,
            Error::ConfigNotFound => "Failed to find valid configuration file, run \"fpwm --generate\" to generate the default configuration at /etc/fpwm/fpwm.conf"@,
            Error::ConfigParseError { line, fault } => fault.text() + " on line "@
                + crate::text::decimal(line as nat),
        }
    }

    /// The text shown for this failure.
    pub fn message(&self) -> (s: String)
        ensures
            s@ == self.text(),
    {
        match self {
            Error::ConnectionFailed => "Failed to connect to X server, is it running?".to_owned(),
            Error::AlreadyRunning => "Failed to ascend fpwm, is another window manager already running?".to_owned(),
            Error::ConfigNotFound => "Failed to find valid configuration file, run \"fpwm --generate\" to generate the default configuration at /etc/fpwm/fpwm.conf".to_owned(),
            Error::ConfigParseError { line, fault } => {
                let mut s = fault.message();
                s.append(" on line ");
                crate::text::push_decimal(&mut s, *line);
                s
            },
        }
    }
}

} // verus!
