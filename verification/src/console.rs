//! Messages for the console line, each with a severity.

use vstd::prelude::*;

verus! {

/// How serious a message is.
#[derive(Clone, Copy, Debug, PartialEq, Eq, Structural)]
pub enum Severity {
    Neutral,
    Success,
    Warning,
    Error,
}

impl Default for Severity {
    fn default() -> (s: Severity)
        ensures
            s == Severity::Neutral,
    {
        Severity::Neutral
    }
}

/// A message and its severity.
#[derive(Clone, Debug)]
pub struct ConsoleMessage {
    pub severity: Severity,
    pub message: String,
}

impl Default for ConsoleMessage {
    fn default() -> (m: ConsoleMessage)
        ensures
            m.severity == Severity::Neutral,
            m.message@ == Seq::<char>::empty(),
    {
        ConsoleMessage { severity: Severity::Neutral, message: String::new() }
    }
}

impl ConsoleMessage {
    /// A neutral message.
    pub fn new(message: String) -> (m: ConsoleMessage)
        ensures
            m.message == message,
            m.severity == Severity::Neutral,
    {
        ConsoleMessage { message, severity: Severity::Neutral }
    }

    /// The same message with another severity.
    pub fn severity(self, severity: Severity) -> (m: ConsoleMessage)
        ensures
            m.message == self.message,
            m.severity == severity,
    {
        ConsoleMessage { severity, message: self.message }
    }

    /// An error message.
    pub fn error(message: String) -> (m: ConsoleMessage)
        ensures
            m.message == message,
            m.severity == Severity::Error,
    {
        ConsoleMessage { message, severity: Severity::Error }
    }

    /// A warning.
    pub fn warning(message: String) -> (m: ConsoleMessage)
        ensures
            m.message == message,
            m.severity == Severity::Warning,
    {
        ConsoleMessage { message, severity: Severity::Warning }
    }

    /// A message of success.
    pub fn success(message: String) -> (m: ConsoleMessage)
        ensures
            m.message == message,
            m.severity == Severity::Success,
    {
        ConsoleMessage { message, severity: Severity::Success }
    }
}

} // verus!
