//! The errors of the store.

use vstd::prelude::*;
use vstd::string::StringExecFns;

verus! {

/// The text of the error that refuses an append which would take the
/// length of the log beyond `usize`.
pub open spec fn overflow_text() -> Seq<char> {
    "log size overflow"@
}

/// The error that refuses an append which would take the length of the log
/// beyond `usize`.
pub fn overflow_error() -> (error: StoreError)
    ensures
        error.is_io(overflow_text()),
        error.message() == overflow_text(),
{
    StoreError::Io(String::from_str("log size overflow"))
}

/// What can go wrong in the store and around it.
#[derive(Debug)]
pub enum StoreError {
    /// The key is empty, too long, or holds a forbidden byte.
    InvalidKey,
    /// The value is longer than the store accepts.
    ValueTooLarge,
    /// The request line could not be read as a command.
    InvalidCommand,
    /// The file system, the network or the lock failed; the text says how.
    Io(String),
    /// Another process holds the lock on the log.
    AlreadyLocked,
    /// The process named in the PID file is alive.
    AlreadyRunning(u32),
    /// A line of the log could not be read as a record.
    LogCorruption,
    /// The job queue was closed while a request was pending.
    ShuttingDown,
}

impl StoreError {
    /// Whether the error is an I/O error with the text `text`.
    pub open spec fn is_io(self, text: Seq<char>) -> bool {
        match self {
            StoreError::Io(reason) => reason@ == text,
            _ => false,
        }
    }

    /// The text of the error, as a client or an operator reads it.
    pub open spec fn message(self) -> Seq<char> {
        match self {
            StoreError::InvalidKey => "Invalid key"@,
            StoreError::ValueTooLarge => "Value too large"@,
            StoreError::InvalidCommand => "Invalid command"@,
            StoreError::Io(text) => text@,
            StoreError::AlreadyLocked => "Log file is locked by another process"@,
            StoreError::AlreadyRunning(pid) => "Server already running with PID "@
                + crate::server::decimal_spec(pid as nat),
            StoreError::LogCorruption => "Corrupt log record"@,
            StoreError::ShuttingDown => "Server is shutting down"@,
        }
    }

    /// The text of the error.
    pub fn to_string(&self) -> (text: String)
        ensures
            text@ == self.message(),
    {
        match self {
            StoreError::InvalidKey => String::from_str("Invalid key"),
            StoreError::ValueTooLarge => String::from_str("Value too large"),
            StoreError::InvalidCommand => String::from_str("Invalid command"),
            StoreError::Io(text) => text.clone(),
            StoreError::AlreadyLocked => String::from_str("Log file is locked by another process"),
            StoreError::AlreadyRunning(pid) => {
                let text = String::from_str("Server already running with PID ");
                let digits = crate::server::format_pid(*pid);
                text.concat(digits.as_str())
            },
            StoreError::LogCorruption => String::from_str("Corrupt log record"),
            StoreError::ShuttingDown => String::from_str("Server is shutting down"),
        }
    }
}

} // verus!
