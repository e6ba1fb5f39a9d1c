use vstd::prelude::*;

use vstd::string::{to_string_from_display_ensures, StringExecFns};

use std::sync::mpsc::RecvError;

verus! {

/// The error type returned when there is a problem with the Logger.
#[derive(Debug)]
pub enum LoggerError {
    /// When logger fails creating a new directory for saving the log file.
    CreateDirectoryError(String),
    /// When logger fails creating a file for the log file.
    CreateFileError(String),
    /// When logger fails to read the message sent by the sender side of the logger.
    ReadingError(RecvError),
    /// When the logger fails to send a message to the logger worker.
    InexistentListener,
    /// When the logger worker could not be started.
    WorkerCreationError(String),
}


/// Whether `text` describes the logger error `e`.
pub open spec fn logger_error_text(e: LoggerError, text: Seq<char>) -> bool {
    match e {
        LoggerError::CreateDirectoryError(path) => text == "Can't create directory: "@ + path@,
        LoggerError::CreateFileError(path) => text == "Can't create file: "@ + path@,
        LoggerError::InexistentListener => text
            == "Logger failed writing because the listener doesn't exist"@,
        LoggerError::ReadingError(error) => exists|s: String|
            to_string_from_display_ensures::<RecvError>(&error, s) && text
                == "Logger failed when reading from channel: "@ + s@,
        LoggerError::WorkerCreationError(reason) => text == reason@,
    }
}

impl LoggerError {
    /// The text that describes the error.
    pub fn to_string(&self) -> (text: String)
        ensures
            logger_error_text(*self, text@),
    {
        match self {
            LoggerError::CreateDirectoryError(path) => {
                String::from_str("Can't create directory: ").concat(path.as_str())
            },
            LoggerError::CreateFileError(path) => {
                String::from_str("Can't create file: ").concat(path.as_str())
            },
            LoggerError::InexistentListener => {
                String::from_str("Logger failed writing because the listener doesn't exist")
            },
            LoggerError::ReadingError(error) => {
                let s = error.to_string();
                String::from_str("Logger failed when reading from channel: ").concat(s.as_str())
            },
            LoggerError::WorkerCreationError(reason) => String::from_str(reason.as_str()),
        }
    }
}


impl From<RecvError> for LoggerError {
    fn from(error: RecvError) -> Self {
        LoggerError::ReadingError(error)
    }
}

impl vstd::std_specs::convert::FromSpecImpl<RecvError> for LoggerError {
    open spec fn obeys_from_spec() -> bool {
        true
    }

    open spec fn from_spec(error: RecvError) -> Self {
        LoggerError::ReadingError(error)
    }
}

} // verus!
