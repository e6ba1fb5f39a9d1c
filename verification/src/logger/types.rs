use vstd::prelude::*;

use std::sync::mpsc::Sender;

use super::errors::LoggerError;
use crate::channel::send_message;
use crate::text::{decimal_text, u64_to_text};
use vstd::string::StringExecFns;

verus! {

/// A message for the logger worker.
pub enum LoggerMessage {
    /// Write that the piece with this index was received.
    Log(u32),
    /// Stop the worker.
    Stop,
}

impl LoggerMessage {
    /// The message that asks the worker to log that the piece `piece` was received.
    pub fn log(piece: u32) -> (message: Self)
        ensures
            message == LoggerMessage::Log(piece),
    {
        LoggerMessage::Log(piece)
    }

    /// The message that asks the worker to stop.
    pub fn stop() -> (message: Self)
        ensures
            message == LoggerMessage::Stop,
    {
        LoggerMessage::Stop
    }
}

/// The sending side of the download log: a worker writes each logged piece to a file.
#[derive(Clone)]
pub struct Logger {
    sender: Sender<LoggerMessage>,
}

impl Logger {
    /// The sending side that the logger hands its messages to.
    pub closed spec fn sending_side(&self) -> Sender<LoggerMessage> {
        self.sender
    }

    /// A logger that hands its messages to `sender`, whose worker writes the log file.
    pub fn from_sender(sender: Sender<LoggerMessage>) -> (logger: Self)
        ensures
            logger.sending_side() == sender,
    {
        Logger { sender }
    }

    /// Asks the worker to log that the piece `piece` was received.
    pub fn log_piece(&self, piece: u32) -> (res: Result<(), LoggerError>)
        ensures
            res matches Err(e) ==> e is InexistentListener,
    {
        if send_message(&self.sender, LoggerMessage::log(piece)) {
            Ok(())
        } else {
            Err(LoggerError::InexistentListener)
        }
    }

    /// Asks the worker to stop.
    pub fn stop(&self) {
        let _ = send_message(&self.sender, LoggerMessage::stop());
    }

    /// The line that the log file gets for the piece `piece_number`.
    pub fn log_line(piece_number: u32) -> (line: String)
        ensures
            line@ == "Received piece: "@ + decimal_text(piece_number as nat) + "\n"@,
    {
        let line = String::from_str("Received piece: ");
        let line = line.concat(u64_to_text(piece_number as u64).as_str());
        line.concat("\n")
    }
}

} // verus!
