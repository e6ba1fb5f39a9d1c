use vstd::prelude::*;

use crate::logger::errors::logger_error_text;
use vstd::string::{to_string_from_display_ensures, StringExecFns};

use std::io;

use crate::logger::LoggerError;

verus! {

/// Errors of a connection with a peer.
#[derive(Debug)]
pub enum PeerConnectionError {
    LoggerCreationFailure(LoggerError),
    IoError(io::Error),
    PeerMessageError(IPeerMessageServiceError),
    PieceRequestingError(String),
    InitialConnectionError(String),
    PieceSavingError(String),
    LoggingPieceError(String),
    JoiningError(String),
}

/// Errors of the exchange of messages with a peer.
#[derive(Debug)]
pub enum IPeerMessageServiceError {
    PeerHandshakeError(String),
    SendingMessageError(String),
    ReceivingMessageError(String),
    InvalidResponse(String),
    UnhandledMessage,
    InvalidMessageId,
    IOError(io::Error),
}

impl From<io::Error> for IPeerMessageServiceError {
    fn from(error: io::Error) -> Self {
        IPeerMessageServiceError::IOError(error)
    }
}

impl vstd::std_specs::convert::FromSpecImpl<io::Error> for IPeerMessageServiceError {
    open spec fn obeys_from_spec() -> bool {
        true
    }

    open spec fn from_spec(error: io::Error) -> Self {
        IPeerMessageServiceError::IOError(error)
    }
}

impl From<LoggerError> for PeerConnectionError {
    fn from(error: LoggerError) -> Self {
        PeerConnectionError::LoggerCreationFailure(error)
    }
}

impl vstd::std_specs::convert::FromSpecImpl<LoggerError> for PeerConnectionError {
    open spec fn obeys_from_spec() -> bool {
        true
    }

    open spec fn from_spec(error: LoggerError) -> Self {
        PeerConnectionError::LoggerCreationFailure(error)
    }
}

impl From<io::Error> for PeerConnectionError {
    fn from(error: io::Error) -> Self {
        PeerConnectionError::IoError(error)
    }
}

impl vstd::std_specs::convert::FromSpecImpl<io::Error> for PeerConnectionError {
    open spec fn obeys_from_spec() -> bool {
        true
    }

    open spec fn from_spec(error: io::Error) -> Self {
        PeerConnectionError::IoError(error)
    }
}

impl From<IPeerMessageServiceError> for PeerConnectionError {
    fn from(error: IPeerMessageServiceError) -> Self {
        PeerConnectionError::PeerMessageError(error)
    }
}

impl vstd::std_specs::convert::FromSpecImpl<IPeerMessageServiceError> for PeerConnectionError {
    open spec fn obeys_from_spec() -> bool {
        true
    }

    open spec fn from_spec(error: IPeerMessageServiceError) -> Self {
        PeerConnectionError::PeerMessageError(error)
    }
}


/// Whether `text` describes the message service error `e`.
pub open spec fn message_error_text(e: IPeerMessageServiceError, text: Seq<char>) -> bool {
    match e {
        IPeerMessageServiceError::PeerHandshakeError(reason) => text == reason@,
        IPeerMessageServiceError::SendingMessageError(reason) => text == reason@,
        IPeerMessageServiceError::InvalidResponse(reason) => text == reason@,
        IPeerMessageServiceError::ReceivingMessageError(reason) => text
            == "Receiving message error: "@ + reason@,
        IPeerMessageServiceError::UnhandledMessage => text
            == "Peer received a message which does not know how to handle"@,
        IPeerMessageServiceError::InvalidMessageId => text
            == "Received message id which is not valid"@,
        IPeerMessageServiceError::IOError(error) => exists|s: String|
            to_string_from_display_ensures::<io::Error>(&error, s) && text
                == "IO Error when flushing: "@ + s@,
    }
}

/// Whether `text` describes the connection error `e`.
pub open spec fn connection_error_text(e: PeerConnectionError, text: Seq<char>) -> bool {
    match e {
        PeerConnectionError::LoggerCreationFailure(error) => exists|s: Seq<char>|
            logger_error_text(error, s) && text == "Logger creation failure: "@ + s,
        PeerConnectionError::IoError(error) => exists|s: String|
            to_string_from_display_ensures::<io::Error>(&error, s) && text == "IO Error: "@ + s@,
        PeerConnectionError::PeerMessageError(error) => exists|s: Seq<char>|
            message_error_text(error, s) && text == "Peer message error: "@ + s,
        PeerConnectionError::PieceRequestingError(reason) => text
            == "Piece requesting error: "@ + reason@,
        PeerConnectionError::InitialConnectionError(reason) => text
            == "Initial connection error: "@ + reason@,
        PeerConnectionError::PieceSavingError(reason) => text == "Piece saving error: "@ + reason@,
        PeerConnectionError::LoggingPieceError(reason) => text == "Logging piece error: "@
            + reason@,
        PeerConnectionError::JoiningError(reason) => text == "Joining error: "@ + reason@,
    }
}

impl IPeerMessageServiceError {
    /// The text that describes the error.
    pub fn to_string(&self) -> (text: String)
        ensures
            message_error_text(*self, text@),
    {
        match self {
            IPeerMessageServiceError::PeerHandshakeError(reason) => String::from_str(reason.as_str()),
            IPeerMessageServiceError::SendingMessageError(reason) => String::from_str(reason.as_str()),
            IPeerMessageServiceError::InvalidResponse(reason) => String::from_str(reason.as_str()),
            IPeerMessageServiceError::ReceivingMessageError(reason) => {
                String::from_str("Receiving message error: ").concat(reason.as_str())
            },
            IPeerMessageServiceError::UnhandledMessage => {
                String::from_str("Peer received a message which does not know how to handle")
            },
            IPeerMessageServiceError::InvalidMessageId => {
                String::from_str("Received message id which is not valid")
            },
            IPeerMessageServiceError::IOError(error) => {
                let s = error.to_string();
                String::from_str("IO Error when flushing: ").concat(s.as_str())
            },
        }
    }
}

impl PeerConnectionError {
    /// The text that describes the error.
    pub fn to_string(&self) -> (text: String)
        ensures
            connection_error_text(*self, text@),
    {
        match self {
            PeerConnectionError::LoggerCreationFailure(error) => {
                let s = error.to_string();
                String::from_str("Logger creation failure: ").concat(s.as_str())
            },
            PeerConnectionError::IoError(error) => {
                let s = error.to_string();
                String::from_str("IO Error: ").concat(s.as_str())
            },
            PeerConnectionError::PeerMessageError(error) => {
                let s = error.to_string();
                String::from_str("Peer message error: ").concat(s.as_str())
            },
            PeerConnectionError::PieceRequestingError(reason) => {
                String::from_str("Piece requesting error: ").concat(reason.as_str())
            },
            PeerConnectionError::InitialConnectionError(reason) => {
                String::from_str("Initial connection error: ").concat(reason.as_str())
            },
            PeerConnectionError::PieceSavingError(reason) => {
                String::from_str("Piece saving error: ").concat(reason.as_str())
            },
            PeerConnectionError::LoggingPieceError(reason) => {
                String::from_str("Logging piece error: ").concat(reason.as_str())
            },
            PeerConnectionError::JoiningError(reason) => {
                String::from_str("Joining error: ").concat(reason.as_str())
            },
        }
    }
}

} // verus!
