use vstd::prelude::*;

use std::sync::mpsc::Sender;

use crate::channel::send_message;
use crate::peer::errors::connection_error_text;
use crate::peer::PeerConnectionError;
use vstd::string::StringExecFns;

verus! {

/// Errors of opening a connection with a peer.
#[derive(Debug)]
pub enum OpenPeerConnectionError {
    PeerConnectionError(PeerConnectionError),
}

impl From<PeerConnectionError> for OpenPeerConnectionError {
    fn from(error: PeerConnectionError) -> (res: Self) {
        OpenPeerConnectionError::PeerConnectionError(error)
    }
}

impl vstd::std_specs::convert::FromSpecImpl<PeerConnectionError> for OpenPeerConnectionError {
    open spec fn obeys_from_spec() -> bool {
        true
    }

    open spec fn from_spec(error: PeerConnectionError) -> Self {
        OpenPeerConnectionError::PeerConnectionError(error)
    }
}

impl OpenPeerConnectionError {
    /// The text that describes the error.
    pub fn to_string(&self) -> (text: String)
        ensures
            match *self {
                OpenPeerConnectionError::PeerConnectionError(error) => exists|s: Seq<char>|
                    connection_error_text(error, s) && text@ == "OpenPeerConnection Error: "@ + s,
            },
    {
        match self {
            OpenPeerConnectionError::PeerConnectionError(error) => {
                let s = error.to_string();
                String::from_str("OpenPeerConnection Error: ").concat(s.as_str())
            },
        }
    }
}

/// A message for the worker of one open connection.
#[derive(Debug, Clone)]
pub enum OpenPeerConnectionMessage {
    /// Request the piece with this index from the peer.
    DownloadPiece(u32),
    /// Hand the peer's bitfield to the piece manager.
    SendBitfield,
    /// Close the connection with the peer.
    CloseConnection,
}

impl OpenPeerConnectionMessage {
    /// The message that asks the worker to close the connection.
    pub fn close_connection() -> (message: Self)
        ensures
            message == OpenPeerConnectionMessage::CloseConnection,
    {
        OpenPeerConnectionMessage::CloseConnection
    }

    /// The message that asks the worker to hand the peer's bitfield to the piece manager.
    pub fn send_bitfield() -> (message: Self)
        ensures
            message == OpenPeerConnectionMessage::SendBitfield,
    {
        OpenPeerConnectionMessage::SendBitfield
    }

    /// The message that asks the worker to request the piece `piece_index`.
    pub fn download_piece(piece_index: u32) -> (message: Self)
        ensures
            message == OpenPeerConnectionMessage::DownloadPiece(piece_index),
    {
        OpenPeerConnectionMessage::DownloadPiece(piece_index)
    }
}

/// The sending side of the channel of one open connection's worker.
#[derive(Debug)]
pub struct OpenPeerConnectionSender {
    pub sender: Sender<OpenPeerConnectionMessage>,
}

impl OpenPeerConnectionSender {
    /// Asks the worker to close the connection.
    pub fn close_connection(&self) {
        let _ = send_message(&self.sender, OpenPeerConnectionMessage::close_connection());
    }

    /// Asks the worker to hand the peer's bitfield to the piece manager.
    pub fn send_bitfield(&self) {
        let _ = send_message(&self.sender, OpenPeerConnectionMessage::send_bitfield());
    }

    /// Asks the worker to request the piece `piece_index` from the peer.
    pub fn download_piece(&self, piece_index: u32) {
        let _ = send_message(&self.sender, OpenPeerConnectionMessage::download_piece(piece_index));
    }
}

/// What the worker of an open connection does after a download request: the number of
/// downloads that failed in a row, and whether the connection is to be closed.
///
/// A failed download counts one more failure, and one failure in a row is enough to close
/// the connection; a successful one resets the count.
pub fn after_download(failed_in_a_row: u32, succeeded: bool) -> (res: (u32, bool))
    requires
        failed_in_a_row < u32::MAX,
    ensures
        succeeded ==> res == (0u32, false),
        !succeeded ==> res == ((failed_in_a_row + 1) as u32, failed_in_a_row == 0),
{
    if succeeded {
        (0, false)
    } else {
        let failed = failed_in_a_row + MIN_FAILED_CONNECTIONS;
        (failed, failed == MIN_FAILED_CONNECTIONS)
    }
}

/// The number of downloads in a row that may fail before the connection is closed.
pub const MIN_FAILED_CONNECTIONS: u32 = 1;

} // verus!
