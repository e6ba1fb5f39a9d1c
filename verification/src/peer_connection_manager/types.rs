use vstd::prelude::*;

verus! {

/// A message for the worker that manages the connections with the peers.
#[derive(Debug)]
pub enum PeerConnectionManagerMessage {
    /// Ask the peer with this id for the piece with this index.
    DownloadPiece(Vec<u8>, u32),
    /// The connection with the peer with this id failed.
    FailedConnection(Vec<u8>),
    /// Close every connection and stop.
    CloseConnections,
}

impl PeerConnectionManagerMessage {
    /// The message that asks the manager to close every connection.
    pub fn close_connections() -> (message: Self)
        ensures
            message == PeerConnectionManagerMessage::CloseConnections,
    {
        PeerConnectionManagerMessage::CloseConnections
    }

    /// The message that asks the manager to request the piece `piece_index` from `peer_id`.
    pub fn download_piece(peer_id: Vec<u8>, piece_index: u32) -> (message: Self)
        ensures
            message == PeerConnectionManagerMessage::DownloadPiece(peer_id, piece_index),
    {
        PeerConnectionManagerMessage::DownloadPiece(peer_id, piece_index)
    }

    /// The message that the connection with `peer_id` failed.
    pub fn failed_connection(peer_id: Vec<u8>) -> (message: Self)
        ensures
            message == PeerConnectionManagerMessage::FailedConnection(peer_id),
    {
        PeerConnectionManagerMessage::FailedConnection(peer_id)
    }
}

} // verus!
