use vstd::prelude::*;

use crate::peer::Bitfield;
use crate::peer_connection_manager::PeerConnectionManagerSender;

verus! {

/// A message for the piece manager's worker.
pub enum PieceManagerMessage {
    /// The peer with this id has the pieces of this bitfield.
    PeerPieces(Vec<u8>, Bitfield),
    /// The manager of the connections is ready, with its channel.
    Init(PeerConnectionManagerSender),
    /// The piece with this index was downloaded from the peer with this id.
    SuccessfulDownload(u32, Vec<u8>),
    /// The download of the piece with this index from the peer with this id failed.
    FailedDownload(u32, Vec<u8>),
    /// The connection with the peer with this id failed.
    FailedConnection(Vec<u8>),
    /// The peer with this id has the piece with this index.
    Have(Vec<u8>, u32),
    /// The tracker was asked for peers again.
    ReaskedTracker,
    /// This many connections with peers were established: the download can start.
    FinishedEstablishingConnections(usize),
    /// The first connections were started.
    FirstConnectionsStarted,
}

impl PieceManagerMessage {
    /// The message that the peer `peer_id` has the pieces of `bitfield`.
    pub fn peer_pieces(peer_id: Vec<u8>, bitfield: Bitfield) -> (message: Self)
        ensures
            message == PieceManagerMessage::PeerPieces(peer_id, bitfield),
    {
        PieceManagerMessage::PeerPieces(peer_id, bitfield)
    }

    /// The message that the piece `piece_index` was downloaded from `peer_id`.
    pub fn successful_download(piece_index: u32, peer_id: Vec<u8>) -> (message: Self)
        ensures
            message == PieceManagerMessage::SuccessfulDownload(piece_index, peer_id),
    {
        PieceManagerMessage::SuccessfulDownload(piece_index, peer_id)
    }

    /// The message that the download of the piece `piece_index` from `peer_id` failed.
    pub fn failed_download(piece_index: u32, peer_id: Vec<u8>) -> (message: Self)
        ensures
            message == PieceManagerMessage::FailedDownload(piece_index, peer_id),
    {
        PieceManagerMessage::FailedDownload(piece_index, peer_id)
    }

    /// The message that the connection with `peer_id` failed.
    pub fn failed_connection(peer_id: Vec<u8>) -> (message: Self)
        ensures
            message == PieceManagerMessage::FailedConnection(peer_id),
    {
        PieceManagerMessage::FailedConnection(peer_id)
    }

    /// The message that the peer `peer_id` has the piece `piece_index`.
    pub fn have(peer_id: Vec<u8>, piece_index: u32) -> (message: Self)
        ensures
            message == PieceManagerMessage::Have(peer_id, piece_index),
    {
        PieceManagerMessage::Have(peer_id, piece_index)
    }

    /// The message that the tracker was asked for peers again.
    pub fn reasked_tracker() -> (message: Self)
        ensures
            message == PieceManagerMessage::ReaskedTracker,
    {
        PieceManagerMessage::ReaskedTracker
    }

    /// The message that `connection_established` connections were established.
    pub fn finished_establishing_connections(connection_established: usize) -> (message: Self)
        ensures
            message == PieceManagerMessage::FinishedEstablishingConnections(connection_established),
    {
        PieceManagerMessage::FinishedEstablishingConnections(connection_established)
    }
}

} // verus!
