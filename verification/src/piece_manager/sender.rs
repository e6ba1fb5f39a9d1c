use vstd::prelude::*;

use std::sync::mpsc::Sender;

use super::types::PieceManagerMessage;
use crate::channel::send_message;
use crate::peer::Bitfield;

verus! {

/// The sending side of the piece manager's channel.
#[derive(Clone)]
pub struct PieceManagerSender {
    pub sender: Sender<PieceManagerMessage>,
}

impl PieceManagerSender {
    /// Hands `message` to the piece manager.
    pub fn send(&self, message: PieceManagerMessage) {
        let _ = send_message(&self.sender, message);
    }

    /// Tells the piece manager which pieces the peer `peer_id` has.
    pub fn peer_pieces(&self, peer_id: Vec<u8>, bitfield: Bitfield) {
        let _ = send_message(&self.sender, PieceManagerMessage::peer_pieces(peer_id, bitfield));
    }

    /// Tells the piece manager that the piece `piece_index` was downloaded from `peer_id`.
    pub fn successful_download(&self, piece_index: u32, peer_id: Vec<u8>) {
        let _ = send_message(
            &self.sender,
            PieceManagerMessage::successful_download(piece_index, peer_id),
        );
    }

    /// Tells the piece manager that the download of the piece `piece_index` from `peer_id`
    /// failed.
    pub fn failed_download(&self, piece_index: u32, peer_id: Vec<u8>) {
        let _ = send_message(
            &self.sender,
            PieceManagerMessage::failed_download(piece_index, peer_id),
        );
    }

    /// Tells the piece manager that the connection with `peer_id` failed.
    pub fn failed_connection(&self, peer_id: Vec<u8>) {
        let _ = send_message(&self.sender, PieceManagerMessage::failed_connection(peer_id));
    }

    /// Tells the piece manager that the peer `peer_id` has the piece `piece_index`.
    pub fn have(&self, peer_id: Vec<u8>, piece_index: u32) {
        let _ = send_message(&self.sender, PieceManagerMessage::have(peer_id, piece_index));
    }

    /// Tells the piece manager that the tracker was asked for peers again.
    pub fn reasked_tracker(&self) {
        let _ = send_message(&self.sender, PieceManagerMessage::reasked_tracker());
    }

    /// Tells the piece manager that `connection_established` connections were established.
    pub fn finished_stablishing_connections(&self, connection_established: usize) {
        let _ = send_message(
            &self.sender,
            PieceManagerMessage::finished_establishing_connections(connection_established),
        );
    }
}

} // verus!
