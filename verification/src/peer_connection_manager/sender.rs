use vstd::prelude::*;

use std::sync::mpsc::Sender;

use super::types::PeerConnectionManagerMessage;
use crate::channel::send_message;

verus! {

/// The sending side of the peer connection manager's channel.
#[derive(Clone)]
pub struct PeerConnectionManagerSender {
    pub sender: Sender<PeerConnectionManagerMessage>,
}

impl PeerConnectionManagerSender {
    /// Hands `message` to the manager of the connections.
    pub fn send(&self, message: PeerConnectionManagerMessage) {
        let _ = send_message(&self.sender, message);
    }

    /// Asks the manager to close every connection.
    pub fn close_connections(&self) {
        let _ = send_message(&self.sender, PeerConnectionManagerMessage::close_connections());
    }

    /// Asks the manager to request the piece `piece_index` from the peer `peer_id`.
    pub fn download_piece(&self, peer_id: Vec<u8>, piece_index: u32) {
        let _ = send_message(
            &self.sender,
            PeerConnectionManagerMessage::download_piece(peer_id, piece_index),
        );
    }

    /// Tells the manager that the connection with the peer `peer_id` failed.
    pub fn failed_connection(&self, peer_id: Vec<u8>) {
        let _ = send_message(&self.sender, PeerConnectionManagerMessage::failed_connection(peer_id));
    }
}

} // verus!
