use vstd::prelude::*;

use std::sync::mpsc::Sender;

use super::types::PieceSaverMessage;
use crate::channel::send_message;

verus! {

/// The sending side of the piece saver's channel.
#[derive(Clone)]
pub struct PieceSaverSender {
    pub sender: Sender<PieceSaverMessage>,
}

impl PieceSaverSender {
    /// Asks the piece saver to stop.
    pub fn stop_saving(&self) {
        let _ = send_message(&self.sender, PieceSaverMessage::stop_saving());
    }

    /// Asks the piece saver to check and save the piece `piece_index`, received from
    /// `peer_id`.
    pub fn validate_and_save_piece(&self, piece_index: u32, peer_id: Vec<u8>, piece_bytes: Vec<u8>) {
        let _ = send_message(
            &self.sender,
            PieceSaverMessage::validate_and_save_piece(piece_index, peer_id, piece_bytes),
        );
    }
}

} // verus!
