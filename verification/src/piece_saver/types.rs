use vstd::prelude::*;

use super::sender::PieceSaverSender;
use super::worker::PieceSaverWorker;
use crate::piece_manager::PieceManagerSender;

verus! {

/// A message for the piece saver's worker.
#[derive(Debug)]
pub enum PieceSaverMessage {
    /// Check the piece with this index, received from the peer with this id, against its
    /// hash, and save it.
    ValidateAndSavePiece(u32, Vec<u8>, Vec<u8>),
    /// Stop the worker.
    StopSaving,
}

impl PieceSaverMessage {
    /// The message that asks the piece saver to stop.
    pub fn stop_saving() -> (message: Self)
        ensures
            message == PieceSaverMessage::StopSaving,
    {
        PieceSaverMessage::StopSaving
    }

    /// The message that asks the piece saver to check and save the piece `piece_index`, received from `peer_id`.
    pub fn validate_and_save_piece(piece_index: u32, peer_id: Vec<u8>, piece_bytes: Vec<u8>) -> (message: Self)
        ensures
            message == PieceSaverMessage::ValidateAndSavePiece(piece_index, peer_id, piece_bytes),
    {
        PieceSaverMessage::ValidateAndSavePiece(piece_index, peer_id, piece_bytes)
    }
}

/// Makes a piece saver that checks pieces against the hashes `sha1_pieces` and saves them
/// under `download_path`: the sending side of its channel, and its worker.
pub fn new_piece_saver(
    piece_manager_sender: PieceManagerSender,
    sha1_pieces: Vec<Vec<u8>>,
    download_path: String,
) -> (r: (PieceSaverSender, PieceSaverWorker))
    ensures
        r.1.sha1_pieces@ == sha1_pieces@,
        r.1.download_path@ == download_path@,
        r.1.piece_manager_sender == piece_manager_sender,
{
    let (tx, rx) = std::sync::mpsc::channel();
    (
        PieceSaverSender { sender: tx },
        PieceSaverWorker { receiver: rx, piece_manager_sender, sha1_pieces, download_path },
    )
}

} // verus!
