use vstd::prelude::*;

use std::sync::mpsc::Receiver;

use super::types::PieceSaverMessage;
use crate::bencode::types::equal_bytes;
use crate::logger::Logger;
use crate::peer::utils::sha1_digest;
use crate::piece_manager::{PieceManagerMessage, PieceManagerSender};
use vstd::string::StringExecFns;

verus! {

/// The worker of the piece saver: it checks each downloaded piece against its hash before
/// it is saved, and tells the piece manager how it went.
pub struct PieceSaverWorker {
    pub receiver: Receiver<PieceSaverMessage>,
    pub piece_manager_sender: PieceManagerSender,
    pub sha1_pieces: Vec<Vec<u8>>,
    pub download_path: String,
}

impl PieceSaverWorker {
    /// The SHA-1 hash of `bytes`.
    pub fn sha1_of(&self, bytes: &[u8]) -> (digest: Vec<u8>)
        ensures
            digest@ == sha1_digest(bytes@),
    {
        crate::peer::utils::sha1_of(bytes)
    }

    /// Whether the SHA-1 hash of `piece_bytes` is the hash of the piece `piece_index`.
    pub fn valid_piece(&self, piece_bytes: &[u8], piece_index: u32) -> (valid: bool)
        requires
            piece_index < self.sha1_pieces.len(),
        ensures
            valid == (sha1_digest(piece_bytes@) == self.sha1_pieces@[piece_index as int]@),
    {
        let received_piece_sha1 = self.sha1_of(piece_bytes);
        equal_bytes(received_piece_sha1.as_slice(), self.sha1_pieces[piece_index as usize].as_slice())
    }

    /// The directory where the pieces are saved: `pieces` under the download path.
    pub fn pieces_directory(&self) -> (path: String)
        ensures
            path@ == self.download_path@ + "/pieces"@,
    {
        let path = String::from_str(self.download_path.as_str());
        path.concat("/pieces")
    }

    /// The piece `piece_index` from `peer_id` was checked and saved: tells the piece manager
    /// and logs it.
    pub fn downloaded_piece_successfully(&self, piece_index: u32, peer_id: Vec<u8>, logger: &Logger) {
        self.piece_manager_sender.successful_download(piece_index, peer_id);
        let _ = logger.log_piece(piece_index);
    }

    /// The message that tells the piece manager how the piece `piece_index` from `peer_id`
    /// went: downloaded when it was checked and saved, failed otherwise.
    pub fn report_message(piece_index: u32, peer_id: Vec<u8>, saved: bool) -> (message:
        PieceManagerMessage)
        ensures
            message == if saved {
                PieceManagerMessage::SuccessfulDownload(piece_index, peer_id)
            } else {
                PieceManagerMessage::FailedDownload(piece_index, peer_id)
            },
    {
        if saved {
            PieceManagerMessage::successful_download(piece_index, peer_id)
        } else {
            PieceManagerMessage::failed_download(piece_index, peer_id)
        }
    }

    /// Tells the piece manager how the piece `piece_index` from `peer_id` went (the message
    /// of `report_message`), and logs the piece when it was checked and saved.
    pub fn report(&self, piece_index: u32, peer_id: Vec<u8>, saved: bool, logger: &Logger) {
        self.piece_manager_sender.send(Self::report_message(piece_index, peer_id, saved));
        if saved {
            let _ = logger.log_piece(piece_index);
        }
    }
}

} // verus!
