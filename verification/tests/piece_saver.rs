use std::sync::mpsc;

use bittorrent_rustico::logger::{Logger, LoggerMessage};
use bittorrent_rustico::peer::sha1_of;
use bittorrent_rustico::piece_manager::{PieceManagerMessage, PieceManagerSender};
use bittorrent_rustico::piece_saver::{new_piece_saver, PieceSaverMessage, PieceSaverWorker};

#[test]
fn checks_pieces_against_their_hash() {
    let (tx, _rx) = mpsc::channel();
    let hashes = vec![sha1_of(b"piece zero"), sha1_of(b"piece one")];
    let (_, worker) = new_piece_saver(
        PieceManagerSender { sender: tx },
        hashes,
        "./downloads".to_string(),
    );
    assert!(worker.valid_piece(b"piece zero", 0));
    assert!(worker.valid_piece(b"piece one", 1));
    assert!(!worker.valid_piece(b"piece one", 0));
    assert!(!worker.valid_piece(b"", 1));
    assert_eq!(worker.pieces_directory(), "./downloads/pieces");
    assert_eq!(worker.sha1_of(b"piece zero"), sha1_of(b"piece zero"));
}

#[test]
fn report_message_follows_the_outcome() {
    assert!(matches!(
        PieceSaverWorker::report_message(3, vec![1], true),
        PieceManagerMessage::SuccessfulDownload(3, id) if id == vec![1]
    ));
    assert!(matches!(
        PieceSaverWorker::report_message(3, vec![1], false),
        PieceManagerMessage::FailedDownload(3, id) if id == vec![1]
    ));
}

#[test]
fn reports_the_outcome_to_the_piece_manager() {
    let (tx, rx) = mpsc::channel();
    let (log_tx, log_rx) = mpsc::channel();
    let logger = Logger::from_sender(log_tx);
    let (sender, worker) = new_piece_saver(PieceManagerSender { sender: tx }, vec![], String::new());
    worker.report(4, vec![1], true, &logger);
    worker.report(5, vec![2], false, &logger);
    assert!(matches!(
        rx.try_recv().unwrap(),
        PieceManagerMessage::SuccessfulDownload(4, _)
    ));
    assert!(matches!(
        rx.try_recv().unwrap(),
        PieceManagerMessage::FailedDownload(5, _)
    ));
    assert!(matches!(log_rx.try_recv().unwrap(), LoggerMessage::Log(4)));
    assert!(log_rx.try_recv().is_err());
    sender.validate_and_save_piece(1, vec![7], vec![8, 9]);
    sender.stop_saving();
    assert!(matches!(
        worker.receiver.try_recv().unwrap(),
        PieceSaverMessage::ValidateAndSavePiece(1, _, _)
    ));
    assert!(matches!(
        worker.receiver.try_recv().unwrap(),
        PieceSaverMessage::StopSaving
    ));
}
