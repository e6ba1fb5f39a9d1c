use std::collections::HashMap;
use std::sync::mpsc;

use rand::Rng;

use bittorrent_rustico::peer::Bitfield;
use bittorrent_rustico::peer_connection_manager::{
    PeerConnectionManagerMessage, PeerConnectionManagerSender,
};
use bittorrent_rustico::piece_manager::{new_piece_manager, PieceManagerMessage};

fn bitfield(bytes: &[u8]) -> Bitfield {
    let mut b = Bitfield::new();
    b.set_bitfield(bytes);
    b
}

fn peer(id: u8) -> Vec<u8> {
    vec![id, id, id]
}

#[test]
fn fresh_manager_asks_nothing_without_peers() {
    let (_, mut worker) = new_piece_manager(4);
    let msg = PieceManagerMessage::FinishedEstablishingConnections(0);
    assert!(worker.accepts(&msg));
    let (requests, finished) = worker.handle_message(msg);
    assert!(requests.is_empty());
    assert!(!finished);
}

#[test]
fn start_asks_for_the_leading_available_pieces() {
    let (_, mut worker) = new_piece_manager(4);
    // peer 1 has pieces 0, 1 and 2
    let (requests, finished) =
        worker.handle_message(PieceManagerMessage::PeerPieces(peer(1), bitfield(&[0xE0])));
    assert!(requests.is_empty());
    assert!(!finished);
    let (requests, finished) =
        worker.handle_message(PieceManagerMessage::FinishedEstablishingConnections(1));
    assert_eq!(requests, vec![(peer(1), 0), (peer(1), 1), (peer(1), 2)]);
    assert!(!finished);
}

#[test]
fn start_stops_at_the_first_piece_nobody_has() {
    let (_, mut worker) = new_piece_manager(4);
    // peer 1 has pieces 0 and 2, not 1
    worker.handle_message(PieceManagerMessage::PeerPieces(peer(1), bitfield(&[0xA0])));
    let (requests, _) =
        worker.handle_message(PieceManagerMessage::FinishedEstablishingConnections(1));
    assert_eq!(requests, vec![(peer(1), 0)]);
}

#[test]
fn rarest_piece_first_and_least_loaded_peer() {
    let (_, mut worker) = new_piece_manager(2);
    // peer 1 has both pieces, peer 2 only piece 0
    worker.handle_message(PieceManagerMessage::PeerPieces(peer(1), bitfield(&[0xC0])));
    worker.handle_message(PieceManagerMessage::PeerPieces(peer(2), bitfield(&[0x80])));
    let (requests, _) =
        worker.handle_message(PieceManagerMessage::FinishedEstablishingConnections(2));
    // piece 1 has one peer, so it comes first; then piece 0 goes to the peer with no piece
    assert_eq!(requests, vec![(peer(1), 1), (peer(2), 0)]);
}

#[test]
fn failed_download_asks_again() {
    let (_, mut worker) = new_piece_manager(2);
    worker.handle_message(PieceManagerMessage::PeerPieces(peer(1), bitfield(&[0xC0])));
    worker.handle_message(PieceManagerMessage::FinishedEstablishingConnections(1));
    let msg = PieceManagerMessage::FailedDownload(1, peer(1));
    assert!(worker.accepts(&msg));
    let (requests, finished) = worker.handle_message(msg);
    assert_eq!(requests, vec![(peer(1), 1)]);
    assert!(!finished);
}

#[test]
fn outcome_must_name_the_peer_asked() {
    let (_, mut worker) = new_piece_manager(2);
    worker.handle_message(PieceManagerMessage::PeerPieces(peer(1), bitfield(&[0xC0])));
    worker.handle_message(PieceManagerMessage::FinishedEstablishingConnections(1));
    assert!(!worker.accepts(&PieceManagerMessage::SuccessfulDownload(0, peer(2))));
    assert!(!worker.accepts(&PieceManagerMessage::SuccessfulDownload(5, peer(1))));
    assert!(!worker.accepts(&PieceManagerMessage::FailedDownload(0, peer(2))));
    assert!(worker.accepts(&PieceManagerMessage::SuccessfulDownload(0, peer(1))));
}

#[test]
fn have_needs_a_known_peer() {
    let (_, mut worker) = new_piece_manager(2);
    assert!(!worker.accepts(&PieceManagerMessage::Have(peer(3), 0)));
    // a piece that does not exist is taken from anyone
    assert!(worker.accepts(&PieceManagerMessage::Have(peer(3), 9)));
    worker.handle_message(PieceManagerMessage::PeerPieces(peer(3), bitfield(&[0x80])));
    let msg = PieceManagerMessage::Have(peer(3), 1);
    assert!(worker.accepts(&msg));
    let (requests, finished) = worker.handle_message(msg);
    assert!(requests.is_empty());
    assert!(!finished);
    // the peer is now listed for piece 1 too
    let (requests, _) =
        worker.handle_message(PieceManagerMessage::FinishedEstablishingConnections(1));
    assert_eq!(requests, vec![(peer(3), 0), (peer(3), 1)]);
}

#[test]
fn successful_downloads_finish_the_download() {
    let (_, mut worker) = new_piece_manager(2);
    worker.handle_message(PieceManagerMessage::PeerPieces(peer(1), bitfield(&[0xC0])));
    worker.handle_message(PieceManagerMessage::FinishedEstablishingConnections(1));
    let (requests, finished) =
        worker.handle_message(PieceManagerMessage::SuccessfulDownload(0, peer(1)));
    assert!(requests.is_empty());
    assert!(!finished);
    // a downloaded piece is no longer asked for
    assert!(!worker.accepts(&PieceManagerMessage::SuccessfulDownload(0, peer(1))));
    let (requests, finished) =
        worker.handle_message(PieceManagerMessage::SuccessfulDownload(1, peer(1)));
    assert!(requests.is_empty());
    assert!(finished);
}

#[test]
fn failed_connection_hands_pieces_to_other_peers() {
    let (_, mut worker) = new_piece_manager(2);
    worker.handle_message(PieceManagerMessage::PeerPieces(peer(1), bitfield(&[0xC0])));
    worker.handle_message(PieceManagerMessage::FinishedEstablishingConnections(1));
    worker.handle_message(PieceManagerMessage::PeerPieces(peer(2), bitfield(&[0xC0])));
    let (requests, finished) =
        worker.handle_message(PieceManagerMessage::FailedConnection(peer(1)));
    assert_eq!(requests, vec![(peer(2), 0), (peer(2), 1)]);
    assert!(!finished);
    // the failed peer has no count any more
    assert!(!worker.accepts(&PieceManagerMessage::Have(peer(1), 0)));
}

#[test]
fn failed_connection_of_the_only_peer_leaves_pieces_waiting() {
    let (_, mut worker) = new_piece_manager(2);
    worker.handle_message(PieceManagerMessage::PeerPieces(peer(1), bitfield(&[0xC0])));
    worker.handle_message(PieceManagerMessage::FinishedEstablishingConnections(1));
    let (requests, _) = worker.handle_message(PieceManagerMessage::FailedConnection(peer(1)));
    assert!(requests.is_empty());
    // nor are they asked for when a new peer shows up
    worker.handle_message(PieceManagerMessage::PeerPieces(peer(2), bitfield(&[0x40])));
    assert!(!worker.accepts(&PieceManagerMessage::FailedDownload(1, peer(1))));
    let (requests, finished) = worker.handle_message(PieceManagerMessage::ReaskedTracker);
    assert!(requests.is_empty());
    assert!(!finished);
}

#[test]
fn init_and_other_messages_change_nothing() {
    let (_, mut worker) = new_piece_manager(0);
    let (tx, _rx) = mpsc::channel();
    let (requests, finished) = worker.handle_message(PieceManagerMessage::Init(
        PeerConnectionManagerSender { sender: tx },
    ));
    assert!(requests.is_empty());
    assert!(!finished);
    // with no pieces, the download is over at once
    let (requests, finished) = worker.handle_message(PieceManagerMessage::FirstConnectionsStarted);
    assert!(requests.is_empty());
    assert!(finished);
    let (requests, finished) = worker.handle_message(PieceManagerMessage::ReaskedTracker);
    assert!(requests.is_empty());
    assert!(finished);
}

#[test]
fn forward_sends_requests_and_closes_at_the_end() {
    let (_, mut worker) = new_piece_manager(1);
    let (outgoing, finished) =
        worker.handle_and_forward(PieceManagerMessage::PeerPieces(peer(1), bitfield(&[0x80])));
    assert!(outgoing.is_empty());
    assert!(!finished);
    let (outgoing, finished) =
        worker.handle_and_forward(PieceManagerMessage::FinishedEstablishingConnections(1));
    assert!(!finished);
    assert_eq!(outgoing.len(), 1);
    match &outgoing[0] {
        PeerConnectionManagerMessage::DownloadPiece(id, piece) => {
            assert_eq!(id, &peer(1));
            assert_eq!(*piece, 0);
        }
        other => panic!("unexpected message {:?}", other),
    }
    let (outgoing, finished) =
        worker.handle_and_forward(PieceManagerMessage::SuccessfulDownload(0, peer(1)));
    assert!(finished);
    assert_eq!(outgoing.len(), 1);
    assert!(matches!(outgoing[0], PeerConnectionManagerMessage::CloseConnections));
    // what is forwarded reaches the manager of the connections unchanged
    let (tx, rx) = mpsc::channel();
    let sender = PeerConnectionManagerSender { sender: tx };
    for message in outgoing {
        sender.send(message);
    }
    assert!(matches!(
        rx.try_recv().unwrap(),
        PeerConnectionManagerMessage::CloseConnections
    ));
}

#[test]
fn sender_delivers_messages() {
    let (sender, worker) = new_piece_manager(1);
    sender.have(peer(1), 0);
    sender.reasked_tracker();
    sender.finished_stablishing_connections(3);
    sender.successful_download(0, peer(1));
    sender.failed_download(0, peer(1));
    sender.failed_connection(peer(1));
    sender.peer_pieces(peer(1), bitfield(&[0x80]));
    let receiver = worker.reciever();
    assert!(matches!(receiver.try_recv().unwrap(), PieceManagerMessage::Have(_, 0)));
    assert!(matches!(receiver.try_recv().unwrap(), PieceManagerMessage::ReaskedTracker));
    assert!(matches!(
        receiver.try_recv().unwrap(),
        PieceManagerMessage::FinishedEstablishingConnections(3)
    ));
    assert!(matches!(
        receiver.try_recv().unwrap(),
        PieceManagerMessage::SuccessfulDownload(0, _)
    ));
    assert!(matches!(
        receiver.try_recv().unwrap(),
        PieceManagerMessage::FailedDownload(0, _)
    ));
    assert!(matches!(
        receiver.try_recv().unwrap(),
        PieceManagerMessage::FailedConnection(_)
    ));
    assert!(matches!(
        receiver.try_recv().unwrap(),
        PieceManagerMessage::PeerPieces(_, _)
    ));
}

#[test]
fn peer_per_piece_updates_verifys_if_ready_and_select_peer_correctly() {
    // in this case the entire file has 5 pieces
    let total_pieces = 5;

    // create peer_per_pieces
    let mut peers_per_piece = HashMap::new();

    // initialize peers_per_piece
    for i in 0..total_pieces {
        let vec: Vec<Vec<u8>> = Vec::new();
        peers_per_piece.insert(i, vec);
    }

    let peer_id_1: Vec<u8> = vec![9, 8, 7];
    let peer_id_2: Vec<u8> = vec![6, 5, 4];
    let peer_id_3: Vec<u8> = vec![9, 5, 4];

    let bf_1 = vec![0 as u8, 1 as u8, 2 as u8];
    let bf_2 = vec![1 as u8, 2 as u8, 4 as u8];
    let bf_3 = vec![0 as u8, 3 as u8, 4 as u8];

    let mut bitfield_1 = Bitfield::new();
    bitfield_1.set_bitfield(&bf_1);

    let mut bitfield_2 = Bitfield::new();
    bitfield_2.set_bitfield(&bf_2);

    let mut bitfield_3 = Bitfield::new();
    bitfield_3.set_bitfield(&bf_3);

    peers_per_piece
        .iter_mut()
        .for_each(|(piece_number, peer_ids)| {
            if *piece_number == 0 {
                peer_ids.push(peer_id_1.clone());
                peer_ids.push(peer_id_3.clone());
            } else if *piece_number == 1 || *piece_number == 2 {
                peer_ids.push(peer_id_1.clone());
                peer_ids.push(peer_id_2.clone());
            } else if *piece_number == 3 {
                peer_ids.push(peer_id_3.clone());
            } else if *piece_number == 4 {
                peer_ids.push(peer_id_2.clone());
                peer_ids.push(peer_id_3.clone());
            }
        });

    // check if peers_per_piece is updated correctly
    peers_per_piece.iter().for_each(|(piece_number, peer_ids)| {
        if *piece_number == 0 {
            assert_eq!(peer_ids[0], peer_id_1);
            assert_eq!(peer_ids[1], peer_id_3);
        } else if *piece_number == 1 || *piece_number == 2 {
            assert_eq!(peer_ids[0], peer_id_1);
            assert_eq!(peer_ids[1], peer_id_2);
        } else if *piece_number == 4 {
            assert_eq!(peer_ids[0], peer_id_2);
            assert_eq!(peer_ids[1], peer_id_3);
        } else if *piece_number == 3 {
            assert_eq!(peer_ids[0], peer_id_3);
        }
    });

    // check if ready_to_download_file is true, should be, we have all the pieces
    assert_eq!(
        peers_per_piece
            .iter()
            .all(|(_, peer_ids)| !peer_ids.is_empty()),
        true
    );

    let piece_number = 0;
    let len = peers_per_piece[&piece_number].len();
    let random_idx = rand::thread_rng().gen_range(0..len);
    let peer_id = peers_per_piece[&piece_number][random_idx].clone();

    // check if we are asking the correct peer for the piece
    assert_eq!(peer_id == vec![9, 5, 4] || peer_id == vec![9, 8, 7], true);

    // deleting the peer_id_1 from the peers_per_piece
    peers_per_piece.iter_mut().for_each(|(_, peer_ids)| {
        peer_ids.retain(|x| x != &peer_id_1);
    });

    peers_per_piece.iter().for_each(|(piece_number, peer_ids)| {
        if *piece_number == 0 {
            assert_eq!(peer_ids.len(), 1);
            assert_eq!(peer_ids[0], peer_id_3);
        } else if *piece_number == 1 || *piece_number == 2 {
            assert_eq!(peer_ids.len(), 1);
            assert_eq!(peer_ids[0], peer_id_2);
        } else if *piece_number == 4 {
            assert_eq!(peer_ids[0], peer_id_2);
            assert_eq!(peer_ids[1], peer_id_3);
        } else if *piece_number == 3 {
            assert_eq!(peer_ids[0], peer_id_3);
        }
    });
}
