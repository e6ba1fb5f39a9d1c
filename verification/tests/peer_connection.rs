use bittorrent_rustico::metainfo::{Info, Metainfo};
use bittorrent_rustico::peer::{
    block_of, block_offsets, sha1_of, IPeerMessageServiceError, Peer, PeerConnection,
    PeerConnectionError, PeerMessage, PeerMessageId, PeerMessageServiceMock,
};

fn metainfo(piece_length: u32, pieces: Vec<Vec<u8>>) -> Metainfo {
    Metainfo {
        announce: "".to_string(),
        info: Info {
            piece_length,
            pieces,
            length: 16,
            name: "".to_string(),
            files: None,
        },
        info_hash: vec![],
    }
}

fn peer() -> Peer {
    Peer {
        ip: "10.0.0.1".to_string(),
        port: 6881,
        peer_id: vec![5, 6],
    }
}

fn connection(file: Vec<u8>, block_size: u32) -> PeerConnection<PeerMessageServiceMock> {
    let pieces = vec![sha1_of(&file[0..8]), sha1_of(&file[8..16])];
    PeerConnection::new(
        peer(),
        &vec![1, 2, 3, 4],
        &metainfo(8, pieces),
        PeerMessageServiceMock::new(file, block_size),
    )
}

/// Requests each block of the piece in turn, as a client of the connection does.
fn request_piece(
    connection: &mut PeerConnection<PeerMessageServiceMock>,
    piece_index: u32,
    block_size: u32,
) -> Result<Vec<u8>, PeerConnectionError> {
    let mut piece = vec![];
    for begin in block_offsets(connection.metainfo.info.piece_length, block_size) {
        connection.send_block_request(piece_index, begin, block_size)?;
        loop {
            let message = connection.wait_for_message()?;
            if let Some(block) = block_of(&message, piece_index, begin) {
                piece.extend(block?);
                break;
            }
        }
    }
    Ok(piece)
}

#[test]
fn new_connection_starts_choked_and_interested() {
    let connection = connection(vec![0; 16], 2);
    assert!(connection._am_choking);
    assert!(connection._am_interested);
    assert!(connection.peer_choking);
    assert!(!connection._peer_interested);
    assert!(!connection.is_ready());
    assert_eq!(connection.get_peer_id(), vec![5, 6]);
    assert_eq!(connection.get_peer_ip(), "10.0.0.1");
    assert_eq!(connection.client_peer_id, vec![1, 2, 3, 4]);
    assert_eq!(connection.metainfo.info.piece_length, 8);
}

#[test]
fn messages_update_the_state() {
    let mut connection = connection(vec![0; 16], 2);
    let mut bitfield = PeerMessage::unchoke();
    bitfield.id = PeerMessageId::Bitfield;
    bitfield.payload = vec![0xC0];
    assert!(connection.on_message(&bitfield).is_ok());
    assert!(!connection.is_ready());
    assert!(connection.on_message(&PeerMessage::unchoke()).is_ok());
    assert!(connection.is_ready());
    assert!(connection.get_bitfield().has_piece(1));
    assert!(connection.on_message(&PeerMessage::choke()).is_ok());
    assert!(!connection.is_ready());
    let request = PeerMessage::request(0, 0, 2);
    assert!(matches!(
        connection.on_message(&request),
        Err(IPeerMessageServiceError::UnhandledMessage)
    ));
}

#[test]
fn requests_blocks_of_a_piece_from_the_mock() {
    let file = vec![0, 0, 0, 0, 1, 1, 1, 1, 0, 0, 0, 0, 0, 0, 0, 0];
    let mut connection = connection(file.clone(), 2);
    let piece = request_piece(&mut connection, 0, 2).unwrap();
    assert_eq!(file[0..8], piece);
}

#[test]
fn block_of_another_piece_is_an_error() {
    let file = vec![0, 0, 0, 0, 1, 1, 1, 1, 0, 0, 0, 0, 0, 0, 0, 0];
    let mut connection = connection(file, 2);
    assert!(matches!(
        request_piece(&mut connection, 1, 2),
        Err(PeerConnectionError::PieceRequestingError(_))
    ));
}

#[test]
fn block_offsets_cover_the_piece() {
    assert_eq!(block_offsets(8, 2), vec![0, 2, 4, 6]);
    assert_eq!(block_offsets(7, 2), vec![0, 2, 4, 6]);
    assert_eq!(block_offsets(8, 16384), vec![0]);
    assert!(block_offsets(0, 3).is_empty());
    assert_eq!(block_offsets(u32::MAX, u32::MAX), vec![0]);
}

#[test]
fn only_piece_messages_answer_a_block_request() {
    assert!(block_of(&PeerMessage::unchoke(), 0, 0).is_none());
    let piece = PeerMessage::piece(3, 16, vec![9, 9]);
    assert_eq!(block_of(&piece, 3, 16).unwrap().unwrap(), vec![9, 9]);
    assert!(matches!(
        block_of(&piece, 3, 0),
        Some(Err(PeerConnectionError::PieceRequestingError(_)))
    ));
}

#[test]
fn received_messages_and_errors_are_handled() {
    let mut connection = connection(vec![0; 16], 2);
    let handled = connection.handle_received(Ok(PeerMessage::unchoke()));
    assert!(matches!(handled, Ok(m) if m.id == PeerMessageId::Unchoke));
    assert!(!connection.peer_choking);
    let failed = connection.handle_received(Err(IPeerMessageServiceError::ReceivingMessageError(
        "gone".to_string(),
    )));
    assert!(matches!(
        failed,
        Err(IPeerMessageServiceError::ReceivingMessageError(text)) if text == "gone"
    ));
    assert!(!connection.peer_choking);
    assert!(matches!(
        connection.handle_received(Ok(PeerMessage::request(0, 0, 2))),
        Err(IPeerMessageServiceError::UnhandledMessage)
    ));
}

#[test]
fn connection_starts_with_the_mock() {
    let mut connection = connection(vec![0; 16], 2);
    assert!(connection.start_connection().is_ok());
    assert!(connection.peer_choking);
}
