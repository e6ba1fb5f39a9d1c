use bittorrent_rustico::peer::Peer;
use bittorrent_rustico::peer_connection_manager::{
    ManagedConnection, ManagerAction, OpenConnectionState, OpenPeerConnectionMessage,
    PeerConnectionManagerMessage, PeerConnections, WorkerAction, WorkerEvent,
};

fn managed(id: u8, handle: u8) -> ManagedConnection<u8> {
    ManagedConnection {
        peer: Peer {
            ip: format!("10.0.0.{}", id),
            port: 6881,
            peer_id: vec![id],
        },
        connection: handle,
        is_open: true,
        piece_request_count: 0,
    }
}

#[test]
fn downloads_go_to_open_connections() {
    let mut table = PeerConnections::new();
    table.insert(vec![1], managed(1, 10));
    table.insert(vec![2], managed(2, 20));
    assert_eq!(table.len(), 2);
    assert_eq!(table.find(&[2]), Some(1));
    assert_eq!(table.find(&[3]), None);
    match table.manage(PeerConnectionManagerMessage::DownloadPiece(vec![2], 7)) {
        ManagerAction::Forward(i, piece) => {
            assert_eq!(i, 1);
            assert_eq!(piece, 7);
            assert_eq!(table.get(i).connection, 20);
            assert_eq!(table.get(i).piece_request_count, 1);
        }
        _ => panic!("expected the request to be forwarded"),
    }
}

#[test]
fn failed_connections_are_closed_and_reported() {
    let mut table = PeerConnections::new();
    table.insert(vec![1], managed(1, 10));
    assert_eq!(table.open_connection_count(), 1);
    assert!(matches!(
        table.manage(PeerConnectionManagerMessage::FailedConnection(vec![1])),
        ManagerAction::ReportFailedConnection(id) if id == vec![1]
    ));
    assert_eq!(table.open_connection_count(), 0);
    assert!(matches!(
        table.manage(PeerConnectionManagerMessage::DownloadPiece(vec![1], 3)),
        ManagerAction::ReportFailedDownload(id, 3) if id == vec![1]
    ));
    // an unknown peer's failure is reported all the same
    assert!(matches!(
        table.manage(PeerConnectionManagerMessage::FailedConnection(vec![9])),
        ManagerAction::ReportFailedConnection(_)
    ));
    assert!(matches!(
        table.manage(PeerConnectionManagerMessage::CloseConnections),
        ManagerAction::CloseAll
    ));
}

#[test]
fn inserting_a_known_peer_replaces_its_connection() {
    let mut table = PeerConnections::new();
    table.insert(vec![1], managed(1, 10));
    table.insert(vec![1], managed(1, 11));
    assert_eq!(table.len(), 1);
    assert_eq!(table.get(0).connection, 11);
    let entries = table.into_entries();
    assert_eq!(entries.len(), 1);
    assert_eq!(entries[0].0, vec![1]);
}

#[test]
fn open_worker_asks_for_each_message() {
    let mut state = OpenConnectionState::new();
    assert_eq!(
        state.on_event(WorkerEvent::Message(OpenPeerConnectionMessage::SendBitfield)),
        vec![WorkerAction::SendBitfield]
    );
    assert_eq!(
        state.on_event(WorkerEvent::Message(OpenPeerConnectionMessage::DownloadPiece(4))),
        vec![WorkerAction::Download(4)]
    );
    assert_eq!(state.on_event(WorkerEvent::DownloadFinished(4, true)), vec![]);
    assert_eq!(state.failed_download_in_a_row, 0);
    assert_eq!(
        state.on_event(WorkerEvent::Message(OpenPeerConnectionMessage::CloseConnection)),
        vec![WorkerAction::Stop]
    );
    assert!(state.is_open);
}

#[test]
fn open_worker_closes_after_a_failed_download() {
    let mut state = OpenConnectionState::new();
    assert_eq!(
        state.on_event(WorkerEvent::DownloadFinished(2, false)),
        vec![
            WorkerAction::FailedDownload(2),
            WorkerAction::FailedConnectionToManager,
            WorkerAction::DrainQueued,
            WorkerAction::StopWithError,
        ]
    );
    assert!(!state.is_open);
    assert_eq!(state.failed_download_in_a_row, 1);
    assert_eq!(
        state.on_event(WorkerEvent::Queued(OpenPeerConnectionMessage::DownloadPiece(7))),
        vec![WorkerAction::FailedDownload(7)]
    );
    assert_eq!(
        state.on_event(WorkerEvent::Queued(OpenPeerConnectionMessage::SendBitfield)),
        vec![]
    );
    let mut fresh = OpenConnectionState::new();
    assert_eq!(
        fresh.on_event(WorkerEvent::ChannelClosed),
        vec![
            WorkerAction::FailedConnectionToPieceManager,
            WorkerAction::FailedConnectionToManager,
            WorkerAction::StopWithError,
        ]
    );
}
