use bittorrent_rustico::peer::{
    IPeerMessageService, PeerMessageId, PeerMessageServiceMock, ServerMessageServiceUnsuccesfulMock,
};
use bittorrent_rustico::peer::{IClientPeerMessageService, PeerMessage, RecordingService};
use bittorrent_rustico::peer_connection_manager::open_peer_connection::after_download;

#[test]
fn mock_sends_the_blocks_of_its_file() {
    let mut mock = PeerMessageServiceMock::new(vec![1, 2, 3, 4, 5], 2);
    let first = mock.wait_for_message().unwrap();
    assert_eq!(first.id, PeerMessageId::Piece);
    assert_eq!(first.length, 11);
    assert_eq!(first.payload, vec![0, 0, 0, 0, 0, 0, 0, 0, 1, 2]);
    let second = mock.wait_for_message().unwrap();
    assert_eq!(second.payload, vec![0, 0, 0, 0, 0, 0, 0, 2, 3, 4]);
    assert_eq!(mock.counter, 2);
    // no whole block left
    assert!(mock.wait_for_message().is_err());
    assert_eq!(mock.counter, 2);
    assert!(mock.send_message(&first).is_ok());
}

#[test]
fn unsuccessful_mock_requests_then_cancels() {
    let mut mock = ServerMessageServiceUnsuccesfulMock::new();
    let request = mock.wait_for_message().unwrap();
    assert_eq!(request.id, PeerMessageId::Request);
    assert_eq!(request.length, 0);
    assert_eq!(request.payload, vec![0, 0, 0, 0, 0, 0, 0, 0, 0, 0, 0, 8]);
    let cancel = mock.wait_for_message().unwrap();
    assert_eq!(cancel.id, PeerMessageId::Cancel);
    assert!(cancel.payload.is_empty());
    assert_eq!(mock.times_called, 1);
}

#[test]
fn one_failed_download_closes_the_connection() {
    assert_eq!(after_download(0, true), (0, false));
    assert_eq!(after_download(3, true), (0, false));
    assert_eq!(after_download(0, false), (1, true));
    assert_eq!(after_download(1, false), (2, false));
}

struct CountingExchange {
    sent: Vec<PeerMessageId>,
    handshakes: Vec<(Vec<u8>, Vec<u8>)>,
}

impl bittorrent_rustico::peer::IPeerMessageExchange for CountingExchange {
    fn wait_for_message(
        &mut self,
    ) -> Result<bittorrent_rustico::peer::PeerMessage, bittorrent_rustico::peer::IPeerMessageServiceError> {
        Ok(bittorrent_rustico::peer::PeerMessage::unchoke())
    }

    fn send_message(
        &mut self,
        message: &bittorrent_rustico::peer::PeerMessage,
    ) -> Result<(), bittorrent_rustico::peer::IPeerMessageServiceError> {
        self.sent.push(message.id);
        Ok(())
    }
}

impl bittorrent_rustico::peer::IClientHandshake for CountingExchange {
    fn handshake(
        &mut self,
        info_hash: &[u8],
        peer_id: &[u8],
    ) -> Result<(), bittorrent_rustico::peer::IPeerMessageServiceError> {
        self.handshakes.push((info_hash.to_vec(), peer_id.to_vec()));
        Ok(())
    }
}

#[test]
fn recording_service_hands_each_call_to_its_transport() {
    let mut service = RecordingService::new(CountingExchange {
        sent: vec![],
        handshakes: vec![],
    });
    assert!(IClientPeerMessageService::handshake(&mut service, &[1, 2], &[3]).is_ok());
    assert!(service.send_message(&PeerMessage::interested()).is_ok());
    assert_eq!(service.wait_for_message().unwrap().id, PeerMessageId::Unchoke);
    assert_eq!(service.exchange.handshakes, vec![(vec![1, 2], vec![3])]);
    assert_eq!(service.exchange.sent, vec![PeerMessageId::Interested]);
}
