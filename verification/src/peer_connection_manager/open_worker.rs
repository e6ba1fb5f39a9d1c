use vstd::prelude::*;

use super::open_peer_connection::{after_download, OpenPeerConnectionMessage};

verus! {

/// What the worker of an open connection learns: a message on its channel, that its
/// channel has no sender left, how a download that it made went, or a message that was
/// still queued when the connection was closed.
#[derive(Debug)]
pub enum WorkerEvent {
    Message(OpenPeerConnectionMessage),
    ChannelClosed,
    /// The download of the piece with this index ended; whether it succeeded.
    DownloadFinished(u32, bool),
    Queued(OpenPeerConnectionMessage),
}

/// What the worker of an open connection is to do, in the order given.
#[derive(Debug, PartialEq, Eq, Structural)]
pub enum WorkerAction {
    /// Hand the peer's bitfield to the piece manager.
    SendBitfield,
    /// Request the piece with this index from the peer, hand it to the piece saver when it
    /// came, and report how it went with `DownloadFinished`.
    Download(u32),
    /// Tell the piece manager that the download of the piece with this index failed.
    FailedDownload(u32),
    /// Tell the piece manager that the connection failed.
    FailedConnectionToPieceManager,
    /// Tell the manager of the connections that the connection failed.
    FailedConnectionToManager,
    /// Hand each message still queued on the channel back with `Queued`.
    DrainQueued,
    /// Stop, the connection having been closed as asked.
    Stop,
    /// Stop, the connection having failed.
    StopWithError,
}

/// The state of the worker of an open connection: the downloads that failed in a row, and
/// whether the connection is open.
#[derive(Debug, Clone, Copy, PartialEq, Eq, Structural)]
pub struct OpenConnectionState {
    pub failed_download_in_a_row: u32,
    pub is_open: bool,
}

/// What the worker does on `event` in the state `s`: its next state and its actions.
///
/// A failed download is reported to the piece manager; when it is the first failure in a
/// row, the connection is closed: the manager of the connections is told, every download
/// still queued is reported as failed so that it is asked again, and the worker stops with
/// an error. A successful download resets the count. When the channel has no sender left,
/// the piece manager and the manager of the connections are told that the connection
/// failed, and the worker stops with an error.
pub open spec fn spec_on_event(s: OpenConnectionState, event: WorkerEvent) -> (
    OpenConnectionState,
    Seq<WorkerAction>,
) {
    match event {
        WorkerEvent::Message(OpenPeerConnectionMessage::SendBitfield) => (
            s,
            seq![WorkerAction::SendBitfield],
        ),
        WorkerEvent::Message(OpenPeerConnectionMessage::DownloadPiece(p)) => (
            s,
            seq![WorkerAction::Download(p)],
        ),
        WorkerEvent::Message(OpenPeerConnectionMessage::CloseConnection) => (
            s,
            seq![WorkerAction::Stop],
        ),
        WorkerEvent::ChannelClosed => (
            s,
            seq![
                WorkerAction::FailedConnectionToPieceManager,
                WorkerAction::FailedConnectionToManager,
                WorkerAction::StopWithError,
            ],
        ),
        WorkerEvent::DownloadFinished(_, true) => (
            OpenConnectionState { failed_download_in_a_row: 0, ..s },
            Seq::empty(),
        ),
        WorkerEvent::DownloadFinished(p, false) => {
            let failed = (s.failed_download_in_a_row + 1) as u32;
            if s.failed_download_in_a_row == 0 {
                (
                    OpenConnectionState { failed_download_in_a_row: failed, is_open: false },
                    seq![
                        WorkerAction::FailedDownload(p),
                        WorkerAction::FailedConnectionToManager,
                        WorkerAction::DrainQueued,
                        WorkerAction::StopWithError,
                    ],
                )
            } else {
                (
                    OpenConnectionState { failed_download_in_a_row: failed, ..s },
                    seq![WorkerAction::FailedDownload(p)],
                )
            }
        },
        WorkerEvent::Queued(OpenPeerConnectionMessage::DownloadPiece(p)) => (
            s,
            seq![WorkerAction::FailedDownload(p)],
        ),
        WorkerEvent::Queued(_) => (s, Seq::empty()),
    }
}

impl OpenConnectionState {
    /// The state of a worker whose connection has just opened.
    pub fn new() -> (s: Self)
        ensures
            s == (OpenConnectionState { failed_download_in_a_row: 0, is_open: true }),
    {
        OpenConnectionState { failed_download_in_a_row: 0, is_open: true }
    }

    /// Takes `event`: moves to the next state and gives the actions to perform, in order.
    /// A failed download when `u32::MAX` downloads have failed in a row would overflow the
    /// count, so it is left out.
    pub fn on_event(&mut self, event: WorkerEvent) -> (actions: Vec<WorkerAction>)
        requires
            event matches WorkerEvent::DownloadFinished(_, false) ==> old(
                self,
            ).failed_download_in_a_row < u32::MAX,
        ensures
            (*final(self), actions@) == spec_on_event(*old(self), event),
    {
        match event {
            WorkerEvent::Message(OpenPeerConnectionMessage::SendBitfield) => {
                vec![WorkerAction::SendBitfield]
            },
            WorkerEvent::Message(OpenPeerConnectionMessage::DownloadPiece(p)) => {
                vec![WorkerAction::Download(p)]
            },
            WorkerEvent::Message(OpenPeerConnectionMessage::CloseConnection) => {
                vec![WorkerAction::Stop]
            },
            WorkerEvent::ChannelClosed => {
                vec![
                    WorkerAction::FailedConnectionToPieceManager,
                    WorkerAction::FailedConnectionToManager,
                    WorkerAction::StopWithError,
                ]
            },
            WorkerEvent::DownloadFinished(p, succeeded) => {
                if succeeded {
                    self.failed_download_in_a_row = 0;
                    return Vec::new();
                }
                let (failed, close) = after_download(self.failed_download_in_a_row, succeeded);
                self.failed_download_in_a_row = failed;
                if close {
                    self.is_open = false;
                    vec![
                        WorkerAction::FailedDownload(p),
                        WorkerAction::FailedConnectionToManager,
                        WorkerAction::DrainQueued,
                        WorkerAction::StopWithError,
                    ]
                } else {
                    vec![WorkerAction::FailedDownload(p)]
                }
            },
            WorkerEvent::Queued(OpenPeerConnectionMessage::DownloadPiece(p)) => {
                vec![WorkerAction::FailedDownload(p)]
            },
            WorkerEvent::Queued(_) => Vec::new(),
        }
    }
}

} // verus!
