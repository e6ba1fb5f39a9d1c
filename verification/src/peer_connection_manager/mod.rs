pub mod connections;
pub mod open_peer_connection;
pub mod open_worker;
pub mod sender;
pub mod types;

pub use open_peer_connection::{
    OpenPeerConnectionError, OpenPeerConnectionMessage, OpenPeerConnectionSender,
};
pub use open_worker::{OpenConnectionState, WorkerAction, WorkerEvent};
pub use sender::PeerConnectionManagerSender;
pub use types::PeerConnectionManagerMessage;
pub use connections::{ManagedConnection, ManagerAction, PeerConnections};
