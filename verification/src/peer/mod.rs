pub mod connection;
pub mod errors;
pub mod service;
pub mod types;
pub mod utils;

pub use errors::{IPeerMessageServiceError, PeerConnectionError};
pub use types::{Bitfield, Peer, PeerMessage, PeerMessageId};
pub use utils::{
    create_handshake_message, is_keep_alive_message, sha1_of, u32_to_vec_be, valid_block,
    valid_piece, vec_be_to_u32,
};
pub use service::{
    IClientHandshake, IClientPeerMessageService, IHandshakeService, IPeerMessageExchange,
    IPeerMessageService, IServerHandshake, IServerPeerMessageService, RecordingService,
    PeerMessageServiceMock, ServerMessageServiceUnsuccesfulMock,
};
pub use connection::{block_of, block_offsets, PeerConnection};
