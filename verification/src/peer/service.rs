use vstd::prelude::*;

use super::errors::{IPeerMessageServiceError, PeerConnectionError};
use super::types::{PeerMessage, PeerMessageId};
use super::utils::{be_bytes, u32_to_vec_be};
use vstd::string::StringExecFns;

verus! {

/// A call made on a message service, as values: a handshake with an info hash and a peer
/// id, or a message handed to be sent (its kind, its length prefix and its payload).
pub enum ServiceCall {
    Handshake(Seq<u8>, Seq<u8>),
    Send(PeerMessageId, u32, Seq<u8>),
}

/// The call that hands `message` to a service to be sent.
pub open spec fn send_call(message: PeerMessage) -> ServiceCall {
    ServiceCall::Send(message.id, message.length, message.payload@)
}

/// The exchange of messages with a peer.
///
/// A service keeps the record of the calls made on it: each handshake and each message
/// handed to it to be sent, in order, whether or not it went through. An exchange that
/// keeps no record of its own, such as one over a socket, gets one from
/// `RecordingService`.
pub trait IPeerMessageService {
    /// The handshakes made and the messages handed to the service so far, in order.
    spec fn calls(&self) -> Seq<ServiceCall>;

    /// Waits for the next message from the peer.
    fn wait_for_message(&mut self) -> (res: Result<PeerMessage, IPeerMessageServiceError>)
        ensures
            final(self).calls() == old(self).calls(),
    ;

    /// Sends `message` to the peer.
    fn send_message(&mut self, message: &PeerMessage) -> (res: Result<(), IPeerMessageServiceError>)
        ensures
            final(self).calls() == old(self).calls().push(send_call(*message)),
    ;
}

/// The exchange of messages with a peer that we connected to.
pub trait IClientPeerMessageService: IPeerMessageService {
    /// Sends our handshake, then reads the peer's.
    fn handshake(&mut self, info_hash: &[u8], peer_id: &[u8]) -> (res: Result<
        (),
        IPeerMessageServiceError,
    >)
        ensures
            final(self).calls() == old(self).calls().push(
                ServiceCall::Handshake(info_hash@, peer_id@),
            ),
    ;
}

/// The exchange of messages with a peer that connected to us.
pub trait IServerPeerMessageService: IPeerMessageService {
    /// Reads the peer's handshake, then sends ours.
    fn handshake(&mut self, info_hash: &[u8], peer_id: &[u8]) -> (res: Result<
        (),
        IPeerMessageServiceError,
    >)
        ensures
            final(self).calls() == old(self).calls().push(
                ServiceCall::Handshake(info_hash@, peer_id@),
            ),
    ;
}

/// The exchange of messages with a peer, as a transport does it (over a socket, for
/// instance), with no record of the calls kept.
pub trait IPeerMessageExchange {
    /// Waits for the next message from the peer.
    fn wait_for_message(&mut self) -> Result<PeerMessage, IPeerMessageServiceError>;

    /// Sends `message` to the peer.
    fn send_message(&mut self, message: &PeerMessage) -> Result<(), IPeerMessageServiceError>;
}

/// The handshake of a transport with a peer that we connected to: ours first, then the
/// peer's.
pub trait IClientHandshake: IPeerMessageExchange {
    fn handshake(&mut self, info_hash: &[u8], peer_id: &[u8]) -> Result<
        (),
        IPeerMessageServiceError,
    >;
}

/// The handshake of a transport with a peer that connected to us: the peer's first, then
/// ours.
pub trait IServerHandshake: IPeerMessageExchange {
    fn handshake(&mut self, info_hash: &[u8], peer_id: &[u8]) -> Result<
        (),
        IPeerMessageServiceError,
    >;
}

/// A message service over the transport `E`: it hands each call to the transport, with the
/// same arguments, and records it.
pub struct RecordingService<E> {
    pub exchange: E,
    /// The calls made on the service, in order.
    pub recorded: Ghost<Seq<ServiceCall>>,
}

impl<E> RecordingService<E> {
    /// A service over `exchange`, with no call made yet.
    pub fn new(exchange: E) -> (service: Self)
        ensures
            service.exchange == exchange,
            service.recorded@ == Seq::<ServiceCall>::empty(),
    {
        RecordingService { exchange, recorded: Ghost(Seq::empty()) }
    }
}

impl<E: IPeerMessageExchange> IPeerMessageService for RecordingService<E> {
    open spec fn calls(&self) -> Seq<ServiceCall> {
        self.recorded@
    }

    /// What the transport gives.
    fn wait_for_message(&mut self) -> (res: Result<PeerMessage, IPeerMessageServiceError>) {
        self.exchange.wait_for_message()
    }

    /// Hands `message` to the transport.
    fn send_message(&mut self, message: &PeerMessage) -> (res: Result<(), IPeerMessageServiceError>) {
        proof {
            self.recorded@ = self.recorded@.push(send_call(*message));
        }
        self.exchange.send_message(message)
    }
}

impl<E: IClientHandshake> IClientPeerMessageService for RecordingService<E> {
    /// Hands the handshake to the transport.
    fn handshake(&mut self, info_hash: &[u8], peer_id: &[u8]) -> (res: Result<
        (),
        IPeerMessageServiceError,
    >) {
        proof {
            self.recorded@ = self.recorded@.push(ServiceCall::Handshake(info_hash@, peer_id@));
        }
        IClientHandshake::handshake(&mut self.exchange, info_hash, peer_id)
    }
}

impl<E: IServerHandshake> IServerPeerMessageService for RecordingService<E> {
    /// Hands the handshake to the transport.
    fn handshake(&mut self, info_hash: &[u8], peer_id: &[u8]) -> (res: Result<
        (),
        IPeerMessageServiceError,
    >) {
        proof {
            self.recorded@ = self.recorded@.push(ServiceCall::Handshake(info_hash@, peer_id@));
        }
        IServerHandshake::handshake(&mut self.exchange, info_hash, peer_id)
    }
}

/// The handshake with a peer.
pub trait IHandshakeService {
    fn handshake(&mut self, info_hash: &[u8], peer_id: &[u8]) -> Result<(), PeerConnectionError>;
}

/// A peer that sends the blocks of `file`, one after the other, each of `block_size` bytes,
/// as pieces of index 0.
pub struct PeerMessageServiceMock {
    pub counter: u32,
    pub file: Vec<u8>,
    pub block_size: u32,
    /// The calls made on the mock, in order.
    pub recorded: Ghost<Seq<ServiceCall>>,
}

impl PeerMessageServiceMock {
    /// A mock that sends the blocks of `file` from the first one on, with no call made yet.
    pub fn new(file: Vec<u8>, block_size: u32) -> (mock: Self)
        ensures
            mock.counter == 0,
            mock.file == file,
            mock.block_size == block_size,
            mock.recorded@ == Seq::<ServiceCall>::empty(),
    {
        PeerMessageServiceMock { counter: 0, file, block_size, recorded: Ghost(Seq::empty()) }
    }

    /// The next block as a piece message, and one more block counted; an error once the file
    /// has no whole block left (or the block would end past the offsets that a piece message
    /// can carry).
    pub fn next_block(&mut self) -> (res: Result<PeerMessage, IPeerMessageServiceError>)
        ensures
            ({
                let start = old(self).counter * old(self).block_size;
                let end = start + old(self).block_size;
                if end <= old(self).file@.len() && end + 9 <= u32::MAX && old(self).counter < u32::MAX {
                    &&& res matches Ok(message)
                    &&& message.id == PeerMessageId::Piece
                    &&& message.payload@ == be_bytes(0) + be_bytes(start as u32)
                        + old(self).file@.subrange(start, end)
                    &&& final(self).counter == old(self).counter + 1
                    &&& final(self).file == old(self).file
                    &&& final(self).block_size == old(self).block_size
                    &&& final(self).recorded == old(self).recorded
                } else {
                    &&& res matches Err(e)
                    &&& e is ReceivingMessageError
                    &&& *final(self) == *old(self)
                }
            }),
    {
        let c = self.counter as u64;
        let b = self.block_size as u64;
        assert(c * b <= 0xffff_fffe_0000_0001) by (nonlinear_arith)
            requires
                c <= 0xffff_ffff,
                b <= 0xffff_ffff,
        ;
        let start = c * b;
        let end = start + b;
        if end > self.file.len() as u64 || end + 9 > u32::MAX as u64 || self.counter == u32::MAX {
            return Err(
                IPeerMessageServiceError::ReceivingMessageError(
                    String::from_str("No block left in the file"),
                ),
            );
        }
        let block = vstd::slice::slice_to_vec(&self.file.as_slice()[start as usize..end as usize]);
        let message = PeerMessage::piece(0, start as u32, block);
        self.counter = self.counter + 1;
        Ok(message)
    }
}

impl IPeerMessageService for PeerMessageServiceMock {
    open spec fn calls(&self) -> Seq<ServiceCall> {
        self.recorded@
    }

    /// The next block as a piece message (see `next_block`).
    fn wait_for_message(&mut self) -> (res: Result<PeerMessage, IPeerMessageServiceError>)
        ensures
            ({
                let start = old(self).counter * old(self).block_size;
                let end = start + old(self).block_size;
                if end <= old(self).file@.len() && end + 9 <= u32::MAX && old(self).counter < u32::MAX {
                    &&& res matches Ok(message)
                    &&& message.id == PeerMessageId::Piece
                    &&& message.payload@ == be_bytes(0) + be_bytes(start as u32)
                        + old(self).file@.subrange(start, end)
                    &&& final(self).counter == old(self).counter + 1
                    &&& final(self).file == old(self).file
                    &&& final(self).block_size == old(self).block_size
                    &&& final(self).recorded == old(self).recorded
                } else {
                    &&& res matches Err(e)
                    &&& e is ReceivingMessageError
                    &&& *final(self) == *old(self)
                }
            }),
    {
        self.next_block()
    }

    /// Takes any message, and records it.
    fn send_message(&mut self, message: &PeerMessage) -> (res: Result<(), IPeerMessageServiceError>)
        ensures
            res is Ok,
            final(self).counter == old(self).counter,
            final(self).file == old(self).file,
            final(self).block_size == old(self).block_size,
    {
        proof {
            self.recorded@ = self.recorded@.push(send_call(*message));
        }
        Ok(())
    }
}

impl IClientPeerMessageService for PeerMessageServiceMock {
    /// Every handshake succeeds, and is recorded.
    fn handshake(&mut self, info_hash: &[u8], peer_id: &[u8]) -> (res: Result<
        (),
        IPeerMessageServiceError,
    >)
        ensures
            res is Ok,
            final(self).counter == old(self).counter,
            final(self).file == old(self).file,
            final(self).block_size == old(self).block_size,
    {
        proof {
            self.recorded@ = self.recorded@.push(ServiceCall::Handshake(info_hash@, peer_id@));
        }
        Ok(())
    }
}

/// The payload of a request for `length` bytes of piece `index` from offset `begin`.
pub fn request_payload(index: u32, begin: u32, length: u32) -> (payload: Vec<u8>)
    ensures
        payload@ == be_bytes(index) + be_bytes(begin) + be_bytes(length),
{
    let mut payload: Vec<u8> = Vec::new();
    payload.extend_from_slice(u32_to_vec_be(index).as_slice());
    payload.extend_from_slice(u32_to_vec_be(begin).as_slice());
    payload.extend_from_slice(u32_to_vec_be(length).as_slice());
    assert(payload@ =~= be_bytes(index) + be_bytes(begin) + be_bytes(length));
    payload
}

/// A peer that asks for the first 8 bytes of piece 0 with a message whose length prefix is
/// 0, and then cancels; it takes any message.
pub struct ServerMessageServiceUnsuccesfulMock {
    pub times_called: u32,
    /// The calls made on the mock, in order.
    pub recorded: Ghost<Seq<ServiceCall>>,
}

impl ServerMessageServiceUnsuccesfulMock {
    /// A mock that has not been asked for a message yet, with no call made.
    pub fn new() -> (mock: Self)
        ensures
            mock.times_called == 0,
            mock.recorded@ == Seq::<ServiceCall>::empty(),
    {
        ServerMessageServiceUnsuccesfulMock { times_called: 0, recorded: Ghost(Seq::empty()) }
    }

    /// The peer's next message.
    pub fn next_message(&mut self) -> (message: PeerMessage)
        ensures
            old(self).times_called == 0 ==> {
                &&& message.id == PeerMessageId::Request
                &&& message.length == 0
                &&& message.payload@ == be_bytes(0) + be_bytes(0) + be_bytes(8)
                &&& final(self).times_called == 1
                &&& final(self).recorded == old(self).recorded
            },
            old(self).times_called != 0 ==> {
                &&& message.id == PeerMessageId::Cancel
                &&& message.length == 0
                &&& message.payload@ == Seq::<u8>::empty()
                &&& final(self).times_called == old(self).times_called
                &&& final(self).recorded == old(self).recorded
            },
    {
        if self.times_called == 0 {
            self.times_called = 1;
            PeerMessage { id: PeerMessageId::Request, length: 0, payload: request_payload(0, 0, 8) }
        } else {
            PeerMessage { id: PeerMessageId::Cancel, length: 0, payload: Vec::new() }
        }
    }
}

impl IPeerMessageService for ServerMessageServiceUnsuccesfulMock {
    open spec fn calls(&self) -> Seq<ServiceCall> {
        self.recorded@
    }

    /// The peer's next message (see `next_message`); never an error.
    fn wait_for_message(&mut self) -> (res: Result<PeerMessage, IPeerMessageServiceError>)
        ensures
            old(self).times_called == 0 ==> {
                &&& res matches Ok(message)
                &&& message.id == PeerMessageId::Request
                &&& message.length == 0
                &&& message.payload@ == be_bytes(0) + be_bytes(0) + be_bytes(8)
                &&& final(self).times_called == 1
                &&& final(self).recorded == old(self).recorded
            },
            old(self).times_called != 0 ==> {
                &&& res matches Ok(message)
                &&& message.id == PeerMessageId::Cancel
                &&& message.length == 0
                &&& message.payload@ == Seq::<u8>::empty()
                &&& final(self).times_called == old(self).times_called
                &&& final(self).recorded == old(self).recorded
            },
    {
        Ok(self.next_message())
    }

    /// Takes any message, and records it.
    fn send_message(&mut self, message: &PeerMessage) -> (res: Result<(), IPeerMessageServiceError>)
        ensures
            res is Ok,
            final(self).times_called == old(self).times_called,
    {
        proof {
            self.recorded@ = self.recorded@.push(send_call(*message));
        }
        Ok(())
    }
}

} // verus!
