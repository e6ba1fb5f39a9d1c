use vstd::prelude::*;

use super::errors::{IPeerMessageServiceError, PeerConnectionError};
use super::service::{IClientPeerMessageService, ServiceCall};
use super::types::{Bitfield, Peer, PeerMessage, PeerMessageId};
use super::utils::{be_bytes, be_value, valid_block};
use crate::metainfo::Metainfo;
use crate::metainfo::types::files_view;
use vstd::string::StringExecFns;

verus! {

/// Who chokes whom in a connection, who is interested, and which pieces the peer has.
pub struct ConnectionState {
    pub am_choking: bool,
    pub am_interested: bool,
    pub peer_choking: bool,
    pub peer_interested: bool,
    pub bitfield: Seq<u8>,
}

/// What a message from the peer does to the state of the connection: a choke, an unchoke,
/// an interest or a bitfield is recorded, a have or a piece changes nothing, and any other
/// message is not handled (`None`).
pub open spec fn after_message(s: ConnectionState, id: PeerMessageId, payload: Seq<u8>) -> Option<
    ConnectionState,
> {
    match id {
        PeerMessageId::Unchoke => Some(ConnectionState { peer_choking: false, ..s }),
        PeerMessageId::Choke => Some(ConnectionState { peer_choking: true, ..s }),
        PeerMessageId::Interested => Some(ConnectionState { peer_interested: true, ..s }),
        PeerMessageId::NotInterested => Some(ConnectionState { peer_interested: false, ..s }),
        PeerMessageId::Bitfield => Some(ConnectionState { bitfield: payload, ..s }),
        PeerMessageId::Have => Some(s),
        PeerMessageId::Piece => Some(s),
        _ => None,
    }
}

/// A connection with a peer, over the message service `S`.
pub struct PeerConnection<S> {
    pub _am_choking: bool,
    pub _am_interested: bool,
    pub peer_choking: bool,
    pub _peer_interested: bool,
    pub message_service: S,
    pub metainfo: Metainfo,
    pub client_peer_id: Vec<u8>,
    pub bitfield: Bitfield,
    pub peer_id: Vec<u8>,
    pub peer: Peer,
}

/// The offsets of the blocks of a piece of `piece_length` bytes, in blocks of `block_size`
/// bytes: 0, `block_size`, and so on, while below the piece's length.
pub open spec fn block_offsets_spec(piece_length: u32, block_size: u32) -> Seq<u32> {
    Seq::new(
        ((piece_length + block_size - 1) / (block_size as int)) as nat,
        |k: int| (k * block_size) as u32,
    )
}

/// The offset of the last block of a non-empty piece.
pub open spec fn last_block_offset(piece_length: u32, block_size: u32) -> int {
    ((piece_length - 1) / (block_size as int)) * block_size
}

/// The offsets of the blocks of a piece: the offsets from which its blocks are requested,
/// one after the other.
pub fn block_offsets(piece_length: u32, block_size: u32) -> (offsets: Vec<u32>)
    requires
        block_size > 0,
        piece_length == 0 || last_block_offset(piece_length, block_size) + block_size <= u32::MAX,
    ensures
        offsets@ == block_offsets_spec(piece_length, block_size),
{
    let ghost count: int = (piece_length + block_size - 1) / (block_size as int);
    let mut offsets: Vec<u32> = Vec::new();
    let mut counter: u32 = 0;
    proof {
        if piece_length > 0 {
            lemma_block_count(piece_length as int, block_size as int);
        } else {
            assert(count == 0) by (nonlinear_arith)
                requires
                    count == (piece_length + block_size - 1) / (block_size as int),
                    piece_length == 0,
                    block_size > 0,
            ;
        }
    }
    while counter < piece_length
        invariant
            block_size > 0,
            piece_length == 0 || last_block_offset(piece_length, block_size) + block_size
                <= u32::MAX,
            count == (piece_length + block_size - 1) / (block_size as int),
            piece_length > 0 ==> count * block_size >= piece_length && (count - 1) * block_size
                < piece_length && (count - 1) * block_size == last_block_offset(piece_length, block_size),
            counter == offsets@.len() * block_size,
            offsets@.len() <= count,
            counter < piece_length ==> offsets@.len() < count,
            forall|k: int| 0 <= k < offsets@.len() ==> #[trigger] offsets@[k] == k * block_size,
        decreases count - offsets@.len(),
    {
        let ghost k = offsets@.len();
        proof {
            assert(k <= count - 1);
            assert(k * block_size <= (count - 1) * block_size) by (nonlinear_arith)
                requires
                    k <= count - 1,
                    block_size > 0,
            ;
        }
        offsets.push(counter);
        counter = counter + block_size;
        proof {
            assert((k + 1) * block_size == k * block_size + block_size) by (nonlinear_arith);
            if counter < piece_length {
                if k + 1 >= count {
                    assert((k + 1) * block_size >= count * block_size) by (nonlinear_arith)
                        requires
                            k + 1 >= count,
                            block_size > 0,
                    ;
                }
            }
        }
    }
    proof {
        if piece_length > 0 {
            if offsets@.len() < count {
                let k = offsets@.len();
                assert(k * block_size <= (count - 1) * block_size) by (nonlinear_arith)
                    requires
                        k <= count - 1,
                        block_size > 0,
                ;
            }
        }
    }
    assert(offsets@ =~= block_offsets_spec(piece_length, block_size));
    offsets
}

/// How many blocks a non-empty piece has.
proof fn lemma_block_count(piece_length: int, block_size: int)
    requires
        piece_length > 0,
        block_size > 0,
    ensures
        ({
            let count = (piece_length + block_size - 1) / block_size;
            &&& count >= 1
            &&& count * block_size >= piece_length
            &&& (count - 1) * block_size < piece_length
            &&& (count - 1) * block_size == ((piece_length - 1) / block_size) * block_size
        }),
{
    let count = (piece_length + block_size - 1) / block_size;
    let q = (piece_length - 1) / block_size;
    let r = (piece_length - 1) % block_size;
    assert(piece_length - 1 == q * block_size + r && 0 <= r < block_size) by (nonlinear_arith)
        requires
            q == (piece_length - 1) / block_size,
            r == (piece_length - 1) % block_size,
            block_size > 0,
    ;
    assert(count == q + 1) by (nonlinear_arith)
        requires
            count == (piece_length + block_size - 1) / block_size,
            piece_length - 1 == q * block_size + r,
            0 <= r < block_size,
            block_size > 0,
    ;
    assert(q >= 0) by (nonlinear_arith)
        requires
            q == (piece_length - 1) / block_size,
            piece_length > 0,
            block_size > 0,
    ;
    assert((count - 1) * block_size == q * block_size);
    assert(count * block_size == q * block_size + block_size) by (nonlinear_arith)
        requires
            count == q + 1,
    ;
}

/// What a message means to a block request for the block of piece `index` at offset `begin`:
/// nothing yet if it is not a piece message (`None`); the block, if the piece message is for
/// that piece and offset; an error otherwise.
pub fn block_of(message: &PeerMessage, index: u32, begin: u32) -> (r: Option<
    Result<Vec<u8>, PeerConnectionError>,
>)
    requires
        message.id == PeerMessageId::Piece ==> message.payload@.len() >= 8,
    ensures
        message.id != PeerMessageId::Piece ==> r is None,
        message.id == PeerMessageId::Piece ==> match r {
            Some(Ok(block)) => be_value(message.payload@.take(4)) == index && be_value(
                message.payload@.subrange(4, 8),
            ) == begin && block@ == message.payload@.skip(8),
            Some(Err(e)) => !(be_value(message.payload@.take(4)) == index && be_value(
                message.payload@.subrange(4, 8),
            ) == begin) && e is PieceRequestingError,
            None => false,
        },
{
    if message.id == PeerMessageId::Piece {
        if valid_block(message.payload.as_slice(), index, begin) {
            let block = vstd::slice::slice_to_vec(
                &message.payload.as_slice()[8..message.payload.len()],
            );
            assert(block@ =~= message.payload@.skip(8));
            Some(Ok(block))
        } else {
            Some(Err(PeerConnectionError::PieceRequestingError(String::from_str("Invalid block received"))))
        }
    } else {
        None
    }
}

impl<S: IClientPeerMessageService> PeerConnection<S> {
    /// The state of the connection, as values.
    pub open spec fn state(&self) -> ConnectionState {
        ConnectionState {
            am_choking: self._am_choking,
            am_interested: self._am_interested,
            peer_choking: self.peer_choking,
            peer_interested: self._peer_interested,
            bitfield: self.bitfield@,
        }
    }

    /// A new connection with `peer` over `message_service`: we choke the peer and are
    /// interested, the peer chokes us and is not interested, and no piece of it is known.
    pub fn new(peer: Peer, client_peer_id: &[u8], metainfo: &Metainfo, message_service: S) -> (r: Self)
        ensures
            r.state() == (ConnectionState {
                am_choking: true,
                am_interested: true,
                peer_choking: true,
                peer_interested: false,
                bitfield: Seq::empty(),
            }),
            r.client_peer_id@ == client_peer_id@,
            r.metainfo.model() == metainfo.model(),
            files_view(r.metainfo.info.files) == files_view(metainfo.info.files),
            r.peer_id@ == peer.peer_id@,
            r.peer == peer,
            r.message_service == message_service,
    {
        let peer_id = vstd::slice::slice_to_vec(peer.peer_id.as_slice());
        PeerConnection {
            _am_choking: true,
            _am_interested: true,
            peer_choking: true,
            _peer_interested: false,
            client_peer_id: vstd::slice::slice_to_vec(client_peer_id),
            metainfo: metainfo.copy(),
            message_service,
            bitfield: Bitfield::new(),
            peer_id,
            peer,
        }
    }

    /// The id of the peer.
    pub fn get_peer_id(&self) -> (id: Vec<u8>)
        ensures
            id@ == self.peer_id@,
    {
        vstd::slice::slice_to_vec(self.peer_id.as_slice())
    }

    /// The IP address of the peer.
    pub fn get_peer_ip(&self) -> (ip: String)
        ensures
            ip@ == self.peer.ip@,
    {
        String::from_str(self.peer.ip.as_str())
    }

    /// The pieces that the peer has.
    pub fn get_bitfield(&self) -> (bitfield: Bitfield)
        ensures
            bitfield@ == self.bitfield@,
    {
        self.bitfield.copy()
    }

    /// Records what a message from the peer says; an error for a message that the
    /// connection does not handle, which changes nothing.
    pub fn on_message(&mut self, message: &PeerMessage) -> (res: Result<(), IPeerMessageServiceError>)
        ensures
            match after_message(old(self).state(), message.id, message.payload@) {
                Some(s) => res is Ok && final(self).state() == s,
                None => res matches Err(e) && e is UnhandledMessage && final(self).state() == old(
                    self,
                ).state(),
            },
            final(self).message_service == old(self).message_service,
            final(self).peer_id == old(self).peer_id,
    {
        match message.id {
            PeerMessageId::Unchoke => {
                self.peer_choking = false;
            },
            PeerMessageId::Choke => {
                self.peer_choking = true;
            },
            PeerMessageId::Interested => {
                self._peer_interested = true;
            },
            PeerMessageId::NotInterested => {
                self._peer_interested = false;
            },
            PeerMessageId::Bitfield => {
                self.bitfield.set_bitfield(message.payload.as_slice());
            },
            PeerMessageId::Have => {},
            PeerMessageId::Piece => {},
            _ => {
                return Err(IPeerMessageServiceError::UnhandledMessage);
            },
        }
        Ok(())
    }

    /// Records what a message received from the peer says and hands the message back; an
    /// error for a message that the connection does not handle. An error that came in place
    /// of a message is handed back as it is, and changes nothing.
    pub fn handle_received(&mut self, received: Result<PeerMessage, IPeerMessageServiceError>) -> (res:
        Result<PeerMessage, IPeerMessageServiceError>)
        ensures
            match received {
                Ok(message) => match after_message(old(self).state(), message.id, message.payload@) {
                    Some(s) => res == Ok::<PeerMessage, IPeerMessageServiceError>(message)
                        && final(self).state() == s,
                    None => res matches Err(e) && e is UnhandledMessage && final(self).state()
                        == old(self).state(),
                },
                Err(e) => res == Err::<PeerMessage, IPeerMessageServiceError>(e) && *final(self)
                    == *old(self),
            },
            final(self).message_service == old(self).message_service,
            final(self).peer_id == old(self).peer_id,
    {
        match received {
            Ok(message) => match self.on_message(&message) {
                Ok(()) => Ok(message),
                Err(e) => Err(e),
            },
            Err(e) => Err(e),
        }
    }

    /// Waits for the next message from the peer and records what it says.
    pub fn wait_for_message(&mut self) -> (res: Result<PeerMessage, IPeerMessageServiceError>)
        ensures
            res matches Ok(message) ==> after_message(old(self).state(), message.id, message.payload@)
                == Some(final(self).state()),
            res is Err ==> final(self).state() == old(self).state(),
    {
        let received = self.message_service.wait_for_message();
        self.handle_received(received)
    }

    /// Whether pieces can be requested: the peer does not choke us and its bitfield is
    /// known.
    pub fn is_ready(&self) -> (ready: bool)
        ensures
            ready == (!self.peer_choking && self.bitfield@.len() > 0),
    {
        !self.peer_choking && self.bitfield.non_empty()
    }

    /// Sends the request for the block of piece `index` at offset `begin`, of `length` bytes.
    pub fn send_block_request(&mut self, index: u32, begin: u32, length: u32) -> (res: Result<
        (),
        PeerConnectionError,
    >)
        ensures
            res matches Err(e) ==> e is PeerMessageError,
            final(self).state() == old(self).state(),
            final(self).message_service.calls() == old(self).message_service.calls().push(
                ServiceCall::Send(
                    PeerMessageId::Request,
                    13,
                    be_bytes(index) + be_bytes(begin) + be_bytes(length),
                ),
            ),
    {
        let msg = PeerMessage::request(index, begin, length);
        match self.message_service.send_message(&msg) {
            Ok(()) => Ok(()),
            Err(e) => Err(PeerConnectionError::PeerMessageError(e)),
        }
    }

    /// The first steps of opening the connection: the handshake, then an unchoke and an
    /// interested message; each failure is reported as its own error.
    pub fn start_connection(&mut self) -> (res: Result<(), PeerConnectionError>)
        ensures
            res matches Err(e) ==> e matches PeerConnectionError::PeerMessageError(m) && (
            (m matches IPeerMessageServiceError::PeerHandshakeError(text) && text@
                == "Handshake error"@) || (m matches IPeerMessageServiceError::SendingMessageError(
                text,
            ) && (text@ == "Error trying to send unchoke message"@ || text@
                == "Error trying to send interested message"@))),
            final(self).state() == old(self).state(),
            final(self).metainfo == old(self).metainfo,
            final(self).client_peer_id == old(self).client_peer_id,
            ({
                let before = old(self).message_service.calls();
                let after = final(self).message_service.calls();
                let handshake = ServiceCall::Handshake(
                    old(self).metainfo.info_hash@,
                    old(self).client_peer_id@,
                );
                let unchoke = ServiceCall::Send(PeerMessageId::Unchoke, 1, Seq::empty());
                let interested = ServiceCall::Send(PeerMessageId::Interested, 1, Seq::empty());
                match res {
                    Ok(()) => after == before + seq![handshake, unchoke, interested],
                    Err(PeerConnectionError::PeerMessageError(
                        IPeerMessageServiceError::PeerHandshakeError(_),
                    )) => after == before.push(handshake),
                    Err(PeerConnectionError::PeerMessageError(
                        IPeerMessageServiceError::SendingMessageError(text),
                    )) => if text@ == "Error trying to send unchoke message"@ {
                        after == before + seq![handshake, unchoke]
                    } else {
                        after == before + seq![handshake, unchoke, interested]
                    },
                    _ => false,
                }
            }),
    {
        if self.message_service.handshake(
            self.metainfo.info_hash.as_slice(),
            self.client_peer_id.as_slice(),
        ).is_err() {
            return Err(
                PeerConnectionError::PeerMessageError(
                    IPeerMessageServiceError::PeerHandshakeError(String::from_str("Handshake error")),
                ),
            );
        }
        if self.message_service.send_message(&PeerMessage::unchoke()).is_err() {
            return Err(
                PeerConnectionError::PeerMessageError(
                    IPeerMessageServiceError::SendingMessageError(
                        String::from_str("Error trying to send unchoke message"),
                    ),
                ),
            );
        }
        if self.message_service.send_message(&PeerMessage::interested()).is_err() {
            proof {
                reveal_strlit("Error trying to send interested message");
                reveal_strlit("Error trying to send unchoke message");
                assert("Error trying to send interested message"@[21]
                    != "Error trying to send unchoke message"@[21]);
            }
            return Err(
                PeerConnectionError::PeerMessageError(
                    IPeerMessageServiceError::SendingMessageError(
                        String::from_str("Error trying to send interested message"),
                    ),
                ),
            );
        }
        Ok(())
    }
}

} // verus!
