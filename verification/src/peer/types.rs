use vstd::prelude::*;

use super::errors::IPeerMessageServiceError;
use super::utils::{be_bytes, be_value, u32_to_vec_be, vec_be_to_u32};
use crate::text::{decimal_text, u64_to_text};
use vstd::string::StringExecFns;

verus! {

/// The pieces that a peer has: bit `7 - i % 8` of byte `i / 8` is set when it has piece `i`.
pub struct Bitfield(Vec<u8>);

/// Whether the bitfield `bits` says that piece `index` is there.
pub open spec fn bitfield_has(bits: Seq<u8>, index: int) -> bool {
    0 <= index && index / 8 < bits.len() && (bits[index / 8] >> ((7 - index % 8) as u8)) & 1u8
        != 0
}

/// The bitfield `bits` with the bit of piece `index` set; unchanged where it has no byte
/// for that piece.
pub open spec fn bitfield_set(bits: Seq<u8>, index: int) -> Seq<u8> {
    if 0 <= index && index / 8 < bits.len() {
        bits.update(index / 8, bits[index / 8] | (1u8 << ((7 - index % 8) as u8)))
    } else {
        bits
    }
}

impl View for Bitfield {
    type V = Seq<u8>;

    closed spec fn view(&self) -> Seq<u8> {
        self.0@
    }
}

impl Bitfield {
    /// An empty bitfield.
    pub fn new() -> (bitfield: Self)
        ensures
            bitfield@ == Seq::<u8>::empty(),
    {
        Bitfield(Vec::new())
    }

    /// Whether the bitfield has any byte.
    pub fn non_empty(&self) -> (r: bool)
        ensures
            r == (self@.len() > 0),
    {
        self.0.len() != 0
    }

    /// Replaces the bitfield's bytes by `bitfield`.
    pub fn set_bitfield(&mut self, bitfield: &[u8])
        ensures
            final(self)@ == bitfield@,
    {
        self.0 = vstd::slice::slice_to_vec(bitfield);
    }

    /// Whether the bitfield says that piece `index` is there.
    pub fn has_piece(&self, index: usize) -> (r: bool)
        ensures
            r == bitfield_has(self@, index as int),
    {
        let byte_index = index / 8;
        let offset = (index % 8) as u8;
        if byte_index >= self.0.len() {
            return false;
        }
        (self.0[byte_index] >> (7 - offset) & 1) != 0
    }

    /// Sets the bit of piece `index`; does nothing where the bitfield has no byte for it.
    pub fn set_piece(&mut self, index: usize)
        ensures
            final(self)@ == bitfield_set(old(self)@, index as int),
    {
        let byte_index = index / 8;
        let offset = (index % 8) as u8;
        if byte_index >= self.0.len() {
            return;
        }
        let byte = self.0[byte_index] | (1u8 << (7 - offset));
        self.0.set(byte_index, byte);
    }

    /// A copy of the bitfield.
    pub fn copy(&self) -> (bitfield: Self)
        ensures
            bitfield@ == self@,
    {
        Bitfield(vstd::slice::slice_to_vec(self.0.as_slice()))
    }
}

impl Default for Bitfield {
    /// An empty bitfield.
    fn default() -> (bitfield: Self)
        ensures
            bitfield@ == Seq::<u8>::empty(),
    {
        Bitfield::new()
    }
}

/// Law: setting the bit of a piece that the bitfield has a byte for makes the bitfield have
/// that piece, and leaves every other piece as it was.
pub proof fn lemma_set_piece_then_has_piece(bits: Seq<u8>, index: int, other: int)
    requires
        0 <= index,
        index / 8 < bits.len(),
    ensures
        bitfield_has(bitfield_set(bits, index), index),
        other != index ==> bitfield_has(bitfield_set(bits, index), other) == bitfield_has(
            bits,
            other,
        ),
{
    let b = bits[index / 8];
    let s1 = (7 - index % 8) as u8;
    assert(s1 < 8);
    assert(((b | (1u8 << s1)) >> s1) & 1u8 != 0) by (bit_vector)
        requires
            s1 < 8,
    ;
    if other != index && 0 <= other && other / 8 == index / 8 {
        let s2 = (7 - other % 8) as u8;
        assert(s2 < 8 && s1 != s2);
        assert(((b | (1u8 << s1)) >> s2) & 1u8 == (b >> s2) & 1u8) by (bit_vector)
            requires
                s1 < 8,
                s2 < 8,
                s1 != s2,
        ;
    }
}

/// A peer of the swarm.
#[derive(Debug, PartialEq, Clone)]
pub struct Peer {
    pub ip: String,
    pub port: u16,
    pub peer_id: Vec<u8>,
}

/// The kinds of message of the peer wire protocol.
#[derive(Debug, PartialEq, Eq, Structural, Clone, Copy)]
pub enum PeerMessageId {
    Choke,
    Unchoke,
    Interested,
    NotInterested,
    Have,
    Bitfield,
    Request,
    Piece,
    Cancel,
    Port,
    KeepAlive,
}

/// The wire number of each kind of message; `KeepAlive` has no number on the wire, and
/// takes the next one.
pub open spec fn message_id_number(id: PeerMessageId) -> u8 {
    match id {
        PeerMessageId::Choke => 0,
        PeerMessageId::Unchoke => 1,
        PeerMessageId::Interested => 2,
        PeerMessageId::NotInterested => 3,
        PeerMessageId::Have => 4,
        PeerMessageId::Bitfield => 5,
        PeerMessageId::Request => 6,
        PeerMessageId::Piece => 7,
        PeerMessageId::Cancel => 8,
        PeerMessageId::Port => 9,
        PeerMessageId::KeepAlive => 10,
    }
}

/// Law: the wire number of each kind of message is the one of the BitTorrent protocol:
/// choke 0, unchoke 1, interested 2, not interested 3, have 4, bitfield 5, request 6,
/// piece 7, cancel 8, port 9; no two kinds that go on the wire share a number.
pub proof fn lemma_wire_numbers()
    ensures
        message_id_number(PeerMessageId::Choke) == 0,
        message_id_number(PeerMessageId::Unchoke) == 1,
        message_id_number(PeerMessageId::Interested) == 2,
        message_id_number(PeerMessageId::NotInterested) == 3,
        message_id_number(PeerMessageId::Have) == 4,
        message_id_number(PeerMessageId::Bitfield) == 5,
        message_id_number(PeerMessageId::Request) == 6,
        message_id_number(PeerMessageId::Piece) == 7,
        message_id_number(PeerMessageId::Cancel) == 8,
        message_id_number(PeerMessageId::Port) == 9,
        forall|a: PeerMessageId, b: PeerMessageId|
            message_id_number(a) == message_id_number(b) ==> a == b,
{
}

impl PeerMessageId {
    /// The kind of message whose wire number is `id`.
    pub fn from_u8(id: u8) -> (res: Result<PeerMessageId, String>)
        ensures
            id == 0 ==> res == Ok::<PeerMessageId, String>(PeerMessageId::Choke),
            id == 1 ==> res == Ok::<PeerMessageId, String>(PeerMessageId::Unchoke),
            id == 2 ==> res == Ok::<PeerMessageId, String>(PeerMessageId::Interested),
            id == 3 ==> res == Ok::<PeerMessageId, String>(PeerMessageId::NotInterested),
            id == 4 ==> res == Ok::<PeerMessageId, String>(PeerMessageId::Have),
            id == 5 ==> res == Ok::<PeerMessageId, String>(PeerMessageId::Bitfield),
            id == 6 ==> res == Ok::<PeerMessageId, String>(PeerMessageId::Request),
            id == 7 ==> res == Ok::<PeerMessageId, String>(PeerMessageId::Piece),
            id == 8 ==> res == Ok::<PeerMessageId, String>(PeerMessageId::Cancel),
            id == 9 ==> res == Ok::<PeerMessageId, String>(PeerMessageId::Port),
            match res {
                Ok(kind) => id <= 9 && message_id_number(kind) == id,
                Err(message) => id > 9 && message@ == "Invalid message id: "@ + decimal_text(
                    id as nat,
                ),
            },
    {
        match id {
            0 => Ok(PeerMessageId::Choke),
            1 => Ok(PeerMessageId::Unchoke),
            2 => Ok(PeerMessageId::Interested),
            3 => Ok(PeerMessageId::NotInterested),
            4 => Ok(PeerMessageId::Have),
            5 => Ok(PeerMessageId::Bitfield),
            6 => Ok(PeerMessageId::Request),
            7 => Ok(PeerMessageId::Piece),
            8 => Ok(PeerMessageId::Cancel),
            9 => Ok(PeerMessageId::Port),
            _ => {
                let message = String::from_str("Invalid message id: ");
                Err(message.concat(u64_to_text(id as u64).as_str()))
            },
        }
    }

    /// The wire number of this kind of message.
    pub fn to_u8(&self) -> (n: u8)
        ensures
            n == message_id_number(*self),
            *self == PeerMessageId::Choke ==> n == 0,
            *self == PeerMessageId::Unchoke ==> n == 1,
            *self == PeerMessageId::Interested ==> n == 2,
            *self == PeerMessageId::NotInterested ==> n == 3,
            *self == PeerMessageId::Have ==> n == 4,
            *self == PeerMessageId::Bitfield ==> n == 5,
            *self == PeerMessageId::Request ==> n == 6,
            *self == PeerMessageId::Piece ==> n == 7,
            *self == PeerMessageId::Cancel ==> n == 8,
            *self == PeerMessageId::Port ==> n == 9,
    {
        match self {
            PeerMessageId::Choke => 0,
            PeerMessageId::Unchoke => 1,
            PeerMessageId::Interested => 2,
            PeerMessageId::NotInterested => 3,
            PeerMessageId::Have => 4,
            PeerMessageId::Bitfield => 5,
            PeerMessageId::Request => 6,
            PeerMessageId::Piece => 7,
            PeerMessageId::Cancel => 8,
            PeerMessageId::Port => 9,
            PeerMessageId::KeepAlive => 10,
        }
    }
}

/// A message of the peer wire protocol: its kind, its length prefix and its payload.
#[derive(Debug)]
pub struct PeerMessage {
    pub id: PeerMessageId,
    pub length: u32,
    pub payload: Vec<u8>,
}

/// The bytes that carry a message: its length prefix in big-endian, its wire number, and
/// its payload.
pub open spec fn message_frame(length: u32, id: PeerMessageId, payload: Seq<u8>) -> Seq<u8> {
    be_bytes(length) + seq![message_id_number(id)] + payload
}

impl PeerMessage {
    /// The message that tells the peer that it is unchoked.
    pub fn unchoke() -> (message: PeerMessage)
        ensures
            message.id == PeerMessageId::Unchoke,
            message.length == 1,
            message.payload@ == Seq::<u8>::empty(),
    {
        PeerMessage { id: PeerMessageId::Unchoke, length: 1, payload: Vec::new() }
    }

    /// The message that tells the peer that we are interested in its pieces.
    pub fn interested() -> (message: PeerMessage)
        ensures
            message.id == PeerMessageId::Interested,
            message.length == 1,
            message.payload@ == Seq::<u8>::empty(),
    {
        PeerMessage { id: PeerMessageId::Interested, length: 1, payload: Vec::new() }
    }

    /// The message that asks for `length` bytes of piece `index`, from offset `begin`.
    pub fn request(index: u32, begin: u32, length: u32) -> (message: PeerMessage)
        ensures
            message.id == PeerMessageId::Request,
            message.length == 13,
            message.payload@ == be_bytes(index) + be_bytes(begin) + be_bytes(length),
    {
        let mut payload: Vec<u8> = Vec::new();
        payload.extend_from_slice(u32_to_vec_be(index).as_slice());
        payload.extend_from_slice(u32_to_vec_be(begin).as_slice());
        payload.extend_from_slice(u32_to_vec_be(length).as_slice());
        assert(payload@ =~= be_bytes(index) + be_bytes(begin) + be_bytes(length));
        PeerMessage { id: PeerMessageId::Request, length: (payload.len() + 1) as u32, payload }
    }

    /// The message that carries `block`, the bytes of piece `piece_index` from `offset` on.
    /// Its length prefix is the payload's length plus one, cut to 32 bits.
    pub fn piece(piece_index: u32, offset: u32, block: Vec<u8>) -> (message: PeerMessage)
        requires
            block.len() + 9 <= usize::MAX,
        ensures
            message.id == PeerMessageId::Piece,
            message.length == (block.len() + 9) as u32,
            message.payload@ == be_bytes(piece_index) + be_bytes(offset) + block@,
    {
        let mut payload: Vec<u8> = Vec::new();
        payload.extend_from_slice(u32_to_vec_be(piece_index).as_slice());
        payload.extend_from_slice(u32_to_vec_be(offset).as_slice());
        payload.extend_from_slice(block.as_slice());
        assert(payload@ =~= be_bytes(piece_index) + be_bytes(offset) + block@);
        PeerMessage { id: PeerMessageId::Piece, length: (payload.len() + 1) as u32, payload }
    }

    /// The keep-alive message: a zero length prefix.
    pub fn keep_alive() -> (message: PeerMessage)
        ensures
            message.id == PeerMessageId::Choke,
            message.length == 0,
            message.payload@ == Seq::<u8>::empty(),
    {
        PeerMessage { id: PeerMessageId::Choke, length: 0, payload: Vec::new() }
    }

    /// The message that says that the sender chokes the peer.
    pub fn choke() -> (message: PeerMessage)
        ensures
            message.id == PeerMessageId::Choke,
            message.length == 1,
            message.payload@ == Seq::<u8>::empty(),
    {
        PeerMessage { id: PeerMessageId::Choke, length: 1, payload: Vec::new() }
    }

    /// The bytes that carry this message on the wire.
    pub fn to_bytes(&self) -> (bytes: Vec<u8>)
        ensures
            bytes@ == message_frame(self.length, self.id, self.payload@),
    {
        let mut bytes: Vec<u8> = Vec::new();
        bytes.extend_from_slice(u32_to_vec_be(self.length).as_slice());
        bytes.push(self.id.to_u8());
        bytes.extend_from_slice(self.payload.as_slice());
        assert(bytes@ =~= message_frame(self.length, self.id, self.payload@));
        bytes
    }

    /// The message that a frame carries: a length prefix, which must count the bytes that
    /// follow it and be at least 1, a wire number, and the payload.
    pub fn from_frame(frame: &[u8]) -> (res: Result<PeerMessage, IPeerMessageServiceError>)
        ensures
            match res {
                Ok(message) => frame@.len() >= 5 && be_value(frame@.take(4)) == frame@.len() - 4
                    && frame@[4] <= 9 && message_id_number(message.id) == frame@[4]
                    && message.length == frame@.len() - 4 && message.payload@ == frame@.skip(5),
                Err(e) => {
                    ||| (frame@.len() < 5 || be_value(frame@.take(4)) != frame@.len() - 4)
                        && e is ReceivingMessageError
                    ||| (frame@.len() >= 5 && be_value(frame@.take(4)) == frame@.len() - 4
                        && frame@[4] > 9 && e is InvalidMessageId)
                },
            },
    {
        if frame.len() < 5 {
            return Err(
                IPeerMessageServiceError::ReceivingMessageError(
                    String::from_str("Couldn't read from other peer"),
                ),
            );
        }
        let length = vec_be_to_u32(&frame[0..4]);
        if length as usize != frame.len() - 4 {
            return Err(
                IPeerMessageServiceError::ReceivingMessageError(
                    String::from_str("Couldn't read from other peer"),
                ),
            );
        }
        let id = match PeerMessageId::from_u8(frame[4]) {
            Ok(id) => id,
            Err(_) => {
                return Err(IPeerMessageServiceError::InvalidMessageId);
            },
        };
        let payload = vstd::slice::slice_to_vec(&frame[5..frame.len()]);
        assert(payload@ =~= frame@.skip(5));
        Ok(PeerMessage { id, length, payload })
    }
}

/// Law: a message whose length prefix counts its bytes, and whose kind has a wire number,
/// is read back from the bytes that carry it.
pub proof fn lemma_frame_roundtrip(length: u32, id: PeerMessageId, payload: Seq<u8>)
    requires
        length == payload.len() + 1,
        id != PeerMessageId::KeepAlive,
    ensures
        ({
            let frame = message_frame(length, id, payload);
            &&& frame.len() >= 5
            &&& be_value(frame.take(4)) == frame.len() - 4
            &&& frame[4] == message_id_number(id)
            &&& frame[4] <= 9
            &&& frame.skip(5) == payload
        }),
{
    let frame = message_frame(length, id, payload);
    assert(frame.take(4) =~= be_bytes(length));
    super::utils::lemma_be_roundtrip(length);
    assert(frame.skip(5) =~= payload);
}

} // verus!
