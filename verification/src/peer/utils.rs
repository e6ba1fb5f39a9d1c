use vstd::prelude::*;

use sha1::{Digest, Sha1};

use crate::metainfo::Metainfo;
use crate::bencode::types::equal_bytes;

verus! {

/// The SHA-1 digest of `data`, as the `sha1` crate computes it.
pub uninterp spec fn sha1_digest(data: Seq<u8>) -> Seq<u8>;

/// Gets the SHA-1 hash of a byte slice.
///
/// Trusted: calls `sha1::Sha1` (`Digest::new`, `update`, `finalize`). The contract names
/// the result `sha1_digest(data)`, a function of the bytes alone, and states its length of
/// 20 bytes, which is the output size of `Sha1Core` (`U20`).
#[verifier::external_body]
pub fn sha1_of(data: &[u8]) -> (digest: Vec<u8>)
    ensures
        digest@ == sha1_digest(data@),
        digest@.len() == 20,
{
    let mut hasher = Sha1::new();
    hasher.update(data);
    hasher.finalize().to_vec()
}

/// The four bytes of `n`, most significant first.
pub open spec fn be_bytes(n: u32) -> Seq<u8> {
    seq![
        (n / 16777216) as u8,
        ((n / 65536) % 256) as u8,
        ((n / 256) % 256) as u8,
        (n % 256) as u8,
    ]
}

/// The number that the first four bytes of `bytes` make, most significant first; where
/// there are fewer bytes, the missing low-order ones count as zero.
pub open spec fn be_value(bytes: Seq<u8>) -> int {
    (if bytes.len() > 0 {
        bytes[0] * 16777216
    } else {
        0
    }) + (if bytes.len() > 1 {
        bytes[1] * 65536
    } else {
        0
    }) + (if bytes.len() > 2 {
        bytes[2] * 256
    } else {
        0
    }) + (if bytes.len() > 3 {
        bytes[3] as int
    } else {
        0
    })
}

/// Law: the big-endian bytes of a number make that number again.
pub proof fn lemma_be_roundtrip(n: u32)
    ensures
        be_value(be_bytes(n)) == n,
{
    let b = be_bytes(n);
    assert(n == (n / 16777216) * 16777216 + ((n / 65536) % 256) * 65536 + ((n / 256) % 256) * 256
        + n % 256) by (nonlinear_arith);
    assert(n / 16777216 < 256) by (nonlinear_arith);
}

/// Converts a u32 into its 4 bytes, big endian.
pub fn u32_to_vec_be(num: u32) -> (bytes: Vec<u8>)
    ensures
        bytes@ == be_bytes(num),
{
    let mut bytes: Vec<u8> = Vec::new();
    assert(num / 16777216 < 256) by (nonlinear_arith);
    bytes.push((num / 16777216) as u8);
    bytes.push(((num / 65536) % 256) as u8);
    bytes.push(((num / 256) % 256) as u8);
    bytes.push((num % 256) as u8);
    assert(bytes@ =~= be_bytes(num));
    bytes
}

/// Gets the u32 value of a big endian byte slice, from its first four bytes.
pub fn vec_be_to_u32(bytes: &[u8]) -> (num: u32)
    ensures
        num == be_value(bytes@),
{
    let n = bytes.len();
    let b0: u32 = if n > 0 { bytes[0] as u32 } else { 0 };
    let b1: u32 = if n > 1 { bytes[1] as u32 } else { 0 };
    let b2: u32 = if n > 2 { bytes[2] as u32 } else { 0 };
    let b3: u32 = if n > 3 { bytes[3] as u32 } else { 0 };
    b0 * 16777216 + b1 * 65536 + b2 * 256 + b3
}

/// Validates a piece by comparing its SHA-1 hash to the one found, at the piece's index, in
/// the pieces field of the info dictionary.
pub fn valid_piece(piece: &[u8], piece_index: u32, metainfo: &Metainfo) -> (valid: bool)
    requires
        piece_index < metainfo.info.pieces.len(),
    ensures
        valid == (sha1_digest(piece@) == metainfo.info.pieces@[piece_index as int]@),
{
    let received_piece_sha1 = sha1_of(piece);
    equal_bytes(received_piece_sha1.as_slice(), metainfo.info.pieces[piece_index as usize].as_slice())
}

/// Checks that the first 4 bytes of a piece message's payload are the requested piece
/// index, and the next 4 the requested offset.
pub fn valid_block(payload: &[u8], requested_index: u32, requested_offset: u32) -> (valid: bool)
    requires
        payload@.len() >= 8,
    ensures
        valid == (be_value(payload@.subrange(0, 4)) == requested_index && be_value(
            payload@.subrange(4, 8),
        ) == requested_offset),
{
    let piece_index_received = vec_be_to_u32(&payload[0..4]);
    let offset_received = vec_be_to_u32(&payload[4..8]);
    (piece_index_received == requested_index) && (offset_received == requested_offset)
}

/// Whether a length prefix is that of a keep-alive message.
pub fn is_keep_alive_message(message_length: u32) -> (keep_alive: bool)
    ensures
        keep_alive == (message_length == 0),
{
    message_length == 0
}

/// The length of the protocol name in a handshake.
pub const PSTRLEN: u8 = 19;

/// The protocol name, "BitTorrent protocol".
pub open spec fn protocol_name() -> Seq<u8> {
    seq![66u8, 105, 116, 84, 111, 114, 114, 101, 110, 116, 32, 112, 114, 111, 116, 111, 99, 111, 108]
}

/// The handshake message: the length of the protocol name, the name, eight reserved zero
/// bytes, the info hash and the peer id.
pub open spec fn handshake_message(info_hash: Seq<u8>, peer_id: Seq<u8>) -> Seq<u8> {
    seq![PSTRLEN] + protocol_name() + Seq::new(8, |i: int| 0u8) + info_hash + peer_id
}

/// Law: the layout of a handshake. For a 20-byte info hash and a 20-byte peer id it is 68
/// bytes: the byte 19, the 19 bytes of "BitTorrent protocol", 8 zero bytes, the info hash at
/// bytes 28 to 48, and the peer id at bytes 48 to 68.
pub proof fn lemma_handshake_layout(info_hash: Seq<u8>, peer_id: Seq<u8>)
    requires
        info_hash.len() == 20,
        peer_id.len() == 20,
    ensures
        handshake_message(info_hash, peer_id).len() == 68,
        handshake_message(info_hash, peer_id)[0] == 19,
        handshake_message(info_hash, peer_id).subrange(1, 20) == seq![
            66u8, 105, 116, 84, 111, 114, 114, 101, 110, 116, 32, 112, 114, 111, 116, 111, 99,
            111, 108,
        ],
        forall|i: int| 20 <= i < 28 ==> handshake_message(info_hash, peer_id)[i] == 0,
        handshake_message(info_hash, peer_id).subrange(28, 48) == info_hash,
        handshake_message(info_hash, peer_id).subrange(48, 68) == peer_id,
{
    let h = handshake_message(info_hash, peer_id);
    assert(h.subrange(1, 20) =~= protocol_name());
    assert(h.subrange(28, 48) =~= info_hash);
    assert(h.subrange(48, 68) =~= peer_id);
}

/// Creates the handshake message that opens a connection with a peer: for a 20-byte info
/// hash and peer id, the info hash is at bytes 28 to 48 and the peer id at bytes 48 to 68.
pub fn create_handshake_message(info_hash: &[u8], peer_id: &[u8]) -> (handshake: Vec<u8>)
    ensures
        handshake@ == handshake_message(info_hash@, peer_id@),
        handshake@.len() == 28 + info_hash@.len() + peer_id@.len(),
        handshake@[0] == 19,
        handshake@.subrange(28, 28 + info_hash@.len() as int) == info_hash@,
        handshake@.subrange(28 + info_hash@.len() as int, 28 + info_hash@.len() + peer_id@.len() as int)
            == peer_id@,
{
    let mut message: Vec<u8> = Vec::new();
    message.push(PSTRLEN);
    let protocol: Vec<u8> = vec![66u8, 105, 116, 84, 111, 114, 114, 101, 110, 116, 32, 112, 114, 111, 116, 111, 99, 111, 108];
    message.extend_from_slice(protocol.as_slice());
    let reserved: Vec<u8> = vec![0u8, 0, 0, 0, 0, 0, 0, 0];
    message.extend_from_slice(reserved.as_slice());
    message.extend_from_slice(info_hash);
    message.extend_from_slice(peer_id);
    assert(message@ =~= handshake_message(info_hash@, peer_id@));
    assert(message@.subrange(28, 28 + info_hash@.len() as int) =~= info_hash@);
    assert(message@.subrange(28 + info_hash@.len() as int, 28 + info_hash@.len() + peer_id@.len() as int)
        =~= peer_id@);
    message
}

} // verus!
