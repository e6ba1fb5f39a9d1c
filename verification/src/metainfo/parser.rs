use vstd::prelude::*;

use vstd::utf8::{decode_utf8, valid_utf8};

use super::errors::{MetainfoParserError, SpecMetainfoError};
use super::types::{Info, Metainfo, SpecInfo, SpecMetainfo};
use crate::bencode::encoder::encode;
use crate::bencode::errors::{BencodeDecoderError, ValueKind};
use crate::bencode::spec::{dict_get, kind_of, spec_decode, spec_encode, SpecValue};
use crate::bencode::types::{BencodeDecodedValue, BencodeDictionary};
use crate::bencode::decoder::decode;
use crate::peer::utils::{sha1_digest, sha1_of};

verus! {

/// The length of a SHA-1 hash, the length of each piece hash in `pieces`.
pub const PIECE_HASH_LENGTH: usize = 20;

pub open spec fn info_key() -> Seq<u8> {
    seq![105u8, 110, 102, 111]
}

pub open spec fn piece_length_key() -> Seq<u8> {
    seq![112u8, 105, 101, 99, 101, 32, 108, 101, 110, 103, 116, 104]
}

pub open spec fn pieces_key() -> Seq<u8> {
    seq![112u8, 105, 101, 99, 101, 115]
}

pub open spec fn name_key() -> Seq<u8> {
    seq![110u8, 97, 109, 101]
}

pub open spec fn length_key() -> Seq<u8> {
    seq![108u8, 101, 110, 103, 116, 104]
}

pub open spec fn announce_key() -> Seq<u8> {
    seq![97u8, 110, 110, 111, 117, 110, 99, 101]
}

/// The value bound to `key`, whose name is `name`.
pub open spec fn lookup(entries: Seq<(Seq<u8>, SpecValue)>, key: Seq<u8>, name: Seq<char>) -> Result<
    SpecValue,
    SpecMetainfoError,
> {
    match dict_get(entries, key) {
        Some(v) => Ok(v),
        None => Err(SpecMetainfoError::KeyNotFound(name)),
    }
}

pub open spec fn wrong_kind(expected: ValueKind, v: SpecValue) -> SpecMetainfoError {
    SpecMetainfoError::UnexpectedValue(BencodeDecoderError::WrongExpectedValue(expected, kind_of(v)))
}

/// The integer bound to `key`.
pub open spec fn integer_at(entries: Seq<(Seq<u8>, SpecValue)>, key: Seq<u8>, name: Seq<char>) -> Result<
    int,
    SpecMetainfoError,
> {
    match lookup(entries, key, name) {
        Ok(SpecValue::Int(n)) => Ok(n),
        Ok(v) => Err(wrong_kind(ValueKind::Integer, v)),
        Err(e) => Err(e),
    }
}

/// The byte string bound to `key`.
pub open spec fn string_at(entries: Seq<(Seq<u8>, SpecValue)>, key: Seq<u8>, name: Seq<char>) -> Result<
    Seq<u8>,
    SpecMetainfoError,
> {
    match lookup(entries, key, name) {
        Ok(SpecValue::Str(s)) => Ok(s),
        Ok(v) => Err(wrong_kind(ValueKind::String, v)),
        Err(e) => Err(e),
    }
}

/// The text that the UTF-8 byte string bound to `key` encodes.
pub open spec fn text_at(entries: Seq<(Seq<u8>, SpecValue)>, key: Seq<u8>, name: Seq<char>) -> Result<
    Seq<char>,
    SpecMetainfoError,
> {
    match string_at(entries, key, name) {
        Ok(s) => if valid_utf8(s) {
            Ok(decode_utf8(s))
        } else {
            Err(SpecMetainfoError::Utf8)
        },
        Err(e) => Err(e),
    }
}

/// The end of the piece hash that starts at byte `20 * i`: 20 bytes further, or the end of
/// `pieces` for a last hash that is shorter.
pub open spec fn piece_hash_end(pieces: Seq<u8>, i: int) -> int {
    if 20 * i + 20 <= pieces.len() {
        20 * i + 20
    } else {
        pieces.len() as int
    }
}

/// The concatenated piece hashes, cut into hashes of 20 bytes; a length that is not a
/// multiple of 20 leaves a shorter last hash, so that nothing of the string is lost.
pub open spec fn split_piece_hashes(pieces: Seq<u8>) -> Seq<Seq<u8>> {
    Seq::new(
        ((pieces.len() + 19) / 20) as nat,
        |i: int| pieces.subrange(20 * i, piece_hash_end(pieces, i)),
    )
}

/// The Info that the info dictionary `info` describes. The piece length is taken modulo
/// 2^32 and the length modulo 2^64, as the casts to `u32` and `u64` give them.
pub open spec fn spec_build_info(info: Seq<(Seq<u8>, SpecValue)>) -> Result<SpecInfo, SpecMetainfoError> {
    match integer_at(info, piece_length_key(), "piece length"@) {
        Err(e) => Err(e),
        Ok(piece_length) => match string_at(info, pieces_key(), "pieces"@) {
            Err(e) => Err(e),
            Ok(pieces) => match text_at(info, name_key(), "name"@) {
                Err(e) => Err(e),
                Ok(name) => match integer_at(info, length_key(), "length"@) {
                    Err(e) => Err(e),
                    Ok(length) => Ok(
                        SpecInfo {
                            piece_length: piece_length as u32,
                            pieces: split_piece_hashes(pieces),
                            name,
                            length: length as u64,
                        },
                    ),
                },
            },
        },
    }
}

/// The Metainfo that the top-level dictionary `dict` of a torrent describes.
pub open spec fn spec_build_metainfo(dict: Seq<(Seq<u8>, SpecValue)>) -> Result<
    SpecMetainfo,
    SpecMetainfoError,
> {
    match lookup(dict, info_key(), "info"@) {
        Err(e) => Err(e),
        Ok(SpecValue::Dict(info)) => match spec_build_info(info) {
            Err(e) => Err(e),
            Ok(built) => match text_at(dict, announce_key(), "announce"@) {
                Err(e) => Err(e),
                Ok(announce) => Ok(
                    SpecMetainfo {
                        info: built,
                        info_hash: sha1_digest(spec_encode(SpecValue::Dict(info))),
                        announce,
                    },
                ),
            },
        },
        Ok(v) => Err(wrong_kind(ValueKind::Dictionary, v)),
    }
}

/// The Metainfo that the bencoded torrent `bytes` describes.
pub open spec fn spec_parse(bytes: Seq<u8>) -> Result<SpecMetainfo, SpecMetainfoError> {
    match spec_decode(bytes) {
        Err(e) => Err(SpecMetainfoError::Decode(e)),
        Ok(SpecValue::Dict(dict)) => spec_build_metainfo(dict),
        Ok(v) => Err(wrong_kind(ValueKind::Dictionary, v)),
    }
}

/// Receives a byte array and Bencode-Decodes it to build a [`Metainfo`].
///
/// The info hash is the SHA-1 hash of the bencoding of the info dictionary. The piece
/// hashes are the `pieces` string cut into hashes of 20 bytes (the last one shorter when
/// the length is not a multiple of 20). The piece length is cast to `u32` and the length
/// to `u64`, whatever their values.
pub fn parse(bytes: &[u8]) -> (res: Result<Metainfo, MetainfoParserError>)
    ensures
        match res {
            Ok(metainfo) => spec_parse(bytes@) == Ok::<SpecMetainfo, SpecMetainfoError>(
                metainfo.model(),
            ) && metainfo.info.files is None && metainfo.info_hash@.len() == 20,
            Err(e) => spec_parse(bytes@) == Err::<SpecMetainfo, SpecMetainfoError>(e.model()),
        },
{
    let decoded = match decode(bytes) {
        Ok(v) => v,
        Err(e) => {
            return Err(MetainfoParserError::DecodeError(e));
        },
    };
    match decoded.get_as_dictionary() {
        Ok(dict) => build_metainfo(dict),
        Err(e) => Err(MetainfoParserError::UnexpectedBencodeDecodedValue(e)),
    }
}

/// Builds the Metainfo from the top-level dictionary of a torrent.
fn build_metainfo(dict: &BencodeDictionary) -> (res: Result<Metainfo, MetainfoParserError>)
    ensures
        match res {
            Ok(metainfo) => spec_build_metainfo(dict.model()) == Ok::<
                SpecMetainfo,
                SpecMetainfoError,
            >(metainfo.model()) && metainfo.info.files is None && metainfo.info_hash@.len() == 20,
            Err(e) => spec_build_metainfo(dict.model()) == Err::<SpecMetainfo, SpecMetainfoError>(
                e.model(),
            ),
        },
{
    let info_bytes: Vec<u8> = vec![105u8, 110, 102, 111];
    let announce_bytes: Vec<u8> = vec![97u8, 110, 110, 111, 117, 110, 99, 101];
    assert(info_bytes@ =~= info_key());
    assert(announce_bytes@ =~= announce_key());

    let info_value = get_from_bencoded_values_hashmap(dict, info_bytes.as_slice(), "info")?;
    let info_dict = match info_value.get_as_dictionary() {
        Ok(d) => d,
        Err(e) => {
            return Err(MetainfoParserError::UnexpectedBencodeDecodedValue(e));
        },
    };
    let info = build_info(info_dict)?;
    let info_bytes = match encode(info_value) {
        Ok(b) => b,
        Err(e) => {
            return Err(MetainfoParserError::DecodeError(e));
        },
    };
    assert(info_bytes@ == spec_encode(info_value.model()));
    let info_hash = sha1_of(info_bytes.as_slice());
    let announce = bencode_decoded_bytes_to_string(dict, announce_bytes.as_slice(), "announce")?;
    Ok(Metainfo { info, info_hash, announce })
}

/// Builds the Info from the info dictionary of a torrent.
fn build_info(info: &BencodeDictionary) -> (res: Result<Info, MetainfoParserError>)
    ensures
        match res {
            Ok(built) => spec_build_info(info.model()) == Ok::<SpecInfo, SpecMetainfoError>(
                built.model(),
            ) && built.files is None,
            Err(e) => spec_build_info(info.model()) == Err::<SpecInfo, SpecMetainfoError>(
                e.model(),
            ),
        },
{
    let piece_length_bytes: Vec<u8> = vec![112u8, 105, 101, 99, 101, 32, 108, 101, 110, 103, 116, 104];
    let pieces_bytes: Vec<u8> = vec![112u8, 105, 101, 99, 101, 115];
    let name_bytes: Vec<u8> = vec![110u8, 97, 109, 101];
    let length_bytes: Vec<u8> = vec![108u8, 101, 110, 103, 116, 104];
    assert(piece_length_bytes@ =~= piece_length_key());
    assert(pieces_bytes@ =~= pieces_key());
    assert(name_bytes@ =~= name_key());
    assert(length_bytes@ =~= length_key());

    let piece_length = integer_from_hashmap(info, piece_length_bytes.as_slice(), "piece length")?;
    let pieces_value = get_from_bencoded_values_hashmap(info, pieces_bytes.as_slice(), "pieces")?;
    let pieces_bytes = match pieces_value.get_as_string() {
        Ok(s) => s,
        Err(e) => {
            return Err(MetainfoParserError::UnexpectedBencodeDecodedValue(e));
        },
    };
    let pieces = split_pieces(pieces_bytes.as_slice());
    let name = bencode_decoded_bytes_to_string(info, name_bytes.as_slice(), "name")?;
    let length = integer_from_hashmap(info, length_bytes.as_slice(), "length")?;
    let built = Info {
        piece_length: piece_length as u32,
        pieces,
        name,
        length: length as u64,
        files: None,
    };
    assert(built.model().pieces =~= split_piece_hashes(pieces_bytes@));
    Ok(built)
}

/// Cuts the concatenated piece hashes into hashes of 20 bytes, the last one shorter when
/// the length is not a multiple of 20.
fn split_pieces(bytes: &[u8]) -> (pieces: Vec<Vec<u8>>)
    ensures
        Seq::new(pieces.len() as nat, |i: int| pieces@[i]@) == split_piece_hashes(bytes@),
{
    let mut pieces: Vec<Vec<u8>> = Vec::new();
    let len = bytes.len();
    let count = len / PIECE_HASH_LENGTH + if len % PIECE_HASH_LENGTH == 0 { 0 } else { 1 };
    assert(count == (len + 19) / 20) by (nonlinear_arith)
        requires
            count == len / 20 + if len % 20 == 0 { 0int } else { 1int },
    ;
    while pieces.len() < count
        invariant
            len == bytes@.len(),
            count == (bytes@.len() + 19) / 20,
            pieces.len() <= count,
            forall|i: int| 0 <= i < pieces.len() ==> (#[trigger] pieces@[i])@ == bytes@.subrange(
                20 * i,
                piece_hash_end(bytes@, i),
            ),
        decreases count - pieces.len(),
    {
        let k = pieces.len();
        assert(20 * k < len) by (nonlinear_arith)
            requires
                k < count,
                count == (len + 19) / 20,
        ;
        let start = PIECE_HASH_LENGTH * k;
        let end = if len - start >= PIECE_HASH_LENGTH {
            start + PIECE_HASH_LENGTH
        } else {
            len
        };
        assert(end == piece_hash_end(bytes@, k as int));
        let piece = vstd::slice::slice_to_vec(&bytes[start..end]);
        pieces.push(piece);
    }
    assert(Seq::new(pieces.len() as nat, |i: int| pieces@[i]@) =~= split_piece_hashes(bytes@));
    pieces
}

/// Returns the Bencode-Decoded value associated with the key in the received dictionary.
fn get_from_bencoded_values_hashmap<'a>(dict: &'a BencodeDictionary, key: &[u8], name: &str) -> (res:
    Result<&'a BencodeDecodedValue, MetainfoParserError>)
    ensures
        match res {
            Ok(v) => lookup(dict.model(), key@, name@) == Ok::<SpecValue, SpecMetainfoError>(
                v.model(),
            ),
            Err(e) => lookup(dict.model(), key@, name@) == Err::<SpecValue, SpecMetainfoError>(
                e.model(),
            ),
        },
{
    match dict.get(key) {
        Some(v) => Ok(v),
        None => Err(MetainfoParserError::MetainfoKeyNotFound(name.to_owned())),
    }
}

/// Returns the integer associated with the key in the received dictionary.
fn integer_from_hashmap(dict: &BencodeDictionary, key: &[u8], name: &str) -> (res: Result<
    i64,
    MetainfoParserError,
>)
    ensures
        match res {
            Ok(n) => integer_at(dict.model(), key@, name@) == Ok::<int, SpecMetainfoError>(n as int),
            Err(e) => integer_at(dict.model(), key@, name@) == Err::<int, SpecMetainfoError>(
                e.model(),
            ),
        },
{
    let value = get_from_bencoded_values_hashmap(dict, key, name)?;
    match value.get_as_integer() {
        Ok(n) => Ok(*n),
        Err(e) => Err(MetainfoParserError::UnexpectedBencodeDecodedValue(e)),
    }
}

/// Returns a String decoded from the UTF-8 bytes associated with the key in the received
/// dictionary.
fn bencode_decoded_bytes_to_string(dict: &BencodeDictionary, key: &[u8], name: &str) -> (res:
    Result<String, MetainfoParserError>)
    ensures
        match res {
            Ok(s) => text_at(dict.model(), key@, name@) == Ok::<Seq<char>, SpecMetainfoError>(s@),
            Err(e) => text_at(dict.model(), key@, name@) == Err::<Seq<char>, SpecMetainfoError>(
                e.model(),
            ),
        },
{
    let value = get_from_bencoded_values_hashmap(dict, key, name)?;
    let bytes = match value.get_as_string() {
        Ok(b) => b,
        Err(e) => {
            return Err(MetainfoParserError::UnexpectedBencodeDecodedValue(e));
        },
    };
    match utf8_to_string(bytes.as_slice()) {
        Some(s) => Ok(s),
        None => Err(MetainfoParserError::UTF8Error),
    }
}

/// The text that UTF-8 `bytes` encode, if they are valid UTF-8.
///
/// Trusted: calls `std::str::from_utf8`, which accepts exactly the valid UTF-8 byte
/// sequences, and copies the text into a `String`.
#[verifier::external_body]
fn utf8_to_string(bytes: &[u8]) -> (res: Option<String>)
    ensures
        res is Some <==> valid_utf8(bytes@),
        res matches Some(s) ==> s@ == decode_utf8(bytes@),
{
    match std::str::from_utf8(bytes) {
        Ok(s) => Some(s.to_string()),
        Err(_) => None,
    }
}

} // verus!
