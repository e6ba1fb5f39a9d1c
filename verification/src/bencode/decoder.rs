use vstd::prelude::*;

use super::errors::BencodeDecoderError;
use super::spec::{
    digit_value, parse_dictionary, parse_integer, parse_list, parse_string, parse_value,
    spec_decode, SpecValue, DICTIONARY_START, DIGIT_ZERO, END_TOKEN, INTEGER_START, LIST_START,
    NEGATIVE_SIGN, STRING_SEPARATOR,
};
use super::types::{models, BencodeDecodedValue, BencodeDictionary};

verus! {

/// Decodes a bencoded byte slice into a [`BencodeDecodedValue`].
///
/// The value that starts at the first byte is decoded; bytes after it are not read.
/// Dictionaries come out with their keys in increasing order, a repeated key keeping the
/// value that came last.
pub fn decode(bytes: &[u8]) -> (res: Result<BencodeDecodedValue, BencodeDecoderError>)
    ensures
        match res {
            Ok(v) => spec_decode(bytes@) == Ok::<SpecValue, BencodeDecoderError>(v.model()),
            Err(e) => spec_decode(bytes@) == Err::<SpecValue, BencodeDecoderError>(e),
        },
{
    match decode_and_consume(bytes, 0) {
        Ok((value, _)) => Ok(value),
        Err(e) => Err(e),
    }
}

/// Decodes the value that starts at `pos`; returns it with the position just after it.
fn decode_and_consume(bytes: &[u8], pos: usize) -> (res: Result<
    (BencodeDecodedValue, usize),
    BencodeDecoderError,
>)
    requires
        pos <= bytes.len(),
    ensures
        match res {
            Ok((v, next)) => parse_value(bytes@, pos as int) == Ok::<
                (SpecValue, int),
                BencodeDecoderError,
            >((v.model(), next as int)) && pos < next <= bytes.len(),
            Err(e) => parse_value(bytes@, pos as int) == Err::<(SpecValue, int), BencodeDecoderError>(
                e,
            ),
        },
    decreases bytes.len() - pos, 0nat,
{
    if pos >= bytes.len() {
        return Err(BencodeDecoderError::UnexpectedEndOfStream);
    }
    let byte = bytes[pos];
    if byte == INTEGER_START {
        match read_integer(bytes, pos + 1) {
            Ok((n, next)) => Ok((BencodeDecodedValue::Integer(n), next)),
            Err(e) => Err(e),
        }
    } else if byte == LIST_START {
        match read_list(bytes, pos + 1) {
            Ok((items, next)) => Ok((BencodeDecodedValue::List(items), next)),
            Err(e) => Err(e),
        }
    } else if DIGIT_ZERO <= byte && byte <= DIGIT_ZERO + 9 {
        match read_string(bytes, pos + 1, byte) {
            Ok((string, next)) => Ok((BencodeDecodedValue::String(string), next)),
            Err(e) => Err(e),
        }
    } else if byte == DICTIONARY_START {
        match read_dictionary(bytes, pos + 1) {
            Ok((dictionary, next)) => Ok((BencodeDecodedValue::Dictionary(dictionary), next)),
            Err(e) => Err(e),
        }
    } else if byte == END_TOKEN {
        Ok((BencodeDecodedValue::End, pos + 1))
    } else {
        Err(BencodeDecoderError::UnknownToken(byte, pos))
    }
}

/// Reads the rest of an integer, after its `i`, up to and including the closing `e`.
fn read_integer(bytes: &[u8], pos: usize) -> (res: Result<(i64, usize), BencodeDecoderError>)
    requires
        pos <= bytes.len(),
    ensures
        match res {
            Ok((n, next)) => parse_integer(bytes@, pos as int, 0, false, true, false) == Ok::<
                (int, int),
                BencodeDecoderError,
            >((n as int, next as int)) && pos < next <= bytes.len(),
            Err(e) => parse_integer(bytes@, pos as int, 0, false, true, false) == Err::<
                (int, int),
                BencodeDecoderError,
            >(e),
        },
{
    let mut p = pos;
    let mut magnitude: i64 = 0;
    let mut negative = false;
    let mut first = true;
    let mut zero = false;
    loop
        invariant
            pos <= p <= bytes.len(),
            0 <= magnitude,
            parse_integer(bytes@, pos as int, 0, false, true, false) == parse_integer(
                bytes@,
                p as int,
                magnitude as int,
                negative,
                first,
                zero,
            ),
        decreases bytes.len() - p,
    {
        if p >= bytes.len() {
            return Err(BencodeDecoderError::EndOfStreamInInteger);
        }
        let byte = bytes[p];
        if byte == END_TOKEN {
            let n = if negative {
                -magnitude
            } else {
                magnitude
            };
            return Ok((n, p + 1));
        } else if byte == NEGATIVE_SIGN && first {
            negative = true;
            first = false;
        } else if byte == DIGIT_ZERO && first {
            first = false;
            zero = true;
        } else if DIGIT_ZERO <= byte && byte <= DIGIT_ZERO + 9 && !zero {
            let digit = (byte - DIGIT_ZERO) as i128;
            let next_magnitude = magnitude as i128 * 10 + digit;
            if next_magnitude > i64::MAX as i128 {
                return Err(BencodeDecoderError::IntegerOverflow(p));
            }
            magnitude = next_magnitude as i64;
            first = false;
        } else if DIGIT_ZERO <= byte && byte <= DIGIT_ZERO + 9 {
            return Err(BencodeDecoderError::UnexpectedZero(p));
        } else {
            return Err(BencodeDecoderError::InvalidIntegerByte(byte, p));
        }
        p = p + 1;
    }
}

/// Reads the rest of a string whose first length digit was `first_digit`: the other
/// length digits, the `:`, and as many bytes as the length says, and not one more (see
/// `lemma_read_string_takes_declared_length`).
fn read_string(bytes: &[u8], pos: usize, first_digit: u8) -> (res: Result<
    (Vec<u8>, usize),
    BencodeDecoderError,
>)
    requires
        pos <= bytes.len(),
        DIGIT_ZERO <= first_digit <= DIGIT_ZERO + 9,
    ensures
        match res {
            Ok((string, next)) => parse_string(bytes@, pos as int, digit_value(first_digit))
                == Ok::<(Seq<u8>, int), BencodeDecoderError>((string@, next as int)) && pos < next
                <= bytes.len(),
            Err(e) => parse_string(bytes@, pos as int, digit_value(first_digit)) == Err::<
                (Seq<u8>, int),
                BencodeDecoderError,
            >(e),
        },
{
    let mut p = pos;
    // The length read so far, while it is at most the input's length.
    let mut length: usize = (first_digit - DIGIT_ZERO) as usize;
    // Whether the length read so far exceeds the input's length.
    let mut too_long = false;
    let ghost mut spec_length: nat = digit_value(first_digit);
    loop
        invariant
            pos <= p <= bytes.len(),
            parse_string(bytes@, pos as int, digit_value(first_digit)) == parse_string(
                bytes@,
                p as int,
                spec_length,
            ),
            !too_long ==> length == spec_length,
            !too_long ==> length <= 9 || length <= bytes.len(),
            too_long ==> spec_length > bytes.len(),
        decreases bytes.len() - p,
    {
        if p >= bytes.len() {
            return Err(BencodeDecoderError::EndOfStreamInStringLength);
        }
        let byte = bytes[p];
        if byte == STRING_SEPARATOR {
            if too_long || length > bytes.len() - (p + 1) {
                return Err(BencodeDecoderError::EndOfStreamInString);
            }
            let start = p + 1;
            let end = start + length;
            let string = vstd::slice::slice_to_vec(&bytes[start..end]);
            return Ok((string, end));
        } else if DIGIT_ZERO <= byte && byte <= DIGIT_ZERO + 9 {
            let digit = (byte - DIGIT_ZERO) as u128;
            let ghost previous: nat = spec_length;
            proof {
                spec_length = spec_length * 10 + digit_value(byte);
            }
            if !too_long {
                let next_length = length as u128 * 10 + digit;
                if next_length > bytes.len() as u128 {
                    too_long = true;
                } else {
                    length = next_length as usize;
                }
            } else {
                assert(spec_length > bytes.len()) by (nonlinear_arith)
                    requires
                        spec_length >= 0,
                        spec_length == previous * 10 + digit_value(byte),
                        previous > bytes.len(),
                ;
            }
        } else {
            return Err(BencodeDecoderError::InvalidStringLengthDigit(byte, p));
        }
        p = p + 1;
    }
}

/// Reads the items of a list, after its `l`, up to and including the closing `e`.
fn read_list(bytes: &[u8], pos: usize) -> (res: Result<
    (Vec<BencodeDecodedValue>, usize),
    BencodeDecoderError,
>)
    requires
        pos <= bytes.len(),
    ensures
        match res {
            Ok((items, next)) => parse_list(bytes@, pos as int, Seq::empty()) == Ok::<
                (SpecValue, int),
                BencodeDecoderError,
            >((SpecValue::List(models(items@)), next as int)) && pos < next <= bytes.len(),
            Err(e) => parse_list(bytes@, pos as int, Seq::empty()) == Err::<
                (SpecValue, int),
                BencodeDecoderError,
            >(e),
        },
    decreases bytes.len() - pos, 1nat,
{
    let mut items: Vec<BencodeDecodedValue> = Vec::new();
    let mut p = pos;
    assert(models(items@) =~= Seq::<SpecValue>::empty());
    loop
        invariant
            pos <= p <= bytes.len(),
            parse_list(bytes@, pos as int, Seq::empty()) == parse_list(
                bytes@,
                p as int,
                models(items@),
            ),
        decreases bytes.len() - p,
    {
        match decode_and_consume(bytes, p) {
            Err(e) => {
                return Err(e);
            },
            Ok((item, next)) => {
                match item {
                    BencodeDecodedValue::End => {
                        return Ok((items, next));
                    },
                    _ => {
                        let ghost before = items@;
                        let ghost item_model = item.model();
                        items.push(item);
                        assert(models(items@) =~= models(before).push(item_model));
                        p = next;
                    },
                }
            },
        }
    }
}

/// Reads the entries of a dictionary, after its `d`, up to and including the closing `e`.
fn read_dictionary(bytes: &[u8], pos: usize) -> (res: Result<
    (BencodeDictionary, usize),
    BencodeDecoderError,
>)
    requires
        pos <= bytes.len(),
    ensures
        match res {
            Ok((dictionary, next)) => parse_dictionary(bytes@, pos as int, Seq::empty()) == Ok::<
                (SpecValue, int),
                BencodeDecoderError,
            >((SpecValue::Dict(dictionary.model()), next as int)) && pos < next <= bytes.len(),
            Err(e) => parse_dictionary(bytes@, pos as int, Seq::empty()) == Err::<
                (SpecValue, int),
                BencodeDecoderError,
            >(e),
        },
    decreases bytes.len() - pos, 1nat,
{
    let mut dictionary = BencodeDictionary::new();
    let mut p = pos;
    loop
        invariant
            pos <= p <= bytes.len(),
            parse_dictionary(bytes@, pos as int, Seq::empty()) == parse_dictionary(
                bytes@,
                p as int,
                dictionary.model(),
            ),
        decreases bytes.len() - p,
    {
        match decode_and_consume(bytes, p) {
            Err(e) => {
                return Err(e);
            },
            Ok((BencodeDecodedValue::End, next)) => {
                return Ok((dictionary, next));
            },
            Ok((BencodeDecodedValue::String(key), after_key)) => {
                match decode_and_consume(bytes, after_key) {
                    Err(e) => {
                        return Err(e);
                    },
                    Ok((value, next)) => {
                        dictionary.insert(key, value);
                        p = next;
                    },
                }
            },
            Ok((key, _)) => {
                return Err(BencodeDecoderError::InvalidDictionaryKey(key.kind()));
            },
        }
    }
}

} // verus!
