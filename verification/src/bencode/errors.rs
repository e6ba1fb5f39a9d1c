use vstd::prelude::*;

use crate::text::{char_to_text, decimal_text, u64_to_text};
use vstd::string::StringExecFns;

verus! {

/// The kind of a bencode value, as named in error reports.
#[derive(Debug, Clone, Copy, PartialEq, Eq)]
pub enum ValueKind {
    String,
    Integer,
    List,
    Dictionary,
    End,
}

/// Why a bencode value could not be decoded or read as a given kind.
///
/// Positions are byte offsets into the decoded input.
#[derive(Debug, Clone, Copy, PartialEq, Eq)]
pub enum BencodeDecoderError {
    /// The input ended where a value was to start (or a list or dictionary was not closed).
    UnexpectedEndOfStream,
    /// The input ended inside an integer.
    EndOfStreamInInteger,
    /// The input ended inside the length of a string.
    EndOfStreamInStringLength,
    /// The input ended before the bytes of a string.
    EndOfStreamInString,
    /// A value started with a byte that opens no bencode value.
    UnknownToken(u8, usize),
    /// A digit followed a leading zero inside an integer.
    UnexpectedZero(usize),
    /// A byte that is neither a digit, nor a leading minus, nor `e` inside an integer.
    InvalidIntegerByte(u8, usize),
    /// The integer does not fit in an `i64`; the position is that of the digit that overflowed.
    IntegerOverflow(usize),
    /// A byte that is neither a digit nor `:` inside a string length.
    InvalidStringLengthDigit(u8, usize),
    /// A dictionary key that is not a string.
    InvalidDictionaryKey(ValueKind),
    /// A value was read as the first kind, but it is of the second.
    WrongExpectedValue(ValueKind, ValueKind),
}

/// The name of a kind of value, as the debug text of a value of that kind starts.
pub open spec fn kind_name(kind: ValueKind) -> Seq<char> {
    match kind {
        ValueKind::String => "String"@,
        ValueKind::Integer => "Integer"@,
        ValueKind::List => "List"@,
        ValueKind::Dictionary => "Dictionary"@,
        ValueKind::End => "End"@,
    }
}

/// How an error names the kind of value it expected.
pub open spec fn expected_text(kind: ValueKind) -> Seq<char> {
    match kind {
        ValueKind::String => "Expected a string"@,
        ValueKind::Integer => "Expected an integer"@,
        ValueKind::List => "Expected a list"@,
        ValueKind::Dictionary => "Expected a dictionary"@,
        ValueKind::End => "Expected the end"@,
    }
}

/// The text that describes the error `e`.
pub open spec fn decoder_error_text(e: BencodeDecoderError) -> Seq<char> {
    "Bencode Decoder Error: "@ + match e {
        BencodeDecoderError::UnexpectedEndOfStream => "Unexpected end of stream"@,
        BencodeDecoderError::EndOfStreamInInteger => "Unexpected end of stream while reading integer"@,
        BencodeDecoderError::EndOfStreamInStringLength => "Unexpected end of stream while reading string length"@,
        BencodeDecoderError::EndOfStreamInString => "Unexpected end of stream while pushing bytes to string"@,
        BencodeDecoderError::UnknownToken(b, pos) => "Unknown token "@ + seq![b as char]
            + " at position "@ + decimal_text(pos as nat),
        BencodeDecoderError::UnexpectedZero(pos) => "Unexpected zero in integer at position "@
            + decimal_text(pos as nat),
        BencodeDecoderError::InvalidIntegerByte(b, pos) => "Invalid integer byte "@
            + decimal_text(b as nat) + " at position "@ + decimal_text(pos as nat),
        BencodeDecoderError::IntegerOverflow(pos) => "Integer overflow at position "@
            + decimal_text(pos as nat),
        BencodeDecoderError::InvalidStringLengthDigit(b, pos) => "Invalid string length digit "@
            + seq![b as char] + " at position "@ + decimal_text(pos as nat),
        BencodeDecoderError::InvalidDictionaryKey(kind) => "Invalid dictionary key "@ + kind_name(
            kind,
        ),
        BencodeDecoderError::WrongExpectedValue(expected, found) => expected_text(expected)
            + ", but got "@ + kind_name(found),
    }
}

impl ValueKind {
    /// The name of the kind.
    pub fn name(&self) -> (text: &'static str)
        ensures
            text@ == kind_name(*self),
    {
        match self {
            ValueKind::String => "String",
            ValueKind::Integer => "Integer",
            ValueKind::List => "List",
            ValueKind::Dictionary => "Dictionary",
            ValueKind::End => "End",
        }
    }

    /// How an error names this kind as the one it expected.
    pub fn expected(&self) -> (text: &'static str)
        ensures
            text@ == expected_text(*self),
    {
        match self {
            ValueKind::String => "Expected a string",
            ValueKind::Integer => "Expected an integer",
            ValueKind::List => "Expected a list",
            ValueKind::Dictionary => "Expected a dictionary",
            ValueKind::End => "Expected the end",
        }
    }
}

impl BencodeDecoderError {
    /// The text that describes the error: the byte offset where it was met, and the byte or
    /// the kinds of value it is about. A value's kind stands where a value would be shown.
    pub fn to_string(&self) -> (text: String)
        ensures
            text@ == decoder_error_text(*self),
    {
        let detail = match self {
            BencodeDecoderError::UnexpectedEndOfStream => String::from_str("Unexpected end of stream"),
            BencodeDecoderError::EndOfStreamInInteger => String::from_str(
                "Unexpected end of stream while reading integer",
            ),
            BencodeDecoderError::EndOfStreamInStringLength => String::from_str(
                "Unexpected end of stream while reading string length",
            ),
            BencodeDecoderError::EndOfStreamInString => String::from_str(
                "Unexpected end of stream while pushing bytes to string",
            ),
            BencodeDecoderError::UnknownToken(b, pos) => String::from_str("Unknown token ").concat(
                char_to_text(*b as char).as_str(),
            ).concat(" at position ").concat(u64_to_text(*pos as u64).as_str()),
            BencodeDecoderError::UnexpectedZero(pos) => String::from_str(
                "Unexpected zero in integer at position ",
            ).concat(u64_to_text(*pos as u64).as_str()),
            BencodeDecoderError::InvalidIntegerByte(b, pos) => String::from_str(
                "Invalid integer byte ",
            ).concat(u64_to_text(*b as u64).as_str()).concat(" at position ").concat(
                u64_to_text(*pos as u64).as_str(),
            ),
            BencodeDecoderError::IntegerOverflow(pos) => String::from_str(
                "Integer overflow at position ",
            ).concat(u64_to_text(*pos as u64).as_str()),
            BencodeDecoderError::InvalidStringLengthDigit(b, pos) => String::from_str(
                "Invalid string length digit ",
            ).concat(char_to_text(*b as char).as_str()).concat(" at position ").concat(
                u64_to_text(*pos as u64).as_str(),
            ),
            BencodeDecoderError::InvalidDictionaryKey(kind) => String::from_str(
                "Invalid dictionary key ",
            ).concat(kind.name()),
            BencodeDecoderError::WrongExpectedValue(expected, found) => String::from_str(
                expected.expected(),
            ).concat(", but got ").concat(found.name()),
        };
        String::from_str("Bencode Decoder Error: ").concat(detail.as_str())
    }
}

} // verus!
