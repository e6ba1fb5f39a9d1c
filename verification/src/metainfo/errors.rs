use vstd::prelude::*;

use crate::bencode::errors::decoder_error_text;
use crate::bencode::BencodeDecoderError;
use vstd::string::StringExecFns;

verus! {

/// The error type that is returned if there's a problem parsing the Metainfo.
#[derive(Debug)]
pub enum MetainfoParserError {
    /// The torrent file could not be read.
    IoError(String),
    /// A necessary key was not found in the Bencode-Decoded Dictionary.
    MetainfoKeyNotFound(String),
    /// The bytes are not bencode.
    DecodeError(BencodeDecoderError),
    /// A value is not of the kind that the Metainfo needs there.
    UnexpectedBencodeDecodedValue(BencodeDecoderError),
    /// There was a problem parsing a byte array into a String from UTF-8.
    UTF8Error,
    /// A certain value in Info or Metainfo was invalid.
    ValidationError,
}

/// The mathematical model of a [`MetainfoParserError`].
pub enum SpecMetainfoError {
    Io(Seq<char>),
    KeyNotFound(Seq<char>),
    Decode(BencodeDecoderError),
    UnexpectedValue(BencodeDecoderError),
    Utf8,
    Validation,
}

impl MetainfoParserError {
    pub open spec fn model(self) -> SpecMetainfoError {
        match self {
            MetainfoParserError::IoError(s) => SpecMetainfoError::Io(s@),
            MetainfoParserError::MetainfoKeyNotFound(k) => SpecMetainfoError::KeyNotFound(k@),
            MetainfoParserError::DecodeError(e) => SpecMetainfoError::Decode(e),
            MetainfoParserError::UnexpectedBencodeDecodedValue(e) => SpecMetainfoError::UnexpectedValue(e),
            MetainfoParserError::UTF8Error => SpecMetainfoError::Utf8,
            MetainfoParserError::ValidationError => SpecMetainfoError::Validation,
        }
    }
}

/// The text that describes the error `e`, one line.
pub open spec fn metainfo_error_text(e: MetainfoParserError) -> Seq<char> {
    match e {
        MetainfoParserError::MetainfoKeyNotFound(key) => "Necessary key '"@ + key@
            + "' was not in Bencode-Decoded Dictionary\n"@,
        MetainfoParserError::UTF8Error => "Found that byte array was not UTF-8 encoded when parsing to String \n"@,
        MetainfoParserError::IoError(reason) => "IO error while reading the file: "@ + reason@
            + "\n"@,
        MetainfoParserError::DecodeError(error) => "Bencode error: "@ + decoder_error_text(error)
            + "\n"@,
        MetainfoParserError::UnexpectedBencodeDecodedValue(error) => "Bencode error: "@
            + decoder_error_text(error) + "\n"@,
        MetainfoParserError::ValidationError => "Validation error: A Metainfo or Info value was invalid\n"@,
    }
}

impl MetainfoParserError {
    /// The text that describes the error, one line.
    pub fn to_string(&self) -> (text: String)
        ensures
            text@ == metainfo_error_text(*self),
    {
        match self {
            MetainfoParserError::MetainfoKeyNotFound(key) => String::from_str("Necessary key '").concat(
                key.as_str(),
            ).concat("' was not in Bencode-Decoded Dictionary\n"),
            MetainfoParserError::UTF8Error => String::from_str(
                "Found that byte array was not UTF-8 encoded when parsing to String \n",
            ),
            MetainfoParserError::IoError(reason) => String::from_str(
                "IO error while reading the file: ",
            ).concat(reason.as_str()).concat("\n"),
            MetainfoParserError::DecodeError(error) => String::from_str("Bencode error: ").concat(
                error.to_string().as_str(),
            ).concat("\n"),
            MetainfoParserError::UnexpectedBencodeDecodedValue(error) => String::from_str(
                "Bencode error: ",
            ).concat(error.to_string().as_str()).concat("\n"),
            MetainfoParserError::ValidationError => String::from_str(
                "Validation error: A Metainfo or Info value was invalid\n",
            ),
        }
    }
}

} // verus!
