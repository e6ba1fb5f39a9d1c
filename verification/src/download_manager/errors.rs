use vstd::prelude::*;

use crate::text::{decimal_text, u64_to_text};
use vstd::string::{to_string_from_display_ensures, StringExecFns};

use std::io;

verus! {

#[verifier::external_type_specification]
#[verifier::external_body]
pub struct ExIoError(io::Error);

/// Errors of saving pieces and making the target file.
#[derive(Debug)]
pub enum DownloadManagerError {
    IoError(io::Error),
    EmptyPieceError,
    CreateDirectoryError(String),
    CreateFileError(String),
    MissingPieceError(u32),
}

impl From<io::Error> for DownloadManagerError {
    fn from(error: io::Error) -> Self {
        DownloadManagerError::IoError(error)
    }
}

impl vstd::std_specs::convert::FromSpecImpl<io::Error> for DownloadManagerError {
    open spec fn obeys_from_spec() -> bool {
        true
    }

    open spec fn from_spec(error: io::Error) -> Self {
        DownloadManagerError::IoError(error)
    }
}


/// Whether `text` describes the error `e`.
pub open spec fn download_error_text(e: DownloadManagerError, text: Seq<char>) -> bool {
    match e {
        DownloadManagerError::IoError(error) => exists|s: String|
            to_string_from_display_ensures::<io::Error>(&error, s) && text == "IoError: "@ + s@,
        DownloadManagerError::EmptyPieceError => text == "Can't save piece with no data in disk"@,
        DownloadManagerError::CreateDirectoryError(path) => text == "Can't create directory: "@
            + path@,
        DownloadManagerError::CreateFileError(path) => text == "Can't create file: "@ + path@,
        DownloadManagerError::MissingPieceError(piece_no) => text == "File for piece "@
            + decimal_text(piece_no as nat) + " does not exist"@,
    }
}

impl DownloadManagerError {
    /// The text that describes the error.
    pub fn to_string(&self) -> (text: String)
        ensures
            download_error_text(*self, text@),
    {
        match self {
            DownloadManagerError::IoError(error) => {
                let s = error.to_string();
                String::from_str("IoError: ").concat(s.as_str())
            },
            DownloadManagerError::EmptyPieceError => {
                String::from_str("Can't save piece with no data in disk")
            },
            DownloadManagerError::CreateDirectoryError(path) => {
                String::from_str("Can't create directory: ").concat(path.as_str())
            },
            DownloadManagerError::CreateFileError(path) => {
                String::from_str("Can't create file: ").concat(path.as_str())
            },
            DownloadManagerError::MissingPieceError(piece_no) => {
                let number = u64_to_text(*piece_no as u64);
                String::from_str("File for piece ").concat(number.as_str()).concat(
                    " does not exist",
                )
            },
        }
    }
}

} // verus!
