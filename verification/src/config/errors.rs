use vstd::prelude::*;

use vstd::string::{to_string_from_display_ensures, StringExecFns};

use std::num::ParseIntError;

verus! {

#[verifier::external_type_specification]
#[verifier::external_body]
pub struct ExParseIntError(ParseIntError);

/// Errors that can occur when parsing the config file
#[derive(Debug, PartialEq)]
pub enum ConfigError {
    /// The port is not in range or a valid number
    InvalidPort(ParseIntError),
    /// The path is not valid or exists
    InvalidPath(String),
    /// there is a key missing in the config file
    MissingKey(String),
}


/// Whether `text` describes the config error `e`.
pub open spec fn config_error_text(e: ConfigError, text: Seq<char>) -> bool {
    match e {
        ConfigError::InvalidPort(error) => exists|s: String|
            to_string_from_display_ensures::<ParseIntError>(&error, s) && text == "Invalid port: "@
                + s@,
        ConfigError::InvalidPath(path) => text == path@ + " is not an existing directory"@,
        ConfigError::MissingKey(key) => text == "Missing key: "@ + key@,
    }
}

impl ConfigError {
    /// The text that describes the error.
    pub fn to_string(&self) -> (text: String)
        ensures
            config_error_text(*self, text@),
    {
        match self {
            ConfigError::InvalidPort(error) => {
                let s = error.to_string();
                String::from_str("Invalid port: ").concat(s.as_str())
            },
            ConfigError::InvalidPath(path) => {
                String::from_str(path.as_str()).concat(" is not an existing directory")
            },
            ConfigError::MissingKey(key) => String::from_str("Missing key: ").concat(key.as_str()),
        }
    }
}


impl From<ParseIntError> for ConfigError {
    fn from(error: ParseIntError) -> Self {
        ConfigError::InvalidPort(error)
    }
}

impl vstd::std_specs::convert::FromSpecImpl<ParseIntError> for ConfigError {
    open spec fn obeys_from_spec() -> bool {
        true
    }

    open spec fn from_spec(error: ParseIntError) -> Self {
        ConfigError::InvalidPort(error)
    }
}

} // verus!
