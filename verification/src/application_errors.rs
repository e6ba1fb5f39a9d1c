use vstd::prelude::*;

use crate::config::ConfigError;
use crate::http::HttpsServiceError;
use crate::logger::LoggerError;
use crate::metainfo::MetainfoParserError;
use crate::peer::PeerConnectionError;

verus! {

/// The error type that is returned by the application
/// Each error holds inside the error of the exact type
pub enum ApplicationError {
    ConfigError(ConfigError),
    MetainfoError(MetainfoParserError),
    HttpsServiceError(HttpsServiceError),
    LoggerError(LoggerError),
    JoinError(String),
    PeerConnectionError(PeerConnectionError),
}

impl From<ConfigError> for ApplicationError {
    fn from(error: ConfigError) -> Self {
        ApplicationError::ConfigError(error)
    }
}

impl vstd::std_specs::convert::FromSpecImpl<ConfigError> for ApplicationError {
    open spec fn obeys_from_spec() -> bool {
        true
    }

    open spec fn from_spec(error: ConfigError) -> Self {
        ApplicationError::ConfigError(error)
    }
}

impl From<MetainfoParserError> for ApplicationError {
    fn from(error: MetainfoParserError) -> Self {
        ApplicationError::MetainfoError(error)
    }
}

impl vstd::std_specs::convert::FromSpecImpl<MetainfoParserError> for ApplicationError {
    open spec fn obeys_from_spec() -> bool {
        true
    }

    open spec fn from_spec(error: MetainfoParserError) -> Self {
        ApplicationError::MetainfoError(error)
    }
}

impl From<HttpsServiceError> for ApplicationError {
    fn from(error: HttpsServiceError) -> Self {
        ApplicationError::HttpsServiceError(error)
    }
}

impl vstd::std_specs::convert::FromSpecImpl<HttpsServiceError> for ApplicationError {
    open spec fn obeys_from_spec() -> bool {
        true
    }

    open spec fn from_spec(error: HttpsServiceError) -> Self {
        ApplicationError::HttpsServiceError(error)
    }
}

impl From<LoggerError> for ApplicationError {
    fn from(error: LoggerError) -> Self {
        ApplicationError::LoggerError(error)
    }
}

impl vstd::std_specs::convert::FromSpecImpl<LoggerError> for ApplicationError {
    open spec fn obeys_from_spec() -> bool {
        true
    }

    open spec fn from_spec(error: LoggerError) -> Self {
        ApplicationError::LoggerError(error)
    }
}

impl From<PeerConnectionError> for ApplicationError {
    fn from(error: PeerConnectionError) -> Self {
        ApplicationError::PeerConnectionError(error)
    }
}

impl vstd::std_specs::convert::FromSpecImpl<PeerConnectionError> for ApplicationError {
    open spec fn obeys_from_spec() -> bool {
        true
    }

    open spec fn from_spec(error: PeerConnectionError) -> Self {
        ApplicationError::PeerConnectionError(error)
    }
}

} // verus!
