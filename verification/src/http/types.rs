use vstd::prelude::*;

use super::errors::HttpsServiceError;

verus! {

/// A service that answers GET requests.
pub trait IHttpService {
    /// The body of the answer to a GET request for `path` with `query_params`.
    fn get(&mut self, path: &str, query_params: &str) -> Result<Vec<u8>, HttpsServiceError>;
}

/// A service that answers every request with `read_bytes`.
pub struct MockHttpsService {
    pub read_bytes: Vec<u8>,
}

impl MockHttpsService {
    /// The answer to every request: a copy of `read_bytes`.
    pub fn answer(&self) -> (bytes: Vec<u8>)
        ensures
            bytes@ == self.read_bytes@,
    {
        vstd::slice::slice_to_vec(self.read_bytes.as_slice())
    }
}

impl IHttpService for MockHttpsService {
    /// Answers `read_bytes`, whatever was asked.
    fn get(&mut self, _path: &str, _query_params: &str) -> (res: Result<Vec<u8>, HttpsServiceError>)
        ensures
            res matches Ok(bytes) && bytes@ == old(self).read_bytes@,
            *final(self) == *old(self),
    {
        Ok(self.answer())
    }
}

} // verus!
