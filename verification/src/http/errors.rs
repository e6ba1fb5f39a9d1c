use vstd::prelude::*;

verus! {

/// An error of the HTTP(S) service, with its message.
#[derive(Debug)]
pub struct HttpsServiceError(pub String);

impl HttpsServiceError {
    /// The error's message.
    pub fn message(&self) -> (text: &str)
        ensures
            text@ == self.0@,
    {
        self.0.as_str()
    }
}

} // verus!
