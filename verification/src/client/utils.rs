use vstd::prelude::*;

use crate::peer::utils::{sha1_digest, sha1_of};
use vstd::string::StringSliceAdditionalSpecFns;

verus! {

/// The peer id of the client numbered `index`: the SHA-1 hash of the index's text.
pub fn peer_id_from_index(index: &str) -> (peer_id: [u8; 20])
    ensures
        peer_id@ == sha1_digest(index.spec_bytes()),
{
    let digest = sha1_of(index.as_bytes());
    let mut result = [0u8; 20];
    let mut i: usize = 0;
    while i < 20
        invariant
            i <= 20,
            digest@.len() == 20,
            result@.len() == 20,
            forall|j: int| 0 <= j < i ==> result@[j] == digest@[j],
        decreases 20 - i,
    {
        result[i] = digest[i];
        i += 1;
    }
    assert(result@ =~= digest@);
    result
}

} // verus!
