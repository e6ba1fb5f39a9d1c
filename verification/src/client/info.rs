use vstd::prelude::*;

use crate::config::Config;
use crate::metainfo::Metainfo;

verus! {

/// What the client needs to know to download a torrent: its peer id, its configuration,
/// and the torrent's metainfo.
#[derive(Clone)]
pub struct ClientInfo {
    pub peer_id: [u8; 20],
    pub config: Config,
    pub metainfo: Metainfo,
}

} // verus!
