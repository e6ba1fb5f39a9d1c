pub mod info;
pub mod utils;

pub use info::ClientInfo;
pub use utils::peer_id_from_index;
