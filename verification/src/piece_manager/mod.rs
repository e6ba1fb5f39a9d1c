pub mod laws;
pub mod model;
pub mod sender;
pub mod table;
pub mod types;
pub mod worker;

pub use sender::PieceManagerSender;
pub use types::PieceManagerMessage;
pub use worker::{new_piece_manager, PieceManagerWorker};
