pub mod sender;
pub mod types;
pub mod worker;

pub use sender::PieceSaverSender;
pub use types::{new_piece_saver, PieceSaverMessage};
pub use worker::PieceSaverWorker;
